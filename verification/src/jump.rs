use vstd::prelude::*;
use crate::decoder::{CLOSE, OPEN};
use crate::error::ExecutionError;

verus! {

/// What a byte adds to the nesting depth: `[` opens a level, `]` closes one.
pub open spec fn weight(byte: u8) -> int {
    if byte == OPEN {
        1
    } else if byte == CLOSE {
        -1
    } else {
        0
    }
}

/// The number of `[` minus the number of `]` among `code[from..to]`.
pub open spec fn nesting(code: Seq<u8>, from: int, to: int) -> int
    decreases to - from,
{
    if to <= from {
        0
    } else {
        nesting(code, from, to - 1) + weight(code[to - 1])
    }
}

/// `close` is where a scan to the right from `open` first finds one more `]`
/// than `[`: the partner of a `[` at `open`.
pub open spec fn closes(code: Seq<u8>, open: int, close: int) -> bool {
    &&& 0 <= open < close < code.len()
    &&& nesting(code, open + 1, close + 1) == -1
    &&& forall|k: int| open < k <= close ==> #[trigger] nesting(code, open + 1, k) >= 0
}

/// `open` is where a scan to the left from `close` first finds one more `[`
/// than `]`: the partner of a `]` at `close`.
pub open spec fn opens(code: Seq<u8>, close: int, open: int) -> bool {
    &&& 0 <= open < close < code.len()
    &&& nesting(code, open, close) == 1
    &&& forall|k: int| open < k < close ==> #[trigger] nesting(code, k, close) <= 0
}

/// The position that closes `open`, where there is one.
pub open spec fn closing_partner(code: Seq<u8>, open: int) -> Option<int> {
    if exists|close: int| closes(code, open, close) {
        Some(choose|close: int| closes(code, open, close))
    } else {
        None
    }
}

/// The position that opens `close`, where there is one.
pub open spec fn opening_partner(code: Seq<u8>, close: int) -> Option<int> {
    if exists|open: int| opens(code, close, open) {
        Some(choose|open: int| opens(code, close, open))
    } else {
        None
    }
}

/// `[` jumps forward on a cell that holds zero.
pub open spec fn jumps_forward(indicator: u8, value: u8) -> bool {
    indicator == OPEN && value == 0
}

/// `]` jumps backward on a cell that does not hold zero.
pub open spec fn jumps_backward(indicator: u8, value: u8) -> bool {
    indicator == CLOSE && value != 0
}

/// Where the instruction pointer stands after the bracket `indicator` at
/// `current_index` was met on a cell holding `value`: on the partner if the
/// jump is taken, on `current_index` if it is not, nowhere if the jump is taken
/// and there is no partner.
pub open spec fn jump_target(indicator: u8, value: u8, current_index: int, code: Seq<u8>) -> Option<int> {
    if jumps_forward(indicator, value) {
        closing_partner(code, current_index)
    } else if jumps_backward(indicator, value) {
        opening_partner(code, current_index)
    } else {
        Some(current_index)
    }
}

/// Splitting a range splits its nesting.
pub proof fn lemma_nesting_split(code: Seq<u8>, from: int, mid: int, to: int)
    requires
        from <= mid <= to,
    ensures
        nesting(code, from, to) == nesting(code, from, mid) + nesting(code, mid, to),
    decreases to - mid,
{
    if mid < to {
        lemma_nesting_split(code, from, mid, to - 1);
    }
}

/// A range's nesting is its first byte's weight plus the nesting of the rest.
pub proof fn lemma_nesting_first(code: Seq<u8>, from: int, to: int)
    requires
        from < to,
    ensures
        nesting(code, from, to) == weight(code[from]) + nesting(code, from + 1, to),
{
    lemma_nesting_split(code, from, from + 1, to);
    assert(nesting(code, from, from + 1) == nesting(code, from, from) + weight(code[from]));
}

/// No position has two closing partners.
pub proof fn lemma_closes_unique(code: Seq<u8>, open: int, first: int, second: int)
    requires
        closes(code, open, first),
        closes(code, open, second),
    ensures
        first == second,
{
}

/// No position has two opening partners.
pub proof fn lemma_opens_unique(code: Seq<u8>, close: int, first: int, second: int)
    requires
        opens(code, close, first),
        opens(code, close, second),
    ensures
        first == second,
{
}

/// A closing partner is a `]`.
pub proof fn lemma_closing_partner_is_close(code: Seq<u8>, open: int, close: int)
    requires
        closes(code, open, close),
    ensures
        code[close] == CLOSE,
        nesting(code, open + 1, close) == 0,
{
}

/// An opening partner is a `[`.
pub proof fn lemma_opening_partner_is_open(code: Seq<u8>, close: int, open: int)
    requires
        opens(code, close, open),
    ensures
        code[open] == OPEN,
        nesting(code, open + 1, close) == 0,
{
    lemma_nesting_first(code, open, close);
}

/// The `]` that closes a `[` is opened by that `[`.
pub proof fn lemma_closed_is_opened(code: Seq<u8>, open: int, close: int)
    requires
        closes(code, open, close),
        code[open] == OPEN,
    ensures
        opens(code, close, open),
        code[close] == CLOSE,
{
    lemma_closing_partner_is_close(code, open, close);
    lemma_nesting_first(code, open, close);
    assert forall|k: int| open < k < close implies #[trigger] nesting(code, k, close) <= 0 by {
        lemma_nesting_split(code, open + 1, k, close);
    }
}

/// The `[` that opens a `]` is closed by that `]`.
pub proof fn lemma_opened_is_closed(code: Seq<u8>, close: int, open: int)
    requires
        opens(code, close, open),
        code[close] == CLOSE,
    ensures
        closes(code, open, close),
        code[open] == OPEN,
{
    lemma_opening_partner_is_open(code, close, open);
    assert forall|k: int| open < k <= close implies #[trigger] nesting(code, open + 1, k)
        >= 0 by {
        lemma_nesting_split(code, open + 1, k, close);
    }
}

/// Bracket symmetry: where the jump forward from a `[` at `position` on a
/// zero cell lands on `target`, there is a `]` at `target`, and the jump back
/// from it on a nonzero cell lands on `position` again.
pub proof fn lemma_jump_forward_then_back(code: Seq<u8>, position: int, target: int, value: u8)
    requires
        0 <= position < code.len(),
        code[position] == OPEN,
        jump_target(OPEN, 0, position, code) == Some(target),
        value != 0,
    ensures
        position < target < code.len(),
        code[target] == CLOSE,
        jump_target(CLOSE, value, target, code) == Some(position),
{
    lemma_closed_is_opened(code, position, target);
    let chosen = choose|open: int| opens(code, target, open);
    lemma_opens_unique(code, target, position, chosen);
}

/// Bracket symmetry, the other way round: where the jump back from a `]` at
/// `position` on a nonzero cell lands on `target`, there is a `[` at `target`,
/// and the jump forward from it on a zero cell lands on `position` again.
pub proof fn lemma_jump_back_then_forward(code: Seq<u8>, position: int, target: int, value: u8)
    requires
        0 <= position < code.len(),
        code[position] == CLOSE,
        value != 0,
        jump_target(CLOSE, value, position, code) == Some(target),
    ensures
        0 <= target < position,
        code[target] == OPEN,
        jump_target(OPEN, 0, target, code) == Some(position),
{
    lemma_opened_is_closed(code, position, target);
    let chosen = choose|close: int| closes(code, target, close);
    lemma_closes_unique(code, target, position, chosen);
}

/// A jump that is not taken leaves the position as it is.
pub proof fn lemma_jump_not_taken(indicator: u8, value: u8, position: int, code: Seq<u8>)
    requires
        !jumps_forward(indicator, value),
        !jumps_backward(indicator, value),
    ensures
        jump_target(indicator, value, position, code) == Some(position),
{
}

/// The brackets of `code` are balanced: no prefix closes more than it opens,
/// and the whole closes all that it opens.
pub open spec fn balanced(code: Seq<u8>) -> bool {
    &&& nesting(code, 0, code.len() as int) == 0
    &&& forall|k: int| 0 <= k <= code.len() ==> #[trigger] nesting(code, 0, k) >= 0
}

/// Searching to the right of `open` from `reached` finds a closing partner,
/// if the scan has not gone below zero so far and the rest of the code does.
proof fn lemma_find_close(code: Seq<u8>, open: int, reached: int)
    requires
        0 <= open <= reached < code.len(),
        nesting(code, open + 1, code.len() as int) < 0,
        forall|k: int| open < k <= reached + 1 ==> #[trigger] nesting(code, open + 1, k) >= 0,
    ensures
        exists|close: int| closes(code, open, close),
    decreases code.len() - reached,
{
    assert(nesting(code, open + 1, reached + 1) >= 0);
    if reached + 1 < code.len() {
        if nesting(code, open + 1, reached + 2) < 0 {
            assert(closes(code, open, reached + 1));
        } else {
            lemma_find_close(code, open, reached + 1);
        }
    }
}

/// Searching to the left of `close` from `reached` finds an opening partner,
/// if the scan has not gone above zero so far and the rest of the code does.
proof fn lemma_find_open(code: Seq<u8>, close: int, reached: int)
    requires
        0 <= reached <= close < code.len(),
        nesting(code, 0, close) > 0,
        forall|k: int| reached <= k < close ==> #[trigger] nesting(code, k, close) <= 0,
    ensures
        exists|open: int| opens(code, close, open),
    decreases reached,
{
    if reached > 0 {
        lemma_nesting_first(code, reached - 1, close);
        if nesting(code, reached - 1, close) > 0 {
            assert(opens(code, close, reached - 1));
        } else {
            lemma_find_open(code, close, reached - 1);
        }
    }
}

/// In balanced code every `[` has a closing partner and every `]` an opening
/// one, so no jump from a bracket of the code fails.
pub proof fn lemma_balanced_has_partners(code: Seq<u8>, position: int, value: u8)
    requires
        balanced(code),
        0 <= position < code.len(),
    ensures
        code[position] == OPEN ==> closing_partner(code, position).is_some(),
        code[position] == CLOSE ==> opening_partner(code, position).is_some(),
        jump_target(code[position], value, position, code).is_some(),
{
    let length = code.len() as int;
    if code[position] == OPEN {
        lemma_nesting_split(code, 0, position + 1, length);
        lemma_find_close(code, position, position);
    }
    if code[position] == CLOSE {
        assert(nesting(code, 0, position + 1) >= 0);
        lemma_find_open(code, position, position);
    }
}

/// Scans to the right of `current_index` for its closing partner.
fn scan_forward(current_index: usize, code: &[u8]) -> (found: Option<usize>)
    ensures
        match found {
            Some(close) => closing_partner(code@, current_index as int) == Some(close as int),
            None => closing_partner(code@, current_index as int).is_none(),
        },
{
    let length: usize = code.len();
    let ghost start: int = current_index as int;
    if current_index >= length {
        return None;
    }
    let mut index: usize = current_index;
    let mut balance: usize = 1;
    while balance != 0
        invariant
            length == code.len(),
            start == current_index,
            current_index <= index < length,
            balance == 1 + nesting(code@, start + 1, index + 1),
            balance <= index - current_index + 1,
            forall|k: int| start < k <= index ==> #[trigger] nesting(code@, start + 1, k) >= 0,
        decreases length - index,
    {
        if index == length - 1 {
            assert(forall|close: int| !closes(code@, start, close));
            return None;
        }
        index = index + 1;
        if code[index] == CLOSE {
            balance = balance - 1;
        } else if code[index] == OPEN {
            balance = balance + 1;
        }
    }
    proof {
        let chosen = choose|close: int| closes(code@, start, close);
        lemma_closes_unique(code@, start, index as int, chosen);
    }
    Some(index)
}

/// Scans to the left of `current_index` for its opening partner.
fn scan_backward(current_index: usize, code: &[u8]) -> (found: Option<usize>)
    ensures
        match found {
            Some(open) => opening_partner(code@, current_index as int) == Some(open as int),
            None => opening_partner(code@, current_index as int).is_none(),
        },
{
    let length: usize = code.len();
    let ghost start: int = current_index as int;
    if current_index >= length {
        return None;
    }
    let mut index: usize = current_index;
    let mut balance: usize = 1;
    while balance != 0
        invariant
            length == code.len(),
            start == current_index,
            index <= current_index < length,
            balance == 1 - nesting(code@, index as int, start),
            balance <= current_index - index + 1,
            forall|k: int| index < k < start ==> #[trigger] nesting(code@, k, start) <= 0,
        decreases index,
    {
        if index == 0 {
            assert(forall|open: int| !opens(code@, start, open));
            return None;
        }
        index = index - 1;
        proof {
            lemma_nesting_first(code@, index as int, start);
        }
        if code[index] == OPEN {
            balance = balance - 1;
        } else if code[index] == CLOSE {
            balance = balance + 1;
        }
    }
    proof {
        let chosen = choose|open: int| opens(code@, start, open);
        lemma_opens_unique(code@, start, index as int, chosen);
    }
    Some(index)
}

/// Resolves the bracket `indicator` met at `current_index` on a cell holding
/// `value`.
///
/// `[` on a zero cell moves to the `]` that closes it, `]` on a nonzero cell
/// moves back to the `[` that opens it, anything else stays where it is. A
/// jump that is taken from a bracket without a partner is an error, which
/// carries the bracket's position.
pub fn jump(indicator: u8, value: u8, current_index: usize, code: &[u8]) -> (r: Result<
    usize,
    ExecutionError,
>)
    ensures
        match r {
            Ok(target) => jump_target(indicator, value, current_index as int, code@) == Some(
                target as int,
            ),
            Err(e) => jump_target(indicator, value, current_index as int, code@).is_none() && e
                == ExecutionError::BracketMismatch(current_index),
        },
{
    let found: Option<usize> = if indicator == OPEN && value == 0 {
        scan_forward(current_index, code)
    } else if indicator == CLOSE && value != 0 {
        scan_backward(current_index, code)
    } else {
        Some(current_index)
    };
    match found {
        Some(target) => Ok(target),
        None => Err(ExecutionError::BracketMismatch(current_index)),
    }
}

} // verus!
