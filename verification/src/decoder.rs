use vstd::prelude::*;
use crate::error::ExecutionError;

verus! {

/// The seven kinds of operation. Both brackets decode to `Jump`; the byte
/// itself tells them apart.
#[derive(Clone, Copy, Debug, PartialEq, Eq, Structural)]
pub enum Operations {
    /// `+`
    Add,
    /// `-`
    Subtract,
    /// `>`
    Increment,
    /// `<`
    Decrement,
    /// `[` and `]`
    Jump,
    /// `.`
    Output,
    /// `,`
    Input,
}

/// `+`: add one to the current cell.
pub const PLUS: u8 = 0x2b;

/// `-`: take one from the current cell.
pub const MINUS: u8 = 0x2d;

/// `>`: move the data pointer to the right.
pub const RIGHT: u8 = 0x3e;

/// `<`: move the data pointer to the left.
pub const LEFT: u8 = 0x3c;

/// `[`: jump forward past the matching `]` if the current cell is zero.
pub const OPEN: u8 = 0x5b;

/// `]`: jump back past the matching `[` if the current cell is not zero.
pub const CLOSE: u8 = 0x5d;

/// `.`: append the current cell to the output.
pub const DOT: u8 = 0x2e;

/// `,`: store the next input byte in the current cell.
pub const COMMA: u8 = 0x2c;

/// The operation that an instruction byte stands for, if it stands for one.
pub open spec fn operation_of(instruction: u8) -> Option<Operations> {
    if instruction == PLUS {
        Some(Operations::Add)
    } else if instruction == MINUS {
        Some(Operations::Subtract)
    } else if instruction == RIGHT {
        Some(Operations::Increment)
    } else if instruction == LEFT {
        Some(Operations::Decrement)
    } else if instruction == OPEN || instruction == CLOSE {
        Some(Operations::Jump)
    } else if instruction == DOT {
        Some(Operations::Output)
    } else if instruction == COMMA {
        Some(Operations::Input)
    } else {
        None
    }
}

/// Decodes the instruction byte found at `position` of a program.
///
/// Every byte of the alphabet `+ - > < [ ] . ,` decodes; any other byte is
/// reported together with the position it was found at.
pub fn decode(instruction: u8, position: usize) -> (r: Result<Operations, ExecutionError>)
    ensures
        r == match operation_of(instruction) {
            Some(op) => Ok::<Operations, ExecutionError>(op),
            None => Err(ExecutionError::InvalidInstruction(instruction, position)),
        },
{
    if instruction == PLUS {
        Ok(Operations::Add)
    } else if instruction == MINUS {
        Ok(Operations::Subtract)
    } else if instruction == RIGHT {
        Ok(Operations::Increment)
    } else if instruction == LEFT {
        Ok(Operations::Decrement)
    } else if instruction == OPEN || instruction == CLOSE {
        Ok(Operations::Jump)
    } else if instruction == DOT {
        Ok(Operations::Output)
    } else if instruction == COMMA {
        Ok(Operations::Input)
    } else {
        Err(ExecutionError::InvalidInstruction(instruction, position))
    }
}

} // verus!
