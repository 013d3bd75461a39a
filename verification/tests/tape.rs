use bf_machine::tape::{add, decrement, increment, subtract, Tape};

#[test]
fn add_wraps_from_255_to_0() {
    let mut cells = vec![255u8, 7];
    add(0, &mut cells);
    assert_eq!(cells, vec![0, 7]);
    add(1, &mut cells);
    assert_eq!(cells, vec![0, 8]);
}

#[test]
fn subtract_wraps_from_0_to_255() {
    let mut cells = vec![0u8, 7];
    subtract(0, &mut cells);
    assert_eq!(cells, vec![255, 7]);
    subtract(1, &mut cells);
    assert_eq!(cells, vec![255, 6]);
}

#[test]
fn add_then_subtract_restores_every_value() {
    for value in 0..=255u8 {
        let mut cells = vec![value];
        add(0, &mut cells);
        subtract(0, &mut cells);
        assert_eq!(cells, vec![value]);
    }
}

#[test]
fn increment_wraps_from_last_to_first() {
    assert_eq!(increment(299, 300), 0);
    assert_eq!(increment(0, 300), 1);
    assert_eq!(increment(298, 300), 299);
    assert_eq!(increment(0, 1), 0);
}

#[test]
fn decrement_wraps_from_first_to_last() {
    assert_eq!(decrement(0, 300), 299);
    assert_eq!(decrement(299, 300), 298);
    assert_eq!(decrement(1, 300), 0);
    assert_eq!(decrement(0, 1), 0);
}

#[test]
fn moves_reduce_an_index_beyond_the_circle() {
    assert_eq!(increment(7, 5), 3);
    assert_eq!(increment(usize::MAX, 5), (usize::MAX % 5 + 1) % 5);
    assert_eq!(decrement(7, 5), 1);
    assert_eq!(decrement(5, 5), 4);
}

#[test]
fn moves_undo_each_other() {
    for length in 1..6usize {
        for current in 0..length {
            assert_eq!(decrement(increment(current, length), length), current);
            assert_eq!(increment(decrement(current, length), length), current);
        }
    }
}

#[test]
fn fresh_tape_is_zeroed() {
    let mut tape = Tape::new(4);
    assert_eq!(tape.len(), 4);
    assert_eq!(tape.pointer(), 0);
    for _ in 0..4 {
        assert_eq!(tape.read_cell(), 0);
        tape.move_right();
    }
    assert_eq!(tape.pointer(), 0);
}

#[test]
fn tape_cell_wraps() {
    let mut tape = Tape::new(2);
    tape.decrement_cell();
    assert_eq!(tape.read_cell(), 255);
    tape.increment_cell();
    assert_eq!(tape.read_cell(), 0);
    tape.write_cell(255);
    tape.increment_cell();
    assert_eq!(tape.read_cell(), 0);
}

#[test]
fn tape_pointer_wraps() {
    let mut tape = Tape::new(3);
    tape.move_left();
    assert_eq!(tape.pointer(), 2);
    tape.move_right();
    assert_eq!(tape.pointer(), 0);
    tape.move_right();
    tape.move_right();
    assert_eq!(tape.pointer(), 2);
    tape.move_right();
    assert_eq!(tape.pointer(), 0);
}

#[test]
fn tape_writes_only_the_current_cell() {
    let mut tape = Tape::new(3);
    tape.write_cell(9);
    tape.move_right();
    tape.write_cell(11);
    assert_eq!(tape.read_cell(), 11);
    tape.move_left();
    assert_eq!(tape.read_cell(), 9);
    tape.move_left();
    assert_eq!(tape.read_cell(), 0);
    assert_eq!(tape.len(), 3);
}
