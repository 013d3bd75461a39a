use bf_machine::decoder::{decode, Operations, CLOSE, COMMA, DOT, LEFT, MINUS, OPEN, PLUS, RIGHT};
use bf_machine::error::ExecutionError;

#[test]
fn decode_knows_the_eight_symbols() {
    assert_eq!(decode(b'+', 0), Ok(Operations::Add));
    assert_eq!(decode(b'-', 1), Ok(Operations::Subtract));
    assert_eq!(decode(b'>', 2), Ok(Operations::Increment));
    assert_eq!(decode(b'<', 3), Ok(Operations::Decrement));
    assert_eq!(decode(b'[', 4), Ok(Operations::Jump));
    assert_eq!(decode(b']', 5), Ok(Operations::Jump));
    assert_eq!(decode(b'.', 6), Ok(Operations::Output));
    assert_eq!(decode(b',', 7), Ok(Operations::Input));
}

#[test]
fn symbol_constants_are_the_ascii_codes() {
    assert_eq!(PLUS, b'+');
    assert_eq!(MINUS, b'-');
    assert_eq!(RIGHT, b'>');
    assert_eq!(LEFT, b'<');
    assert_eq!(OPEN, b'[');
    assert_eq!(CLOSE, b']');
    assert_eq!(DOT, b'.');
    assert_eq!(COMMA, b',');
}

#[test]
fn decode_reports_byte_and_position() {
    assert_eq!(decode(b'a', 17), Err(ExecutionError::InvalidInstruction(b'a', 17)));
    assert_eq!(decode(0, 0), Err(ExecutionError::InvalidInstruction(0, 0)));
    assert_eq!(decode(255, usize::MAX), Err(ExecutionError::InvalidInstruction(255, usize::MAX)));
}

#[test]
fn decode_is_total_over_all_bytes() {
    let mut legal = 0;
    for byte in 0..=255u8 {
        match decode(byte, 9) {
            Ok(_) => {
                assert!(b"+-<>.,[]".contains(&byte));
                legal += 1;
            }
            Err(e) => {
                assert!(!b"+-<>.,[]".contains(&byte));
                assert_eq!(e, ExecutionError::InvalidInstruction(byte, 9));
            }
        }
    }
    assert_eq!(legal, 8);
}
