//! Decimal numbers as text.

use tessera::text::{push_decimal, push_padded_4};
use tessera::TesseraError;

#[test]
fn numbers_are_written_in_decimal() {
    for n in [0u64, 7, 10, 99, 100, 12345, u64::MAX] {
        let mut s = String::from("n=");
        push_decimal(&mut s, n);
        assert_eq!(s, format!("n={n}"));
        let mut p = String::new();
        push_padded_4(&mut p, n);
        assert_eq!(p, format!("{n:04}"));
    }
}

#[test]
fn errors_describe_themselves() {
    assert_eq!(
        TesseraError::UnknownBlock(3).to_string(),
        "unknown block id: 3"
    );
    assert_eq!(
        TesseraError::InvalidConfig("x".to_string()).to_string(),
        "invalid configuration: x"
    );
    assert_eq!(
        TesseraError::OutOfBlocks { used: 1, total: 2 }.to_string(),
        "out of MLA blocks (used=1, total=2)"
    );
}
