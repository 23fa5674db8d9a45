use rustack::parser::parse_batch;
use rustack::Error;

#[test]
fn test_undefined_operation() {
    assert_eq!(parse_batch("foo"), Err(Error::Undefined));
}

#[test]
fn test_stack_underflow() {
    assert_eq!(parse_batch("+"), Err(Error::StackUnderflow));
}

#[test]
fn test_type_mismatch_in_arithmetic() {
    assert_eq!(parse_batch("1 { 2 } +"), Err(Error::TypeMismatch));
}

#[test]
fn test_type_mismatch_in_conditional() {
    assert_eq!(parse_batch("1 2 3 if"), Err(Error::TypeMismatch));
}

#[test]
fn test_unbalanced_block_close() {
    assert_eq!(parse_batch("}"), Err(Error::UnbalancedBlockClose));
}

#[test]
fn test_division_by_zero() {
    assert_eq!(parse_batch("1 0 /"), Err(Error::DivisionByZero));
}

#[test]
fn test_unbounded_self_reference_hits_the_depth_limit() {
    assert_eq!(parse_batch("/f { f } def f"), Err(Error::DepthLimit));
}

#[test]
fn test_bare_marker_is_an_operator() {
    // A lone marker character has an empty remainder, so it is no
    // symbol: it resolves to the division builtin and underflows.
    assert_eq!(parse_batch("/"), Err(Error::StackUnderflow));
}

#[test]
fn test_oversized_literal_is_a_bare_word() {
    // One past the largest 32-bit value: not a numeric literal, so it
    // is an operator name, and an unbound one.
    assert_eq!(parse_batch("2147483648"), Err(Error::Undefined));
}
