use rustack::parser::dispatch::parse_word;
use rustack::parser::{parse, parse_batch, parse_block};
use rustack::Value::{Block, Num, Op};
use rustack::Vm;

#[test]
fn test_group() {
    let mut vm = Vm::new();
    let _ = parse("1 2 + { 3 4 }", &mut vm);
    assert_eq!(vm.stack, vec![Num(3), Block(vec![Num(3), Num(4)])]);
}

#[test]
fn test_if_true() {
    let mut vm = Vm::new();
    let _ = parse("{ 1 1 + } { 100 } { -100 } if", &mut vm);
    assert_eq!(vm.stack, vec![Num(100)],)
}

#[test]
fn test_parse_block() {
    let input = "1 1 + }";
    let words: Vec<_> = input.split(" ").collect();
    let (res, _) = parse_block(&words);
    assert_eq!(res, Block(vec![Num(1), Num(1), Op("+".to_owned())]),)
}

#[test]
fn core_test_group() {
    let stack = parse_batch("1 2 + { 3 4 }").unwrap();
    assert_eq!(stack, vec![Num(3), Block(vec![Num(3), Num(4)])]);
}

#[test]
fn core_test_if_true() {
    let stack = parse_batch("{ 1 1 + } { 100 } { -100 } if").unwrap();
    assert_eq!(stack, vec![Num(100)]);
}

#[test]
fn test_function() {
    let stack = parse_batch("10 /square { dup * } def square").unwrap();
    assert_eq!(stack, vec![Num(100)]);
}

#[test]
fn test_nested_block() {
    let res = parse_batch("{ { 1 } }").unwrap();
    assert_eq!(res, vec![Block(vec![Block(vec![Num(1)])])])
}

#[test]
fn test_literal_capture_is_not_executed() {
    let res = parse_batch("{ 1 1 + }").unwrap();
    assert_eq!(res, vec![Block(vec![Num(1), Num(1), Op("+".to_owned())])]);
}

#[test]
fn test_if_false() {
    let stack = parse_batch("{ 0 } { 100 } { -100 } if").unwrap();
    assert_eq!(stack, vec![Num(-100)]);
}

#[test]
fn test_square_binding() {
    let stack = parse_batch("/square { dup * } def 5 square").unwrap();
    assert_eq!(stack, vec![Num(25)]);
}

#[test]
fn test_def_pop_order() {
    let stack = parse_batch("/x 10 def x").unwrap();
    assert_eq!(stack, vec![Num(10)]);
}

#[test]
fn test_def_overwrites() {
    let stack = parse_batch("/x 1 def /x 2 def x").unwrap();
    assert_eq!(stack, vec![Num(2)]);
}

#[test]
fn test_words_split_across_lines() {
    let stack = parse_batch("1 2\n+").unwrap();
    assert_eq!(stack, vec![Num(3)]);
}

#[test]
fn test_capture_continues_across_lines() {
    let mut vm = Vm::new();
    let _ = parse("{ 1", &mut vm);
    let _ = parse("2 }", &mut vm);
    assert_eq!(vm.stack, vec![Block(vec![Num(1), Num(2)])]);
}

#[test]
fn test_empty_words_are_skipped() {
    let mut vm = Vm::new();
    let _ = parse("1  2", &mut vm);
    assert_eq!(vm.stack, vec![Num(1), Num(2)]);
}

#[test]
fn test_parse_word_pushes_a_literal() {
    let mut vm = Vm::new();
    let _ = parse_word("5", &mut vm);
    assert_eq!(vm.stack, vec![Num(5)]);
}

#[test]
fn test_int_literal_edges() {
    let stack = parse_batch("2147483647 -2147483648 +41").unwrap();
    assert_eq!(stack, vec![Num(i32::MAX), Num(i32::MIN), Num(41)]);
}

#[test]
fn test_comparison_pushes_one_or_zero() {
    let stack = parse_batch("1 2 < 2 1 <").unwrap();
    assert_eq!(stack, vec![Num(1), Num(0)]);
}

#[test]
fn test_swap_through_the_tokenizer() {
    let stack = parse_batch("10 20 swap").unwrap();
    assert_eq!(stack, vec![Num(20), Num(10)]);
}

#[test]
fn test_parse_block_nested_words() {
    let input = "1 { 2 3 } } 4";
    let words: Vec<_> = input.split(" ").collect();
    let (res, rest) = parse_block(&words);
    assert_eq!(res, Block(vec![Num(1), Block(vec![Num(2), Num(3)])]));
    assert_eq!(rest, &["4"]);
}

#[test]
fn test_parse_block_implicit_close_at_end() {
    let words: Vec<&str> = vec!["1", "{", "2"];
    let (res, rest) = parse_block(&words);
    assert_eq!(res, Block(vec![Num(1), Block(vec![Num(2)])]));
    assert!(rest.is_empty());
}
