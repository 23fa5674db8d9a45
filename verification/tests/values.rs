use rustack::parser::parse;
use rustack::value::Builtin;
use rustack::Value::{Block, Native, Num, Op, Symbol};
use rustack::{NativeOp, Vm};

#[test]
fn test_to_string_renders_numbers_in_decimal() {
    assert_eq!(Num(5).to_string(), "5");
    assert_eq!(Num(0).to_string(), "0");
    assert_eq!(Num(-12345).to_string(), "-12345");
    assert_eq!(Num(i32::MIN).to_string(), "-2147483648");
    assert_eq!(Num(i32::MAX).to_string(), "2147483647");
}

#[test]
fn test_to_string_renders_names_bare() {
    assert_eq!(Op("+".to_owned()).to_string(), "+");
    assert_eq!(Symbol("x".to_owned()).to_string(), "x");
}

#[test]
fn test_to_string_renders_opaque_placeholders() {
    assert_eq!(Block(vec![Num(1)]).to_string(), "<Block>");
    assert_eq!(Native(NativeOp(Builtin::Add)).to_string(), "<NativeOp>");
}

#[test]
fn test_as_num_reads_a_number() {
    assert_eq!(Num(7).as_num(), 7);
}

#[test]
fn test_as_block_vec_hands_the_contents_out() {
    assert_eq!(Block(vec![Num(1), Num(2)]).as_block_vec(), vec![Num(1), Num(2)]);
}

#[test]
fn test_bound_native_dispatches_like_a_builtin() {
    let mut vm = Vm::new();
    vm.bind_var("plus".to_owned(), Native(NativeOp(Builtin::Add)));
    let _ = parse("1 2 plus", &mut vm);
    assert_eq!(vm.stack, vec![Num(3)]);
}

#[test]
fn test_bound_plain_value_is_pushed() {
    let mut vm = Vm::new();
    vm.bind_var("greeting".to_owned(), Symbol("hello".to_owned()));
    let _ = parse("greeting", &mut vm);
    assert_eq!(vm.stack, vec![Symbol("hello".to_owned())]);
}

#[test]
fn test_puts_through_the_tokenizer() {
    let mut vm = Vm::new();
    let _ = parse("-3 puts 10 puts", &mut vm);
    assert_eq!(vm.output, vec!["-3".to_owned(), "10".to_owned()]);
    assert!(vm.stack.is_empty());
}

#[test]
fn test_find_var_misses_unbound_names() {
    let vm = Vm::new();
    assert!(vm.find_var("nothing").is_none());
}

#[test]
fn test_dup_grows_depth_by_one_with_equal_top_two() {
    let mut vm = Vm::new();
    let _ = parse("1 { 2 } dup", &mut vm);
    assert_eq!(vm.stack.len(), 3);
    assert_eq!(vm.stack[1], vm.stack[2]);
    assert_eq!(vm.stack[0], Num(1));
}
