use rustack::parser::operations::{add, div, duplicate, exchange, mul, op_def, op_puts, sub};
use rustack::Value::{Num, Symbol};
use rustack::Vm;

fn vm_with_stack(stack: Vec<rustack::Value>) -> Vm {
    Vm { stack, vars: Vec::new(), blocks: Vec::new(), output: Vec::new() }
}

#[test]
fn parser_test_add() {
    let mut vm = vm_with_stack(vec![Num(10), Num(10)]);
    let _ = add(&mut vm);
    let res = vm.stack.last().unwrap().as_num();

    assert_eq!(res, 20,)
}

#[test]
fn parser_test_sub() {
    let mut vm = vm_with_stack(vec![Num(10), Num(10)]);
    let _ = sub(&mut vm);
    let res = vm.stack.last().unwrap().as_num();

    assert_eq!(res, 0,)
}

#[test]
fn parser_test_mul() {
    let mut vm = vm_with_stack(vec![Num(10), Num(10)]);
    let _ = mul(&mut vm);
    let res = vm.stack.last().unwrap().as_num();

    assert_eq!(res, 100,)
}

#[test]
fn parser_test_div() {
    let mut vm = vm_with_stack(vec![Num(10), Num(10)]);
    let _ = div(&mut vm);
    let res = vm.stack.last().unwrap().as_num();

    assert_eq!(res, 1,)
}

#[test]
fn parser_test_op_def() {
    let mut vm = vm_with_stack(vec![Symbol("test".to_owned()), Num(10)]);
    let _ = op_def(&mut vm);

    let res = vm.find_var("test").unwrap().as_num();

    assert_eq!(res, 10);
}

#[test]
fn operations_test_add() {
    let mut vm = vm_with_stack(vec![Num(10), Num(10)]);
    let _ = add(&mut vm);
    let res = vm.stack.last().unwrap().as_num();

    assert_eq!(res, 20,)
}

#[test]
fn operations_test_sub() {
    let mut vm = vm_with_stack(vec![Num(10), Num(10)]);
    let _ = sub(&mut vm);
    let res = vm.stack.last().unwrap().as_num();

    assert_eq!(res, 0,)
}

#[test]
fn operations_test_mul() {
    let mut vm = vm_with_stack(vec![Num(10), Num(10)]);
    let _ = mul(&mut vm);
    let res = vm.stack.last().unwrap().as_num();

    assert_eq!(res, 100,)
}

#[test]
fn operations_test_div() {
    let mut vm = vm_with_stack(vec![Num(10), Num(10)]);
    let _ = div(&mut vm);
    let res = vm.stack.last().unwrap().as_num();

    assert_eq!(res, 1,)
}

#[test]
fn operations_test_op_def() {
    let mut vm = vm_with_stack(vec![Symbol("test".to_owned()), Num(10)]);
    let _ = op_def(&mut vm);

    let res = vm.find_var("test").unwrap().as_num();

    assert_eq!(res, 10);
}

#[test]
fn test_duplicate() {
    let mut vm = vm_with_stack(vec![Num(10)]);
    let _ = duplicate(&mut vm);
    assert_eq!(vm.stack, vec![Num(10), Num(10)]);
}

#[test]
fn test_exchange() {
    let mut vm = vm_with_stack(vec![Num(10), Num(20)]);
    let _ = exchange(&mut vm);
    assert_eq!(vm.stack, vec![Num(20), Num(10)]);
}

#[test]
fn test_puts_buffers_rendered_top() {
    let mut vm = vm_with_stack(vec![Num(42)]);
    let r = op_puts(&mut vm);
    assert!(r.is_ok());
    assert_eq!(vm.output, vec!["42".to_owned()]);
    assert!(vm.stack.is_empty());
}

#[test]
fn test_add_wraps_at_the_top_of_the_range() {
    let mut vm = vm_with_stack(vec![Num(i32::MAX), Num(1)]);
    let r = add(&mut vm);
    assert!(r.is_ok());
    assert_eq!(vm.stack, vec![Num(i32::MIN)]);
}

#[test]
fn test_div_truncates_toward_zero() {
    let mut vm = vm_with_stack(vec![Num(-7), Num(2)]);
    let r = div(&mut vm);
    assert!(r.is_ok());
    assert_eq!(vm.stack, vec![Num(-3)]);

    let mut vm = vm_with_stack(vec![Num(7), Num(-2)]);
    let r = div(&mut vm);
    assert!(r.is_ok());
    assert_eq!(vm.stack, vec![Num(-3)]);
}
