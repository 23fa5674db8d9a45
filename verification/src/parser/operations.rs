//! The built-in verbs: arithmetic, comparison, stack shuffling,
//! binding, printing and the conditional branch. Each reads and mutates
//! the machine state in place.

use vstd::prelude::*;

use crate::machine::{env_bind, Error, Vm, VmModel};
use crate::semantics::{
    binop_ready, binop_step_m, builtin_step_m, in_i32, lhs_num, rhs_num, step_matches,
    trunc_div_i32, MAX_DEPTH,
};
use crate::value::{render, Builtin, Value, ValueModel};

verus! {

broadcast use crate::value::group_value_views;

/// Truncating 32-bit division, as [`trunc_div_i32`] describes.
fn div_trunc(lhs: i32, rhs: i32) -> (q: i32)
    requires
        rhs != 0,
    ensures
        q == trunc_div_i32(lhs, rhs),
{
    let la: i64 = lhs as i64;
    let ra: i64 = rhs as i64;
    let ua: u64 = if la < 0 {
        (-la) as u64
    } else {
        la as u64
    };
    let ub: u64 = if ra < 0 {
        (-ra) as u64
    } else {
        ra as u64
    };
    let mag: u64 = ua / ub;
    let neg = (lhs < 0) != (rhs < 0);
    if mag == 0x8000_0000 {
        i32::MIN
    } else if neg {
        -(mag as i32)
    } else {
        mag as i32
    }
}

/// Pops the two numeric operands: the right one first, then the left.
fn pop_two_nums(vm: &mut Vm) -> (r: Result<(i32, i32), Error>)
    ensures
        match r {
            Ok((lhs, rhs)) => binop_ready(old(vm)@) && lhs == lhs_num(old(vm)@) && rhs == rhs_num(
                old(vm)@,
            ) && final(vm)@ == (VmModel {
                stack: old(vm)@.stack.drop_last().drop_last(),
                ..old(vm)@
            }),
            Err(e) => binop_step_m(old(vm)@, Builtin::Add) == Err::<VmModel, Error>(e),
        },
{
    let rhs_v = match vm.pop_value() {
        None => {
            return Err(Error::StackUnderflow);
        }
        Some(v) => v,
    };
    let rhs = match rhs_v {
        Value::Num(n) => n,
        _ => {
            return Err(Error::TypeMismatch);
        }
    };
    let lhs_v = match vm.pop_value() {
        None => {
            return Err(Error::StackUnderflow);
        }
        Some(v) => v,
    };
    let lhs = match lhs_v {
        Value::Num(n) => n,
        _ => {
            return Err(Error::TypeMismatch);
        }
    };
    proof {
        assert(old(vm)@.stack.drop_last().last() == old(vm)@.stack[old(vm)@.stack.len() - 2]);
        assert(vm@ =~~= (VmModel {
            stack: old(vm)@.stack.drop_last().drop_last(),
            ..old(vm)@
        }));
    }
    Ok((lhs, rhs))
}

/// Pushes the arithmetic result and reports the common contract of the
/// five binary builtins.
fn finish_binop(vm: &mut Vm, n: i32)
    ensures
        final(vm)@ == (VmModel { stack: old(vm)@.stack.push(ValueModel::Num(n)), ..old(vm)@ }),
{
    vm.push_value(Value::Num(n));
}

/// Pops two numbers and pushes their sum, wrapped to 32 bits. For every
/// pair whose true sum fits 32 bits, the result is exactly that sum.
pub fn add(vm: &mut Vm) -> (r: Result<(), Error>)
    ensures
        step_matches(r, final(vm)@, builtin_step_m(old(vm)@, Builtin::Add, 0)),
        r is Err <==> !binop_ready(old(vm)@),
        binop_ready(old(vm)@) && in_i32(lhs_num(old(vm)@) + rhs_num(old(vm)@)) ==> final(vm)@.stack
            == old(vm)@.stack.drop_last().drop_last().push(
            ValueModel::Num((lhs_num(old(vm)@) + rhs_num(old(vm)@)) as i32),
        ),
{
    let (lhs, rhs) = match pop_two_nums(vm) {
        Ok(p) => p,
        Err(e) => {
            return Err(e);
        }
    };
    finish_binop(vm, lhs.wrapping_add(rhs));
    Ok(())
}

/// Pops two numbers and pushes their difference (left minus right),
/// wrapped to 32 bits. For every pair whose true difference fits 32
/// bits, the result is exactly that difference.
pub fn sub(vm: &mut Vm) -> (r: Result<(), Error>)
    ensures
        step_matches(r, final(vm)@, builtin_step_m(old(vm)@, Builtin::Sub, 0)),
        r is Err <==> !binop_ready(old(vm)@),
        binop_ready(old(vm)@) && in_i32(lhs_num(old(vm)@) - rhs_num(old(vm)@)) ==> final(vm)@.stack
            == old(vm)@.stack.drop_last().drop_last().push(
            ValueModel::Num((lhs_num(old(vm)@) - rhs_num(old(vm)@)) as i32),
        ),
{
    let (lhs, rhs) = match pop_two_nums(vm) {
        Ok(p) => p,
        Err(e) => {
            return Err(e);
        }
    };
    finish_binop(vm, lhs.wrapping_sub(rhs));
    Ok(())
}

/// Pops two numbers and pushes their product, wrapped to 32 bits. For
/// every pair whose true product fits 32 bits, the result is exactly
/// that product.
pub fn mul(vm: &mut Vm) -> (r: Result<(), Error>)
    ensures
        step_matches(r, final(vm)@, builtin_step_m(old(vm)@, Builtin::Mul, 0)),
        r is Err <==> !binop_ready(old(vm)@),
        binop_ready(old(vm)@) && in_i32(lhs_num(old(vm)@) * rhs_num(old(vm)@)) ==> final(vm)@.stack
            == old(vm)@.stack.drop_last().drop_last().push(
            ValueModel::Num((lhs_num(old(vm)@) * rhs_num(old(vm)@)) as i32),
        ),
{
    let (lhs, rhs) = match pop_two_nums(vm) {
        Ok(p) => p,
        Err(e) => {
            return Err(e);
        }
    };
    finish_binop(vm, lhs.wrapping_mul(rhs));
    Ok(())
}

/// Pops two numbers and pushes their truncating quotient (left divided
/// by right). Dividing by zero is the fault
/// [`Error::DivisionByZero`].
pub fn div(vm: &mut Vm) -> (r: Result<(), Error>)
    ensures
        step_matches(r, final(vm)@, builtin_step_m(old(vm)@, Builtin::Div, 0)),
        r is Err <==> (!binop_ready(old(vm)@) || rhs_num(old(vm)@) == 0),
        binop_ready(old(vm)@) && rhs_num(old(vm)@) != 0 ==> final(vm)@.stack == old(
            vm,
        )@.stack.drop_last().drop_last().push(
            ValueModel::Num(trunc_div_i32(lhs_num(old(vm)@), rhs_num(old(vm)@))),
        ),
{
    let (lhs, rhs) = match pop_two_nums(vm) {
        Ok(p) => p,
        Err(e) => {
            return Err(e);
        }
    };
    if rhs == 0 {
        return Err(Error::DivisionByZero);
    }
    finish_binop(vm, div_trunc(lhs, rhs));
    Ok(())
}

/// Pops two numbers and pushes one if the left is less than the right,
/// else zero.
pub fn lt(vm: &mut Vm) -> (r: Result<(), Error>)
    ensures
        step_matches(r, final(vm)@, builtin_step_m(old(vm)@, Builtin::Lt, 0)),
        r is Err <==> !binop_ready(old(vm)@),
        binop_ready(old(vm)@) ==> final(vm)@.stack == old(vm)@.stack.drop_last().drop_last().push(
            ValueModel::Num(
                if lhs_num(old(vm)@) < rhs_num(old(vm)@) {
                    1
                } else {
                    0
                },
            ),
        ),
{
    let (lhs, rhs) = match pop_two_nums(vm) {
        Ok(p) => p,
        Err(e) => {
            return Err(e);
        }
    };
    finish_binop(
        vm,
        if lhs < rhs {
            1
        } else {
            0
        },
    );
    Ok(())
}

/// Pushes a copy of the top of the stack: the depth grows by exactly
/// one, the top two slots are equal, and everything beneath is
/// untouched.
pub fn duplicate(vm: &mut Vm) -> (r: Result<(), Error>)
    ensures
        step_matches(r, final(vm)@, builtin_step_m(old(vm)@, Builtin::Dup, 0)),
        r is Err <==> old(vm)@.stack.len() == 0,
        old(vm)@.stack.len() > 0 ==> {
            &&& final(vm)@.stack.len() == old(vm)@.stack.len() + 1
            &&& final(vm)@.stack.last() == final(vm)@.stack[final(vm)@.stack.len() - 2]
            &&& final(vm)@.stack.drop_last() == old(vm)@.stack
        },
{
    let top = match vm.pop_value() {
        None => {
            return Err(Error::StackUnderflow);
        }
        Some(v) => v,
    };
    let copy = top.clone();
    vm.push_value(top);
    vm.push_value(copy);
    proof {
        assert(final(vm)@.stack =~= old(vm)@.stack.push(old(vm)@.stack.last()));
        assert(final(vm)@.stack.drop_last() =~= old(vm)@.stack);
        assert(final(vm)@ =~~= (VmModel {
            stack: old(vm)@.stack.push(old(vm)@.stack.last()),
            ..old(vm)@
        }));
    }
    Ok(())
}

/// Pops the top two values and pushes them back in reversed order.
pub fn exchange(vm: &mut Vm) -> (r: Result<(), Error>)
    ensures
        step_matches(r, final(vm)@, builtin_step_m(old(vm)@, Builtin::Swap, 0)),
        r is Err <==> old(vm)@.stack.len() < 2,
{
    let x = match vm.pop_value() {
        None => {
            return Err(Error::StackUnderflow);
        }
        Some(v) => v,
    };
    let y = match vm.pop_value() {
        None => {
            return Err(Error::StackUnderflow);
        }
        Some(v) => v,
    };
    proof {
        assert(old(vm)@.stack.drop_last().last() == old(vm)@.stack[old(vm)@.stack.len() - 2]);
    }
    vm.push_value(x);
    vm.push_value(y);
    Ok(())
}

/// Pops a value, then a name (rendered as [`render`] renders it), and
/// binds the name to the value in the variable environment,
/// overwriting any prior binding.
pub fn op_def(vm: &mut Vm) -> (r: Result<(), Error>)
    ensures
        step_matches(r, final(vm)@, builtin_step_m(old(vm)@, Builtin::Def, 0)),
        r is Err <==> old(vm)@.stack.len() < 2,
        old(vm)@.stack.len() >= 2 ==> final(vm)@.vars == env_bind(
            old(vm)@.vars,
            render(old(vm)@.stack[old(vm)@.stack.len() - 2]),
            old(vm)@.stack.last(),
        ),
{
    let val = match vm.pop_value() {
        None => {
            return Err(Error::StackUnderflow);
        }
        Some(v) => v,
    };
    let name_val = match vm.pop_value() {
        None => {
            return Err(Error::StackUnderflow);
        }
        Some(v) => v,
    };
    proof {
        assert(old(vm)@.stack.drop_last().last() == old(vm)@.stack[old(vm)@.stack.len() - 2]);
    }
    let name = name_val.to_string();
    vm.bind_var(name, val);
    Ok(())
}

/// Pops a value, renders it as [`render`] describes, and appends the
/// line to the pending output.
pub fn op_puts(vm: &mut Vm) -> (r: Result<(), Error>)
    ensures
        step_matches(r, final(vm)@, builtin_step_m(old(vm)@, Builtin::Puts, 0)),
        r is Err <==> old(vm)@.stack.len() == 0,
        old(vm)@.stack.len() > 0 ==> final(vm)@.output == old(vm)@.output.push(
            render(old(vm)@.stack.last()),
        ),
{
    let val = match vm.pop_value() {
        None => {
            return Err(Error::StackUnderflow);
        }
        Some(v) => v,
    };
    let line = val.to_string();
    vm.push_output(line);
    Ok(())
}

/// The conditional branch with `fuel` nested invocations still allowed:
/// pops the false block, the true block and the condition block, runs
/// the condition block, pops the number it leaves, and runs the true
/// block if that number is nonzero, else the false block.
pub(crate) fn op_if_with_fuel(vm: &mut Vm, fuel: u32) -> (r: Result<(), Error>)
    ensures
        step_matches(r, final(vm)@, builtin_step_m(old(vm)@, Builtin::If, fuel as nat)),
    decreases fuel, 0int, 0int,
{
    let false_v = match vm.pop_value() {
        None => {
            return Err(Error::StackUnderflow);
        }
        Some(v) => v,
    };
    let false_body = match false_v {
        Value::Block(b) => b,
        _ => {
            return Err(Error::TypeMismatch);
        }
    };
    let true_v = match vm.pop_value() {
        None => {
            return Err(Error::StackUnderflow);
        }
        Some(v) => v,
    };
    let true_body = match true_v {
        Value::Block(b) => b,
        _ => {
            return Err(Error::TypeMismatch);
        }
    };
    let cond_v = match vm.pop_value() {
        None => {
            return Err(Error::StackUnderflow);
        }
        Some(v) => v,
    };
    let cond_body = match cond_v {
        Value::Block(b) => b,
        _ => {
            return Err(Error::TypeMismatch);
        }
    };
    proof {
        assert(old(vm)@.stack.drop_last().last() == old(vm)@.stack[old(vm)@.stack.len() - 2]);
        assert(old(vm)@.stack.drop_last().drop_last().last() == old(vm)@.stack[old(
            vm,
        )@.stack.len() - 3]);
        assert(vm@ =~~= (VmModel {
            stack: old(vm)@.stack.drop_last().drop_last().drop_last(),
            ..old(vm)@
        }));
    }
    if fuel == 0 {
        return Err(Error::DepthLimit);
    }
    match super::dispatch::eval_elements(&cond_body, vm, fuel - 1) {
        Ok(()) => {}
        Err(e) => {
            return Err(e);
        }
    }
    let cond_res = match vm.pop_value() {
        None => {
            return Err(Error::StackUnderflow);
        }
        Some(v) => v,
    };
    let c = match cond_res {
        Value::Num(n) => n,
        _ => {
            return Err(Error::TypeMismatch);
        }
    };
    if c != 0 {
        super::dispatch::eval_elements(&true_body, vm, fuel - 1)
    } else {
        super::dispatch::eval_elements(&false_body, vm, fuel - 1)
    }
}

/// The conditional branch, with the full recursion budget.
pub fn op_if(vm: &mut Vm) -> (r: Result<(), Error>)
    ensures
        step_matches(r, final(vm)@, builtin_step_m(old(vm)@, Builtin::If, MAX_DEPTH as nat)),
{
    op_if_with_fuel(vm, MAX_DEPTH)
}

} // verus!
