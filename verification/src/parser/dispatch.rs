//! Central dispatch: one value, or one word, against the machine.

use vstd::prelude::*;

use crate::machine::{Error, Vm};
use crate::semantics::{
    builtin_of, builtin_step_m, classify_spec, eval_m, eval_seq_m, step_matches, word_step_m,
    MAX_DEPTH,
};
use crate::text::str_eq;
use crate::value::{views_of_seq, Builtin, Value};

verus! {

broadcast use crate::value::group_value_views;

/// Resolves a bare operator name to a builtin, if it names one.
pub(crate) fn builtin_lookup(name: &str) -> (b: Option<Builtin>)
    ensures
        b == builtin_of(name@),
{
    if str_eq(name, "+") {
        Some(Builtin::Add)
    } else if str_eq(name, "-") {
        Some(Builtin::Sub)
    } else if str_eq(name, "*") {
        Some(Builtin::Mul)
    } else if str_eq(name, "/") {
        Some(Builtin::Div)
    } else if str_eq(name, "<") {
        Some(Builtin::Lt)
    } else if str_eq(name, "def") {
        Some(Builtin::Def)
    } else if str_eq(name, "if") {
        Some(Builtin::If)
    } else if str_eq(name, "puts") {
        Some(Builtin::Puts)
    } else if str_eq(name, "dup") {
        Some(Builtin::Dup)
    } else if str_eq(name, "swap") {
        Some(Builtin::Swap)
    } else {
        None
    }
}

/// Runs one builtin against the machine.
pub(crate) fn run_builtin(b: Builtin, vm: &mut Vm, fuel: u32) -> (r: Result<(), Error>)
    ensures
        step_matches(r, final(vm)@, builtin_step_m(old(vm)@, b, fuel as nat)),
    decreases fuel, 0int, 1int,
{
    match b {
        Builtin::Add => super::operations::add(vm),
        Builtin::Sub => super::operations::sub(vm),
        Builtin::Mul => super::operations::mul(vm),
        Builtin::Div => super::operations::div(vm),
        Builtin::Lt => super::operations::lt(vm),
        Builtin::Dup => super::operations::duplicate(vm),
        Builtin::Swap => super::operations::exchange(vm),
        Builtin::Def => super::operations::op_def(vm),
        Builtin::Puts => super::operations::op_puts(vm),
        Builtin::If => super::operations::op_if_with_fuel(vm, fuel),
    }
}

/// Central dispatch of one value against the machine, with `fuel`
/// nested invocations still allowed.
pub(crate) fn eval_with_fuel(code: Value, vm: &mut Vm, fuel: u32) -> (r: Result<(), Error>)
    ensures
        step_matches(r, final(vm)@, eval_m(old(vm)@, code@, fuel as nat)),
    decreases fuel, 1int, 0int,
{
    if vm.blocks.len() > 0 {
        vm.defer_value(code);
        return Ok(());
    }
    match code {
        Value::Op(name) => {
            match builtin_lookup(name.as_str()) {
                Some(b) => run_builtin(b, vm, fuel),
                None => {
                    match vm.find_var(name.as_str()) {
                        None => Err(Error::Undefined),
                        Some(Value::Block(body)) => {
                            if fuel == 0 {
                                return Err(Error::DepthLimit);
                            }
                            eval_elements(&body, vm, fuel - 1)
                        }
                        Some(Value::Native(nop)) => run_builtin(nop.0, vm, fuel),
                        Some(other) => {
                            vm.push_value(other);
                            Ok(())
                        }
                    }
                }
            }
        }
        _ => {
            vm.push_value(code);
            Ok(())
        }
    }
}

/// Dispatches the values of a block, in order; the first fault stops
/// the run.
pub(crate) fn eval_elements(codes: &Vec<Value>, vm: &mut Vm, fuel: u32) -> (r: Result<(), Error>)
    ensures
        step_matches(r, final(vm)@, eval_seq_m(old(vm)@, views_of_seq(codes@), fuel as nat)),
    decreases fuel, 2int, 0int,
{
    let ghost m0 = vm@;
    let ghost all = views_of_seq(codes@);
    let n = codes.len();
    let mut i: usize = 0;
    proof {
        assert(all.skip(0) =~= all);
    }
    while i < n
        invariant
            m0 == old(vm)@,
            n == codes@.len(),
            i <= n,
            all == views_of_seq(codes@),
            eval_seq_m(m0, all, fuel as nat) == eval_seq_m(vm@, all.skip(i as int), fuel as nat),
        decreases n - i,
    {
        proof {
            crate::value::lemma_views_of_seq(codes@);
            assert(all.skip(i as int)[0] == all[i as int]);
            assert(all.skip(i as int).drop_first() =~= all.skip(i + 1));
        }
        let c = codes[i].clone();
        match eval_with_fuel(c, vm, fuel) {
            Ok(()) => {}
            Err(e) => {
                return Err(e);
            }
        }
        i = i + 1;
    }
    proof {
        assert(all.skip(n as int) =~= Seq::<crate::value::ValueModel>::empty());
    }
    Ok(())
}

/// Central dispatch of one value against the machine: with a block
/// under construction the value is deferred into it; otherwise an
/// operator name resolves to a builtin, then to a variable (a bound
/// block runs as a procedure, a bound native reference runs its
/// builtin, any other bound value is pushed), and any other value is
/// pushed as data.
pub fn eval(code: Value, vm: &mut Vm) -> (r: Result<(), Error>)
    ensures
        step_matches(r, final(vm)@, eval_m(old(vm)@, code@, MAX_DEPTH as nat)),
{
    eval_with_fuel(code, vm, MAX_DEPTH)
}

/// Classifies one word that is not a delimiter: an integer literal that
/// fits 32 bits, a symbol (leading marker, non-empty remainder), or a
/// bare operator name.
pub(crate) fn classify(word: &str) -> (v: Value)
    ensures
        v@ == classify_spec(word@),
{
    match crate::text::parse_i32(word) {
        Some(n) => Value::Num(n),
        None => {
            let len = word.unicode_len();
            if len >= 2 && word.get_char(0) == '/' {
                let rest = word.substring_char(1, len).to_owned();
                proof {
                    assert(rest@ =~= word@.drop_first());
                }
                Value::Symbol(rest)
            } else {
                Value::Op(word.to_owned())
            }
        }
    }
}

/// One word against the machine: an empty word is skipped, the open
/// delimiter starts a capture buffer, the close delimiter ends the
/// innermost one and dispatches the captured block like any other
/// value, and every other word is classified and dispatched.
pub fn parse_word(word: &str, vm: &mut Vm) -> (r: Result<(), Error>)
    ensures
        step_matches(r, final(vm)@, word_step_m(old(vm)@, word@, MAX_DEPTH as nat)),
{
    if word.is_empty() {
        return Ok(());
    }
    if str_eq(word, "{") {
        vm.open_block_buf();
        return Ok(());
    }
    if str_eq(word, "}") {
        return match vm.pop_block_buf() {
            None => Err(Error::UnbalancedBlockClose),
            Some(buf) => eval_with_fuel(Value::Block(buf), vm, MAX_DEPTH),
        };
    }
    let code = classify(word);
    eval_with_fuel(code, vm, MAX_DEPTH)
}

} // verus!
