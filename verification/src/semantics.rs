//! The ghost interpreter: one spec-level step function per construct.
//! Every executable function of the evaluator is proved to agree with
//! these definitions.

use vstd::prelude::*;

use crate::machine::{env_bind, env_lookup, Error, VmModel};
use crate::text::{parse_i32_spec, split_spec};
use crate::value::{render, Builtin, ValueModel};

verus! {

/// How many nested invocations (a bound block calling a block, a
/// conditional running a branch) one dispatch may open. The original
/// design bounds recursion only by the machine's call stack; this bound
/// stands in for that limit, and going past it is the fault
/// [`Error::DepthLimit`].
pub const MAX_DEPTH: u32 = 1024;

/// The builtin a bare operator name denotes, if any.
pub open spec fn builtin_of(name: Seq<char>) -> Option<Builtin> {
    if name == "+"@ {
        Some(Builtin::Add)
    } else if name == "-"@ {
        Some(Builtin::Sub)
    } else if name == "*"@ {
        Some(Builtin::Mul)
    } else if name == "/"@ {
        Some(Builtin::Div)
    } else if name == "<"@ {
        Some(Builtin::Lt)
    } else if name == "def"@ {
        Some(Builtin::Def)
    } else if name == "if"@ {
        Some(Builtin::If)
    } else if name == "puts"@ {
        Some(Builtin::Puts)
    } else if name == "dup"@ {
        Some(Builtin::Dup)
    } else if name == "swap"@ {
        Some(Builtin::Swap)
    } else {
        None
    }
}

/// The value a word denotes: an integer literal that fits 32 bits, a
/// symbol (leading marker, non-empty remainder), or a bare operator
/// name.
pub open spec fn classify_spec(w: Seq<char>) -> ValueModel {
    match parse_i32_spec(w) {
        Some(v) => ValueModel::Num(v as i32),
        None => if w.len() >= 2 && w[0] == '/' {
            ValueModel::Symbol(w.drop_first())
        } else {
            ValueModel::Op(w)
        },
    }
}

/// Truncating 32-bit division: the quotient of the magnitudes, with the
/// sign of the true quotient. The one overflowing quotient (the least
/// value divided by minus one) wraps, as two's-complement division
/// does.
pub open spec fn trunc_div_i32(a: i32, b: i32) -> i32 {
    let aa = if a < 0 {
        -(a as int)
    } else {
        a as int
    };
    let bb = if b < 0 {
        -(b as int)
    } else {
        b as int
    };
    let q = aa / bb;
    vstd::wrapping::i32_specs::signed_crop(
        if (a < 0) != (b < 0) {
            -q
        } else {
            q
        },
    )
}

/// The result of one arithmetic or comparison builtin on two numbers.
/// Addition, subtraction and multiplication wrap as two's-complement
/// arithmetic does; division by zero is a fault; the comparison yields
/// one or zero.
pub open spec fn arith_result(b: Builtin, lhs: i32, rhs: i32) -> Result<i32, Error> {
    match b {
        Builtin::Add => Ok(vstd::wrapping::i32_specs::wrapping_add(lhs, rhs)),
        Builtin::Sub => Ok(vstd::wrapping::i32_specs::wrapping_sub(lhs, rhs)),
        Builtin::Mul => Ok(vstd::wrapping::i32_specs::wrapping_mul(lhs, rhs)),
        Builtin::Div => if rhs == 0 {
            Err(Error::DivisionByZero)
        } else {
            Ok(trunc_div_i32(lhs, rhs))
        },
        Builtin::Lt => Ok(
            if lhs < rhs {
                1
            } else {
                0
            },
        ),
        _ => Ok(0),
    }
}

/// Whether the top two stack slots hold numbers, as the arithmetic and
/// comparison builtins require.
pub open spec fn binop_ready(m: VmModel) -> bool {
    m.stack.len() >= 2 && m.stack.last() is Num && m.stack[m.stack.len() - 2] is Num
}

/// The right operand of a binary builtin: the number on top.
pub open spec fn rhs_num(m: VmModel) -> i32 {
    m.stack.last()->Num_0
}

/// The left operand of a binary builtin: the number under the top.
pub open spec fn lhs_num(m: VmModel) -> i32 {
    m.stack[m.stack.len() - 2]->Num_0
}

/// Whether a mathematical integer fits a signed 32-bit word.
pub open spec fn in_i32(x: int) -> bool {
    i32::MIN <= x <= i32::MAX
}

/// One arithmetic or comparison builtin: pops the right operand, then
/// the left, and pushes the result.
pub open spec fn binop_step_m(m: VmModel, b: Builtin) -> Result<VmModel, Error> {
    if m.stack.len() == 0 {
        Err(Error::StackUnderflow)
    } else if !(m.stack.last() is Num) {
        Err(Error::TypeMismatch)
    } else if m.stack.len() == 1 {
        Err(Error::StackUnderflow)
    } else if !(m.stack[m.stack.len() - 2] is Num) {
        Err(Error::TypeMismatch)
    } else {
        let rhs = m.stack.last()->Num_0;
        let lhs = m.stack[m.stack.len() - 2]->Num_0;
        match arith_result(b, lhs, rhs) {
            Ok(n) => Ok(
                VmModel {
                    stack: m.stack.drop_last().drop_last().push(ValueModel::Num(n)),
                    ..m
                },
            ),
            Err(e) => Err(e),
        }
    }
}

/// One builtin applied to the machine: what it pops, what it pushes,
/// and on what it faults.
pub open spec fn builtin_step_m(m: VmModel, b: Builtin, fuel: nat) -> Result<VmModel, Error>
    decreases fuel, 0nat, 1nat,
{
    match b {
        Builtin::Add => binop_step_m(m, b),
        Builtin::Sub => binop_step_m(m, b),
        Builtin::Mul => binop_step_m(m, b),
        Builtin::Div => binop_step_m(m, b),
        Builtin::Lt => binop_step_m(m, b),
        Builtin::Dup => if m.stack.len() == 0 {
            Err(Error::StackUnderflow)
        } else {
            Ok(VmModel { stack: m.stack.push(m.stack.last()), ..m })
        },
        Builtin::Swap => if m.stack.len() < 2 {
            Err(Error::StackUnderflow)
        } else {
            let x = m.stack.last();
            let y = m.stack[m.stack.len() - 2];
            Ok(VmModel { stack: m.stack.drop_last().drop_last().push(x).push(y), ..m })
        },
        Builtin::Def => if m.stack.len() < 2 {
            Err(Error::StackUnderflow)
        } else {
            let val = m.stack.last();
            let name = render(m.stack[m.stack.len() - 2]);
            Ok(
                VmModel {
                    stack: m.stack.drop_last().drop_last(),
                    vars: env_bind(m.vars, name, val),
                    ..m
                },
            )
        },
        Builtin::Puts => if m.stack.len() == 0 {
            Err(Error::StackUnderflow)
        } else {
            Ok(
                VmModel {
                    stack: m.stack.drop_last(),
                    output: m.output.push(render(m.stack.last())),
                    ..m
                },
            )
        },
        Builtin::If => if m.stack.len() == 0 {
            Err(Error::StackUnderflow)
        } else if !(m.stack.last() is Block) {
            Err(Error::TypeMismatch)
        } else if m.stack.len() == 1 {
            Err(Error::StackUnderflow)
        } else if !(m.stack[m.stack.len() - 2] is Block) {
            Err(Error::TypeMismatch)
        } else if m.stack.len() == 2 {
            Err(Error::StackUnderflow)
        } else if !(m.stack[m.stack.len() - 3] is Block) {
            Err(Error::TypeMismatch)
        } else {
            let false_body = m.stack.last()->Block_0;
            let true_body = m.stack[m.stack.len() - 2]->Block_0;
            let cond_body = m.stack[m.stack.len() - 3]->Block_0;
            let popped = VmModel {
                stack: m.stack.drop_last().drop_last().drop_last(),
                ..m
            };
            if fuel == 0 {
                Err(Error::DepthLimit)
            } else {
                match eval_seq_m(popped, cond_body, (fuel - 1) as nat) {
                    Err(e) => Err(e),
                    Ok(after_cond) => if after_cond.stack.len() == 0 {
                        Err(Error::StackUnderflow)
                    } else if !(after_cond.stack.last() is Num) {
                        Err(Error::TypeMismatch)
                    } else {
                        let c = after_cond.stack.last()->Num_0;
                        let before_branch = VmModel {
                            stack: after_cond.stack.drop_last(),
                            ..after_cond
                        };
                        eval_seq_m(
                            before_branch,
                            if c != 0 {
                                true_body
                            } else {
                                false_body
                            },
                            (fuel - 1) as nat,
                        )
                    },
                }
            }
        },
    }
}

/// Central dispatch of one value. With a block under construction the
/// value is deferred into it, whatever it is; otherwise an operator
/// name resolves to a builtin, then to a variable, and any other value
/// is pushed as data.
pub open spec fn eval_m(m: VmModel, code: ValueModel, fuel: nat) -> Result<VmModel, Error>
    decreases fuel, 1nat, 0nat,
{
    if m.blocks.len() > 0 {
        Ok(
            VmModel {
                blocks: m.blocks.update(m.blocks.len() - 1, m.blocks.last().push(code)),
                ..m
            },
        )
    } else {
        match code {
            ValueModel::Op(name) => match builtin_of(name) {
                Some(b) => builtin_step_m(m, b, fuel),
                None => match env_lookup(m.vars, name) {
                    Some(ValueModel::Block(body)) => if fuel == 0 {
                        Err(Error::DepthLimit)
                    } else {
                        eval_seq_m(m, body, (fuel - 1) as nat)
                    },
                    Some(ValueModel::Native(b)) => builtin_step_m(m, b, fuel),
                    Some(v) => Ok(VmModel { stack: m.stack.push(v), ..m }),
                    None => Err(Error::Undefined),
                },
            },
            _ => Ok(VmModel { stack: m.stack.push(code), ..m }),
        }
    }
}

/// The values of a block, dispatched in order; the first fault stops
/// the run.
pub open spec fn eval_seq_m(m: VmModel, codes: Seq<ValueModel>, fuel: nat) -> Result<
    VmModel,
    Error,
>
    decreases fuel, 2nat, codes.len(),
{
    if codes.len() == 0 {
        Ok(m)
    } else {
        match eval_m(m, codes[0], fuel) {
            Ok(m2) => eval_seq_m(m2, codes.drop_first(), fuel),
            Err(e) => Err(e),
        }
    }
}

/// One word against the machine: empty words are skipped, the open
/// delimiter starts a buffer, the close delimiter ends the innermost
/// one and dispatches the block it captured, and any other word is
/// classified and dispatched.
pub open spec fn word_step_m(m: VmModel, w: Seq<char>, fuel: nat) -> Result<VmModel, Error> {
    if w.len() == 0 {
        Ok(m)
    } else if w == "{"@ {
        Ok(VmModel { blocks: m.blocks.push(Seq::empty()), ..m })
    } else if w == "}"@ {
        if m.blocks.len() == 0 {
            Err(Error::UnbalancedBlockClose)
        } else {
            let captured = m.blocks.last();
            let popped = VmModel { blocks: m.blocks.drop_last(), ..m };
            eval_m(popped, ValueModel::Block(captured), fuel)
        }
    } else {
        eval_m(m, classify_spec(w), fuel)
    }
}

/// A sequence of words against the machine, in order.
pub open spec fn words_step_m(m: VmModel, ws: Seq<Seq<char>>, fuel: nat) -> Result<VmModel, Error>
    decreases ws.len(),
{
    if ws.len() == 0 {
        Ok(m)
    } else {
        match word_step_m(m, ws[0], fuel) {
            Ok(m2) => words_step_m(m2, ws.drop_first(), fuel),
            Err(e) => Err(e),
        }
    }
}

/// A whole source text against the machine: its words, split on spaces
/// and line breaks, in order.
pub open spec fn source_step_m(m: VmModel, source: Seq<char>, fuel: nat) -> Result<
    VmModel,
    Error,
> {
    words_step_m(m, split_spec(source, true), fuel)
}

/// How an executable step relates to its ghost counterpart: on success
/// the machine afterwards is exactly the model's; on a fault the same
/// fault is reported and the abandoned machine state is left
/// unspecified.
pub open spec fn step_matches(
    r: Result<(), Error>,
    after: VmModel,
    step: Result<VmModel, Error>,
) -> bool {
    match step {
        Ok(m) => r is Ok && after == m,
        Err(e) => r == Err::<(), Error>(e),
    }
}

// ---------------------------------------------------------------------
// Standalone block capture over a word list
// ---------------------------------------------------------------------

/// Closing every buffer still open at the end of the input: each inner
/// buffer becomes a block inside the one enclosing it.
pub open spec fn collapse_m(bufs: Seq<Seq<ValueModel>>) -> ValueModel
    decreases bufs.len(),
{
    if bufs.len() == 0 {
        ValueModel::Block(Seq::empty())
    } else if bufs.len() == 1 {
        ValueModel::Block(bufs[0])
    } else {
        let parent = bufs.len() - 2;
        collapse_m(
            bufs.drop_last().update(parent, bufs[parent].push(ValueModel::Block(bufs.last()))),
        )
    }
}

/// Block capture over a word list, one level already open: words are
/// deferred into the innermost buffer until the matching close
/// delimiter arrives; an empty word or the end of the input closes
/// everything still open. Yields the captured block and the words not
/// consumed.
pub open spec fn parse_block_m(bufs: Seq<Seq<ValueModel>>, words: Seq<Seq<char>>) -> (
    ValueModel,
    Seq<Seq<char>>,
)
    recommends
        bufs.len() >= 1,
    decreases words.len(),
{
    if words.len() == 0 || words[0].len() == 0 {
        (collapse_m(bufs), words)
    } else if words[0] == "{"@ {
        parse_block_m(bufs.push(Seq::empty()), words.drop_first())
    } else if words[0] == "}"@ {
        if bufs.len() <= 1 {
            (ValueModel::Block(if bufs.len() == 0 {
                Seq::empty()
            } else {
                bufs[0]
            }), words.drop_first())
        } else {
            let parent = bufs.len() - 2;
            parse_block_m(
                bufs.drop_last().update(
                    parent,
                    bufs[parent].push(ValueModel::Block(bufs.last())),
                ),
                words.drop_first(),
            )
        }
    } else {
        parse_block_m(
            bufs.update(bufs.len() - 1, bufs.last().push(classify_spec(words[0]))),
            words.drop_first(),
        )
    }
}

} // verus!
