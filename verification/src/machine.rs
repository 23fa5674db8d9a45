//! The machine state: operand stack, flat variable environment,
//! block-capture stack and output buffer, with its ghost model.

use vstd::prelude::*;

use crate::value::{lemma_views_of_seq, views_of_seq, Value, ValueModel};

verus! {

/// A fault. Every fault is fatal: the run that meets one is abandoned,
/// and the machine state after a fault is left unspecified.
#[derive(Clone, Copy, PartialEq, Eq, Structural, Debug)]
pub enum Error {
    /// An operation needed more operands than the stack held.
    StackUnderflow,
    /// A value was not of the variant an operation required.
    TypeMismatch,
    /// An operator name resolved to neither a builtin nor a variable.
    Undefined,
    /// A block-close token arrived with no block under construction.
    UnbalancedBlockClose,
    /// The divisor of a division was zero.
    DivisionByZero,
    /// Nested invocations went past the fixed recursion bound.
    DepthLimit,
}

/// The ghost model of a machine state.
#[verifier::ext_equal]
pub struct VmModel {
    /// Operand stack; the last element is the top.
    pub stack: Seq<ValueModel>,
    /// Variable environment: bindings in insertion order, each name at
    /// most once.
    pub vars: Seq<(Seq<char>, ValueModel)>,
    /// Block-capture stack; the last element is the innermost open
    /// buffer.
    pub blocks: Seq<Seq<ValueModel>>,
    /// Lines handed to the output collaborator, oldest first.
    pub output: Seq<Seq<char>>,
}

/// The machine state of one interpreter run. It is exclusively owned:
/// every operation takes it by mutable reference, and nothing else
/// aliases it.
pub struct Vm {
    /// Operand stack; the last element is the top.
    pub stack: Vec<Value>,
    /// Variable environment, a single flat namespace.
    pub vars: Vec<(String, Value)>,
    /// Block-capture stack of buffers under construction.
    pub blocks: Vec<Vec<Value>>,
    /// Rendered lines awaiting the output collaborator.
    pub output: Vec<String>,
}

/// The environment model of a vector of bindings.
pub open spec fn vars_view(vars: Seq<(String, Value)>) -> Seq<(Seq<char>, ValueModel)> {
    Seq::new(vars.len(), |i: int| (vars[i].0@, vars[i].1@))
}

impl View for Vm {
    type V = VmModel;

    open spec fn view(&self) -> VmModel {
        VmModel {
            stack: views_of_seq(self.stack@),
            vars: vars_view(self.vars@),
            blocks: Seq::new(self.blocks@.len(), |i: int| views_of_seq(self.blocks@[i]@)),
            output: Seq::new(self.output@.len(), |i: int| self.output@[i]@),
        }
    }
}

/// The model of a fresh machine: everything empty.
pub open spec fn init_model() -> VmModel {
    VmModel {
        stack: Seq::empty(),
        vars: Seq::empty(),
        blocks: Seq::empty(),
        output: Seq::empty(),
    }
}

/// The value bound to `name`, if any.
pub open spec fn env_lookup(vars: Seq<(Seq<char>, ValueModel)>, name: Seq<char>) -> Option<
    ValueModel,
>
    decreases vars.len(),
{
    if vars.len() == 0 {
        None
    } else if vars[0].0 == name {
        Some(vars[0].1)
    } else {
        env_lookup(vars.drop_first(), name)
    }
}

/// The environment after binding `name` to `val`: an existing binding
/// is overwritten in place, a new name is appended.
pub open spec fn env_bind(
    vars: Seq<(Seq<char>, ValueModel)>,
    name: Seq<char>,
    val: ValueModel,
) -> Seq<(Seq<char>, ValueModel)>
    decreases vars.len(),
{
    if vars.len() == 0 {
        seq![(name, val)]
    } else if vars[0].0 == name {
        vars.update(0, (name, val))
    } else {
        seq![vars[0]] + env_bind(vars.drop_first(), name, val)
    }
}

impl Vm {
    /// A fresh machine: empty stack, empty environment, no open block,
    /// no pending output.
    pub fn new() -> (vm: Vm)
        ensures
            vm@ == init_model(),
    {
        let vm = Vm { stack: Vec::new(), vars: Vec::new(), blocks: Vec::new(), output: Vec::new() };
        proof {
            assert(vm@ =~~= init_model());
        }
        vm
    }

    /// Looks `name` up in the variable environment; the returned value
    /// is a copy of the bound one.
    pub fn find_var(&self, name: &str) -> (r: Option<Value>)
        ensures
            match r {
                Some(v) => env_lookup(self@.vars, name@) == Some(v@),
                None => env_lookup(self@.vars, name@) is None,
            },
    {
        let n = self.vars.len();
        let mut i: usize = 0;
        proof {
            assert(self@.vars.skip(0) =~= self@.vars);
        }
        while i < n
            invariant
                n == self.vars@.len(),
                i <= n,
                env_lookup(self@.vars, name@) == env_lookup(
                    self@.vars.skip(i as int),
                    name@,
                ),
            decreases n - i,
        {
            proof {
                assert(self@.vars.skip(i as int).drop_first() =~= self@.vars.skip(i + 1));
                assert(self@.vars.skip(i as int)[0] == self@.vars[i as int]);
            }
            if crate::text::str_eq(self.vars[i].0.as_str(), name) {
                return Some(self.vars[i].1.clone());
            }
            i = i + 1;
        }
        proof {
            assert(self@.vars.skip(n as int) =~= Seq::empty());
        }
        None
    }

    /// Binds `name` to `val`, overwriting any earlier binding of the
    /// same name.
    pub fn bind_var(&mut self, name: String, val: Value)
        ensures
            final(self)@ == (VmModel { vars: env_bind(old(self)@.vars, name@, val@), ..old(self)@ }),
    {
        let n = self.vars.len();
        let mut i: usize = 0;
        while i < n
            invariant
                *self == *old(self),
                n == self.vars@.len(),
                i <= n,
                forall|j: int| 0 <= j < i ==> vars_view(self.vars@)[j].0 != name@,
            decreases n - i,
        {
            if crate::text::str_eq(self.vars[i].0.as_str(), name.as_str()) {
                self.vars.remove(i);
                self.vars.insert(i, (name, val));
                proof {
                    lemma_env_bind_found(vars_view(old(self).vars@), name@, val@, i as int);
                    assert(self.vars@ =~= old(self).vars@.update(i as int, (name, val)));
                    assert(vars_view(self.vars@) =~= vars_view(old(self).vars@).update(
                        i as int,
                        (name@, val@),
                    ));
                    assert(self@ =~~= (VmModel {
                        vars: env_bind(old(self)@.vars, name@, val@),
                        ..old(self)@
                    }));
                }
                return ;
            }
            i = i + 1;
        }
        self.vars.push((name, val));
        proof {
            lemma_env_bind_fresh(vars_view(old(self).vars@), name@, val@);
            assert(vars_view(self.vars@) =~= vars_view(old(self).vars@) + seq![(name@, val@)]);
            assert(self@ =~~= (VmModel {
                vars: env_bind(old(self)@.vars, name@, val@),
                ..old(self)@
            }));
        }
    }
    /// Pushes one value onto the operand stack.
    pub(crate) fn push_value(&mut self, v: Value)
        ensures
            final(self)@ == (VmModel { stack: old(self)@.stack.push(v@), ..old(self)@ }),
    {
        self.stack.push(v);
        proof {
            lemma_views_of_seq(old(self).stack@);
            lemma_views_of_seq(self.stack@);
            assert(views_of_seq(self.stack@) =~= old(self)@.stack.push(v@));
            assert(self@ =~~= (VmModel { stack: old(self)@.stack.push(v@), ..old(self)@ }));
        }
    }

    /// Pops the top of the operand stack, if there is one.
    pub(crate) fn pop_value(&mut self) -> (r: Option<Value>)
        ensures
            match r {
                Some(v) => old(self)@.stack.len() > 0 && v@ == old(self)@.stack.last()
                    && final(self)@ == (VmModel {
                    stack: old(self)@.stack.drop_last(),
                    ..old(self)@
                }),
                None => old(self)@.stack.len() == 0 && final(self)@ == old(self)@,
            },
    {
        let r = self.stack.pop();
        proof {
            lemma_views_of_seq(old(self).stack@);
            lemma_views_of_seq(self.stack@);
            if old(self).stack@.len() > 0 {
                assert(old(self)@.stack.len() > 0);
                assert(r == Some(old(self).stack@[old(self).stack@.len() - 1]));
                assert(r matches Some(v) ==> v@ == old(self)@.stack.last());
                assert(views_of_seq(self.stack@) =~= old(self)@.stack.drop_last());
                assert(self@ =~~= (VmModel {
                    stack: old(self)@.stack.drop_last(),
                    ..old(self)@
                }));
            }
        }
        r
    }

    /// Appends one rendered line to the pending output.
    pub(crate) fn push_output(&mut self, line: String)
        ensures
            final(self)@ == (VmModel { output: old(self)@.output.push(line@), ..old(self)@ }),
    {
        self.output.push(line);
        proof {
            assert(self@.output =~= old(self)@.output.push(line@));
            assert(self@ =~~= (VmModel { output: old(self)@.output.push(line@), ..old(self)@ }));
        }
    }

    /// Opens a fresh block-capture buffer, unconditionally: this is what
    /// makes nesting work without recursion.
    pub(crate) fn open_block_buf(&mut self)
        ensures
            final(self)@ == (VmModel {
                blocks: old(self)@.blocks.push(Seq::empty()),
                ..old(self)@
            }),
    {
        self.blocks.push(Vec::new());
        proof {
            assert(views_of_seq(self.blocks@.last()@) =~= Seq::<ValueModel>::empty());
            assert(self@.blocks =~= old(self)@.blocks.push(Seq::empty()));
            assert(self@ =~~= (VmModel {
                blocks: old(self)@.blocks.push(Seq::empty()),
                ..old(self)@
            }));
        }
    }

    /// Closes the innermost block-capture buffer and hands its contents
    /// out, if one is open.
    pub(crate) fn pop_block_buf(&mut self) -> (r: Option<Vec<Value>>)
        ensures
            match r {
                Some(buf) => old(self)@.blocks.len() > 0 && views_of_seq(buf@) == old(
                    self,
                )@.blocks.last() && final(self)@ == (VmModel {
                    blocks: old(self)@.blocks.drop_last(),
                    ..old(self)@
                }),
                None => old(self)@.blocks.len() == 0 && final(self)@ == old(self)@,
            },
    {
        let r = self.blocks.pop();
        proof {
            if old(self).blocks@.len() > 0 {
                assert(r == Some(old(self).blocks@[old(self).blocks@.len() - 1]));
                assert(old(self)@.blocks.last() == views_of_seq(
                    old(self).blocks@[old(self).blocks@.len() - 1]@,
                ));
                assert(self@.blocks =~= old(self)@.blocks.drop_last());
                assert(self@ =~~= (VmModel {
                    blocks: old(self)@.blocks.drop_last(),
                    ..old(self)@
                }));
            }
        }
        r
    }

    /// Appends one value to the innermost open block-capture buffer.
    pub(crate) fn defer_value(&mut self, code: Value)
        requires
            old(self)@.blocks.len() > 0,
        ensures
            final(self)@ == (VmModel {
                blocks: old(self)@.blocks.update(
                    old(self)@.blocks.len() - 1,
                    old(self)@.blocks.last().push(code@),
                ),
                ..old(self)@
            }),
    {
        let ghost target = old(self)@.blocks.last().push(code@);
        let mut buf = self.blocks.pop().unwrap();
        buf.push(code);
        self.blocks.push(buf);
        proof {
            lemma_views_of_seq(old(self).blocks@.last()@);
            lemma_views_of_seq(buf@);
            assert(views_of_seq(buf@) =~= target);
            assert(self@.blocks =~= old(self)@.blocks.update(
                old(self)@.blocks.len() - 1,
                target,
            ));
            assert(self@ =~~= (VmModel {
                blocks: old(self)@.blocks.update(old(self)@.blocks.len() - 1, target),
                ..old(self)@
            }));
        }
    }
}

/// Binding a name that stands at position `i` updates that position.
proof fn lemma_env_bind_found(
    vars: Seq<(Seq<char>, ValueModel)>,
    name: Seq<char>,
    val: ValueModel,
    i: int,
)
    requires
        0 <= i < vars.len(),
        vars[i].0 == name,
        forall|j: int| 0 <= j < i ==> vars[j].0 != name,
    ensures
        env_bind(vars, name, val) == vars.update(i, (name, val)),
    decreases vars.len(),
{
    if i == 0 {
        assert(env_bind(vars, name, val) =~= vars.update(0, (name, val)));
    } else {
        let d = vars.drop_first();
        assert(forall|j: int| 0 <= j < i - 1 ==> d[j].0 != name);
        lemma_env_bind_found(d, name, val, i - 1);
        assert(seq![vars[0]] + d.update(i - 1, (name, val)) =~= vars.update(i, (name, val)));
    }
}

/// Binding a name that occurs nowhere appends it.
proof fn lemma_env_bind_fresh(
    vars: Seq<(Seq<char>, ValueModel)>,
    name: Seq<char>,
    val: ValueModel,
)
    requires
        forall|j: int| 0 <= j < vars.len() ==> vars[j].0 != name,
    ensures
        env_bind(vars, name, val) == vars + seq![(name, val)],
    decreases vars.len(),
{
    if vars.len() == 0 {
        assert(env_bind(vars, name, val) =~= vars + seq![(name, val)]);
    } else {
        lemma_env_bind_fresh(vars.drop_first(), name, val);
        assert(seq![vars[0]] + (vars.drop_first() + seq![(name, val)]) =~= vars + seq![
            (name, val),
        ]);
    }
}

} // verus!
