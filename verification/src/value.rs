//! The runtime value model: a closed tagged union over every datum the
//! machine can hold, together with its ghost-level shape.

use vstd::prelude::*;

use crate::text::int_str;

verus! {

broadcast use vstd::std_specs::vec::group_vec_axioms, vstd::seq::axiom_seq_index_decreases;

/// The closed enumeration of built-in operations. Operator names resolve
/// to one of these before the variable environment is consulted, so a
/// builtin always shadows a user binding of the same name.
#[derive(Clone, Copy, PartialEq, Eq, Structural, Debug)]
pub enum Builtin {
    Add,
    Sub,
    Mul,
    Div,
    Lt,
    Dup,
    Swap,
    Def,
    If,
    Puts,
}

/// A native operation reference: a builtin that can be bound into the
/// variable environment, where it dispatches identically to an
/// interpreted block.
#[derive(Clone, Copy, PartialEq, Eq, Structural, Debug)]
pub struct NativeOp(pub Builtin);

/// One runtime datum.
#[derive(PartialEq, Eq, Debug)]
pub enum Value {
    /// A signed 32-bit numeric literal or arithmetic result.
    Num(i32),
    /// A bare token, resolved as a builtin or a variable at dispatch time.
    Op(String),
    /// A name literal (written with a leading marker), used only as the
    /// left operand of the binding operation.
    Symbol(String),
    /// A captured, unevaluated sequence of values; data until invoked.
    Block(Vec<Value>),
    /// A builtin reference bound into the environment.
    Native(NativeOp),
}

/// The ghost shape of a [`Value`]: names as character sequences, blocks
/// as sequences of shapes.
#[verifier::ext_equal]
pub enum ValueModel {
    Num(i32),
    Op(Seq<char>),
    Symbol(Seq<char>),
    Block(Seq<ValueModel>),
    Native(Builtin),
}

/// The shape of one value.
pub open spec fn value_view(v: Value) -> ValueModel
    decreases v,
    via value_view_decreases
{
    match v {
        Value::Num(n) => ValueModel::Num(n),
        Value::Op(name) => ValueModel::Op(name@),
        Value::Symbol(name) => ValueModel::Symbol(name@),
        Value::Block(items) => ValueModel::Block(views_of_seq(items@)),
        Value::Native(op) => ValueModel::Native(op.0),
    }
}

/// The shapes of a sequence of values, element by element.
pub open spec fn views_of_seq(items: Seq<Value>) -> Seq<ValueModel>
    decreases items,
    via views_of_seq_decreases
{
    if items.len() == 0 {
        Seq::empty()
    } else {
        seq![value_view(items[0])] + views_of_seq(items.drop_first())
    }
}

#[via_fn]
proof fn value_view_decreases(v: Value) {
    match v {
        Value::Block(items) => {
            assert(decreases_to!(v => items));
            assert(decreases_to!(items => items@));
        }
        _ => {}
    }
}

#[via_fn]
proof fn views_of_seq_decreases(items: Seq<Value>) {
    if items.len() > 0 {
        assert(decreases_to!(items => items[0]));
        assert(decreases_to!(items => items.drop_first())) by {
            vstd::seq::axiom_seq_len_decreases(items, items.drop_first());
        }
    }
}

impl View for Value {
    type V = ValueModel;

    open spec fn view(&self) -> ValueModel {
        value_view(*self)
    }
}

/// `views_of_seq` visits the elements one by one: position `i` of the
/// result is the shape of element `i`.
pub broadcast proof fn lemma_views_of_seq(items: Seq<Value>)
    ensures
        (#[trigger] views_of_seq(items)).len() == items.len(),
        forall|i: int| 0 <= i < items.len() ==> views_of_seq(items)[i] == items[i]@,
    decreases items.len(),
{
    if items.len() > 0 {
        lemma_views_of_seq(items.drop_first());
    }
}

/// Appending one value appends its shape.
pub broadcast proof fn lemma_views_of_push(items: Seq<Value>, v: Value)
    ensures
        #[trigger] views_of_seq(items.push(v)) == views_of_seq(items).push(v@),
{
    lemma_views_of_seq(items.push(v));
    lemma_views_of_seq(items);
    assert(views_of_seq(items.push(v)) =~= views_of_seq(items).push(v@));
}

/// The element-by-element facts about [`views_of_seq`], available
/// wherever a sequence of values meets its model.
pub broadcast group group_value_views {
    lemma_views_of_seq,
    lemma_views_of_push,
}

/// The textual rendering of a value: numbers in decimal, names bare,
/// blocks and native references as opaque placeholders (their contents
/// are not serialized).
pub open spec fn render(m: ValueModel) -> Seq<char> {
    match m {
        ValueModel::Num(n) => int_str(n as int),
        ValueModel::Op(name) => name,
        ValueModel::Symbol(name) => name,
        ValueModel::Block(_) => "<Block>"@,
        ValueModel::Native(_) => "<NativeOp>"@,
    }
}

impl Value {
    /// The contents of a block value. Calling this on any other variant
    /// is a programmer error, ruled out by the precondition.
    pub fn as_block_vec(self) -> (r: Vec<Value>)
        requires
            self is Block,
        ensures
            self@ == ValueModel::Block(views_of_seq(r@)),
    {
        match self {
            Value::Block(items) => items,
            _ => vstd::pervasive::unreached(),
        }
    }

    /// The number a numeric value holds. Calling this on any other
    /// variant is a programmer error, ruled out by the precondition.
    pub fn as_num(&self) -> (r: i32)
        requires
            self is Num,
        ensures
            self@ == ValueModel::Num(r),
    {
        match self {
            Value::Num(n) => *n,
            _ => vstd::pervasive::unreached(),
        }
    }

    /// The textual form of the value, as [`render`] describes.
    pub fn to_string(&self) -> (r: String)
        ensures
            r@ == render(self@),
    {
        match self {
            Value::Num(n) => crate::text::i32_dec(*n),
            Value::Op(name) => name.clone(),
            Value::Symbol(name) => name.clone(),
            Value::Block(_) => "<Block>".to_owned(),
            Value::Native(_) => "<NativeOp>".to_owned(),
        }
    }
}

impl Clone for Value {
    /// A deep copy; the copy has the same shape as the original.
    fn clone(&self) -> (res: Self)
        ensures
            res@ == self@,
        decreases *self,
    {
        match self {
            Value::Num(n) => Value::Num(*n),
            Value::Op(name) => Value::Op(name.clone()),
            Value::Symbol(name) => Value::Symbol(name.clone()),
            Value::Block(items) => {
                let mut copied: Vec<Value> = Vec::new();
                let mut i: usize = 0;
                while i < items.len()
                    invariant
                        *self is Block,
                        *items == self->Block_0,
                        i <= items@.len(),
                        copied@.len() == i,
                        forall|j: int| 0 <= j < i ==> copied@[j]@ == items@[j]@,
                    decreases items@.len() - i,
                {
                    proof {
                        assert(*items == self->Block_0);
                        assert(decreases_to!(*self => self->Block_0));
                        assert(decreases_to!(*items => items@));
                        assert(decreases_to!(items@ => items@[i as int]));
                    }
                    copied.push(items[i].clone());
                    i = i + 1;
                }
                proof {
                    lemma_views_of_seq(copied@);
                    lemma_views_of_seq(items@);
                    assert(views_of_seq(copied@) =~= views_of_seq(items@));
                }
                Value::Block(copied)
            }
            Value::Native(op) => Value::Native(NativeOp(op.0)),
        }
    }
}

} // verus!
