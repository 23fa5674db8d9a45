//! The tokenizer and its drivers: feeding words, lines and whole
//! sources to the evaluator, and standalone block capture over a word
//! list.

pub mod dispatch;
pub mod operations;

use vstd::prelude::*;

use crate::machine::{init_model, Error, Vm, VmModel};
use crate::semantics::{
    collapse_m, parse_block_m, source_step_m, step_matches, words_step_m, MAX_DEPTH,
};
use crate::text::{slice_views, split_spec, split_words, str_views};
use crate::value::{views_of_seq, Value, ValueModel};

verus! {

broadcast use crate::value::group_value_views;

/// The buffer-stack model of a vector of capture buffers.
pub open spec fn buf_views(bufs: Seq<Vec<Value>>) -> Seq<Seq<ValueModel>> {
    Seq::new(bufs.len(), |i: int| views_of_seq(bufs[i]@))
}

/// Feeds every word to the evaluator, in order.
fn run_words(words: &Vec<String>, vm: &mut Vm) -> (r: Result<(), Error>)
    ensures
        step_matches(
            r,
            final(vm)@,
            words_step_m(old(vm)@, str_views(words@), MAX_DEPTH as nat),
        ),
{
    let ghost m0 = vm@;
    let ghost ws = str_views(words@);
    let n = words.len();
    let mut i: usize = 0;
    proof {
        assert(ws.skip(0) =~= ws);
    }
    while i < n
        invariant
            m0 == old(vm)@,
            n == words@.len(),
            i <= n,
            ws == str_views(words@),
            words_step_m(m0, ws, MAX_DEPTH as nat) == words_step_m(
                vm@,
                ws.skip(i as int),
                MAX_DEPTH as nat,
            ),
        decreases n - i,
    {
        proof {
            assert(ws.skip(i as int)[0] == ws[i as int]);
            assert(ws.skip(i as int).drop_first() =~= ws.skip(i + 1));
        }
        match dispatch::parse_word(words[i].as_str(), vm) {
            Ok(()) => {}
            Err(e) => {
                return Err(e);
            }
        }
        i = i + 1;
    }
    proof {
        assert(ws.skip(n as int) =~= Seq::<Seq<char>>::empty());
    }
    Ok(())
}

/// Feeds one line to the evaluator: its words, split on spaces, in
/// order. Block capture left open by an earlier line continues across
/// this one, so a stream may be handed over line by line.
pub fn parse(line: &str, vm: &mut Vm) -> (r: Result<(), Error>)
    ensures
        step_matches(
            r,
            final(vm)@,
            words_step_m(old(vm)@, split_spec(line@, false), MAX_DEPTH as nat),
        ),
{
    let words = split_words(line, false);
    run_words(&words, vm)
}

/// Runs a whole source on a fresh machine and yields the final operand
/// stack.
pub fn parse_batch(source: &str) -> (r: Result<Vec<Value>, Error>)
    ensures
        match r {
            Ok(vals) => source_step_m(init_model(), source@, MAX_DEPTH as nat) matches Ok(m)
                && views_of_seq(vals@) == m.stack,
            Err(e) => source_step_m(init_model(), source@, MAX_DEPTH as nat) == Err::<
                VmModel,
                Error,
            >(e),
        },
{
    let mut vm = Vm::new();
    let words = split_words(source, true);
    match run_words(&words, &mut vm) {
        Ok(()) => Ok(vm.stack),
        Err(e) => Err(e),
    }
}

/// Closes every buffer still open, innermost first.
fn collapse(bufs: &mut Vec<Vec<Value>>) -> (v: Value)
    requires
        old(bufs)@.len() >= 1,
    ensures
        v@ == collapse_m(buf_views(old(bufs)@)),
{
    let ghost target = collapse_m(buf_views(old(bufs)@));
    while bufs.len() > 1
        invariant
            bufs@.len() >= 1,
            collapse_m(buf_views(bufs@)) == target,
        decreases bufs@.len(),
    {
        let ghost before = buf_views(bufs@);
        let inner = bufs.pop().unwrap();
        let mut parent = bufs.pop().unwrap();
        parent.push(Value::Block(inner));
        bufs.push(parent);
        proof {
            crate::value::lemma_views_of_seq(parent@);
            crate::value::lemma_views_of_seq(inner@);
            assert(buf_views(bufs@) =~~= before.drop_last().update(
                before.len() - 2,
                before[before.len() - 2].push(ValueModel::Block(before.last())),
            ));
        }
    }
    let last = bufs.pop().unwrap();
    proof {
        assert(collapse_m(buf_views(old(bufs)@)) == ValueModel::Block(views_of_seq(last@)));
    }
    Value::Block(last)
}

/// Standalone block capture over a word list: assembles one block from
/// the words up to its matching close delimiter (an empty word or the
/// end of the input closes everything still open), and returns it with
/// the words not consumed.
pub fn parse_block<'s, 'a>(input: &'a [&'s str]) -> (r: (Value, &'a [&'s str]))
    ensures
        r.0@ == parse_block_m(seq![Seq::<ValueModel>::empty()], slice_views(input@)).0,
        slice_views(r.1@) == parse_block_m(seq![Seq::<ValueModel>::empty()], slice_views(input@)).1,
{
    let ghost all = slice_views(input@);
    let mut bufs: Vec<Vec<Value>> = Vec::new();
    bufs.push(Vec::new());
    let n = input.len();
    let mut i: usize = 0;
    proof {
        assert(buf_views(bufs@) =~~= seq![Seq::<ValueModel>::empty()]);
        assert(all.skip(0) =~= all);
    }
    while i < n
        invariant
            n == input@.len(),
            i <= n,
            all == slice_views(input@),
            bufs@.len() >= 1,
            parse_block_m(seq![Seq::<ValueModel>::empty()], all) == parse_block_m(
                buf_views(bufs@),
                all.skip(i as int),
            ),
        decreases n - i,
    {
        let word: &str = *vstd::slice::slice_index_get(input, i);
        let ghost rest = all.skip(i as int);
        proof {
            assert(rest[0] == all[i as int]);
            assert(word@ == rest[0]);
            assert(rest.drop_first() =~= all.skip(i + 1));
        }
        if word.is_empty() {
            let v = collapse(&mut bufs);
            let remaining = vstd::slice::slice_subrange(input, i, n);
            proof {
                assert(slice_views(remaining@) =~= all.skip(i as int));
            }
            return (v, remaining);
        } else if crate::text::str_eq(word, "{") {
            let ghost before = buf_views(bufs@);
            bufs.push(Vec::new());
            proof {
                assert(buf_views(bufs@) =~~= before.push(Seq::<ValueModel>::empty()));
            }
        } else if crate::text::str_eq(word, "}") {
            let ghost before = buf_views(bufs@);
            let top = bufs.pop().unwrap();
            if bufs.is_empty() {
                let remaining = vstd::slice::slice_subrange(input, i + 1, n);
                proof {
                    assert(slice_views(remaining@) =~= all.skip(i + 1));
                    assert(before[0] == views_of_seq(top@));
                }
                return (Value::Block(top), remaining);
            }
            let mut parent = bufs.pop().unwrap();
            parent.push(Value::Block(top));
            bufs.push(parent);
            proof {
                crate::value::lemma_views_of_seq(parent@);
                crate::value::lemma_views_of_seq(top@);
                assert(buf_views(bufs@) =~~= before.drop_last().update(
                    before.len() - 2,
                    before[before.len() - 2].push(ValueModel::Block(before.last())),
                ));
            }
        } else {
            let ghost before = buf_views(bufs@);
            let code = dispatch::classify(word);
            let mut top = bufs.pop().unwrap();
            top.push(code);
            bufs.push(top);
            proof {
                crate::value::lemma_views_of_seq(top@);
                assert(buf_views(bufs@) =~~= before.update(
                    before.len() - 1,
                    before.last().push(crate::semantics::classify_spec(word@)),
                ));
            }
        }
        i = i + 1;
    }
    let v = collapse(&mut bufs);
    let remaining = vstd::slice::slice_subrange(input, n, n);
    proof {
        assert(slice_views(remaining@) =~= all.skip(n as int));
        assert(all.skip(n as int) =~= Seq::<Seq<char>>::empty());
    }
    (v, remaining)
}

} // verus!
