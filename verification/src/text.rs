//! Text primitives: word splitting, decimal integer parsing and decimal
//! rendering, each tied to a spec-level definition.

use vstd::prelude::*;

verus! {

/// Character-sequence views of a sequence of strings.
pub open spec fn str_views(ws: Seq<String>) -> Seq<Seq<char>> {
    Seq::new(ws.len(), |i: int| ws[i]@)
}

/// Character-sequence views of a sequence of string slices.
pub open spec fn slice_views(ws: Seq<&str>) -> Seq<Seq<char>> {
    Seq::new(ws.len(), |i: int| ws[i]@)
}

/// String equality, decided character by character.
pub fn str_eq(a: &str, b: &str) -> (r: bool)
    ensures
        r == (a@ == b@),
{
    let an = a.unicode_len();
    let bn = b.unicode_len();
    if an != bn {
        return false;
    }
    let mut i: usize = 0;
    while i < an
        invariant
            i <= an,
            an == a@.len(),
            an == b@.len(),
            forall|j: int| 0 <= j < i ==> a@[j] == b@[j],
        decreases an - i,
    {
        if a.get_char(i) != b.get_char(i) {
            return false;
        }
        i = i + 1;
    }
    proof {
        assert(a@ =~= b@);
    }
    true
}

// ---------------------------------------------------------------------
// Word splitting
// ---------------------------------------------------------------------

/// Whether `c` separates words. A line is split on spaces alone; a whole
/// source is split on line breaks as well, since a line boundary
/// separates words exactly as a space does.
pub open spec fn is_sep(c: char, multiline: bool) -> bool {
    c == ' ' || (multiline && (c == '\n' || c == '\r'))
}

/// The words of `s`: the (possibly empty) chunks between separators, in
/// order. A text with no separator is one word; each separator ends the
/// word before it.
pub open spec fn split_spec(s: Seq<char>, multiline: bool) -> Seq<Seq<char>>
    decreases s.len(),
{
    if s.len() == 0 {
        seq![Seq::<char>::empty()]
    } else {
        let rest = split_spec(s.drop_first(), multiline);
        if is_sep(s[0], multiline) {
            seq![Seq::<char>::empty()] + rest
        } else {
            seq![seq![s[0]] + rest[0]] + rest.drop_first()
        }
    }
}

/// A split always yields at least one word.
proof fn lemma_split_len(s: Seq<char>, multiline: bool)
    ensures
        split_spec(s, multiline).len() >= 1,
    decreases s.len(),
{
    if s.len() > 0 {
        lemma_split_len(s.drop_first(), multiline);
    }
}

/// Splitting at the first separator: everything before it is one word,
/// and the rest splits on its own.
proof fn lemma_split_at_sep(s: Seq<char>, multiline: bool, k: int)
    requires
        0 <= k < s.len(),
        is_sep(s[k], multiline),
        forall|j: int| 0 <= j < k ==> !is_sep(s[j], multiline),
    ensures
        split_spec(s, multiline) == seq![s.take(k)] + split_spec(s.skip(k + 1), multiline),
    decreases k,
{
    lemma_split_len(s.drop_first(), multiline);
    if k == 0 {
        assert(s.take(0) =~= Seq::<char>::empty());
        assert(s.skip(1) =~= s.drop_first());
        assert(split_spec(s, multiline) =~= seq![s.take(0)] + split_spec(
            s.skip(1),
            multiline,
        ));
    } else {
        let d = s.drop_first();
        lemma_split_at_sep(d, multiline, k - 1);
        assert(d.skip(k) =~= s.skip(k + 1));
        assert(seq![s[0]] + d.take(k - 1) =~= s.take(k));
        assert(split_spec(s, multiline) =~= seq![s.take(k)] + split_spec(
            s.skip(k + 1),
            multiline,
        ));
    }
}

/// A text without separators is a single word.
proof fn lemma_split_whole(s: Seq<char>, multiline: bool)
    requires
        forall|j: int| 0 <= j < s.len() ==> !is_sep(s[j], multiline),
    ensures
        split_spec(s, multiline) == seq![s],
    decreases s.len(),
{
    if s.len() == 0 {
        assert(s =~= Seq::<char>::empty());
    } else {
        let d = s.drop_first();
        lemma_split_whole(d, multiline);
        assert(seq![s[0]] + d =~= s);
        assert(split_spec(s, multiline) =~= seq![s]);
    }
}

/// Separator test, executable.
fn sep_char(c: char, multiline: bool) -> (r: bool)
    ensures
        r == is_sep(c, multiline),
{
    c == ' ' || (multiline && (c == '\n' || c == '\r'))
}

/// Splits `s` into its words, as [`split_spec`] describes.
pub fn split_words(s: &str, multiline: bool) -> (words: Vec<String>)
    ensures
        str_views(words@) == split_spec(s@, multiline),
{
    let n = s.unicode_len();
    let mut words: Vec<String> = Vec::new();
    let mut start: usize = 0;
    let mut i: usize = 0;
    proof {
        assert(s@.skip(0) =~= s@);
        assert(str_views(words@) =~= Seq::<Seq<char>>::empty());
        assert(split_spec(s@, multiline) =~= str_views(words@) + split_spec(
            s@.skip(0),
            multiline,
        ));
    }
    while i < n
        invariant
            n == s@.len(),
            start <= i <= n,
            forall|j: int| start <= j < i ==> !is_sep(s@[j], multiline),
            split_spec(s@, multiline) =~= str_views(words@) + split_spec(
                s@.skip(start as int),
                multiline,
            ),
        decreases n - i,
    {
        let c = s.get_char(i);
        if sep_char(c, multiline) {
            let word = s.substring_char(start, i).to_owned();
            proof {
                let tail = s@.skip(start as int);
                lemma_split_at_sep(tail, multiline, i - start);
                assert(tail.take(i - start) =~= s@.subrange(start as int, i as int));
                assert(tail.skip(i - start + 1) =~= s@.skip(i + 1));
                assert(word@ =~= tail.take(i - start));
            }
            words.push(word);
            proof {
                assert(str_views(words@) =~= str_views(words@.drop_last()) + seq![
                    s@.subrange(start as int, i as int),
                ]);
                assert(split_spec(s@, multiline) =~= str_views(words@) + split_spec(
                    s@.skip(i + 1),
                    multiline,
                ));
            }
            start = i + 1;
        }
        i = i + 1;
    }
    let word = s.substring_char(start, n).to_owned();
    proof {
        let tail = s@.skip(start as int);
        lemma_split_whole(tail, multiline);
        assert(word@ =~= tail);
    }
    words.push(word);
    proof {
        assert(str_views(words@) =~= str_views(words@.drop_last()) + seq![
            s@.skip(start as int),
        ]);
        assert(str_views(words@) =~= split_spec(s@, multiline));
    }
    words
}

// ---------------------------------------------------------------------
// Decimal integer literals
// ---------------------------------------------------------------------

/// A decimal digit.
pub open spec fn is_digit(c: char) -> bool {
    '0' as u32 <= c as u32 <= '9' as u32
}

/// The numeric value of a digit character.
pub open spec fn digit_val(c: char) -> int {
    c as u32 - '0' as u32
}

pub open spec fn all_digits(s: Seq<char>) -> bool {
    forall|j: int| 0 <= j < s.len() ==> is_digit(s[j])
}

/// The value of a digit string, most significant digit first.
pub open spec fn digits_val(s: Seq<char>) -> int
    decreases s.len(),
{
    if s.len() == 0 {
        0
    } else {
        digits_val(s.drop_last()) * 10 + digit_val(s.last())
    }
}

/// An integer literal: an optional sign, then one or more digits.
pub open spec fn parse_int_spec(s: Seq<char>) -> Option<int> {
    if s.len() >= 1 && (s[0] == '+' || s[0] == '-') {
        let body = s.drop_first();
        if body.len() >= 1 && all_digits(body) {
            if s[0] == '-' {
                Some(-digits_val(body))
            } else {
                Some(digits_val(body))
            }
        } else {
            None
        }
    } else if s.len() >= 1 && all_digits(s) {
        Some(digits_val(s))
    } else {
        None
    }
}

/// An integer literal that fits a signed 32-bit machine word.
pub open spec fn parse_i32_spec(s: Seq<char>) -> Option<int> {
    match parse_int_spec(s) {
        Some(v) => if -0x8000_0000 <= v <= 0x7fff_ffff {
            Some(v)
        } else {
            None
        },
        None => None,
    }
}

proof fn lemma_digits_val_nonneg(s: Seq<char>)
    requires
        all_digits(s),
    ensures
        digits_val(s) >= 0,
    decreases s.len(),
{
    if s.len() > 0 {
        assert(all_digits(s.drop_last()));
        lemma_digits_val_nonneg(s.drop_last());
    }
}

/// Reading more digits never shrinks the value.
proof fn lemma_digits_val_prefix_le(s: Seq<char>, k: int)
    requires
        all_digits(s),
        0 <= k <= s.len(),
    ensures
        digits_val(s.take(k)) <= digits_val(s),
    decreases s.len() - k,
{
    assert(all_digits(s.take(k)));
    if k < s.len() {
        lemma_digits_val_prefix_le(s, k + 1);
        assert(s.take(k + 1).drop_last() =~= s.take(k));
        lemma_digits_val_nonneg(s.take(k));
        assert(digits_val(s.take(k + 1)) == digits_val(s.take(k)) * 10 + digit_val(
            s[k],
        ));
    } else {
        assert(s.take(k) =~= s);
    }
}

/// Parses `word` as a signed 32-bit decimal literal, as
/// [`parse_i32_spec`] describes; `None` where the word is not such a
/// literal or its value does not fit.
pub fn parse_i32(word: &str) -> (r: Option<i32>)
    ensures
        match r {
            Some(v) => parse_i32_spec(word@) == Some(v as int),
            None => parse_i32_spec(word@) is None,
        },
{
    let n = word.unicode_len();
    if n == 0 {
        return None;
    }
    let first = word.get_char(0);
    let neg = first == '-';
    let signed = neg || first == '+';
    let start: usize = if signed {
        1
    } else {
        0
    };
    if n == start {
        return None;
    }
    let ghost body: Seq<char> = if signed {
        word@.drop_first()
    } else {
        word@
    };
    proof {
        assert(body =~= word@.subrange(start as int, n as int));
    }
    let mut acc: u64 = 0;
    let mut i: usize = start;
    while i < n
        invariant
            n == word@.len(),
            1 <= n,
            start <= i <= n,
            start == 0 || start == 1,
            neg == (word@[0] == '-'),
            signed == (word@[0] == '+' || word@[0] == '-'),
            start == if signed { 1int } else { 0int },
            body == if signed { word@.drop_first() } else { word@ },
            body == word@.subrange(start as int, n as int),
            acc <= 0x8000_0000,
            all_digits(word@.subrange(start as int, i as int)),
            acc == digits_val(word@.subrange(start as int, i as int)),
        decreases n - i,
    {
        let c = word.get_char(i);
        let cu = c as u32;
        if cu < '0' as u32 || cu > '9' as u32 {
            proof {
                assert(body[i - start] == word@[i as int]);
                assert(!is_digit(body[i - start]));
                assert(!all_digits(body));
            }
            return None;
        }
        let d = cu - '0' as u32;
        acc = acc * 10 + d as u64;
        proof {
            assert(word@.subrange(start as int, i + 1).drop_last() =~= word@.subrange(
                start as int,
                i as int,
            ));
            assert(word@.subrange(start as int, i + 1).last() == word@[i as int]);
            assert(digit_val(word@[i as int]) == d);
            assert(acc == digits_val(word@.subrange(start as int, i + 1)));
            assert(forall|j: int| 0 <= j < i + 1 - start ==> is_digit(
                #[trigger] word@.subrange(start as int, i + 1)[j],
            ));
        }
        i = i + 1;
        if acc > 0x8000_0000 {
            proof {
                if all_digits(body) {
                    lemma_digits_val_prefix_le(body, i - start);
                    assert(body.take(i - start) =~= word@.subrange(start as int, i as int));
                    assert(digits_val(body) >= acc);
                }
            }
            return None;
        }
    }
    proof {
        assert(word@.subrange(start as int, i as int) =~= body);
    }
    if neg {
        if acc == 0x8000_0000 {
            Some(i32::MIN)
        } else {
            Some(-(acc as i32))
        }
    } else {
        if acc > 0x7fff_ffff {
            None
        } else {
            Some(acc as i32)
        }
    }
}

// ---------------------------------------------------------------------
// Decimal rendering
// ---------------------------------------------------------------------

/// The character for one digit value.
pub open spec fn digit_char(d: int) -> char {
    if d == 0 {
        '0'
    } else if d == 1 {
        '1'
    } else if d == 2 {
        '2'
    } else if d == 3 {
        '3'
    } else if d == 4 {
        '4'
    } else if d == 5 {
        '5'
    } else if d == 6 {
        '6'
    } else if d == 7 {
        '7'
    } else if d == 8 {
        '8'
    } else {
        '9'
    }
}

/// The decimal rendering of a non-negative integer.
pub open spec fn dec_str(n: int) -> Seq<char>
    decreases n,
{
    if n < 10 {
        seq![digit_char(n)]
    } else {
        dec_str(n / 10) + seq![digit_char(n % 10)]
    }
}

/// The decimal rendering of an integer, with a leading minus sign where
/// it is negative.
pub open spec fn int_str(v: int) -> Seq<char> {
    if v < 0 {
        seq!['-'] + dec_str(-v)
    } else {
        dec_str(v)
    }
}

fn digit_str(d: u32) -> (s: &'static str)
    requires
        d < 10,
    ensures
        s@ == seq![digit_char(d as int)],
{
    proof {
        reveal_strlit("0");
        reveal_strlit("1");
        reveal_strlit("2");
        reveal_strlit("3");
        reveal_strlit("4");
        reveal_strlit("5");
        reveal_strlit("6");
        reveal_strlit("7");
        reveal_strlit("8");
        reveal_strlit("9");
    }
    let s = if d == 0 {
        "0"
    } else if d == 1 {
        "1"
    } else if d == 2 {
        "2"
    } else if d == 3 {
        "3"
    } else if d == 4 {
        "4"
    } else if d == 5 {
        "5"
    } else if d == 6 {
        "6"
    } else if d == 7 {
        "7"
    } else if d == 8 {
        "8"
    } else {
        "9"
    };
    proof {
        assert(s@ =~= seq![digit_char(d as int)]);
    }
    s
}

fn u32_dec(n: u32) -> (s: String)
    ensures
        s@ == dec_str(n as int),
    decreases n,
{
    if n < 10 {
        digit_str(n).to_owned()
    } else {
        let mut s = u32_dec(n / 10);
        s.append(digit_str(n % 10));
        s
    }
}

/// Renders `n` in decimal, as [`int_str`] describes.
pub fn i32_dec(n: i32) -> (s: String)
    ensures
        s@ == int_str(n as int),
{
    if n >= 0 {
        u32_dec(n as u32)
    } else {
        let mag64: i64 = -(n as i64);
        let mag: u32 = mag64 as u32;
        proof {
            reveal_strlit("-");
        }
        let mut s = "-".to_owned();
        let rest = u32_dec(mag);
        s.append(rest.as_str());
        proof {
            assert(s@ =~= seq!['-'] + dec_str(mag as int));
        }
        s
    }
}

} // verus!
