//! Text utilities over character sequences: conversion between `String`
//! and `Vec<char>`, line splitting, whitespace trimming, padding, and
//! decimal formatting of line numbers.

use vstd::prelude::*;
use vstd::string::StrSliceExecFns;

verus! {

broadcast use vstd::string::group_string_axioms;

/// Relies on `String::push`: appends one character at the end.
#[verifier::external_body]
pub(crate) fn push_char(s: &mut String, c: char)
    ensures
        final(s)@ == old(s)@.push(c),
{
    s.push(c);
}

/// The characters of a string slice, in order.
pub fn chars_of(s: &str) -> (v: Vec<char>)
    ensures
        v@ == s@,
{
    let n = s.unicode_len();
    let mut v: Vec<char> = Vec::new();
    let mut i: usize = 0;
    while i < n
        invariant
            i <= n,
            n == s@.len(),
            v@ == s@.subrange(0, i as int),
        decreases n - i,
    {
        v.push(s.get_char(i));
        i += 1;
        proof {
            assert(v@ =~= s@.subrange(0, i as int));
        }
    }
    proof {
        assert(v@ =~= s@);
    }
    v
}

/// A string holding exactly the given characters.
pub fn string_of(v: &Vec<char>) -> (s: String)
    ensures
        s@ == v@,
{
    let mut s = String::new();
    let mut i: usize = 0;
    while i < v.len()
        invariant
            i <= v.len(),
            s@ == v@.subrange(0, i as int),
        decreases v.len() - i,
    {
        push_char(&mut s, v[i]);
        i += 1;
        proof {
            assert(s@ =~= v@.subrange(0, i as int));
        }
    }
    proof {
        assert(s@ =~= v@);
    }
    s
}

/// A vector of `n` copies of the character `c`.
pub fn repeat_char(c: char, n: usize) -> (v: Vec<char>)
    ensures
        v@ == Seq::new(n as nat, |i: int| c),
{
    let mut v: Vec<char> = Vec::new();
    let mut i: usize = 0;
    while i < n
        invariant
            i <= n,
            v@ == Seq::new(i as nat, |k: int| c),
        decreases n - i,
    {
        v.push(c);
        i += 1;
        proof {
            assert(v@ =~= Seq::new(i as nat, |k: int| c));
        }
    }
    v
}

/// A copy of the characters of `v` between `a` (inclusive) and `b`
/// (exclusive).
pub fn copy_range(v: &Vec<char>, a: usize, b: usize) -> (r: Vec<char>)
    requires
        a <= b <= v@.len(),
    ensures
        r@ == v@.subrange(a as int, b as int),
{
    let mut r: Vec<char> = Vec::new();
    let mut i: usize = a;
    while i < b
        invariant
            a <= i <= b <= v@.len(),
            r@ == v@.subrange(a as int, i as int),
        decreases b - i,
    {
        r.push(v[i]);
        i += 1;
        proof {
            assert(r@ =~= v@.subrange(a as int, i as int));
        }
    }
    r
}

/// The lines of a text, split at `'\n'`. The final line is not followed by
/// a separator; a text ending in `'\n'` contributes no trailing empty line,
/// and the empty text has no lines at all.
pub open spec fn split_lines(s: Seq<char>) -> Seq<Seq<char>>
    decreases s.len(),
{
    if s.len() == 0 {
        Seq::empty()
    } else if s[0] == '\n' {
        seq![Seq::<char>::empty()] + split_lines(s.drop_first())
    } else {
        let rest = split_lines(s.drop_first());
        if rest.len() == 0 {
            seq![seq![s[0]]]
        } else {
            seq![seq![s[0]] + rest[0]] + rest.drop_first()
        }
    }
}

/// Splitting a text that starts with a newline-free prefix `p` followed by
/// `'\n'` yields `p` and then the lines of the remainder.
pub proof fn lemma_split_lines_step(p: Seq<char>, r: Seq<char>)
    requires
        forall|i: int| 0 <= i < p.len() ==> p[i] != '\n',
    ensures
        split_lines(p + seq!['\n'] + r) == seq![p] + split_lines(r),
    decreases p.len(),
{
    let s = p + seq!['\n'] + r;
    if p.len() == 0 {
        assert(s[0] == '\n');
        assert(s.drop_first() =~= r);
        assert(p =~= Seq::<char>::empty());
        assert(seq![Seq::<char>::empty()] + split_lines(r) =~~= seq![p] + split_lines(r));
    } else {
        assert(s[0] == p[0]);
        assert(s[0] != '\n');
        assert(s.drop_first() =~= p.drop_first() + seq!['\n'] + r);
        lemma_split_lines_step(p.drop_first(), r);
        let rest = split_lines(s.drop_first());
        assert(rest == seq![p.drop_first()] + split_lines(r));
        assert(rest.len() > 0);
        assert(rest[0] == p.drop_first());
        assert(seq![s[0]] + rest[0] =~= p);
        assert(rest.drop_first() =~= split_lines(r));
        assert(split_lines(s) =~= seq![p] + split_lines(r));
    }
}

/// A nonempty newline-free text is a single line.
pub proof fn lemma_split_lines_whole(p: Seq<char>)
    requires
        forall|i: int| 0 <= i < p.len() ==> p[i] != '\n',
        p.len() > 0,
    ensures
        split_lines(p) == seq![p],
    decreases p.len(),
{
    if p.len() == 1 {
        assert(p.drop_first() =~= Seq::<char>::empty());
        assert(split_lines(p.drop_first()) =~~= Seq::<Seq<char>>::empty());
        assert(split_lines(p) =~~= seq![seq![p[0]]]);
        assert(seq![p[0]] =~= p);
        assert(split_lines(p) =~~= seq![p]);
    } else {
        lemma_split_lines_whole(p.drop_first());
        let rest = split_lines(p.drop_first());
        assert(rest.len() == 1);
        assert(seq![p[0]] + rest[0] =~= p);
        assert(rest.drop_first() =~~= Seq::<Seq<char>>::empty());
        assert(split_lines(p) =~~= seq![p]);
    }
}

/// The lines of the given text, as vectors of characters.
pub fn split_lines_exec(v: &Vec<char>) -> (r: Vec<Vec<char>>)
    ensures
        r.deep_view() == split_lines(v@),
{
    let mut out: Vec<Vec<char>> = Vec::new();
    let mut cur: Vec<char> = Vec::new();
    let mut i: usize = 0;
    proof {
        assert(cur@ + v@.skip(0) =~= v@);
        assert(out.deep_view() + split_lines(cur@ + v@.skip(0)) =~= split_lines(v@));
    }
    while i < v.len()
        invariant
            i <= v.len(),
            forall|k: int| 0 <= k < cur@.len() ==> cur@[k] != '\n',
            split_lines(v@) == out.deep_view() + split_lines(cur@ + v@.skip(i as int)),
        decreases v.len() - i,
    {
        let ghost prev_cur = cur@;
        let ghost prev_out = out.deep_view();
        let c = v[i];
        if c == '\n' {
            proof {
                assert(cur@ + v@.skip(i as int) =~= cur@ + seq!['\n'] + v@.skip(i as int + 1));
                lemma_split_lines_step(cur@, v@.skip(i as int + 1));
            }
            out.push(cur);
            cur = Vec::new();
            proof {
                assert(out.deep_view() =~~= prev_out.push(prev_cur));
                assert(out.deep_view() + split_lines(cur@ + v@.skip(i as int + 1)) =~~= prev_out
                    + (seq![prev_cur] + split_lines(v@.skip(i as int + 1))));
            }
        } else {
            cur.push(c);
            proof {
                assert(cur@ + v@.skip(i as int + 1) =~= prev_cur + v@.skip(i as int));
            }
        }
        i += 1;
    }
    proof {
        assert(cur@ + v@.skip(i as int) =~= cur@);
    }
    if cur.len() > 0 {
        proof {
            lemma_split_lines_whole(cur@);
        }
        let ghost prev_out = out.deep_view();
        let ghost last = cur@;
        out.push(cur);
        proof {
            assert(out.deep_view() =~~= prev_out.push(last));
            assert(prev_out + seq![last] =~~= prev_out.push(last));
        }
    } else {
        proof {
            assert(out.deep_view() + split_lines(cur@) =~= out.deep_view());
        }
    }
    out
}

/// A run of `n` spaces.
pub open spec fn spaces(n: nat) -> Seq<char> {
    Seq::new(n, |i: int| ' ')
}

/// `s` padded on the right with spaces to width `w`; text already at least
/// `w` characters wide is returned unchanged, never truncated.
pub open spec fn pad_to(s: Seq<char>, w: nat) -> Seq<char> {
    if s.len() >= w {
        s
    } else {
        s + spaces((w - s.len()) as nat)
    }
}

/// A horizontal rule: `w` repetitions of the box-drawing dash.
pub open spec fn rule_chars(w: nat) -> Seq<char> {
    Seq::new(w, |i: int| '─')
}

/// The character for the decimal digit `d`.
pub open spec fn digit_char(d: nat) -> char {
    ((d + 48) as char)
}

/// The decimal digit characters of `n`, most significant first.
pub open spec fn dec_digits(n: nat) -> Seq<char>
    decreases n,
{
    if n < 10 {
        seq![digit_char(n)]
    } else {
        dec_digits(n / 10).push(digit_char(n % 10))
    }
}

/// The decimal digit characters of `n`.
pub fn to_decimal(n: usize) -> (r: Vec<char>)
    ensures
        r@ == dec_digits(n as nat),
    decreases n,
{
    if n < 10 {
        let d: u8 = 48 + (n as u8);
        let c: char = d as char;
        proof {
            assert(c == digit_char(n as nat));
        }
        let mut r: Vec<char> = Vec::new();
        r.push(c);
        proof {
            assert(r@ =~= dec_digits(n as nat));
        }
        r
    } else {
        let mut r = to_decimal(n / 10);
        let m: usize = n % 10;
        let d: u8 = 48 + (m as u8);
        let c: char = d as char;
        proof {
            assert(c == digit_char((n as nat) % 10));
        }
        r.push(c);
        r
    }
}

/// Whether `c` is horizontal whitespace (space, tab, or carriage return).
pub open spec fn is_blank(c: char) -> bool {
    c == ' ' || c == '\t' || c == '\r'
}

/// `s` without leading whitespace.
pub open spec fn trim_start_spec(s: Seq<char>) -> Seq<char>
    decreases s.len(),
{
    if s.len() == 0 {
        s
    } else if is_blank(s[0]) {
        trim_start_spec(s.drop_first())
    } else {
        s
    }
}

/// `s` without trailing whitespace.
pub open spec fn trim_end_spec(s: Seq<char>) -> Seq<char>
    decreases s.len(),
{
    if s.len() == 0 {
        s
    } else if is_blank(s.last()) {
        trim_end_spec(s.drop_last())
    } else {
        s
    }
}

/// `s` without leading or trailing whitespace.
pub open spec fn trimmed(s: Seq<char>) -> Seq<char> {
    trim_end_spec(trim_start_spec(s))
}

/// The index of the first non-whitespace character of `v`, or its length
/// when every character is whitespace; what trimming from the start keeps.
pub fn first_nonblank(v: &Vec<char>, from: usize) -> (i: usize)
    requires
        from <= v@.len(),
    ensures
        from <= i <= v@.len(),
        trim_start_spec(v@.skip(from as int)) == v@.skip(i as int),
        forall|k: int| from <= k < i ==> is_blank(v@[k]),
        i < v@.len() ==> !is_blank(v@[i as int]),
    decreases v@.len() - from,
{
    if from == v.len() {
        proof {
            assert(v@.skip(from as int) =~= Seq::<char>::empty());
        }
        from
    } else {
        let c = v[from];
        if c == ' ' || c == '\t' || c == '\r' {
            proof {
                assert(v@.skip(from as int).drop_first() =~= v@.skip(from as int + 1));
            }
            first_nonblank(v, from + 1)
        } else {
            from
        }
    }
}

/// The length `v` keeps after trimming trailing whitespace from the prefix
/// `v[..upto]`.
pub fn last_nonblank(v: &Vec<char>, upto: usize) -> (j: usize)
    requires
        upto <= v@.len(),
    ensures
        j <= upto,
        trim_end_spec(v@.take(upto as int)) == v@.take(j as int),
        j > 0 ==> !is_blank(v@[j as int - 1]),
    decreases upto,
{
    if upto == 0 {
        proof {
            assert(v@.take(0) =~= Seq::<char>::empty());
        }
        0
    } else {
        let c = v[upto - 1];
        if c == ' ' || c == '\t' || c == '\r' {
            proof {
                assert(v@.take(upto as int).last() == c);
                assert(v@.take(upto as int).drop_last() =~= v@.take(upto as int - 1));
            }
            last_nonblank(v, upto - 1)
        } else {
            proof {
                assert(v@.take(upto as int).last() == c);
            }
            upto
        }
    }
}

} // verus!
