//! Line classification for the block renderer: code-fence openers and
//! closers with their language tags, Markdown headings, and bare-JSON
//! region detection with synthesis of a missing closing delimiter.

use vstd::prelude::*;
use crate::textutil::copy_range;
use crate::textutil::first_nonblank;
use crate::textutil::last_nonblank;
use crate::textutil::trim_end_spec;
use crate::textutil::trim_start_spec;
use crate::textutil::trimmed;

verus! {

/// Whether a line's trimmed content starts with a triple-backtick fence.
pub open spec fn is_fence_line(l: Seq<char>) -> bool {
    let t = trim_start_spec(l);
    t.len() >= 3 && t[0] == '`' && t[1] == '`' && t[2] == '`'
}

/// The number of leading backticks of `t`.
pub open spec fn count_backticks(t: Seq<char>) -> nat
    decreases t.len(),
{
    if t.len() == 0 || t[0] != '`' {
        0
    } else {
        1 + count_backticks(t.drop_first())
    }
}

/// Leading backticks are no more than the whole text.
pub proof fn lemma_count_backticks_le(t: Seq<char>)
    ensures
        count_backticks(t) <= t.len(),
        forall|k: int| 0 <= k < count_backticks(t) ==> t[k] == '`',
        count_backticks(t) < t.len() ==> t[count_backticks(t) as int] != '`',
    decreases t.len(),
{
    if t.len() == 0 || t[0] != '`' {
    } else {
        lemma_count_backticks_le(t.drop_first());
        assert forall|k: int| 0 <= k < count_backticks(t) implies t[k] == '`' by {
            if k > 0 {
                assert(t.drop_first()[k - 1] == t[k]);
            }
        }
        if count_backticks(t) < t.len() {
            assert(t.drop_first()[count_backticks(t) as int - 1] == t[count_backticks(t) as int]);
        }
    }
}

/// The language tag of a fence line: the text after the leading backticks
/// of the trimmed line, itself trimmed.
pub open spec fn fence_tag(l: Seq<char>) -> Seq<char> {
    let t = trim_start_spec(l);
    trimmed(t.skip(count_backticks(t) as int))
}

/// The number of leading `'#'` characters of `l`.
pub open spec fn count_hashes(l: Seq<char>) -> nat
    decreases l.len(),
{
    if l.len() == 0 || l[0] != '#' {
        0
    } else {
        1 + count_hashes(l.drop_first())
    }
}

/// Leading hashes are no more than the whole text.
pub proof fn lemma_count_hashes_le(l: Seq<char>)
    ensures
        count_hashes(l) <= l.len(),
        forall|k: int| 0 <= k < count_hashes(l) ==> l[k] == '#',
        count_hashes(l) < l.len() ==> l[count_hashes(l) as int] != '#',
    decreases l.len(),
{
    if l.len() == 0 || l[0] != '#' {
    } else {
        lemma_count_hashes_le(l.drop_first());
        assert forall|k: int| 0 <= k < count_hashes(l) implies l[k] == '#' by {
            if k > 0 {
                assert(l.drop_first()[k - 1] == l[k]);
            }
        }
        if count_hashes(l) < l.len() {
            assert(l.drop_first()[count_hashes(l) as int - 1] == l[count_hashes(l) as int]);
        }
    }
}

/// Whether `l` is a Markdown heading: one to six leading `'#'` characters
/// followed by a space.
pub open spec fn is_heading(l: Seq<char>) -> bool {
    let n = count_hashes(l);
    1 <= n <= 6 && n < l.len() && l[n as int] == ' '
}

/// The heading level of a heading line.
pub open spec fn heading_level(l: Seq<char>) -> nat {
    count_hashes(l)
}

/// Whether a line opens a bare JSON region: its first character is an
/// opening brace or bracket.
pub open spec fn starts_json(l: Seq<char>) -> bool {
    l.len() > 0 && (l[0] == '{' || l[0] == '[')
}

/// The closing delimiter matching an opening brace or bracket.
pub open spec fn close_delim(open: char) -> char {
    if open == '{' {
        '}'
    } else {
        ']'
    }
}

/// Whether a bare JSON region already carries its matching close at the
/// end of input: its last line ends (ignoring trailing whitespace) with the
/// matching closing delimiter, or the region is a single line holding only
/// the opening delimiter, which counts as already complete.
pub open spec fn json_complete(open: char, ls: Seq<Seq<char>>) -> bool {
    ||| (ls.len() == 1 && trimmed(ls[0]) == seq![open])
    ||| {
        let t = trim_end_spec(ls.last());
        t.len() > 0 && t.last() == close_delim(open)
    }
}

/// The content a bare JSON region hands to the highlighter: the region's
/// lines, with a line holding the matching closing delimiter appended when
/// no close is present by end of input.
pub open spec fn json_region_content(open: char, ls: Seq<Seq<char>>) -> Seq<Seq<char>> {
    if json_complete(open, ls) {
        ls
    } else {
        ls.push(seq![close_delim(open)])
    }
}

/// Whether a line's trimmed content starts with a triple-backtick fence.
pub fn is_fence_line_exec(l: &Vec<char>) -> (r: bool)
    ensures
        r == is_fence_line(l@),
{
    proof {
        assert(l@.skip(0) =~= l@);
    }
    let a = first_nonblank(l, 0);
    if l.len() >= 3 && a <= l.len() - 3 {
        let r = l[a] == '`' && l[a + 1] == '`' && l[a + 2] == '`';
        proof {
            let t = trim_start_spec(l@);
            assert(t =~= l@.skip(a as int));
            assert(t.len() == l@.len() - a);
            assert(t.len() >= 3);
            assert(t[0] == l@[a as int] && t[1] == l@[a as int + 1] && t[2] == l@[a as int + 2]);
        }
        r
    } else {
        proof {
            let t = trim_start_spec(l@);
            assert(t =~= l@.skip(a as int));
            assert(t.len() < 3);
        }
        false
    }
}

/// The language tag of a fence line.
pub fn fence_tag_exec(l: &Vec<char>) -> (r: Vec<char>)
    ensures
        r@ == fence_tag(l@),
{
    proof {
        assert(l@.skip(0) =~= l@);
    }
    let a = first_nonblank(l, 0);
    let ghost t = trim_start_spec(l@);
    proof {
        assert(t =~= l@.skip(a as int));
    }
    // count the backticks that open the fence
    let mut b: usize = a;
    while b < l.len() && l[b] == '`'
        invariant
            a <= b <= l@.len(),
            t == l@.skip(a as int),
            count_backticks(t) == (b - a) + count_backticks(l@.skip(b as int)),
        decreases l@.len() - b,
    {
        proof {
            assert(l@.skip(b as int)[0] == l@[b as int]);
            assert(l@.skip(b as int).drop_first() =~= l@.skip(b as int + 1));
        }
        b += 1;
    }
    proof {
        if b < l@.len() {
            assert(l@.skip(b as int)[0] == l@[b as int]);
            assert(count_backticks(l@.skip(b as int)) == 0);
        } else {
            assert(l@.skip(b as int) =~= Seq::<char>::empty());
            assert(count_backticks(l@.skip(b as int)) == 0);
        }
        assert(count_backticks(t) == b - a);
        assert(t.skip(count_backticks(t) as int) =~= l@.skip(b as int));
    }
    // trim the remainder on both sides
    let c = first_nonblank(l, b);
    let cs = copy_range(l, c, l.len());
    proof {
        assert(cs@ =~= l@.skip(c as int));
    }
    let d = last_nonblank(&cs, cs.len());
    let r = copy_range(&cs, 0, d);
    proof {
        assert(cs@.take(cs@.len() as int) =~= cs@);
        assert(r@ =~= cs@.take(d as int));
        assert(trim_end_spec(trim_start_spec(l@.skip(b as int))) == r@);
    }
    r
}

/// The heading level of a line: 1 to 6 for a heading, 0 otherwise.
pub fn heading_level_exec(l: &Vec<char>) -> (r: usize)
    ensures
        is_heading(l@) ==> r == heading_level(l@),
        !is_heading(l@) ==> r == 0,
{
    let mut n: usize = 0;
    proof {
        assert(l@.skip(0) =~= l@);
    }
    while n < l.len() && l[n] == '#'
        invariant
            n <= l@.len(),
            count_hashes(l@) == n + count_hashes(l@.skip(n as int)),
        decreases l@.len() - n,
    {
        proof {
            assert(l@.skip(n as int)[0] == l@[n as int]);
            assert(l@.skip(n as int).drop_first() =~= l@.skip(n as int + 1));
        }
        n += 1;
    }
    proof {
        if n < l@.len() {
            assert(l@.skip(n as int)[0] == l@[n as int]);
            assert(count_hashes(l@.skip(n as int)) == 0);
        } else {
            assert(l@.skip(n as int) =~= Seq::<char>::empty());
            assert(count_hashes(l@.skip(n as int)) == 0);
        }
        assert(count_hashes(l@) == n);
    }
    if 1 <= n && n <= 6 && n < l.len() && l[n] == ' ' {
        n
    } else {
        0
    }
}

/// Whether a bare JSON region is already complete at end of input.
pub fn json_complete_exec(open: char, ls: &Vec<Vec<char>>) -> (r: bool)
    requires
        ls@.len() > 0,
    ensures
        r == json_complete(open, ls.deep_view()),
{
    let ghost lsv = ls.deep_view();
    let last = &ls[ls.len() - 1];
    proof {
        assert(lsv.last() == last@);
    }
    let j = last_nonblank(last, last.len());
    proof {
        assert(last@.take(last@.len() as int) =~= last@);
    }
    let tail_closed = j > 0 && last[j - 1] == close_delim_exec(open);
    proof {
        let te = trim_end_spec(lsv.last());
        assert(te == last@.take(j as int));
        if j > 0 {
            assert(te.last() == last@[j as int - 1]);
        }
        assert(tail_closed == (te.len() > 0 && te.last() == close_delim(open)));
    }
    if tail_closed {
        true
    } else if ls.len() == 1 {
        let first = &ls[0];
        proof {
            assert(lsv[0] == first@);
        }
        proof {
            assert(first@.skip(0) =~= first@);
        }
        let a = first_nonblank(first, 0);
        let cs = copy_range(first, a, first.len());
        proof {
            assert(cs@ =~= first@.skip(a as int));
        }
        let d = last_nonblank(&cs, cs.len());
        proof {
            assert(cs@.take(cs@.len() as int) =~= cs@);
            assert(trimmed(lsv[0]) == cs@.take(d as int));
            if d == 1 {
                assert(cs@.take(1).len() == 1 && cs@.take(1)[0] == cs@[0]);
                if cs@[0] == open {
                    assert(cs@.take(d as int) =~= seq![open]);
                }
            } else {
                assert(cs@.take(d as int).len() != 1);
                assert(cs@.take(d as int) != seq![open]);
            }
        }
        d == 1 && cs[0] == open
    } else {
        false
    }
}

/// The closing delimiter matching an opening brace or bracket.
pub fn close_delim_exec(open: char) -> (r: char)
    ensures
        r == close_delim(open),
{
    if open == '{' {
        '}'
    } else {
        ']'
    }
}

} // verus!
