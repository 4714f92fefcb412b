//! Language resolver: maps a user-supplied fence language tag to a
//! canonical syntax-definition key through a fixed alias table. Total,
//! never fails; an unknown tag is returned lower-cased and otherwise
//! unchanged, to be treated as "unknown" downstream.

use vstd::prelude::*;
use crate::textutil::chars_of;
use crate::textutil::string_of;

verus! {

/// ASCII lower-casing of one character.
pub open spec fn lower_char(c: char) -> char {
    if 'A' <= c && c <= 'Z' {
        ((c as u32) + 32) as char
    } else {
        c
    }
}

/// ASCII lower-casing of a character sequence.
pub open spec fn lower_chars(s: Seq<char>) -> Seq<char> {
    Seq::new(s.len(), |i: int| lower_char(s[i]))
}

/// The canonical syntax key for the language tag `"json"`.
pub open spec fn json_key() -> Seq<char> {
    seq!['j', 's', 'o', 'n']
}

/// The canonical syntax key of a fence language tag: the tag is
/// lower-cased and then rewritten through the alias table; a tag the table
/// does not know is kept as its lower-cased self.
pub open spec fn canon_key(tag: Seq<char>) -> Seq<char> {
    let l = lower_chars(tag);
    if l == seq!['p', 'y', 't', 'h', 'o', 'n'] {
        seq!['p', 'y']
    } else if l == seq!['j', 'a', 'v', 'a', 's', 'c', 'r', 'i', 'p', 't'] {
        seq!['j', 's']
    } else if l == seq!['t', 'y', 'p', 'e', 's', 'c', 'r', 'i', 'p', 't'] {
        seq!['t', 's']
    } else if l == seq!['c', '+', '+'] {
        seq!['c', 'p', 'p']
    } else if l == seq!['g', 'o', 'l', 'a', 'n', 'g'] {
        seq!['g', 'o']
    } else if l == seq!['r', 'u', 's', 't'] {
        seq!['r', 's']
    } else if l == seq!['m', 'a', 'r', 'k', 'd', 'o', 'w', 'n'] {
        seq!['m', 'd']
    } else if l == seq!['s', 'h', 'e', 'l', 'l'] {
        seq!['s', 'h']
    } else if l == seq!['b', 'a', 's', 'h'] {
        seq!['s', 'h']
    } else {
        l
    }
}

/// ASCII lower-casing of one character.
fn lower_char_exec(c: char) -> (r: char)
    ensures
        r == lower_char(c),
{
    let u = c as u32;
    if 65 <= u && u <= 90 {
        let b: u8 = (u as u8) + 32;
        b as char
    } else {
        c
    }
}

/// ASCII lower-casing of a character vector.
pub fn lower_chars_exec(v: &Vec<char>) -> (r: Vec<char>)
    ensures
        r@ == lower_chars(v@),
{
    let mut r: Vec<char> = Vec::new();
    let mut i: usize = 0;
    while i < v.len()
        invariant
            i <= v.len(),
            r@ == lower_chars(v@.subrange(0, i as int)),
        decreases v.len() - i,
    {
        r.push(lower_char_exec(v[i]));
        i += 1;
        proof {
            assert(r@ =~= lower_chars(v@.subrange(0, i as int)));
        }
    }
    proof {
        assert(r@ =~= lower_chars(v@));
    }
    r
}

/// Whether two character vectors hold the same characters.
pub fn chars_eq(a: &Vec<char>, b: &Vec<char>) -> (r: bool)
    ensures
        r == (a@ == b@),
{
    if a.len() != b.len() {
        return false;
    }
    let mut i: usize = 0;
    while i < a.len()
        invariant
            i <= a.len(),
            a@.len() == b@.len(),
            forall|k: int| 0 <= k < i ==> a@[k] == b@[k],
        decreases a.len() - i,
    {
        if a[i] != b[i] {
            return false;
        }
        i += 1;
    }
    proof {
        assert(a@ =~= b@);
    }
    true
}

/// Whether a character vector equals a string literal's characters.
fn matches_tag(l: &Vec<char>, lit: &str) -> (r: bool)
    ensures
        r == (l@ == lit@),
{
    let pat = chars_of(lit);
    chars_eq(l, &pat)
}

/// The canonical syntax key of a fence language tag, as characters.
pub fn resolve_chars(tag: &Vec<char>) -> (r: Vec<char>)
    ensures
        r@ == canon_key(tag@),
{
    let l = lower_chars_exec(tag);
    proof {
        reveal_strlit("python");
        reveal_strlit("py");
        reveal_strlit("javascript");
        reveal_strlit("js");
        reveal_strlit("typescript");
        reveal_strlit("ts");
        reveal_strlit("c++");
        reveal_strlit("cpp");
        reveal_strlit("golang");
        reveal_strlit("go");
        reveal_strlit("rust");
        reveal_strlit("rs");
        reveal_strlit("markdown");
        reveal_strlit("md");
        reveal_strlit("shell");
        reveal_strlit("bash");
        reveal_strlit("sh");
        assert("python"@ =~= seq!['p', 'y', 't', 'h', 'o', 'n']);
        assert("py"@ =~= seq!['p', 'y']);
        assert("javascript"@ =~= seq!['j', 'a', 'v', 'a', 's', 'c', 'r', 'i', 'p', 't']);
        assert("js"@ =~= seq!['j', 's']);
        assert("typescript"@ =~= seq!['t', 'y', 'p', 'e', 's', 'c', 'r', 'i', 'p', 't']);
        assert("ts"@ =~= seq!['t', 's']);
        assert("c++"@ =~= seq!['c', '+', '+']);
        assert("cpp"@ =~= seq!['c', 'p', 'p']);
        assert("golang"@ =~= seq!['g', 'o', 'l', 'a', 'n', 'g']);
        assert("go"@ =~= seq!['g', 'o']);
        assert("rust"@ =~= seq!['r', 'u', 's', 't']);
        assert("rs"@ =~= seq!['r', 's']);
        assert("markdown"@ =~= seq!['m', 'a', 'r', 'k', 'd', 'o', 'w', 'n']);
        assert("md"@ =~= seq!['m', 'd']);
        assert("shell"@ =~= seq!['s', 'h', 'e', 'l', 'l']);
        assert("bash"@ =~= seq!['b', 'a', 's', 'h']);
        assert("sh"@ =~= seq!['s', 'h']);
    }
    if matches_tag(&l, "python") {
        let r = chars_of("py");
        proof {
            assert(r@ =~= canon_key(tag@));
        }
        r
    } else if matches_tag(&l, "javascript") {
        let r = chars_of("js");
        proof {
            assert(r@ =~= canon_key(tag@));
        }
        r
    } else if matches_tag(&l, "typescript") {
        let r = chars_of("ts");
        proof {
            assert(r@ =~= canon_key(tag@));
        }
        r
    } else if matches_tag(&l, "c++") {
        let r = chars_of("cpp");
        proof {
            assert(r@ =~= canon_key(tag@));
        }
        r
    } else if matches_tag(&l, "golang") {
        let r = chars_of("go");
        proof {
            assert(r@ =~= canon_key(tag@));
        }
        r
    } else if matches_tag(&l, "rust") {
        let r = chars_of("rs");
        proof {
            assert(r@ =~= canon_key(tag@));
        }
        r
    } else if matches_tag(&l, "markdown") {
        let r = chars_of("md");
        proof {
            assert(r@ =~= canon_key(tag@));
        }
        r
    } else if matches_tag(&l, "shell") {
        let r = chars_of("sh");
        proof {
            assert(r@ =~= canon_key(tag@));
        }
        r
    } else if matches_tag(&l, "bash") {
        let r = chars_of("sh");
        proof {
            assert(r@ =~= canon_key(tag@));
        }
        r
    } else {
        proof {
            assert(l@ =~= canon_key(tag@));
        }
        l
    }
}

/// Resolve a fence language tag to its canonical syntax key.
pub fn resolve(tag: &str) -> (r: String)
    ensures
        r@ == canon_key(tag@),
{
    let cs = chars_of(tag);
    let key = resolve_chars(&cs);
    string_of(&key)
}

} // verus!
