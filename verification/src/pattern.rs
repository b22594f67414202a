//! Searching a text for a fixed pattern, and deleting its occurrences.

use vstd::prelude::*;
use crate::text::chars_of;

verus! {

/// Whether `pat` stands in `s` at position `i`.
pub open spec fn occurs_at(s: Seq<char>, pat: Seq<char>, i: int) -> bool {
    0 <= i && i + pat.len() <= s.len() && s.subrange(i, i + pat.len()) == pat
}

/// Whether `pat` stands somewhere in `s`.
pub open spec fn contains(s: Seq<char>, pat: Seq<char>) -> bool {
    exists|i: int| occurs_at(s, pat, i)
}

/// Whether `s` starts with `pat`.
pub open spec fn starts_with(s: Seq<char>, pat: Seq<char>) -> bool {
    occurs_at(s, pat, 0)
}

/// Whether `s` ends with `pat`.
pub open spec fn ends_with(s: Seq<char>, pat: Seq<char>) -> bool {
    occurs_at(s, pat, s.len() - pat.len())
}

/// Whether the character `c` stands somewhere in `s`.
pub open spec fn has_char(s: Seq<char>, c: char) -> bool {
    exists|i: int| 0 <= i < s.len() && s[i] == c
}

/// `s` with every occurrence of `pat` deleted, found from left to right
/// without overlap. An empty pattern deletes nothing.
pub open spec fn remove_all(s: Seq<char>, pat: Seq<char>) -> Seq<char>
    decreases s.len(),
{
    if pat.len() == 0 || s.len() < pat.len() {
        s
    } else if starts_with(s, pat) {
        remove_all(s.skip(pat.len() as int), pat)
    } else {
        seq![s[0]] + remove_all(s.skip(1), pat)
    }
}

/// The part of `s` before its first `c`, or all of `s` if it holds none.
pub open spec fn before_char(s: Seq<char>, c: char) -> Seq<char>
    decreases s.len(),
{
    if s.len() == 0 || s[0] == c {
        Seq::empty()
    } else {
        seq![s[0]] + before_char(s.skip(1), c)
    }
}

/// Whether the pattern stands in the text at position `i`.
pub fn occurs_at_pos(v: &Vec<char>, pat: &Vec<char>, i: usize) -> (b: bool)
    ensures
        b == occurs_at(v@, pat@, i as int),
{
    if pat.len() > v.len() || i > v.len() - pat.len() {
        return false;
    }
    let mut j: usize = 0;
    while j < pat.len()
        invariant
            j <= pat.len(),
            i + pat.len() <= v.len(),
            forall|k: int| 0 <= k < j ==> v@[i + k] == pat@[k],
        decreases pat.len() - j,
    {
        if v[i + j] != pat[j] {
            return false;
        }
        j += 1;
    }
    proof {
        assert(v@.subrange(i as int, i + pat.len()) =~= pat@);
    }
    true
}

/// Whether the text holds the pattern.
pub fn contains_chars(v: &Vec<char>, pat: &Vec<char>) -> (b: bool)
    ensures
        b == contains(v@, pat@),
{
    if pat.len() > v.len() {
        return false;
    }
    let last: usize = v.len() - pat.len();
    let mut i: usize = 0;
    loop
        invariant
            last == v.len() - pat.len(),
            i <= last,
            forall|k: int| 0 <= k < i ==> !occurs_at(v@, pat@, k),
        decreases last - i,
    {
        if occurs_at_pos(v, pat, i) {
            return true;
        }
        if i == last {
            return false;
        }
        i += 1;
    }
}

/// Whether the text holds the pattern.
pub fn contains_str(v: &Vec<char>, pat: &str) -> (b: bool)
    ensures
        b == contains(v@, pat@),
{
    let p = chars_of(pat);
    contains_chars(v, &p)
}

/// Whether the text starts with the pattern.
pub fn starts_with_chars(v: &Vec<char>, pat: &Vec<char>) -> (b: bool)
    ensures
        b == starts_with(v@, pat@),
{
    occurs_at_pos(v, pat, 0)
}

/// Whether the text starts with the pattern.
pub fn starts_with_str(v: &Vec<char>, pat: &str) -> (b: bool)
    ensures
        b == starts_with(v@, pat@),
{
    let p = chars_of(pat);
    occurs_at_pos(v, &p, 0)
}

/// Whether the text ends with the pattern.
pub fn ends_with_str(v: &Vec<char>, pat: &str) -> (b: bool)
    ensures
        b == ends_with(v@, pat@),
{
    let p = chars_of(pat);
    if p.len() > v.len() {
        return false;
    }
    occurs_at_pos(v, &p, v.len() - p.len())
}

/// Whether the text holds the character.
pub fn contains_char(v: &Vec<char>, c: char) -> (b: bool)
    ensures
        b == has_char(v@, c),
{
    let mut i: usize = 0;
    while i < v.len()
        invariant
            i <= v.len(),
            forall|k: int| 0 <= k < i ==> v@[k] != c,
        decreases v.len() - i,
    {
        if v[i] == c {
            return true;
        }
        i += 1;
    }
    false
}

/// The text without any occurrence of the pattern.
pub fn remove_all_str(v: &Vec<char>, pat: &str) -> (r: Vec<char>)
    ensures
        r@ == remove_all(v@, pat@),
{
    let p = chars_of(pat);
    let mut r: Vec<char> = Vec::new();
    let mut i: usize = 0;
    proof {
        assert(v@.skip(0) == v@);
    }
    while i < v.len()
        invariant
            i <= v.len(),
            p@ == pat@,
            remove_all(v@, pat@) == r@ + remove_all(v@.skip(i as int), pat@),
        decreases v.len() - i,
    {
        let ghost rest = v@.skip(i as int);
        if p.len() == 0 || v.len() - i < p.len() {
            proof {
                // nothing more can match: the rest is copied as it is
            }
            r.push(v[i]);
            i += 1;
        } else if occurs_at_pos(v, &p, i) {
            proof {
                assert(rest.subrange(0, p.len() as int) == v@.subrange(i as int, i + p.len()));
                assert(rest.skip(p.len() as int) == v@.skip(i + p.len()));
            }
            i += p.len();
        } else {
            proof {
                assert(rest.subrange(0, p.len() as int) == v@.subrange(i as int, i + p.len()));
                assert(rest.skip(1) == v@.skip(i + 1));
                assert(r@ + (seq![rest[0]] + remove_all(rest.skip(1), pat@)) == r@.push(v@[i as int])
                    + remove_all(rest.skip(1), pat@));
            }
            r.push(v[i]);
            i += 1;
        }
    }
    r
}

/// The text before the first `c`.
pub fn before_char_of(v: &Vec<char>, c: char) -> (r: Vec<char>)
    ensures
        r@ == before_char(v@, c),
{
    let mut r: Vec<char> = Vec::new();
    let mut i: usize = 0;
    proof {
        assert(v@.skip(0) == v@);
    }
    while i < v.len() && v[i] != c
        invariant
            i <= v.len(),
            before_char(v@, c) == r@ + before_char(v@.skip(i as int), c),
        decreases v.len() - i,
    {
        proof {
            let rest = v@.skip(i as int);
            assert(rest.skip(1) == v@.skip(i + 1));
            assert(r@ + (seq![rest[0]] + before_char(rest.skip(1), c)) == r@.push(v@[i as int])
                + before_char(rest.skip(1), c));
        }
        r.push(v[i]);
        i += 1;
    }
    r
}

} // verus!
