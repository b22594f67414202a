//! Splitting a text into words at white space, and joining texts.

use vstd::prelude::*;
use crate::text::{
    is_space, is_space_char, CharClass, head_len_outside, lemma_head_len_outside_bound, subvec,
    chars_of,
};

verus! {

/// The maximal runs of characters of `s` that are not white space, in order.
pub open spec fn words(s: Seq<char>) -> Seq<Seq<char>>
    decreases s.len(),
{
    if s.len() == 0 {
        Seq::empty()
    } else if is_space(s[0]) {
        words(s.skip(1))
    } else {
        let n = head_len_outside(s, CharClass::Space) as int;
        if 0 < n <= s.len() {
            seq![s.take(n)] + words(s.skip(n))
        } else {
            Seq::empty()
        }
    }
}

/// Whether a text is a word: not empty, and without white space.
pub open spec fn is_word(w: Seq<char>) -> bool {
    w.len() > 0 && forall|i: int| 0 <= i < w.len() ==> !is_space(#[trigger] w[i])
}

/// The words of a text are words.
pub proof fn lemma_words_are_words(s: Seq<char>)
    ensures
        forall|k: int| 0 <= k < words(s).len() ==> is_word(#[trigger] words(s)[k]),
    decreases s.len(),
{
    if s.len() > 0 && is_space(s[0]) {
        lemma_words_are_words(s.skip(1));
        assert(words(s) == words(s.skip(1)));
    } else if s.len() > 0 {
        let n = head_len_outside(s, CharClass::Space) as int;
        lemma_head_len_outside_bound(s, CharClass::Space);
        lemma_words_are_words(s.skip(n));
        assert(words(s) == seq![s.take(n)] + words(s.skip(n)));
    }
}

/// The texts of `ws` in order, with `sep` between each two of them.
pub open spec fn join(ws: Seq<Seq<char>>, sep: Seq<char>) -> Seq<char>
    decreases ws.len(),
{
    if ws.len() == 0 {
        Seq::empty()
    } else if ws.len() == 1 {
        ws[0]
    } else {
        join(ws.drop_last(), sep) + sep + ws.last()
    }
}

/// `n` copies of `s`, one after the other.
pub open spec fn repeat(s: Seq<char>, n: nat) -> Seq<char>
    decreases n,
{
    if n == 0 {
        Seq::empty()
    } else {
        repeat(s, (n - 1) as nat) + s
    }
}

/// The views of a list of texts.
pub open spec fn views(ws: Seq<Vec<char>>) -> Seq<Seq<char>> {
    ws.map_values(|w: Vec<char>| w@)
}

/// Appends the characters of `src` to `dst`.
pub fn append_chars(dst: &mut Vec<char>, src: &Vec<char>)
    ensures
        final(dst)@ == old(dst)@ + src@,
{
    let mut i: usize = 0;
    while i < src.len()
        invariant
            i <= src.len(),
            dst@ == old(dst)@ + src@.take(i as int),
        decreases src.len() - i,
    {
        dst.push(src[i]);
        i += 1;
    }
}

/// Appends the characters of the string `src` to `dst`.
pub fn append_str(dst: &mut Vec<char>, src: &str)
    ensures
        final(dst)@ == old(dst)@ + src@,
{
    let v = chars_of(src);
    append_chars(dst, &v);
}

/// Length of the run of characters outside white space that starts at `start`.
pub fn word_len_at(v: &Vec<char>, start: usize) -> (n: usize)
    requires
        start <= v.len(),
    ensures
        n == head_len_outside(v@.skip(start as int), CharClass::Space),
        start + n <= v.len(),
{
    let mut end: usize = start;
    let ghost base = v@.skip(start as int);
    proof {
        assert(base.skip(0) == base);
    }
    while end < v.len() && !is_space_char(v[end])
        invariant
            start <= end <= v.len(),
            base == v@.skip(start as int),
            head_len_outside(base, CharClass::Space) == (end - start) + head_len_outside(
                base.skip(end - start),
                CharClass::Space,
            ),
        decreases v.len() - end,
    {
        proof {
            assert(base.skip(end - start).skip(1) == base.skip(end - start + 1));
        }
        end += 1;
    }
    end - start
}

/// The words of a text.
pub fn words_of(v: &Vec<char>) -> (r: Vec<Vec<char>>)
    ensures
        views(r@) == words(v@),
{
    let mut r: Vec<Vec<char>> = Vec::new();
    let mut i: usize = 0;
    proof {
        assert(v@.skip(0) == v@);
    }
    while i < v.len()
        invariant
            i <= v.len(),
            words(v@) == views(r@) + words(v@.skip(i as int)),
        decreases v.len() - i,
    {
        let ghost rest = v@.skip(i as int);
        if is_space_char(v[i]) {
            proof {
                assert(rest.skip(1) == v@.skip(i + 1));
            }
            i += 1;
        } else {
            let n = word_len_at(v, i);
            let w = subvec(v, i, i + n);
            proof {
                lemma_head_len_outside_bound(rest, CharClass::Space);
                assert(rest.take(n as int) == v@.subrange(i as int, i + n));
                assert(rest.skip(n as int) == v@.skip(i + n));
                assert(views(r@) + (seq![w@] + words(rest.skip(n as int))) == views(r@).push(w@)
                    + words(rest.skip(n as int)));
            }
            r.push(w);
            i += n;
        }
    }
    r
}

/// The texts joined with the separator between them.
pub fn join_of(ws: &Vec<Vec<char>>, sep: &str) -> (r: Vec<char>)
    ensures
        r@ == join(views(ws@), sep@),
{
    let mut r: Vec<char> = Vec::new();
    let mut i: usize = 0;
    while i < ws.len()
        invariant
            i <= ws.len(),
            r@ == join(views(ws@).take(i as int), sep@),
        decreases ws.len() - i,
    {
        proof {
            let t = views(ws@).take(i + 1);
            assert(t.drop_last() == views(ws@).take(i as int));
        }
        if i > 0 {
            append_str(&mut r, sep);
        }
        append_chars(&mut r, &ws[i]);
        i += 1;
    }
    proof {
        assert(views(ws@).take(i as int) == views(ws@));
    }
    r
}

/// `n` copies of the string `s`.
pub fn repeat_of(s: &str, n: u64) -> (r: Vec<char>)
    ensures
        r@ == repeat(s@, n as nat),
{
    let mut r: Vec<char> = Vec::new();
    let mut i: u64 = 0;
    while i < n
        invariant
            i <= n,
            r@ == repeat(s@, i as nat),
        decreases n - i,
    {
        append_str(&mut r, s);
        i += 1;
    }
    r
}

} // verus!
