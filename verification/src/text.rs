//! Text as sequences of characters: the predicates and edits the stages use.
//!
//! Specifications speak of `Seq<char>`; the executable functions work on
//! `Vec<char>` and on `&str`, and each states its result over the sequence.

use vstd::prelude::*;

verus! {

/// Appends one character to a string (`String::push`).
pub assume_specification[ String::push ](s: &mut String, c: char)
    ensures
        final(s)@ == old(s)@.push(c),
;

/// The characters of a string, in order.
pub fn chars_of(s: &str) -> (v: Vec<char>)
    ensures
        v@ == s@,
{
    let mut v: Vec<char> = Vec::new();
    for c in it: s.chars()
        invariant
            it.seq() == s@,
            v@ == s@.take(it.index() as int),
    {
        v.push(c);
    }
    v
}

/// The string made of the given characters.
pub fn string_of(v: &Vec<char>) -> (s: String)
    ensures
        s@ == v@,
{
    let mut s = String::new();
    let mut i: usize = 0;
    while i < v.len()
        invariant
            i <= v.len(),
            s@ == v@.take(i as int),
        decreases v.len() - i,
    {
        s.push(v[i]);
        i += 1;
    }
    s
}

/// Characters with the Unicode property White_Space.
pub open spec fn is_space(c: char) -> bool {
    let n = c as u32;
    ||| 0x09 <= n <= 0x0D
    ||| n == 0x20
    ||| n == 0x85
    ||| n == 0xA0
    ||| n == 0x1680
    ||| 0x2000 <= n <= 0x200A
    ||| n == 0x2028
    ||| n == 0x2029
    ||| n == 0x202F
    ||| n == 0x205F
    ||| n == 0x3000
}

/// The ten ASCII digits.
pub open spec fn is_digit(c: char) -> bool {
    '0' <= c <= '9'
}

/// Whether the character is white space.
pub fn is_space_char(c: char) -> (b: bool)
    ensures
        b == is_space(c),
{
    let n: u32 = c as u32;
    (0x09 <= n && n <= 0x0D) || n == 0x20 || n == 0x85 || n == 0xA0 || n == 0x1680 || (0x2000 <= n
        && n <= 0x200A) || n == 0x2028 || n == 0x2029 || n == 0x202F || n == 0x205F || n == 0x3000
}

/// Whether the character is an ASCII digit.
pub fn is_digit_char(c: char) -> (b: bool)
    ensures
        b == is_digit(c),
{
    '0' <= c && c <= '9'
}

/// The sets of characters that the stages strip from the ends of a text.
#[derive(Debug, Clone, Copy, PartialEq, Eq, Structural)]
pub enum CharClass {
    /// White space.
    Space,
    /// What emphasis markup leaves at the end of a word: `*`, `_` and the space.
    Markup,
    /// Dot leaders: `.` and the space.
    Fill,
    /// The emphasis marks `*` and `_`.
    Emphasis,
    /// The ASCII digits.
    Digit,
}

impl CharClass {
    /// Whether the character belongs to the class.
    pub open spec fn has(self, c: char) -> bool {
        match self {
            CharClass::Space => is_space(c),
            CharClass::Markup => c == '*' || c == '_' || c == ' ',
            CharClass::Fill => c == '.' || c == ' ',
            CharClass::Emphasis => c == '*' || c == '_',
            CharClass::Digit => is_digit(c),
        }
    }

    /// Whether the character belongs to the class.
    pub fn holds(&self, c: char) -> (b: bool)
        ensures
            b == self.has(c),
    {
        match self {
            CharClass::Space => is_space_char(c),
            CharClass::Markup => c == '*' || c == '_' || c == ' ',
            CharClass::Fill => c == '.' || c == ' ',
            CharClass::Emphasis => c == '*' || c == '_',
            CharClass::Digit => is_digit_char(c),
        }
    }
}

/// Number of characters at the end of `s` that belong to `class`.
pub open spec fn tail_len(s: Seq<char>, class: CharClass) -> nat
    decreases s.len(),
{
    if s.len() > 0 && class.has(s.last()) {
        1 + tail_len(s.drop_last(), class)
    } else {
        0
    }
}

/// Number of characters at the start of `s` that belong to `class`.
pub open spec fn head_len(s: Seq<char>, class: CharClass) -> nat
    decreases s.len(),
{
    if s.len() > 0 && class.has(s[0]) {
        1 + head_len(s.skip(1), class)
    } else {
        0
    }
}

/// Number of characters at the start of `s` that do not belong to `class`.
pub open spec fn head_len_outside(s: Seq<char>, class: CharClass) -> nat
    decreases s.len(),
{
    if s.len() > 0 && !class.has(s[0]) {
        1 + head_len_outside(s.skip(1), class)
    } else {
        0
    }
}

/// `s` without its longest suffix made of characters of `class`.
pub open spec fn strip_end(s: Seq<char>, class: CharClass) -> Seq<char> {
    s.take(s.len() - tail_len(s, class))
}

/// `s` without its longest prefix made of characters of `class`.
pub open spec fn strip_start(s: Seq<char>, class: CharClass) -> Seq<char> {
    s.skip(head_len(s, class) as int)
}

/// `s` without the white space at both ends.
pub open spec fn trim(s: Seq<char>) -> Seq<char> {
    strip_start(strip_end(s, CharClass::Space), CharClass::Space)
}

/// `s` without the characters of `class` at both ends.
pub open spec fn strip_both(s: Seq<char>, class: CharClass) -> Seq<char> {
    strip_start(strip_end(s, class), class)
}

/// Whether `s` holds nothing but white space.
pub open spec fn is_blank(s: Seq<char>) -> bool {
    forall|i: int| 0 <= i < s.len() ==> is_space(#[trigger] s[i])
}

/// The run at the start of `s` outside `class` ends within `s`, and at a
/// character of `class` if it ends before the end.
pub proof fn lemma_head_len_outside_bound(s: Seq<char>, class: CharClass)
    ensures
        head_len_outside(s, class) <= s.len(),
        head_len_outside(s, class) < s.len() ==> class.has(s[head_len_outside(s, class) as int]),
        forall|i: int| 0 <= i < head_len_outside(s, class) ==> !class.has(#[trigger] s[i]),
    decreases s.len(),
{
    if s.len() > 0 && !class.has(s[0]) {
        lemma_head_len_outside_bound(s.skip(1), class);
        assert forall|i: int| 0 <= i < head_len_outside(s, class) implies !class.has(
            #[trigger] s[i],
        ) by {
            if i > 0 {
                assert(s[i] == s.skip(1)[i - 1]);
            }
        }
    }
}

/// The characters of `v` from `from` up to `to`.
pub fn subvec(v: &Vec<char>, from: usize, to: usize) -> (r: Vec<char>)
    requires
        from <= to <= v.len(),
    ensures
        r@ == v@.subrange(from as int, to as int),
{
    let mut r: Vec<char> = Vec::new();
    let mut i: usize = from;
    while i < to
        invariant
            from <= i <= to <= v.len(),
            r@ == v@.subrange(from as int, i as int),
        decreases to - i,
    {
        r.push(v[i]);
        i += 1;
    }
    r
}

/// Length of the longest suffix of `v` in `class`.
pub fn count_tail(v: &Vec<char>, class: CharClass) -> (n: usize)
    ensures
        n == tail_len(v@, class),
        n <= v.len(),
{
    let mut end: usize = v.len();
    proof {
        assert(v@.take(end as int) == v@);
    }
    while end > 0 && class.holds(v[end - 1])
        invariant
            end <= v.len(),
            tail_len(v@, class) == (v.len() - end) + tail_len(v@.take(end as int), class),
        decreases end,
    {
        proof {
            assert(v@.take(end as int).drop_last() == v@.take(end as int - 1));
        }
        end -= 1;
    }
    v.len() - end
}

/// Length of the longest prefix of `v` in `class`.
pub fn count_head(v: &Vec<char>, class: CharClass) -> (n: usize)
    ensures
        n == head_len(v@, class),
        n <= v.len(),
{
    let mut start: usize = 0;
    proof {
        assert(v@.skip(0) == v@);
    }
    while start < v.len() && class.holds(v[start])
        invariant
            start <= v.len(),
            head_len(v@, class) == start + head_len(v@.skip(start as int), class),
        decreases v.len() - start,
    {
        proof {
            assert(v@.skip(start as int).skip(1) == v@.skip(start as int + 1));
        }
        start += 1;
    }
    start
}

/// The text without its longest suffix in `class`.
pub fn strip_end_of(v: &Vec<char>, class: CharClass) -> (r: Vec<char>)
    ensures
        r@ == strip_end(v@, class),
        r.len() <= v.len(),
{
    let n = count_tail(v, class);
    subvec(v, 0, v.len() - n)
}

/// The text without its longest prefix in `class`.
pub fn strip_start_of(v: &Vec<char>, class: CharClass) -> (r: Vec<char>)
    ensures
        r@ == strip_start(v@, class),
        r.len() <= v.len(),
{
    let n = count_head(v, class);
    subvec(v, n, v.len())
}

/// The text without the characters of `class` at both ends.
pub fn strip_both_of(v: &Vec<char>, class: CharClass) -> (r: Vec<char>)
    ensures
        r@ == strip_both(v@, class),
        r.len() <= v.len(),
{
    let e = strip_end_of(v, class);
    strip_start_of(&e, class)
}

/// The text without the white space at both ends.
pub fn trim_of(v: &Vec<char>) -> (r: Vec<char>)
    ensures
        r@ == trim(v@),
        r.len() <= v.len(),
{
    strip_both_of(v, CharClass::Space)
}

/// Whether the text holds nothing but white space.
pub fn is_blank_text(v: &Vec<char>) -> (b: bool)
    ensures
        b == is_blank(v@),
{
    let mut i: usize = 0;
    while i < v.len()
        invariant
            i <= v.len(),
            forall|j: int| 0 <= j < i ==> is_space(#[trigger] v@[j]),
        decreases v.len() - i,
    {
        if !is_space_char(v[i]) {
            return false;
        }
        i += 1;
    }
    true
}

} // verus!
