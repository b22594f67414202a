//! Character properties and case mappings taken from the Unicode tables of
//! the standard library. The tables are too long to restate, so each result
//! has a name; what the library proves holds for whatever the tables say.

use vstd::prelude::*;

verus! {

/// Whether `c` has the Unicode property Alphabetic.
pub uninterp spec fn unicode_alphabetic(c: char) -> bool;

/// Whether `c` has the Unicode property Uppercase.
pub uninterp spec fn unicode_uppercase(c: char) -> bool;

/// Whether `c` belongs to one of the Unicode number categories.
pub uninterp spec fn unicode_numeric(c: char) -> bool;

/// The lowercase mapping of the single character `c`: one to three characters.
pub uninterp spec fn char_lowercase(c: char) -> Seq<char>;

/// The lowercase form of a whole text, which maps each character by the
/// Unicode tables with regard to its neighbours.
pub uninterp spec fn lowercase(s: Seq<char>) -> Seq<char>;

/// `char::is_alphabetic` reads the Alphabetic property of its argument.
pub assume_specification[ char::is_alphabetic ](c: char) -> (b: bool)
    ensures
        b == unicode_alphabetic(c),
;

/// `char::is_uppercase` reads the Uppercase property of its argument.
pub assume_specification[ char::is_uppercase ](c: char) -> (b: bool)
    ensures
        b == unicode_uppercase(c),
;

/// `char::is_numeric` tells whether its argument is in a number category.
pub assume_specification[ char::is_numeric ](c: char) -> (b: bool)
    ensures
        b == unicode_numeric(c),
;

/// `str::to_lowercase` returns the lowercase form of the text it is given.
pub assume_specification[ str::to_lowercase ](s: &str) -> (r: String)
    ensures
        r@ == lowercase(s@),
;

/// `char::to_lowercase` yields the characters of the lowercase mapping of
/// its argument; they are collected here in the order in which they come.
#[verifier::external_body]
pub(crate) fn lowercase_of_char(c: char) -> (r: Vec<char>)
    ensures
        r@ == char_lowercase(c),
{
    c.to_lowercase().collect()
}

/// Number of alphabetic characters in `s`.
pub open spec fn alpha_count(s: Seq<char>) -> nat
    decreases s.len(),
{
    if s.len() == 0 {
        0
    } else {
        alpha_count(s.drop_last()) + if unicode_alphabetic(s.last()) {
            1nat
        } else {
            0nat
        }
    }
}

/// Number of alphabetic characters in the text.
pub fn count_alphabetic(v: &Vec<char>) -> (n: usize)
    ensures
        n == alpha_count(v@),
{
    let mut n: usize = 0;
    let mut i: usize = 0;
    while i < v.len()
        invariant
            i <= v.len(),
            n == alpha_count(v@.take(i as int)),
            n <= i,
        decreases v.len() - i,
    {
        proof {
            assert(v@.take(i + 1).drop_last() == v@.take(i as int));
        }
        if v[i].is_alphabetic() {
            n += 1;
        }
        i += 1;
    }
    proof {
        assert(v@.take(i as int) == v@);
    }
    n
}

/// The lowercase form of a text.
pub fn to_lower(v: &Vec<char>) -> (r: Vec<char>)
    ensures
        r@ == lowercase(v@),
{
    let s = crate::text::string_of(v);
    let l = s.as_str().to_lowercase();
    crate::text::chars_of(l.as_str())
}

} // verus!
