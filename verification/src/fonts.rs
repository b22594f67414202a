//! Lists of font names in the order in which the fonts first appear.

use vstd::prelude::*;

verus! {

/// Index of the first of the first `n` fonts that equals `font`.
pub open spec fn font_index_upto(fonts: Seq<Seq<char>>, font: Seq<char>, n: int) -> Option<int>
    decreases n,
{
    if n <= 0 {
        None
    } else {
        match font_index_upto(fonts, font, n - 1) {
            Some(k) => Some(k),
            None => if fonts[n - 1] == font {
                Some(n - 1)
            } else {
                None
            },
        }
    }
}

/// The fonts with `font` added at the end, unless it is among them.
pub open spec fn with_font(fonts: Seq<Seq<char>>, font: Seq<char>) -> Seq<Seq<char>> {
    if font_index_upto(fonts, font, fonts.len() as int) is Some {
        fonts
    } else {
        fonts.push(font)
    }
}

/// Index of the first font that equals `font`.
pub fn font_index(fonts: &Vec<String>, font: &String) -> (r: Option<usize>)
    ensures
        match r {
            Some(k) => font_index_upto(fonts.deep_view(), font@, fonts.len() as int) == Some(
                k as int,
            ),
            None => font_index_upto(fonts.deep_view(), font@, fonts.len() as int) is None,
        },
{
    let mut i: usize = 0;
    while i < fonts.len()
        invariant
            i <= fonts.len(),
            font_index_upto(fonts.deep_view(), font@, i as int) is None,
        decreases fonts.len() - i,
    {
        if fonts[i] == *font {
            proof {
                lemma_font_index_stays(fonts.deep_view(), font@, i + 1, fonts.len() as int);
            }
            return Some(i);
        }
        i += 1;
    }
    None
}

/// A font found among the first `n` is found at the same place among more.
pub proof fn lemma_font_index_stays(fonts: Seq<Seq<char>>, font: Seq<char>, n: int, m: int)
    requires
        n <= m,
        font_index_upto(fonts, font, n) is Some,
    ensures
        font_index_upto(fonts, font, m) == font_index_upto(fonts, font, n),
    decreases m - n,
{
    if n < m {
        lemma_font_index_stays(fonts, font, n, m - 1);
    }
}

/// Adds the font to the list unless it is there.
pub fn add_font(fonts: &mut Vec<String>, font: &String)
    ensures
        final(fonts).deep_view() == with_font(old(fonts).deep_view(), font@),
{
    if font_index(fonts, font).is_none() {
        fonts.push(font.clone());
    }
}

} // verus!
