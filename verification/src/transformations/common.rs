//! What every stage offers.

use vstd::prelude::*;
use crate::models::ParseResult;

verus! {

/// A stage of the pipeline: it rewrites the document in place. Whatever
/// else a stage does, it keeps the pages in their places and leaves each
/// its number.
pub trait Transformation {
    fn transform(&self, result: &mut ParseResult)
        ensures
            final(result).pages.len() == old(result).pages.len(),
            forall|i: int|
                0 <= i < old(result).pages.len() ==> (#[trigger] final(result).pages@[i]).index
                    == old(result).pages@[i].index,
    ;
}

} // verus!
