//! The clear tool: an immediate full-page erase.

use crate::canvas::{lines_view, Drawpoint};
use vstd::prelude::*;

verus! {

/// Removes all strokes of the current page.  Images are untouched, and the
/// tool ignores every input but the page selection — it does not even wait
/// for the pen to be active.
pub struct Clear {}

impl Clear {
    pub fn new() -> (t: Clear) {
        Clear {}
    }

    /// Empty the current page's stroke list.
    pub fn manipulate(&self, lines: &mut Vec<Vec<Drawpoint>>)
        ensures
            lines_view(*final(lines)) == Seq::<Seq<Drawpoint>>::empty(),
    {
        lines.clear();
        proof {
            assert(lines_view(*lines) =~~= Seq::<Seq<Drawpoint>>::empty());
        }
    }
}

} // verus!
