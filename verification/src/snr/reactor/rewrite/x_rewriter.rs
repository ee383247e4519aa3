//! A rewriter that replaces every string, to see where strings show up in the game.
use vstd::prelude::*;

use crate::snr::reactor::StringSource;

verus! {

/// Rewrites all strings to "X".
pub struct XRewriter;

impl XRewriter {
    /// The replacement of any string: "X".
    pub fn rewrite_string(
        &self,
        _decoded: &str,
        _instr_index: u32,
        _instr_offset: u32,
        _source: StringSource,
    ) -> (r: Option<&'static str>)
        ensures
            r matches Some(s) && s@ == seq!['X'],
    {
        let x = "X";
        proof {
            reveal_strlit("X");
        }
        Some(x)
    }
}

} // verus!
