//! What pushing a token to the layouter reports.
use vstd::prelude::*;

verus! {

/// Whether pushing a token completed a paragraph.
#[derive(Copy, Clone, Debug, PartialEq, Eq, Structural)]
pub enum PushResult {
    Nothing,
    ParagraphComplete,
}

} // verus!
