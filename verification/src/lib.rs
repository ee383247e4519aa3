//! Tools for the data formats of the shin visual novel engine: its scripts
//! (SNR), archives (ROM), fonts (FNT) and message markup.
use vstd::prelude::*;

pub mod chars;
pub mod digits;
pub mod font;
pub mod le;
pub mod rom;
pub mod snr;
pub mod text;
pub mod versions;

verus! {

} // verus!
