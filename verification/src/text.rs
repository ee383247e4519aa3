//! Text facts shared by the script and font code.
use vstd::prelude::*;

verus! {

/// How the half-width katakana fixup was applied to the characters of a decoded string.
#[derive(Debug, Copy, Clone, PartialEq, Eq, Structural)]
pub enum FixupDetectResult {
    /// The string has no character the fixup applies to.
    NoFixupCharacters,
    /// Every such character was fixed up.
    FixedUp,
    /// No such character was fixed up.
    UnfixedUp,
    /// Some were fixed up and some were not.
    Inconsistent,
}

/// Whether a Shift-JIS byte starts a two-byte character.
pub fn is_extended(c: u8) -> (r: bool)
    ensures
        r == ((0x81 <= c && c <= 0x9f) || (0xe0 <= c && c <= 0xfc)),
{
    (0x81 <= c && c <= 0x9f) || (0xe0 <= c && c <= 0xfc)
}

} // verus!
