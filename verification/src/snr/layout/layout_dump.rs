//! Kinds of characters in a dump of a message layout.
use vstd::prelude::*;

verus! {

/// How a laid-out character is drawn.
#[derive(Copy, Clone, Debug, PartialEq, Eq, Structural)]
pub enum CharKind {
    Regular,
    Furigana,
    BoldDot,
}

/// The number that stands for a kind in a dump.
pub open spec fn char_kind_value(k: CharKind) -> u8 {
    match k {
        CharKind::Regular => 0u8,
        CharKind::Furigana => 1u8,
        CharKind::BoldDot => 2u8,
    }
}

impl CharKind {
    /// The number that stands for the kind in a dump.
    pub fn to_u8(self) -> (r: u8)
        ensures
            r == char_kind_value(self),
    {
        match self {
            CharKind::Regular => 0,
            CharKind::Furigana => 1,
            CharKind::BoldDot => 2,
        }
    }

    /// The kind a number in a dump stands for.
    pub fn from_u8(v: u8) -> (r: Option<Self>)
        ensures
            r matches Some(k) ==> char_kind_value(k) == v,
            r is None <==> v > 2,
    {
        match v {
            0 => Some(CharKind::Regular),
            1 => Some(CharKind::Furigana),
            2 => Some(CharKind::BoldDot),
            _ => None,
        }
    }
}

} // verus!
