//! Engine-version related enumerations shared by the script and archive code.
//!
//! Only the plain enumerations are modelled here; everything that depends on
//! a particular game version is passed in by the caller as these values.
use vstd::prelude::*;

verus! {

/// Width of a length prefix in the script format.
#[derive(Debug, Clone, Copy, PartialEq, Eq, Structural)]
pub enum LengthKind {
    U8Length,
    U16Length,
}

/// How numbers (rvalues) are encoded in the script format.
#[derive(Debug, Clone, Copy, PartialEq, Eq, Structural)]
pub enum NumberStyle {
    /// Always two bytes, little endian.
    U16,
    /// Variable-length: the first byte determines how many more bytes follow.
    VarInt,
}

/// How commands are embedded in message strings.
#[derive(Debug, Clone, Copy, PartialEq, Eq, Structural)]
pub enum MessageCommandStyle {
    /// Commands are introduced by `@`; a literal `@` is written as `@@`.
    Escaped,
    /// Every ASCII character is a command; a literal ASCII character is prefixed by `!`.
    Unescaped,
}

/// Where a single string operand of an operation comes from.
#[derive(Debug, Clone, Copy, PartialEq, Eq, Structural)]
pub enum StringKind {
    Saveinfo,
    Select,
    Msgset,
    Dbgout,
    Logset,
    Voiceplay,
    Chatset,
    Named,
    Stageinfo,
}

/// Where a string-array operand of an operation comes from.
#[derive(Debug, Clone, Copy, PartialEq, Eq, Structural)]
pub enum StringArrayKind {
    SelectChoice,
}

/// Either a single-string kind or a string-array kind.
#[derive(Debug, Clone, Copy, PartialEq, Eq, Structural)]
pub enum AnyStringKind {
    Singular(StringKind),
    Array(StringArrayKind),
}

/// Which parts of a Shift-JIS message are subject to the half-width katakana fixup.
#[derive(Debug, Clone, Copy, PartialEq, Eq, Structural)]
pub struct SjisMessageFixupPolicy {
    pub fixup_command_arguments: bool,
    pub fixup_character_names: bool,
}

/// Text encoding of strings stored in a script.
#[derive(Debug, Clone, Copy, PartialEq, Eq, Structural)]
pub enum StringEncoding {
    ShiftJis,
    Utf8,
}

/// The versions of the archive (ROM) format.
#[derive(Debug, Clone, Copy, PartialEq, Eq, Structural)]
pub enum RomVersion {
    /// Version 2.1 of the first format; its header has a fixed file offset multiplier.
    Rom1V2_1,
    /// Version 1.0 of the second format.
    Rom2V1_0,
    /// Version 1.1 of the second format.
    Rom2V1_1,
}

/// The game engine versions known to the script tables.
#[derive(Debug, Clone, Copy, PartialEq, Eq, Structural)]
pub enum ShinVersion {
    HigurashiSui,
    AliasCarnival,
    WorldRe,
    WhiteEternity,
    HigurashiHou,
    HigurashiHouV2,
    DC4,
    Konosuba,
    Umineko,
    Gerokasu2,
}

/// The length prefix of the strings of each kind in the scripts of a version.
#[derive(Debug, Clone, Copy, PartialEq, Eq, Structural)]
pub struct StringSizes {
    pub saveinfo: LengthKind,
    pub select: LengthKind,
    pub msgset: LengthKind,
    pub dbgout: LengthKind,
    pub logset: LengthKind,
    pub voiceplay: LengthKind,
    pub chatset: LengthKind,
    pub named: LengthKind,
    pub stageinfo: LengthKind,
    pub select_choice: LengthKind,
}

/// The length prefix of strings of kind `kind`.
pub open spec fn string_size(sizes: StringSizes, kind: StringKind) -> LengthKind {
    match kind {
        StringKind::Saveinfo => sizes.saveinfo,
        StringKind::Select => sizes.select,
        StringKind::Msgset => sizes.msgset,
        StringKind::Dbgout => sizes.dbgout,
        StringKind::Logset => sizes.logset,
        StringKind::Voiceplay => sizes.voiceplay,
        StringKind::Chatset => sizes.chatset,
        StringKind::Named => sizes.named,
        StringKind::Stageinfo => sizes.stageinfo,
    }
}

impl StringSizes {
    /// The length prefix of strings of kind `kind`.
    pub fn size_of(&self, kind: StringKind) -> (r: LengthKind)
        ensures
            r == string_size(*self, kind),
    {
        match kind {
            StringKind::Saveinfo => self.saveinfo,
            StringKind::Select => self.select,
            StringKind::Msgset => self.msgset,
            StringKind::Dbgout => self.dbgout,
            StringKind::Logset => self.logset,
            StringKind::Voiceplay => self.voiceplay,
            StringKind::Chatset => self.chatset,
            StringKind::Named => self.named,
            StringKind::Stageinfo => self.stageinfo,
        }
    }
}

/// What the layout of the operations of a version depends on: the version, the groups of
/// versions it belongs to, and its number, array-length and string-length styles.
#[derive(Debug, Clone, Copy, PartialEq, Eq, Structural)]
pub struct VersionFacts {
    pub version: ShinVersion,
    pub number_style: NumberStyle,
    /// Before the switch to the newer engine.
    pub pre_shin: bool,
    /// After the switch to the newer engine.
    pub post_shin: bool,
    /// Any version but Konosuba.
    pub not_konosuba: bool,
    /// A version with planes.
    pub post_plane: bool,
    /// A Higurashi game.
    pub higurashi: bool,
    /// A version for the Switch.
    pub switch: bool,
    /// The length prefix of the register and number arrays of `mm`, `gt` and `st`.
    pub mm_gt_st_length: LengthKind,
    /// The length prefix of the offset arrays of `jt` and `gosubt`.
    pub gt_gosubt_length: LengthKind,
    pub string_sizes: StringSizes,
}

/// What the directory offsets of an archive index count from.
#[derive(Debug, Clone, Copy, PartialEq, Eq, Structural)]
pub enum RomDirectoryOffsetDisposition {
    /// From the start of the archive.
    FromStart,
    /// From the start of the index.
    FromIndexStart,
}

/// What the layout of an archive depends on: its version, the magic and version bytes its
/// files start with, and what its directory offsets count from.
pub struct RomVersionFacts {
    pub version: RomVersion,
    pub head_bytes: Vec<u8>,
    pub directory_offset_disposition: RomDirectoryOffsetDisposition,
}

} // verus!
