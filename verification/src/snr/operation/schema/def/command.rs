//! The elements of each command, by version.
use vstd::prelude::*;

use crate::snr::operation::schema::def::{CommandSchemaCtx, OperationResult};
use crate::snr::operation::schema::{command_max, Command, OperationElement};
use crate::versions::{string_size, LengthKind, ShinVersion, StringKind, VersionFacts};

verus! {

/// The elements of command `c` in the version `f` describes; `None` where the version has
/// no such command.
pub open spec fn command_schema(f: VersionFacts, c: Command) -> Option<Seq<OperationElement>> {
    match c {
        Command::EXIT => match f.version {
                ShinVersion::HigurashiSui | ShinVersion::AliasCarnival | ShinVersion::WorldRe => Some(seq![OperationElement::Number]),
                ShinVersion::WhiteEternity | ShinVersion::HigurashiHou | ShinVersion::HigurashiHouV2 | ShinVersion::DC4 | ShinVersion::Umineko | ShinVersion::Gerokasu2 => Some(seq![OperationElement::U8, OperationElement::Number]),
                ShinVersion::Konosuba => Some(seq![OperationElement::Number]),
            },
        Command::SGET => Some(seq![OperationElement::Register, OperationElement::Number]),
        Command::SSET => Some(seq![OperationElement::Number, OperationElement::Number]),
        Command::WAIT => match f.version {
                ShinVersion::HigurashiSui | ShinVersion::AliasCarnival | ShinVersion::WorldRe => Some(seq![OperationElement::Number]),
                ShinVersion::WhiteEternity | ShinVersion::HigurashiHou | ShinVersion::HigurashiHouV2 | ShinVersion::DC4 | ShinVersion::Konosuba | ShinVersion::Umineko | ShinVersion::Gerokasu2 => Some(seq![OperationElement::U8, OperationElement::Number]),
            },
        Command::KEYWAIT => match f.version {
                ShinVersion::HigurashiSui | ShinVersion::AliasCarnival | ShinVersion::WorldRe => Some(seq![OperationElement::Number]),
                ShinVersion::WhiteEternity | ShinVersion::HigurashiHou | ShinVersion::HigurashiHouV2 | ShinVersion::DC4 | ShinVersion::Konosuba | ShinVersion::Umineko | ShinVersion::Gerokasu2 => None,
            },
        Command::MSGINIT => match f.version {
                ShinVersion::HigurashiSui | ShinVersion::AliasCarnival | ShinVersion::WorldRe | ShinVersion::WhiteEternity => Some(seq![OperationElement::Number, OperationElement::Number]),
                ShinVersion::HigurashiHou | ShinVersion::DC4 | ShinVersion::Konosuba | ShinVersion::Umineko | ShinVersion::Gerokasu2 => Some(seq![OperationElement::Number]),
                ShinVersion::HigurashiHouV2 => Some(seq![OperationElement::Number, OperationElement::Number, OperationElement::Number]),
            },
        Command::MSGSET => match f.version {
                ShinVersion::HigurashiSui => Some(seq![OperationElement::U32, OperationElement::String(string_size(f.string_sizes, StringKind::Msgset))]),
                ShinVersion::AliasCarnival => Some(seq![OperationElement::U32, OperationElement::Number, OperationElement::String(string_size(f.string_sizes, StringKind::Msgset))]),
                ShinVersion::WorldRe => Some(seq![OperationElement::U32, OperationElement::Number, OperationElement::Number, OperationElement::Number, OperationElement::String(string_size(f.string_sizes, StringKind::Msgset))]),
                ShinVersion::WhiteEternity => Some(seq![OperationElement::U32, OperationElement::Number, OperationElement::Number, OperationElement::String(string_size(f.string_sizes, StringKind::Msgset))]),
                ShinVersion::HigurashiHou | ShinVersion::HigurashiHouV2 => Some(seq![OperationElement::U32, OperationElement::Number, OperationElement::String(string_size(f.string_sizes, StringKind::Msgset))]),
                ShinVersion::DC4 => Some(seq![OperationElement::U32, OperationElement::Number, OperationElement::String(string_size(f.string_sizes, StringKind::Msgset))]),
                ShinVersion::Konosuba => Some(seq![OperationElement::U32, OperationElement::String(string_size(f.string_sizes, StringKind::Msgset))]),
                ShinVersion::Umineko => Some(seq![OperationElement::U32, OperationElement::String(string_size(f.string_sizes, StringKind::Msgset))]),
                ShinVersion::Gerokasu2 => Some(seq![OperationElement::U32, OperationElement::Number, OperationElement::String(string_size(f.string_sizes, StringKind::Msgset))]),
            },
        Command::MSGWAIT => Some(seq![OperationElement::Number]),
        Command::MSGSIGNAL => Some(Seq::empty()),
        Command::MSGSYNC => if !(f.version == ShinVersion::HigurashiHou || f.version == ShinVersion::HigurashiHouV2 || f.version == ShinVersion::DC4 || f.version == ShinVersion::Umineko || f.version == ShinVersion::Gerokasu2) {
                None
            } else {
                Some(seq![OperationElement::Number, OperationElement::Number])
            },
        Command::MSGCLOSE => match f.version {
                ShinVersion::HigurashiSui | ShinVersion::AliasCarnival | ShinVersion::WorldRe => Some(Seq::empty()),
                ShinVersion::WhiteEternity | ShinVersion::HigurashiHou | ShinVersion::HigurashiHouV2 | ShinVersion::DC4 | ShinVersion::Konosuba | ShinVersion::Umineko | ShinVersion::Gerokasu2 => Some(seq![OperationElement::U8]),
            },
        Command::MSGCHECK => if !(f.pre_shin) {
                None
            } else {
                Some(seq![OperationElement::U32])
            },
        Command::MSGQUAKE => if !(f.version == ShinVersion::HigurashiSui) {
                None
            } else {
                Some(seq![OperationElement::Number])
            },
        Command::MSGHIDE => if !(f.version == ShinVersion::HigurashiHouV2) {
                None
            } else {
                Some(Seq::empty())
            },
        Command::MSGFACE => match f.version {
                ShinVersion::HigurashiSui | ShinVersion::WorldRe | ShinVersion::Konosuba | ShinVersion::HigurashiHouV2 | ShinVersion::Umineko => None,
                ShinVersion::AliasCarnival => Some(seq![OperationElement::Number, OperationElement::Number, OperationElement::Number, OperationElement::Number]),
                ShinVersion::WhiteEternity | ShinVersion::HigurashiHou | ShinVersion::DC4 | ShinVersion::Gerokasu2 => Some(seq![OperationElement::Number]),
            },
        Command::LOGSET => match f.version {
                ShinVersion::HigurashiSui | ShinVersion::WhiteEternity | ShinVersion::HigurashiHou | ShinVersion::HigurashiHouV2 => Some(seq![OperationElement::String(string_size(f.string_sizes, StringKind::Logset))]),
                ShinVersion::WorldRe => Some(seq![OperationElement::Number, OperationElement::Number, OperationElement::Number, OperationElement::String(string_size(f.string_sizes, StringKind::Logset))]),
                ShinVersion::AliasCarnival => Some(seq![OperationElement::Number, OperationElement::String(string_size(f.string_sizes, StringKind::Logset))]),
                ShinVersion::DC4 | ShinVersion::Konosuba | ShinVersion::Umineko | ShinVersion::Gerokasu2 => None,
            },
        Command::SELECT => Some(seq![OperationElement::U16, OperationElement::U16, OperationElement::Register, OperationElement::Number, OperationElement::String(string_size(f.string_sizes, StringKind::Select)), OperationElement::StringArray(f.string_sizes.select_choice)]),
        Command::WIPE => match f.version {
                ShinVersion::HigurashiSui | ShinVersion::WorldRe => Some(seq![OperationElement::HiguSuiWipeArg]),
                ShinVersion::AliasCarnival | ShinVersion::HigurashiHou | ShinVersion::HigurashiHouV2 | ShinVersion::WhiteEternity | ShinVersion::DC4 | ShinVersion::Konosuba | ShinVersion::Umineko | ShinVersion::Gerokasu2 => Some(seq![OperationElement::Number, OperationElement::Number, OperationElement::Number, OperationElement::BitmaskNumberArray]),
            },
        Command::WIPEWAIT => Some(Seq::empty()),
        Command::BGMPLAY => Some(seq![OperationElement::Number, OperationElement::Number, OperationElement::Number, OperationElement::Number]),
        Command::BGMSTOP => Some(seq![OperationElement::Number]),
        Command::BGMVOL => Some(seq![OperationElement::Number, OperationElement::Number]),
        Command::BGMWAIT => Some(seq![OperationElement::Number]),
        Command::BGMSYNC => Some(seq![OperationElement::Number]),
        Command::SEPLAY => match f.version {
                ShinVersion::HigurashiSui | ShinVersion::AliasCarnival | ShinVersion::WorldRe => Some(seq![OperationElement::Number, OperationElement::Number, OperationElement::Number, OperationElement::Number, OperationElement::Number]),
                ShinVersion::WhiteEternity => Some(seq![OperationElement::Number, OperationElement::Number, OperationElement::Number, OperationElement::Number, OperationElement::Number, OperationElement::Number]),
                ShinVersion::HigurashiHou | ShinVersion::HigurashiHouV2 | ShinVersion::DC4 | ShinVersion::Konosuba | ShinVersion::Umineko | ShinVersion::Gerokasu2 => Some(seq![OperationElement::Number, OperationElement::Number, OperationElement::Number, OperationElement::Number, OperationElement::Number, OperationElement::Number, OperationElement::Number]),
            },
        Command::SESTOP => Some(seq![OperationElement::Number, OperationElement::Number]),
        Command::SESTOPALL => Some(seq![OperationElement::Number]),
        Command::SEVOL => Some(seq![OperationElement::Number, OperationElement::Number, OperationElement::Number]),
        Command::SEPAN => if !(f.post_shin) {
                None
            } else {
                Some(seq![OperationElement::Number, OperationElement::Number, OperationElement::Number])
            },
        Command::SEWAIT => Some(seq![OperationElement::Number, OperationElement::Number]),
        Command::SEONCE => match f.version {
                ShinVersion::HigurashiSui | ShinVersion::AliasCarnival | ShinVersion::WorldRe => Some(seq![OperationElement::Number, OperationElement::Number, OperationElement::Number]),
                ShinVersion::WhiteEternity => Some(seq![OperationElement::Number, OperationElement::Number, OperationElement::Number, OperationElement::Number]),
                ShinVersion::DC4 | ShinVersion::HigurashiHou | ShinVersion::HigurashiHouV2 | ShinVersion::Konosuba | ShinVersion::Umineko | ShinVersion::Gerokasu2 => Some(seq![OperationElement::Number, OperationElement::Number, OperationElement::Number, OperationElement::Number, OperationElement::Number]),
            },
        Command::UNK9B => if !(f.pre_shin) {
                None
            } else {
                Some(seq![OperationElement::Number, OperationElement::Number])
            },
        Command::VOICEPLAY => Some(seq![OperationElement::String(string_size(f.string_sizes, StringKind::Voiceplay)), OperationElement::Number, OperationElement::Number]),
        Command::VOICESTOP => if !(f.version == ShinVersion::HigurashiHou || f.version == ShinVersion::HigurashiHouV2 || f.version == ShinVersion::DC4 || f.version == ShinVersion::Konosuba || f.version == ShinVersion::Umineko || f.version == ShinVersion::Gerokasu2) {
                None
            } else {
                Some(Seq::empty())
            },
        Command::VOICEWAIT => Some(seq![OperationElement::Number]),
        Command::SYSSE => if !(f.version == ShinVersion::Umineko || f.version == ShinVersion::Gerokasu2) {
                None
            } else {
                Some(seq![OperationElement::Number, OperationElement::Number])
            },
        Command::SAVEINFO => if !(f.not_konosuba) {
                None
            } else {
                Some(seq![OperationElement::Number, OperationElement::String(string_size(f.string_sizes, StringKind::Saveinfo))])
            },
        Command::MOVIE => if !(f.pre_shin) {
                None
            } else {
                Some(seq![OperationElement::Number])
            },
        Command::AUTOSAVE => if !(f.not_konosuba) {
                None
            } else {
                Some(Seq::empty())
            },
        Command::EVBEGIN => if !(f.not_konosuba) {
                None
            } else {
                Some(seq![OperationElement::Number])
            },
        Command::EVEND => if !(f.not_konosuba) {
                None
            } else {
                Some(Seq::empty())
            },
        Command::RESUMESET => if !(f.post_plane) {
                None
            } else {
                Some(Seq::empty())
            },
        Command::RESUME => if !(f.post_plane) {
                None
            } else {
                Some(Seq::empty())
            },
        Command::SYSCALL => if !(f.version == ShinVersion::Umineko || f.version == ShinVersion::Gerokasu2) {
                None
            } else {
                Some(seq![OperationElement::Number, OperationElement::Number])
            },
        Command::TROPHY => if !(f.not_konosuba) {
                None
            } else {
                Some(seq![OperationElement::Number])
            },
        Command::UNLOCK => match f.version {
                ShinVersion::HigurashiSui | ShinVersion::AliasCarnival | ShinVersion::WorldRe | ShinVersion::WhiteEternity | ShinVersion::Konosuba => None,
                ShinVersion::DC4 | ShinVersion::Gerokasu2 => Some(seq![OperationElement::Number]),
                ShinVersion::HigurashiHou | ShinVersion::HigurashiHouV2 | ShinVersion::Umineko => Some(seq![OperationElement::U8, OperationElement::NumberArray(LengthKind::U8Length)]),
            },
        Command::LAYERCLEAR => if !(f.pre_shin) {
                None
            } else {
                Some(Seq::empty())
            },
        Command::LAYERINIT => if !(f.post_shin) {
                None
            } else {
                Some(seq![OperationElement::Number])
            },
        Command::LAYERLOAD => Some(seq![OperationElement::Number, OperationElement::Number, OperationElement::Number, OperationElement::BitmaskNumberArray]),
        Command::LAYERUNLOAD => if !(f.post_shin) {
                None
            } else {
                Some(seq![OperationElement::Number, OperationElement::Number])
            },
        Command::LAYERCTRL => Some(seq![OperationElement::Number, OperationElement::Number, OperationElement::BitmaskNumberArray]),
        Command::LAYERWAIT => match f.version {
                ShinVersion::HigurashiSui | ShinVersion::WorldRe => Some(seq![OperationElement::Number, OperationElement::Number]),
                ShinVersion::AliasCarnival | ShinVersion::WhiteEternity | ShinVersion::HigurashiHou | ShinVersion::HigurashiHouV2 | ShinVersion::DC4 | ShinVersion::Konosuba | ShinVersion::Umineko | ShinVersion::Gerokasu2 => Some(seq![OperationElement::Number, OperationElement::NumberArray(LengthKind::U8Length)]),
            },
        Command::LAYERSWAP => if !(f.version == ShinVersion::HigurashiHou || f.version == ShinVersion::HigurashiHouV2 || f.version == ShinVersion::DC4 || f.version == ShinVersion::Umineko || f.version == ShinVersion::Gerokasu2) {
                None
            } else {
                Some(seq![OperationElement::Number, OperationElement::Number])
            },
        Command::LAYERBACK => if !(f.version == ShinVersion::HigurashiHou || f.version == ShinVersion::HigurashiHouV2 || f.version == ShinVersion::Konosuba) {
                None
            } else {
                Some(seq![OperationElement::Number])
            },
        Command::LAYERSELECT => if !(f.post_shin) {
                None
            } else {
                Some(seq![OperationElement::Number, OperationElement::Number])
            },
        Command::MOVIEWAIT => if !(f.post_shin) {
                None
            } else {
                Some(seq![OperationElement::Number, OperationElement::Number])
            },
        Command::TRANSSET => if !(f.post_plane) {
                None
            } else {
                Some(seq![OperationElement::Number, OperationElement::Number, OperationElement::Number, OperationElement::BitmaskNumberArray])
            },
        Command::TRANSWAIT => if !(f.post_plane) {
                None
            } else {
                Some(seq![OperationElement::Number])
            },
        Command::PAGEBACK => if !(f.post_plane) {
                None
            } else {
                Some(Seq::empty())
            },
        Command::PLANESELECT => if !(f.post_plane) {
                None
            } else {
                Some(seq![OperationElement::Number])
            },
        Command::PLANECLEAR => if !(f.post_plane) {
                None
            } else {
                Some(Seq::empty())
            },
        Command::MASKLOAD => if !(f.post_plane) {
                None
            } else {
                Some(seq![OperationElement::Number, OperationElement::Number, OperationElement::Number])
            },
        Command::MASKUNLOAD => if !(f.post_plane) {
                None
            } else {
                Some(Seq::empty())
            },
        Command::ICOGET => if !(f.version == ShinVersion::AliasCarnival) {
                None
            } else {
                Some(seq![OperationElement::NumberArray(LengthKind::U8Length)])
            },
        Command::STAGEINFO => if !(f.version == ShinVersion::AliasCarnival) {
                None
            } else {
                Some(seq![OperationElement::String(string_size(f.string_sizes, StringKind::Stageinfo)), OperationElement::String(string_size(f.string_sizes, StringKind::Stageinfo))])
            },
        Command::ICOCHK => if !(f.version == ShinVersion::AliasCarnival) {
                None
            } else {
                Some(seq![OperationElement::U16])
            },
        Command::EMOTEWAIT => if !(f.version == ShinVersion::AliasCarnival) {
                None
            } else {
                Some(seq![OperationElement::Number])
            },
        Command::NAMED => if !(f.version == ShinVersion::AliasCarnival) {
                None
            } else {
                Some(seq![OperationElement::U8, OperationElement::String(string_size(f.string_sizes, StringKind::Named))])
            },
        Command::BACKINIT => if !(f.version == ShinVersion::AliasCarnival) {
                None
            } else {
                Some(Seq::empty())
            },
        Command::CHARCLEAR => if !(f.version == ShinVersion::WorldRe || f.version == ShinVersion::WhiteEternity) {
                None
            } else {
                Some(Seq::empty())
            },
        Command::CHARLOAD => if !(f.version == ShinVersion::WhiteEternity) {
                None
            } else {
                Some(seq![OperationElement::Number, OperationElement::Number, OperationElement::Number])
            },
        Command::CHARUNLOAD => if !(f.version == ShinVersion::WhiteEternity) {
                None
            } else {
                Some(seq![OperationElement::Number])
            },
        Command::CHARDISP => if !(f.version == ShinVersion::WorldRe || f.version == ShinVersion::WhiteEternity) {
                None
            } else {
                Some(seq![OperationElement::Number, OperationElement::Number])
            },
        Command::CHARCTRL => if !(f.version == ShinVersion::WorldRe || f.version == ShinVersion::WhiteEternity) {
                None
            } else {
                Some(seq![OperationElement::Number, OperationElement::Number, OperationElement::BitmaskNumberArray])
            },
        Command::CHARWAIT => match f.version {
                ShinVersion::WorldRe => Some(seq![OperationElement::Number, OperationElement::Number]),
                ShinVersion::WhiteEternity => Some(seq![OperationElement::Number, OperationElement::NumberArray(LengthKind::U8Length)]),
                _ => None,
            },
        Command::CHARMARK => if !(f.version == ShinVersion::WorldRe || f.version == ShinVersion::WhiteEternity) {
                None
            } else {
                Some(seq![OperationElement::Number, OperationElement::Number, OperationElement::Number])
            },
        Command::CHARSYNC => if !(f.version == ShinVersion::WhiteEternity) {
                None
            } else {
                Some(Seq::empty())
            },
        Command::CHATSET => if !(f.version == ShinVersion::DC4) {
                None
            } else {
                Some(seq![OperationElement::String(string_size(f.string_sizes, StringKind::Chatset))])
            },
        Command::SLEEP => if !(f.version == ShinVersion::Konosuba) {
                None
            } else {
                Some(seq![OperationElement::U16, OperationElement::Number, OperationElement::Number, OperationElement::Number, OperationElement::Number])
            },
        Command::VSET => if !(f.version == ShinVersion::Konosuba) {
                None
            } else {
                Some(seq![OperationElement::Number, OperationElement::Number])
            },
        Command::TIPSGET => if !(f.version == ShinVersion::HigurashiSui || f.version == ShinVersion::WorldRe || f.version == ShinVersion::HigurashiHou || f.version == ShinVersion::HigurashiHouV2 || f.version == ShinVersion::Umineko) {
                None
            } else {
                Some(seq![OperationElement::NumberArray(LengthKind::U8Length)])
            },
        Command::CHARSEL => if !(f.version == ShinVersion::WorldRe || f.version == ShinVersion::HigurashiSui) {
                None
            } else {
                Some(seq![OperationElement::U16, OperationElement::Register, OperationElement::U16, OperationElement::Number])
            },
        Command::OTSUGET => if !(f.version == ShinVersion::HigurashiSui || f.version == ShinVersion::WorldRe || f.version == ShinVersion::HigurashiHou || f.version == ShinVersion::HigurashiHouV2) {
                None
            } else {
                Some(seq![OperationElement::Number])
            },
        Command::CHART => if !(f.higurashi) {
                None
            } else {
                Some(seq![OperationElement::U8, OperationElement::NumberArray(LengthKind::U8Length)])
            },
        Command::SNRSEL => if !(f.higurashi) {
                None
            } else {
                Some(seq![OperationElement::Number])
            },
        Command::KAKERA => if !(f.higurashi) {
                None
            } else {
                Some(Seq::empty())
            },
        Command::KAKERAGET => if !(f.higurashi) {
                None
            } else {
                Some(seq![OperationElement::Number, OperationElement::NumberArray(LengthKind::U8Length)])
            },
        Command::QUIZ => match f.version {
                ShinVersion::HigurashiSui | ShinVersion::HigurashiHou | ShinVersion::HigurashiHouV2 => Some(seq![OperationElement::Register, OperationElement::Number, OperationElement::Number, OperationElement::Number]),
                ShinVersion::Umineko | ShinVersion::Gerokasu2 => Some(seq![OperationElement::Register, OperationElement::Number]),
                ShinVersion::AliasCarnival | ShinVersion::WhiteEternity | ShinVersion::WorldRe | ShinVersion::DC4 | ShinVersion::Konosuba => None,
            },
        Command::FAKESELECT => if !(f.higurashi) {
                None
            } else {
                Some(Seq::empty())
            },
        Command::CHARS => if !(f.version == ShinVersion::Umineko) {
                None
            } else {
                Some(seq![OperationElement::Number, OperationElement::Number])
            },
        Command::SHOWCHARS => if !(f.version == ShinVersion::Umineko) {
                None
            } else {
                Some(Seq::empty())
            },
        Command::NOTIFYSET => if !(f.version == ShinVersion::Umineko) {
                None
            } else {
                Some(seq![OperationElement::Number])
            },
        Command::CHARSELECT => if !(f.version == ShinVersion::HigurashiHou || f.version == ShinVersion::HigurashiHouV2) {
                None
            } else {
                Some(seq![OperationElement::U16, OperationElement::Register, OperationElement::Number])
            },
        Command::FEELICON => if !(f.version == ShinVersion::HigurashiHou || f.version == ShinVersion::HigurashiHouV2) {
                None
            } else {
                Some(seq![OperationElement::Number, OperationElement::Number, OperationElement::Number, OperationElement::Number, OperationElement::Number])
            },
        Command::KGET => if !(f.version == ShinVersion::HigurashiHouV2) {
                None
            } else {
                Some(seq![OperationElement::Register, OperationElement::Number])
            },
        Command::KSET => if !(f.version == ShinVersion::HigurashiHouV2) {
                None
            } else {
                Some(seq![OperationElement::Number, OperationElement::Number])
            },
        Command::DEBUGOUT => match f.version {
                ShinVersion::HigurashiSui | ShinVersion::WorldRe => None,
                ShinVersion::AliasCarnival => Some(seq![OperationElement::String(string_size(f.string_sizes, StringKind::Dbgout)), OperationElement::U16]),
                ShinVersion::WhiteEternity | ShinVersion::HigurashiHou | ShinVersion::HigurashiHouV2 | ShinVersion::DC4 | ShinVersion::Konosuba | ShinVersion::Umineko | ShinVersion::Gerokasu2 => Some(seq![OperationElement::String(string_size(f.string_sizes, StringKind::Dbgout)), OperationElement::NumberArray(LengthKind::U8Length)]),
            },
    }
}

/// No version gives command `c` more elements than `command_max` allows.
pub proof fn lemma_command_max(f: VersionFacts, c: Command)
    ensures
        command_schema(f, c) matches Some(e) ==> e.len() <= command_max(c),
{
}

/// `new` is `prev` after the elements of its command were added to it, with `r` saying
/// whether the version has the command.
pub open spec fn schema_added(new: CommandSchemaCtx, prev: CommandSchemaCtx, r: OperationResult) -> bool {
    &&& new.facts() == prev.facts()
    &&& new.command() == prev.command()
    &&& new.start() == prev.start()
    &&& new.wf()
    &&& new.elements().take(new.start()) == prev.elements().take(prev.start())
    &&& (r == OperationResult::Done) == (command_schema(prev.facts(), prev.command()) is Some)
    &&& r != OperationResult::Unimplemented
    &&& r == OperationResult::Done ==> new.elements() =~= prev.elements() + command_schema(
        prev.facts(),
        prev.command(),
    ).unwrap()
}

/// Adds the elements of `command` to `ctx`, as `command_schema` gives them, and says whether
/// the version has the command; where it does not, what was added is to be dropped.
pub fn get_schema_for_command(ctx: &mut CommandSchemaCtx, command: Command) -> (r: OperationResult)
    requires
        old(ctx).command() == command,
        old(ctx).wf(),
    ensures
        final(ctx).facts() == old(ctx).facts(),
        final(ctx).command() == old(ctx).command(),
        final(ctx).start() == old(ctx).start(),
        final(ctx).wf(),
        final(ctx).elements().take(final(ctx).start()) == old(ctx).elements().take(old(ctx).start()),
        (r == OperationResult::Done) == (command_schema(old(ctx).facts(), command) is Some),
        r != OperationResult::Unimplemented,
        r == OperationResult::Done ==> final(ctx).elements() =~= old(ctx).elements() + command_schema(
            old(ctx).facts(),
            command,
        ).unwrap(),
{
    match command {
        Command::EXIT | Command::SGET | Command::SSET | Command::WAIT | Command::KEYWAIT | Command::MSGINIT | Command::MSGSET | Command::MSGWAIT | Command::MSGSIGNAL | Command::MSGSYNC | Command::MSGCLOSE | Command::MSGFACE | Command::MSGCHECK | Command::MSGQUAKE | Command::MSGHIDE | Command::LOGSET | Command::SELECT | Command::WIPE | Command::WIPEWAIT => message_command_schema(ctx, command),
        Command::BGMPLAY | Command::BGMSTOP | Command::BGMVOL | Command::BGMWAIT | Command::BGMSYNC | Command::SEPLAY | Command::SESTOP | Command::SESTOPALL | Command::SEVOL | Command::SEPAN | Command::SEWAIT | Command::SEONCE | Command::UNK9B | Command::VOICEPLAY | Command::VOICESTOP | Command::VOICEWAIT | Command::SYSSE => sound_command_schema(ctx, command),
        Command::SAVEINFO | Command::MOVIE | Command::AUTOSAVE | Command::EVBEGIN | Command::EVEND | Command::RESUMESET | Command::RESUME | Command::SYSCALL | Command::TROPHY | Command::UNLOCK => system_command_schema(ctx, command),
        Command::LAYERCLEAR | Command::LAYERINIT | Command::LAYERLOAD | Command::LAYERUNLOAD | Command::LAYERCTRL | Command::LAYERWAIT | Command::LAYERSWAP | Command::LAYERSELECT | Command::MOVIEWAIT | Command::LAYERBACK | Command::TRANSSET | Command::TRANSWAIT | Command::PAGEBACK | Command::PLANESELECT | Command::PLANECLEAR | Command::MASKLOAD | Command::MASKUNLOAD => layer_command_schema(ctx, command),
        Command::ICOGET | Command::STAGEINFO | Command::ICOCHK | Command::EMOTEWAIT | Command::NAMED | Command::BACKINIT | Command::CHARCLEAR | Command::CHARLOAD | Command::CHARUNLOAD | Command::CHARDISP | Command::CHARCTRL | Command::CHARWAIT | Command::CHARMARK | Command::CHARSYNC => character_command_schema(ctx, command),
        Command::CHATSET | Command::SLEEP | Command::VSET | Command::TIPSGET | Command::CHARSEL | Command::OTSUGET | Command::CHART | Command::SNRSEL | Command::KAKERA | Command::KAKERAGET | Command::QUIZ | Command::FAKESELECT => sui_command_schema(ctx, command),
        Command::CHARS | Command::SHOWCHARS | Command::NOTIFYSET | Command::FEELICON | Command::CHARSELECT | Command::KGET | Command::KSET | Command::DEBUGOUT => hou_command_schema(ctx, command),
    }
}

/// `get_schema_for_command` for messages, selections and wipes.
fn message_command_schema(ctx: &mut CommandSchemaCtx, command: Command) -> (r: OperationResult)
    requires
        old(ctx).command() == command,
        old(ctx).wf(),
        command is EXIT || command is SGET || command is SSET || command is WAIT || command is KEYWAIT || command is MSGINIT || command is MSGSET || command is MSGWAIT || command is MSGSIGNAL || command is MSGSYNC || command is MSGCLOSE || command is MSGFACE || command is MSGCHECK || command is MSGQUAKE || command is MSGHIDE || command is LOGSET || command is SELECT || command is WIPE || command is WIPEWAIT,
    ensures
        schema_added(*final(ctx), *old(ctx), r),
{
    match command {
        Command::EXIT => {
            match ctx.version() {
                ShinVersion::HigurashiSui | ShinVersion::AliasCarnival | ShinVersion::WorldRe => {
                    ctx.number();
                },
                ShinVersion::WhiteEternity | ShinVersion::HigurashiHou | ShinVersion::HigurashiHouV2 | ShinVersion::DC4 | ShinVersion::Umineko | ShinVersion::Gerokasu2 => {
                    ctx.u8();
                    ctx.number();
                },
                ShinVersion::Konosuba => {
                    ctx.number();
                },
            }
        },
        Command::SGET => {
            ctx.reg();
            ctx.number();
        },
        Command::SSET => {
            ctx.number();
            ctx.number();
        },
        Command::WAIT => {
            match ctx.version() {
                ShinVersion::HigurashiSui | ShinVersion::AliasCarnival | ShinVersion::WorldRe => {
                    ctx.number();
                },
                ShinVersion::WhiteEternity | ShinVersion::HigurashiHou | ShinVersion::HigurashiHouV2 | ShinVersion::DC4 | ShinVersion::Konosuba | ShinVersion::Umineko | ShinVersion::Gerokasu2 => {
                    ctx.u8();
                    ctx.number();
                },
            }
        },
        Command::KEYWAIT => {
            match ctx.version() {
                ShinVersion::HigurashiSui | ShinVersion::AliasCarnival | ShinVersion::WorldRe => {
                    ctx.number();
                },
                ShinVersion::WhiteEternity | ShinVersion::HigurashiHou | ShinVersion::HigurashiHouV2 | ShinVersion::DC4 | ShinVersion::Konosuba | ShinVersion::Umineko | ShinVersion::Gerokasu2 => {
                    return OperationResult::Unreachable;
                },
            }
        },
        Command::MSGINIT => {
            match ctx.version() {
                ShinVersion::HigurashiSui | ShinVersion::AliasCarnival | ShinVersion::WorldRe | ShinVersion::WhiteEternity => {
                    ctx.number();
                    ctx.number();
                },
                ShinVersion::HigurashiHou | ShinVersion::DC4 | ShinVersion::Konosuba | ShinVersion::Umineko | ShinVersion::Gerokasu2 => {
                    ctx.number();
                },
                ShinVersion::HigurashiHouV2 => {
                    ctx.number();
                    ctx.number();
                    ctx.number();
                },
            }
        },
        Command::MSGSET => {
            ctx.u32();
            match ctx.version() {
                ShinVersion::HigurashiSui => {
                },
                ShinVersion::AliasCarnival => {
                    ctx.number();
                },
                ShinVersion::WorldRe => {
                    ctx.number();
                    ctx.number();
                    ctx.number();
                },
                ShinVersion::WhiteEternity => {
                    ctx.number();
                    ctx.number();
                },
                ShinVersion::HigurashiHou | ShinVersion::HigurashiHouV2 => {
                    ctx.number();
                },
                ShinVersion::DC4 => {
                    ctx.number();
                },
                ShinVersion::Konosuba => {
                },
                ShinVersion::Umineko => {
                },
                ShinVersion::Gerokasu2 => {
                    ctx.number();
                },
            }
            ctx.string();
        },
        Command::MSGWAIT => {
            ctx.number();
        },
        Command::MSGSIGNAL => {
        },
        Command::MSGSYNC => {
            if !matches!(ctx.version(), ShinVersion::HigurashiHou | ShinVersion::HigurashiHouV2 | ShinVersion::DC4 | ShinVersion::Umineko | ShinVersion::Gerokasu2) {
                return OperationResult::Unreachable;
            }
            ctx.number();
            ctx.number();
        },
        Command::MSGCLOSE => {
            match ctx.version() {
                ShinVersion::HigurashiSui | ShinVersion::AliasCarnival | ShinVersion::WorldRe => {
                },
                ShinVersion::WhiteEternity | ShinVersion::HigurashiHou | ShinVersion::HigurashiHouV2 | ShinVersion::DC4 | ShinVersion::Konosuba | ShinVersion::Umineko | ShinVersion::Gerokasu2 => {
                    ctx.u8();
                },
            }
        },
        Command::MSGFACE => {
            match ctx.version() {
                ShinVersion::HigurashiSui | ShinVersion::WorldRe | ShinVersion::Konosuba | ShinVersion::HigurashiHouV2 | ShinVersion::Umineko => {
                    return OperationResult::Unreachable;
                },
                ShinVersion::AliasCarnival => {
                    ctx.number();
                    ctx.number();
                    ctx.number();
                    ctx.number();
                },
                ShinVersion::WhiteEternity | ShinVersion::HigurashiHou | ShinVersion::DC4 | ShinVersion::Gerokasu2 => {
                    ctx.number();
                },
            }
        },
        Command::MSGCHECK => {
            if !ctx.version_facts().pre_shin {
                return OperationResult::Unreachable;
            }
            ctx.u32();
        },
        Command::MSGQUAKE => {
            if !matches!(ctx.version(), ShinVersion::HigurashiSui) {
                return OperationResult::Unreachable;
            }
            ctx.number();
        },
        Command::MSGHIDE => {
            if !matches!(ctx.version(), ShinVersion::HigurashiHouV2) {
                return OperationResult::Unreachable;
            }
        },
        Command::LOGSET => {
            match ctx.version() {
                ShinVersion::HigurashiSui | ShinVersion::WhiteEternity | ShinVersion::HigurashiHou | ShinVersion::HigurashiHouV2 => {
                    ctx.string();
                },
                ShinVersion::WorldRe => {
                    ctx.number();
                    ctx.number();
                    ctx.number();
                    ctx.string();
                },
                ShinVersion::AliasCarnival => {
                    ctx.number();
                    ctx.string();
                },
                ShinVersion::DC4 | ShinVersion::Konosuba | ShinVersion::Umineko | ShinVersion::Gerokasu2 => {
                    return OperationResult::Unreachable;
                },
            }
        },
        Command::SELECT => {
            ctx.u16();
            ctx.u16();
            ctx.reg();
            ctx.number();
            ctx.string();
            ctx.string_array();
        },
        Command::WIPE => {
            match ctx.version() {
                ShinVersion::HigurashiSui | ShinVersion::WorldRe => {
                    ctx.custom(OperationElement::HiguSuiWipeArg);
                },
                ShinVersion::AliasCarnival | ShinVersion::HigurashiHou | ShinVersion::HigurashiHouV2 | ShinVersion::WhiteEternity | ShinVersion::DC4 | ShinVersion::Konosuba | ShinVersion::Umineko | ShinVersion::Gerokasu2 => {
                    ctx.number();
                    ctx.number();
                    ctx.number();
                    ctx.bitmask_number_array();
                },
            }
        },
        Command::WIPEWAIT => {
        },
        _ => {
            return OperationResult::Unimplemented;
        },
    }
    OperationResult::Done
}

/// `get_schema_for_command` for music, sound effects and voices.
fn sound_command_schema(ctx: &mut CommandSchemaCtx, command: Command) -> (r: OperationResult)
    requires
        old(ctx).command() == command,
        old(ctx).wf(),
        command is BGMPLAY || command is BGMSTOP || command is BGMVOL || command is BGMWAIT || command is BGMSYNC || command is SEPLAY || command is SESTOP || command is SESTOPALL || command is SEVOL || command is SEPAN || command is SEWAIT || command is SEONCE || command is UNK9B || command is VOICEPLAY || command is VOICESTOP || command is VOICEWAIT || command is SYSSE,
    ensures
        schema_added(*final(ctx), *old(ctx), r),
{
    match command {
        Command::BGMPLAY => {
            ctx.number();
            ctx.number();
            ctx.number();
            ctx.number();
        },
        Command::BGMSTOP => {
            ctx.number();
        },
        Command::BGMVOL => {
            ctx.number();
            ctx.number();
        },
        Command::BGMWAIT => {
            ctx.number();
        },
        Command::BGMSYNC => {
            ctx.number();
        },
        Command::SEPLAY => {
            match ctx.version() {
                ShinVersion::HigurashiSui | ShinVersion::AliasCarnival | ShinVersion::WorldRe => {
                    ctx.number();
                    ctx.number();
                    ctx.number();
                    ctx.number();
                    ctx.number();
                },
                ShinVersion::WhiteEternity => {
                    ctx.number();
                    ctx.number();
                    ctx.number();
                    ctx.number();
                    ctx.number();
                    ctx.number();
                },
                ShinVersion::HigurashiHou | ShinVersion::HigurashiHouV2 | ShinVersion::DC4 | ShinVersion::Konosuba | ShinVersion::Umineko | ShinVersion::Gerokasu2 => {
                    ctx.number();
                    ctx.number();
                    ctx.number();
                    ctx.number();
                    ctx.number();
                    ctx.number();
                    ctx.number();
                },
            }
        },
        Command::SESTOP => {
            ctx.number();
            ctx.number();
        },
        Command::SESTOPALL => {
            ctx.number();
        },
        Command::SEVOL => {
            ctx.number();
            ctx.number();
            ctx.number();
        },
        Command::SEPAN => {
            if !ctx.version_facts().post_shin {
                return OperationResult::Unreachable;
            }
            ctx.number();
            ctx.number();
            ctx.number();
        },
        Command::SEWAIT => {
            ctx.number();
            ctx.number();
        },
        Command::SEONCE => {
            match ctx.version() {
                ShinVersion::HigurashiSui | ShinVersion::AliasCarnival | ShinVersion::WorldRe => {
                    ctx.number();
                    ctx.number();
                    ctx.number();
                },
                ShinVersion::WhiteEternity => {
                    ctx.number();
                    ctx.number();
                    ctx.number();
                    ctx.number();
                },
                ShinVersion::DC4 | ShinVersion::HigurashiHou | ShinVersion::HigurashiHouV2 | ShinVersion::Konosuba | ShinVersion::Umineko | ShinVersion::Gerokasu2 => {
                    ctx.number();
                    ctx.number();
                    ctx.number();
                    ctx.number();
                    ctx.number();
                },
            }
        },
        Command::UNK9B => {
            if !ctx.version_facts().pre_shin {
                return OperationResult::Unreachable;
            }
            ctx.number();
            ctx.number();
        },
        Command::VOICEPLAY => {
            ctx.string();
            ctx.number();
            ctx.number();
        },
        Command::VOICESTOP => {
            if !matches!(ctx.version(), ShinVersion::HigurashiHou | ShinVersion::HigurashiHouV2 | ShinVersion::DC4 | ShinVersion::Konosuba | ShinVersion::Umineko | ShinVersion::Gerokasu2) {
                return OperationResult::Unreachable;
            }
        },
        Command::VOICEWAIT => {
            ctx.number();
        },
        Command::SYSSE => {
            if !matches!(ctx.version(), ShinVersion::Umineko | ShinVersion::Gerokasu2) {
                return OperationResult::Unreachable;
            }
            ctx.number();
            ctx.number();
        },
        _ => {
            return OperationResult::Unimplemented;
        },
    }
    OperationResult::Done
}

/// `get_schema_for_command` for saving, events and system calls.
fn system_command_schema(ctx: &mut CommandSchemaCtx, command: Command) -> (r: OperationResult)
    requires
        old(ctx).command() == command,
        old(ctx).wf(),
        command is SAVEINFO || command is MOVIE || command is AUTOSAVE || command is EVBEGIN || command is EVEND || command is RESUMESET || command is RESUME || command is SYSCALL || command is TROPHY || command is UNLOCK,
    ensures
        schema_added(*final(ctx), *old(ctx), r),
{
    match command {
        Command::SAVEINFO => {
            if !ctx.version_facts().not_konosuba {
                return OperationResult::Unreachable;
            }
            ctx.number();
            ctx.string();
        },
        Command::MOVIE => {
            if !ctx.version_facts().pre_shin {
                return OperationResult::Unreachable;
            }
            ctx.number();
        },
        Command::AUTOSAVE => {
            if !ctx.version_facts().not_konosuba {
                return OperationResult::Unreachable;
            }
        },
        Command::EVBEGIN => {
            if !ctx.version_facts().not_konosuba {
                return OperationResult::Unreachable;
            }
            ctx.number();
        },
        Command::EVEND => {
            if !ctx.version_facts().not_konosuba {
                return OperationResult::Unreachable;
            }
        },
        Command::RESUMESET => {
            if !ctx.version_facts().post_plane {
                return OperationResult::Unreachable;
            }
        },
        Command::RESUME => {
            if !ctx.version_facts().post_plane {
                return OperationResult::Unreachable;
            }
        },
        Command::SYSCALL => {
            if !matches!(ctx.version(), ShinVersion::Umineko | ShinVersion::Gerokasu2) {
                return OperationResult::Unreachable;
            }
            ctx.number();
            ctx.number();
        },
        Command::TROPHY => {
            if !ctx.version_facts().not_konosuba {
                return OperationResult::Unreachable;
            }
            ctx.number();
        },
        Command::UNLOCK => {
            match ctx.version() {
                ShinVersion::HigurashiSui | ShinVersion::AliasCarnival | ShinVersion::WorldRe | ShinVersion::WhiteEternity | ShinVersion::Konosuba => {
                    return OperationResult::Unreachable;
                },
                ShinVersion::DC4 | ShinVersion::Gerokasu2 => {
                    ctx.number();
                },
                ShinVersion::HigurashiHou | ShinVersion::HigurashiHouV2 | ShinVersion::Umineko => {
                    ctx.u8();
                    ctx.number_array(LengthKind::U8Length);
                },
            }
        },
        _ => {
            return OperationResult::Unimplemented;
        },
    }
    OperationResult::Done
}

/// `get_schema_for_command` for layers, planes and masks.
fn layer_command_schema(ctx: &mut CommandSchemaCtx, command: Command) -> (r: OperationResult)
    requires
        old(ctx).command() == command,
        old(ctx).wf(),
        command is LAYERCLEAR || command is LAYERINIT || command is LAYERLOAD || command is LAYERUNLOAD || command is LAYERCTRL || command is LAYERWAIT || command is LAYERSWAP || command is LAYERSELECT || command is MOVIEWAIT || command is LAYERBACK || command is TRANSSET || command is TRANSWAIT || command is PAGEBACK || command is PLANESELECT || command is PLANECLEAR || command is MASKLOAD || command is MASKUNLOAD,
    ensures
        schema_added(*final(ctx), *old(ctx), r),
{
    match command {
        Command::LAYERCLEAR => {
            if !ctx.version_facts().pre_shin {
                return OperationResult::Unreachable;
            }
        },
        Command::LAYERINIT => {
            if !ctx.version_facts().post_shin {
                return OperationResult::Unreachable;
            }
            ctx.number();
        },
        Command::LAYERLOAD => {
            ctx.number();
            ctx.number();
            ctx.number();
            ctx.bitmask_number_array();
        },
        Command::LAYERUNLOAD => {
            if !ctx.version_facts().post_shin {
                return OperationResult::Unreachable;
            }
            ctx.number();
            ctx.number();
        },
        Command::LAYERCTRL => {
            ctx.number();
            ctx.number();
            ctx.bitmask_number_array();
        },
        Command::LAYERWAIT => {
            match ctx.version() {
                ShinVersion::HigurashiSui | ShinVersion::WorldRe => {
                    ctx.number();
                    ctx.number();
                },
                ShinVersion::AliasCarnival | ShinVersion::WhiteEternity | ShinVersion::HigurashiHou | ShinVersion::HigurashiHouV2 | ShinVersion::DC4 | ShinVersion::Konosuba | ShinVersion::Umineko | ShinVersion::Gerokasu2 => {
                    ctx.number();
                    ctx.number_array(LengthKind::U8Length);
                },
            }
        },
        Command::LAYERSWAP => {
            if !matches!(ctx.version(), ShinVersion::HigurashiHou | ShinVersion::HigurashiHouV2 | ShinVersion::DC4 | ShinVersion::Umineko | ShinVersion::Gerokasu2) {
                return OperationResult::Unreachable;
            }
            ctx.number();
            ctx.number();
        },
        Command::LAYERSELECT => {
            if !ctx.version_facts().post_shin {
                return OperationResult::Unreachable;
            }
            ctx.number();
            ctx.number();
        },
        Command::MOVIEWAIT => {
            if !ctx.version_facts().post_shin {
                return OperationResult::Unreachable;
            }
            ctx.number();
            ctx.number();
        },
        Command::LAYERBACK => {
            if !matches!(ctx.version(), ShinVersion::HigurashiHou | ShinVersion::HigurashiHouV2 | ShinVersion::Konosuba) {
                return OperationResult::Unreachable;
            }
            ctx.number();
        },
        Command::TRANSSET => {
            if !ctx.version_facts().post_plane {
                return OperationResult::Unreachable;
            }
            ctx.number();
            ctx.number();
            ctx.number();
            ctx.bitmask_number_array();
        },
        Command::TRANSWAIT => {
            if !ctx.version_facts().post_plane {
                return OperationResult::Unreachable;
            }
            ctx.number();
        },
        Command::PAGEBACK => {
            if !ctx.version_facts().post_plane {
                return OperationResult::Unreachable;
            }
        },
        Command::PLANESELECT => {
            if !ctx.version_facts().post_plane {
                return OperationResult::Unreachable;
            }
            ctx.number();
        },
        Command::PLANECLEAR => {
            if !ctx.version_facts().post_plane {
                return OperationResult::Unreachable;
            }
        },
        Command::MASKLOAD => {
            if !ctx.version_facts().post_plane {
                return OperationResult::Unreachable;
            }
            ctx.number();
            ctx.number();
            ctx.number();
        },
        Command::MASKUNLOAD => {
            if !ctx.version_facts().post_plane {
                return OperationResult::Unreachable;
            }
        },
        _ => {
            return OperationResult::Unimplemented;
        },
    }
    OperationResult::Done
}

/// `get_schema_for_command` for the commands of Alias Carnival and White Eternity.
fn character_command_schema(ctx: &mut CommandSchemaCtx, command: Command) -> (r: OperationResult)
    requires
        old(ctx).command() == command,
        old(ctx).wf(),
        command is ICOGET || command is STAGEINFO || command is ICOCHK || command is EMOTEWAIT || command is NAMED || command is BACKINIT || command is CHARCLEAR || command is CHARLOAD || command is CHARUNLOAD || command is CHARDISP || command is CHARCTRL || command is CHARWAIT || command is CHARMARK || command is CHARSYNC,
    ensures
        schema_added(*final(ctx), *old(ctx), r),
{
    match command {
        Command::ICOGET => {
            if !matches!(ctx.version(), ShinVersion::AliasCarnival) {
                return OperationResult::Unreachable;
            }
            ctx.number_array(LengthKind::U8Length);
        },
        Command::STAGEINFO => {
            if !matches!(ctx.version(), ShinVersion::AliasCarnival) {
                return OperationResult::Unreachable;
            }
            ctx.string();
            ctx.string();
        },
        Command::ICOCHK => {
            if !matches!(ctx.version(), ShinVersion::AliasCarnival) {
                return OperationResult::Unreachable;
            }
            ctx.u16();
        },
        Command::EMOTEWAIT => {
            if !matches!(ctx.version(), ShinVersion::AliasCarnival) {
                return OperationResult::Unreachable;
            }
            ctx.number();
        },
        Command::NAMED => {
            if !matches!(ctx.version(), ShinVersion::AliasCarnival) {
                return OperationResult::Unreachable;
            }
            ctx.u8();
            ctx.string();
        },
        Command::BACKINIT => {
            if !matches!(ctx.version(), ShinVersion::AliasCarnival) {
                return OperationResult::Unreachable;
            }
        },
        Command::CHARCLEAR => {
            if !matches!(ctx.version(), ShinVersion::WorldRe | ShinVersion::WhiteEternity) {
                return OperationResult::Unreachable;
            }
        },
        Command::CHARLOAD => {
            if !matches!(ctx.version(), ShinVersion::WhiteEternity) {
                return OperationResult::Unreachable;
            }
            ctx.number();
            ctx.number();
            ctx.number();
        },
        Command::CHARUNLOAD => {
            if !matches!(ctx.version(), ShinVersion::WhiteEternity) {
                return OperationResult::Unreachable;
            }
            ctx.number();
        },
        Command::CHARDISP => {
            if !matches!(ctx.version(), ShinVersion::WorldRe | ShinVersion::WhiteEternity) {
                return OperationResult::Unreachable;
            }
            ctx.number();
            ctx.number();
        },
        Command::CHARCTRL => {
            if !matches!(ctx.version(), ShinVersion::WorldRe | ShinVersion::WhiteEternity) {
                return OperationResult::Unreachable;
            }
            ctx.number();
            ctx.number();
            ctx.bitmask_number_array();
        },
        Command::CHARWAIT => {
            match ctx.version() {
                ShinVersion::WorldRe => {
                    ctx.number();
                    ctx.number();
                },
                ShinVersion::WhiteEternity => {
                    ctx.number();
                    ctx.number_array(LengthKind::U8Length);
                },
                _ => {
                    return OperationResult::Unreachable;
                },
            }
        },
        Command::CHARMARK => {
            if !matches!(ctx.version(), ShinVersion::WorldRe | ShinVersion::WhiteEternity) {
                return OperationResult::Unreachable;
            }
            ctx.number();
            ctx.number();
            ctx.number();
        },
        Command::CHARSYNC => {
            if !matches!(ctx.version(), ShinVersion::WhiteEternity) {
                return OperationResult::Unreachable;
            }
        },
        _ => {
            return OperationResult::Unimplemented;
        },
    }
    OperationResult::Done
}

/// `get_schema_for_command` for the commands of DC4, Konosuba and Higurashi Sui.
fn sui_command_schema(ctx: &mut CommandSchemaCtx, command: Command) -> (r: OperationResult)
    requires
        old(ctx).command() == command,
        old(ctx).wf(),
        command is CHATSET || command is SLEEP || command is VSET || command is TIPSGET || command is CHARSEL || command is OTSUGET || command is CHART || command is SNRSEL || command is KAKERA || command is KAKERAGET || command is QUIZ || command is FAKESELECT,
    ensures
        schema_added(*final(ctx), *old(ctx), r),
{
    match command {
        Command::CHATSET => {
            if !matches!(ctx.version(), ShinVersion::DC4) {
                return OperationResult::Unreachable;
            }
            ctx.string();
        },
        Command::SLEEP => {
            if !matches!(ctx.version(), ShinVersion::Konosuba) {
                return OperationResult::Unreachable;
            }
            ctx.u16();
            ctx.number();
            ctx.number();
            ctx.number();
            ctx.number();
        },
        Command::VSET => {
            if !matches!(ctx.version(), ShinVersion::Konosuba) {
                return OperationResult::Unreachable;
            }
            ctx.number();
            ctx.number();
        },
        Command::TIPSGET => {
            if !matches!(ctx.version(), ShinVersion::HigurashiSui | ShinVersion::WorldRe | ShinVersion::HigurashiHou | ShinVersion::HigurashiHouV2 | ShinVersion::Umineko) {
                return OperationResult::Unreachable;
            }
            ctx.number_array(LengthKind::U8Length);
        },
        Command::CHARSEL => {
            if !matches!(ctx.version(), ShinVersion::WorldRe | ShinVersion::HigurashiSui) {
                return OperationResult::Unreachable;
            }
            ctx.u16();
            ctx.reg();
            ctx.u16();
            ctx.number();
        },
        Command::OTSUGET => {
            if !matches!(ctx.version(), ShinVersion::HigurashiSui | ShinVersion::WorldRe | ShinVersion::HigurashiHou | ShinVersion::HigurashiHouV2) {
                return OperationResult::Unreachable;
            }
            ctx.number();
        },
        Command::CHART => {
            if !ctx.version_facts().higurashi {
                return OperationResult::Unreachable;
            }
            ctx.u8();
            ctx.number_array(LengthKind::U8Length);
        },
        Command::SNRSEL => {
            if !ctx.version_facts().higurashi {
                return OperationResult::Unreachable;
            }
            ctx.number();
        },
        Command::KAKERA => {
            if !ctx.version_facts().higurashi {
                return OperationResult::Unreachable;
            }
        },
        Command::KAKERAGET => {
            if !ctx.version_facts().higurashi {
                return OperationResult::Unreachable;
            }
            ctx.number();
            ctx.number_array(LengthKind::U8Length);
        },
        Command::QUIZ => {
            ctx.reg();
            match ctx.version() {
                ShinVersion::HigurashiSui | ShinVersion::HigurashiHou | ShinVersion::HigurashiHouV2 => {
                    ctx.number();
                    ctx.number();
                    ctx.number();
                },
                ShinVersion::Umineko | ShinVersion::Gerokasu2 => {
                    ctx.number();
                },
                ShinVersion::AliasCarnival | ShinVersion::WhiteEternity | ShinVersion::WorldRe | ShinVersion::DC4 | ShinVersion::Konosuba => {
                    return OperationResult::Unreachable;
                },
            }
        },
        Command::FAKESELECT => {
            if !ctx.version_facts().higurashi {
                return OperationResult::Unreachable;
            }
        },
        _ => {
            return OperationResult::Unimplemented;
        },
    }
    OperationResult::Done
}

/// `get_schema_for_command` for the commands of Umineko and Higurashi Hou, and debug output.
fn hou_command_schema(ctx: &mut CommandSchemaCtx, command: Command) -> (r: OperationResult)
    requires
        old(ctx).command() == command,
        old(ctx).wf(),
        command is CHARS || command is SHOWCHARS || command is NOTIFYSET || command is FEELICON || command is CHARSELECT || command is KGET || command is KSET || command is DEBUGOUT,
    ensures
        schema_added(*final(ctx), *old(ctx), r),
{
    match command {
        Command::CHARS => {
            if !matches!(ctx.version(), ShinVersion::Umineko) {
                return OperationResult::Unreachable;
            }
            ctx.number();
            ctx.number();
        },
        Command::SHOWCHARS => {
            if !matches!(ctx.version(), ShinVersion::Umineko) {
                return OperationResult::Unreachable;
            }
        },
        Command::NOTIFYSET => {
            if !matches!(ctx.version(), ShinVersion::Umineko) {
                return OperationResult::Unreachable;
            }
            ctx.number();
        },
        Command::FEELICON => {
            if !matches!(ctx.version(), ShinVersion::HigurashiHou | ShinVersion::HigurashiHouV2) {
                return OperationResult::Unreachable;
            }
            ctx.number();
            ctx.number();
            ctx.number();
            ctx.number();
            ctx.number();
        },
        Command::CHARSELECT => {
            if !matches!(ctx.version(), ShinVersion::HigurashiHou | ShinVersion::HigurashiHouV2) {
                return OperationResult::Unreachable;
            }
            ctx.u16();
            ctx.reg();
            ctx.number();
        },
        Command::KGET => {
            if !matches!(ctx.version(), ShinVersion::HigurashiHouV2) {
                return OperationResult::Unreachable;
            }
            ctx.reg();
            ctx.number();
        },
        Command::KSET => {
            if !matches!(ctx.version(), ShinVersion::HigurashiHouV2) {
                return OperationResult::Unreachable;
            }
            ctx.number();
            ctx.number();
        },
        Command::DEBUGOUT => {
            match ctx.version() {
                ShinVersion::HigurashiSui | ShinVersion::WorldRe => {
                    return OperationResult::Unreachable;
                },
                ShinVersion::AliasCarnival => {
                    ctx.string();
                    ctx.u16();
                },
                ShinVersion::WhiteEternity | ShinVersion::HigurashiHou | ShinVersion::HigurashiHouV2 | ShinVersion::DC4 | ShinVersion::Konosuba | ShinVersion::Umineko | ShinVersion::Gerokasu2 => {
                    ctx.string();
                    ctx.number_array(LengthKind::U8Length);
                },
            }
        },
        _ => {
            return OperationResult::Unimplemented;
        },
    }
    OperationResult::Done
}

} // verus!
