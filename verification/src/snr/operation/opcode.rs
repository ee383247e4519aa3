//! The operation named by each opcode byte, for each engine version.
use vstd::prelude::*;

use crate::snr::operation::schema::{Command, Instruction, Opcode};
use crate::versions::ShinVersion;

verus! {

/// The instruction of opcode `op` in HigurashiSui.
pub open spec fn higurashi_sui_instruction(op: u8) -> Option<Instruction> {
    match op {
        0x40 => Some(Instruction::uo),
        0x41 => Some(Instruction::bo),
        0x42 => Some(Instruction::exp),
        0x43 => Some(Instruction::mm),
        0x44 => Some(Instruction::gt),
        0x45 => Some(Instruction::st),
        0x46 => Some(Instruction::jc),
        0x47 => Some(Instruction::j),
        0x48 => Some(Instruction::gosub),
        0x49 => Some(Instruction::retsub),
        0x4a => Some(Instruction::jt),
        0x4b => Some(Instruction::gosubt),
        0x4c => Some(Instruction::rnd),
        0x4d => Some(Instruction::push),
        0x4e => Some(Instruction::pop),
        _ => None,
    }
}

/// The command of opcode `op` in HigurashiSui.
pub open spec fn higurashi_sui_command(op: u8) -> Option<Command> {
    match op {
        0x80 => Some(Command::EXIT),
        0x81 => Some(Command::SGET),
        0x82 => Some(Command::SSET),
        0x83 => Some(Command::WAIT),
        0x84 => Some(Command::KEYWAIT),
        0x85 => Some(Command::MSGINIT),
        0x86 => Some(Command::MSGSET),
        0x87 => Some(Command::MSGWAIT),
        0x88 => Some(Command::MSGSIGNAL),
        0x89 => Some(Command::MSGCLOSE),
        0x8a => Some(Command::MSGCHECK),
        0x8b => Some(Command::MSGQUAKE),
        0x8c => Some(Command::LOGSET),
        0x8d => Some(Command::SELECT),
        0x8e => Some(Command::WIPE),
        0x8f => Some(Command::WIPEWAIT),
        0x90 => Some(Command::BGMPLAY),
        0x91 => Some(Command::BGMSTOP),
        0x92 => Some(Command::BGMVOL),
        0x93 => Some(Command::BGMWAIT),
        0x94 => Some(Command::BGMSYNC),
        0x95 => Some(Command::SEPLAY),
        0x96 => Some(Command::SESTOP),
        0x97 => Some(Command::SESTOPALL),
        0x98 => Some(Command::SEVOL),
        0x99 => Some(Command::SEWAIT),
        0x9a => Some(Command::SEONCE),
        0x9b => Some(Command::UNK9B),
        0xa0 => Some(Command::SAVEINFO),
        0xa1 => Some(Command::MOVIE),
        0xa2 => Some(Command::EVBEGIN),
        0xa3 => Some(Command::EVEND),
        0xa5 => Some(Command::AUTOSAVE),
        0xa6 => Some(Command::VOICEPLAY),
        0xa7 => Some(Command::VOICEWAIT),
        0xaa => Some(Command::TIPSGET),
        0xac => Some(Command::CHARSEL),
        0xad => Some(Command::OTSUGET),
        0xae => Some(Command::CHART),
        0xaf => Some(Command::SNRSEL),
        0xb0 => Some(Command::KAKERA),
        0xb1 => Some(Command::KAKERAGET),
        0xb2 => Some(Command::QUIZ),
        0xb3 => Some(Command::FAKESELECT),
        0xb4 => Some(Command::TROPHY),
        0xc0 => Some(Command::LAYERCLEAR),
        0xc1 => Some(Command::LAYERLOAD),
        0xc2 => Some(Command::LAYERCTRL),
        0xc3 => Some(Command::LAYERWAIT),
        _ => None,
    }
}

/// The instruction of opcode `op` in AliasCarnival.
pub open spec fn alias_carnival_instruction(op: u8) -> Option<Instruction> {
    match op {
        0x40 => Some(Instruction::uo),
        0x41 => Some(Instruction::bo),
        0x42 => Some(Instruction::exp),
        0x43 => Some(Instruction::mm),
        0x44 => Some(Instruction::gt),
        0x45 => Some(Instruction::st),
        0x46 => Some(Instruction::jc),
        0x47 => Some(Instruction::j),
        0x48 => Some(Instruction::gosub),
        0x49 => Some(Instruction::retsub),
        0x4a => Some(Instruction::jt),
        0x4b => Some(Instruction::gosubt),
        0x4c => Some(Instruction::rnd),
        0x4d => Some(Instruction::push),
        0x4e => Some(Instruction::pop),
        0x4f => Some(Instruction::call),
        0x50 => Some(Instruction::ret),
        _ => None,
    }
}

/// The command of opcode `op` in AliasCarnival.
pub open spec fn alias_carnival_command(op: u8) -> Option<Command> {
    match op {
        0x80 => Some(Command::EXIT),
        0x81 => Some(Command::SGET),
        0x82 => Some(Command::SSET),
        0x83 => Some(Command::WAIT),
        0x84 => Some(Command::KEYWAIT),
        0x85 => Some(Command::MSGINIT),
        0x86 => Some(Command::MSGFACE),
        0x87 => Some(Command::MSGSET),
        0x88 => Some(Command::MSGWAIT),
        0x89 => Some(Command::MSGSIGNAL),
        0x8a => Some(Command::MSGCLOSE),
        0x8b => Some(Command::MSGCHECK),
        0x8c => Some(Command::LOGSET),
        0x8d => Some(Command::SELECT),
        0x8e => Some(Command::WIPE),
        0x8f => Some(Command::WIPEWAIT),
        0x90 => Some(Command::BGMPLAY),
        0x91 => Some(Command::BGMSTOP),
        0x92 => Some(Command::BGMVOL),
        0x93 => Some(Command::BGMWAIT),
        0x94 => Some(Command::BGMSYNC),
        0x95 => Some(Command::SEPLAY),
        0x96 => Some(Command::SESTOP),
        0x97 => Some(Command::SESTOPALL),
        0x98 => Some(Command::SEVOL),
        0x99 => Some(Command::SEWAIT),
        0x9a => Some(Command::SEONCE),
        0x9b => Some(Command::UNK9B),
        0xa0 => Some(Command::SAVEINFO),
        0xa1 => Some(Command::MOVIE),
        0xa2 => Some(Command::EVBEGIN),
        0xa3 => Some(Command::EVEND),
        0xa5 => Some(Command::AUTOSAVE),
        0xa6 => Some(Command::VOICEPLAY),
        0xa7 => Some(Command::VOICEWAIT),
        0xb0 => Some(Command::TROPHY),
        0xb1 => Some(Command::ICOGET),
        0xb2 => Some(Command::STAGEINFO),
        0xb3 => Some(Command::ICOCHK),
        0xc0 => Some(Command::LAYERCLEAR),
        0xc1 => Some(Command::LAYERLOAD),
        0xc2 => Some(Command::LAYERCTRL),
        0xc3 => Some(Command::LAYERWAIT),
        0xc4 => Some(Command::EMOTEWAIT),
        0xc5 => Some(Command::NAMED),
        0xc6 => Some(Command::BACKINIT),
        0xff => Some(Command::DEBUGOUT),
        _ => None,
    }
}

/// The instruction of opcode `op` in WhiteEternity.
pub open spec fn white_eternity_instruction(op: u8) -> Option<Instruction> {
    match op {
        0x40 => Some(Instruction::uo),
        0x41 => Some(Instruction::bo),
        0x42 => Some(Instruction::exp),
        0x43 => Some(Instruction::mm),
        0x44 => Some(Instruction::gt),
        0x45 => Some(Instruction::st),
        0x46 => Some(Instruction::jc),
        0x47 => Some(Instruction::j),
        0x48 => Some(Instruction::gosub),
        0x49 => Some(Instruction::retsub),
        0x4a => Some(Instruction::jt),
        0x4b => Some(Instruction::gosubt),
        0x4c => Some(Instruction::rnd),
        0x4d => Some(Instruction::push),
        0x4e => Some(Instruction::pop),
        0x4f => Some(Instruction::call),
        0x50 => Some(Instruction::ret),
        0x51 => Some(Instruction::fmt),
        0x52 => Some(Instruction::fnmt),
        _ => None,
    }
}

/// The command of opcode `op` in WhiteEternity.
pub open spec fn white_eternity_command(op: u8) -> Option<Command> {
    match op {
        0x00 => Some(Command::EXIT),
        0x81 => Some(Command::SGET),
        0x82 => Some(Command::SSET),
        0x83 => Some(Command::WAIT),
        0x85 => Some(Command::MSGINIT),
        0x87 => Some(Command::MSGSET),
        0x88 => Some(Command::MSGWAIT),
        0x89 => Some(Command::MSGSIGNAL),
        0x8a => Some(Command::MSGCLOSE),
        0x8b => Some(Command::MSGFACE),
        0x8c => Some(Command::LOGSET),
        0x8d => Some(Command::SELECT),
        0x8e => Some(Command::WIPE),
        0x8f => Some(Command::WIPEWAIT),
        0x90 => Some(Command::BGMPLAY),
        0x91 => Some(Command::BGMSTOP),
        0x92 => Some(Command::BGMVOL),
        0x93 => Some(Command::BGMWAIT),
        0x94 => Some(Command::BGMSYNC),
        0x95 => Some(Command::SEPLAY),
        0x96 => Some(Command::SESTOP),
        0x97 => Some(Command::SESTOPALL),
        0x98 => Some(Command::SEVOL),
        0x99 => Some(Command::SEPAN),
        0x9a => Some(Command::SEWAIT),
        0x9b => Some(Command::SEONCE),
        0x9c => Some(Command::VOICEPLAY),
        0x9d => Some(Command::VOICEWAIT),
        0xa0 => Some(Command::SAVEINFO),
        0xa1 => Some(Command::AUTOSAVE),
        0xa2 => Some(Command::EVBEGIN),
        0xa3 => Some(Command::EVEND),
        0xb0 => Some(Command::TROPHY),
        0xc0 => Some(Command::LAYERINIT),
        0xc1 => Some(Command::LAYERLOAD),
        0xc2 => Some(Command::LAYERUNLOAD),
        0xc3 => Some(Command::LAYERCTRL),
        0xc4 => Some(Command::LAYERWAIT),
        0xc7 => Some(Command::LAYERSELECT),
        0xc8 => Some(Command::MOVIEWAIT),
        0xd0 => Some(Command::CHARCLEAR),
        0xd1 => Some(Command::CHARLOAD),
        0xd2 => Some(Command::CHARUNLOAD),
        0xd3 => Some(Command::CHARDISP),
        0xd4 => Some(Command::CHARCTRL),
        0xd5 => Some(Command::CHARWAIT),
        0xd6 => Some(Command::CHARMARK),
        0xd7 => Some(Command::CHARSYNC),
        0xff => Some(Command::DEBUGOUT),
        _ => None,
    }
}

/// The instruction of opcode `op` in HigurashiHou.
pub open spec fn higurashi_hou_instruction(op: u8) -> Option<Instruction> {
    match op {
        0x40 => Some(Instruction::uo),
        0x41 => Some(Instruction::bo),
        0x42 => Some(Instruction::exp),
        0x43 => Some(Instruction::mm),
        0x44 => Some(Instruction::gt),
        0x45 => Some(Instruction::st),
        0x46 => Some(Instruction::jc),
        0x47 => Some(Instruction::j),
        0x48 => Some(Instruction::gosub),
        0x49 => Some(Instruction::retsub),
        0x4a => Some(Instruction::jt),
        0x4b => Some(Instruction::gosubt),
        0x4c => Some(Instruction::rnd),
        0x4d => Some(Instruction::push),
        0x4e => Some(Instruction::pop),
        0x4f => Some(Instruction::call),
        0x50 => Some(Instruction::ret),
        0x51 => Some(Instruction::fmt),
        0x52 => Some(Instruction::fnmt),
        0x53 => Some(Instruction::getbupid),
        _ => None,
    }
}

/// The command of opcode `op` in HigurashiHou.
pub open spec fn higurashi_hou_command(op: u8) -> Option<Command> {
    match op {
        0x00 => Some(Command::EXIT),
        0x81 => Some(Command::SGET),
        0x82 => Some(Command::SSET),
        0x83 => Some(Command::WAIT),
        0x85 => Some(Command::MSGINIT),
        0x86 => Some(Command::MSGSET),
        0x87 => Some(Command::MSGWAIT),
        0x88 => Some(Command::MSGSIGNAL),
        0x89 => Some(Command::MSGSYNC),
        0x8a => Some(Command::MSGCLOSE),
        0x8b => Some(Command::MSGFACE),
        0x8c => Some(Command::LOGSET),
        0x8d => Some(Command::SELECT),
        0x8e => Some(Command::WIPE),
        0x8f => Some(Command::WIPEWAIT),
        0x90 => Some(Command::BGMPLAY),
        0x91 => Some(Command::BGMSTOP),
        0x92 => Some(Command::BGMVOL),
        0x93 => Some(Command::BGMWAIT),
        0x94 => Some(Command::BGMSYNC),
        0x95 => Some(Command::SEPLAY),
        0x96 => Some(Command::SESTOP),
        0x97 => Some(Command::SESTOPALL),
        0x98 => Some(Command::SEVOL),
        0x99 => Some(Command::SEPAN),
        0x9a => Some(Command::SEWAIT),
        0x9b => Some(Command::SEONCE),
        0x9c => Some(Command::VOICEPLAY),
        0x9d => Some(Command::VOICESTOP),
        0x9e => Some(Command::VOICEWAIT),
        0xa0 => Some(Command::SAVEINFO),
        0xa1 => Some(Command::AUTOSAVE),
        0xa2 => Some(Command::EVBEGIN),
        0xa3 => Some(Command::EVEND),
        0xb0 => Some(Command::TROPHY),
        0xc0 => Some(Command::LAYERINIT),
        0xc1 => Some(Command::LAYERLOAD),
        0xc2 => Some(Command::LAYERUNLOAD),
        0xc3 => Some(Command::LAYERCTRL),
        0xc4 => Some(Command::LAYERWAIT),
        0xc5 => Some(Command::LAYERBACK),
        0xc6 => Some(Command::LAYERSWAP),
        0xc7 => Some(Command::LAYERSELECT),
        0xc8 => Some(Command::MOVIEWAIT),
        0xc9 => Some(Command::FEELICON),
        0xd0 => Some(Command::TIPSGET),
        0xd1 => Some(Command::CHARSELECT),
        0xd2 => Some(Command::OTSUGET),
        0xd3 => Some(Command::CHART),
        0xd4 => Some(Command::SNRSEL),
        0xd5 => Some(Command::KAKERA),
        0xd6 => Some(Command::KAKERAGET),
        0xd7 => Some(Command::QUIZ),
        0xd8 => Some(Command::FAKESELECT),
        0xd9 => Some(Command::UNLOCK),
        0xff => Some(Command::DEBUGOUT),
        _ => None,
    }
}

/// The instruction of opcode `op` in HigurashiHouV2.
pub open spec fn higurashi_hou_v2_instruction(op: u8) -> Option<Instruction> {
    match op {
        0x40 => Some(Instruction::uo),
        0x41 => Some(Instruction::bo),
        0x42 => Some(Instruction::exp),
        0x43 => Some(Instruction::mm),
        0x44 => Some(Instruction::gt),
        0x45 => Some(Instruction::st),
        0x46 => Some(Instruction::jc),
        0x47 => Some(Instruction::j),
        0x48 => Some(Instruction::gosub),
        0x49 => Some(Instruction::retsub),
        0x4a => Some(Instruction::jt),
        0x4b => Some(Instruction::gosubt),
        0x4c => Some(Instruction::rnd),
        0x4d => Some(Instruction::push),
        0x4e => Some(Instruction::pop),
        0x4f => Some(Instruction::call),
        0x50 => Some(Instruction::ret),
        0x51 => Some(Instruction::fmt),
        0x52 => Some(Instruction::fnmt),
        0x53 => Some(Instruction::getbupid),
        _ => None,
    }
}

/// The command of opcode `op` in HigurashiHouV2.
pub open spec fn higurashi_hou_v2_command(op: u8) -> Option<Command> {
    match op {
        0x00 => Some(Command::EXIT),
        0x81 => Some(Command::SGET),
        0x82 => Some(Command::SSET),
        0x83 => Some(Command::WAIT),
        0x85 => Some(Command::MSGINIT),
        0x86 => Some(Command::MSGSET),
        0x87 => Some(Command::MSGWAIT),
        0x88 => Some(Command::MSGSIGNAL),
        0x89 => Some(Command::MSGSYNC),
        0x8a => Some(Command::MSGCLOSE),
        0x8b => Some(Command::MSGHIDE),
        0x8c => Some(Command::LOGSET),
        0x8d => Some(Command::SELECT),
        0x8e => Some(Command::WIPE),
        0x8f => Some(Command::WIPEWAIT),
        0x90 => Some(Command::BGMPLAY),
        0x91 => Some(Command::BGMSTOP),
        0x92 => Some(Command::BGMVOL),
        0x93 => Some(Command::BGMWAIT),
        0x94 => Some(Command::BGMSYNC),
        0x95 => Some(Command::SEPLAY),
        0x96 => Some(Command::SESTOP),
        0x97 => Some(Command::SESTOPALL),
        0x98 => Some(Command::SEVOL),
        0x99 => Some(Command::SEPAN),
        0x9a => Some(Command::SEWAIT),
        0x9b => Some(Command::SEONCE),
        0x9c => Some(Command::VOICEPLAY),
        0x9d => Some(Command::VOICESTOP),
        0x9e => Some(Command::VOICEWAIT),
        0xa0 => Some(Command::SAVEINFO),
        0xa1 => Some(Command::AUTOSAVE),
        0xa2 => Some(Command::EVBEGIN),
        0xa3 => Some(Command::EVEND),
        0xb0 => Some(Command::TROPHY),
        0xc0 => Some(Command::LAYERINIT),
        0xc1 => Some(Command::LAYERLOAD),
        0xc2 => Some(Command::LAYERUNLOAD),
        0xc3 => Some(Command::LAYERCTRL),
        0xc4 => Some(Command::LAYERWAIT),
        0xc5 => Some(Command::LAYERBACK),
        0xc6 => Some(Command::LAYERSWAP),
        0xc7 => Some(Command::LAYERSELECT),
        0xc8 => Some(Command::MOVIEWAIT),
        0xc9 => Some(Command::FEELICON),
        0xd0 => Some(Command::TIPSGET),
        0xd1 => Some(Command::CHARSELECT),
        0xd2 => Some(Command::OTSUGET),
        0xd3 => Some(Command::CHART),
        0xd4 => Some(Command::SNRSEL),
        0xd5 => Some(Command::KAKERA),
        0xd6 => Some(Command::KAKERAGET),
        0xd7 => Some(Command::QUIZ),
        0xd8 => Some(Command::FAKESELECT),
        0xd9 => Some(Command::UNLOCK),
        0xda => Some(Command::KGET),
        0xdb => Some(Command::KSET),
        0xff => Some(Command::DEBUGOUT),
        _ => None,
    }
}

/// The instruction of opcode `op` in DC4.
pub open spec fn dc4_instruction(op: u8) -> Option<Instruction> {
    match op {
        0x40 => Some(Instruction::uo),
        0x41 => Some(Instruction::bo),
        0x42 => Some(Instruction::exp),
        0x43 => Some(Instruction::mm),
        0x44 => Some(Instruction::gt),
        0x45 => Some(Instruction::st),
        0x46 => Some(Instruction::jc),
        0x47 => Some(Instruction::j),
        0x48 => Some(Instruction::gosub),
        0x49 => Some(Instruction::retsub),
        0x4a => Some(Instruction::jt),
        0x4b => Some(Instruction::gosubt),
        0x4c => Some(Instruction::rnd),
        0x4d => Some(Instruction::push),
        0x4e => Some(Instruction::pop),
        0x4f => Some(Instruction::call),
        0x50 => Some(Instruction::ret),
        0x51 => Some(Instruction::fmt),
        0x52 => Some(Instruction::fnmt),
        0x53 => Some(Instruction::getbupid),
        _ => None,
    }
}

/// The command of opcode `op` in DC4.
pub open spec fn dc4_command(op: u8) -> Option<Command> {
    match op {
        0x00 => Some(Command::EXIT),
        0x81 => Some(Command::SGET),
        0x82 => Some(Command::SSET),
        0x83 => Some(Command::WAIT),
        0x85 => Some(Command::MSGINIT),
        0x86 => Some(Command::MSGSET),
        0x87 => Some(Command::MSGWAIT),
        0x88 => Some(Command::MSGSIGNAL),
        0x89 => Some(Command::MSGSYNC),
        0x8a => Some(Command::MSGCLOSE),
        0x8b => Some(Command::MSGFACE),
        0x8d => Some(Command::SELECT),
        0x8e => Some(Command::WIPE),
        0x8f => Some(Command::WIPEWAIT),
        0x90 => Some(Command::BGMPLAY),
        0x91 => Some(Command::BGMSTOP),
        0x92 => Some(Command::BGMVOL),
        0x93 => Some(Command::BGMWAIT),
        0x94 => Some(Command::BGMSYNC),
        0x95 => Some(Command::SEPLAY),
        0x96 => Some(Command::SESTOP),
        0x97 => Some(Command::SESTOPALL),
        0x98 => Some(Command::SEVOL),
        0x99 => Some(Command::SEPAN),
        0x9a => Some(Command::SEWAIT),
        0x9b => Some(Command::SEONCE),
        0x9c => Some(Command::VOICEPLAY),
        0x9d => Some(Command::VOICESTOP),
        0x9e => Some(Command::VOICEWAIT),
        0xa0 => Some(Command::SAVEINFO),
        0xa1 => Some(Command::AUTOSAVE),
        0xa2 => Some(Command::EVBEGIN),
        0xa3 => Some(Command::EVEND),
        0xa4 => Some(Command::RESUMESET),
        0xa5 => Some(Command::RESUME),
        0xb0 => Some(Command::TROPHY),
        0xb1 => Some(Command::UNLOCK),
        0xc0 => Some(Command::LAYERINIT),
        0xc1 => Some(Command::LAYERLOAD),
        0xc2 => Some(Command::LAYERUNLOAD),
        0xc3 => Some(Command::LAYERCTRL),
        0xc4 => Some(Command::LAYERWAIT),
        0xc5 => Some(Command::LAYERSWAP),
        0xc6 => Some(Command::LAYERSELECT),
        0xc7 => Some(Command::MOVIEWAIT),
        0xc9 => Some(Command::TRANSSET),
        0xca => Some(Command::TRANSWAIT),
        0xcb => Some(Command::PAGEBACK),
        0xcc => Some(Command::PLANESELECT),
        0xcd => Some(Command::PLANECLEAR),
        0xce => Some(Command::MASKLOAD),
        0xcf => Some(Command::MASKUNLOAD),
        0xd0 => Some(Command::CHATSET),
        0xff => Some(Command::DEBUGOUT),
        _ => None,
    }
}

/// The instruction of opcode `op` in Konosuba.
pub open spec fn konosuba_instruction(op: u8) -> Option<Instruction> {
    match op {
        0x40 => Some(Instruction::uo),
        0x41 => Some(Instruction::bo),
        0x42 => Some(Instruction::exp),
        0x43 => Some(Instruction::mm),
        0x44 => Some(Instruction::gt),
        0x45 => Some(Instruction::st),
        0x46 => Some(Instruction::jc),
        0x47 => Some(Instruction::j),
        0x48 => Some(Instruction::gosub),
        0x49 => Some(Instruction::retsub),
        0x4a => Some(Instruction::jt),
        0x4b => Some(Instruction::gosubt),
        0x4c => Some(Instruction::rnd),
        0x4d => Some(Instruction::push),
        0x4e => Some(Instruction::pop),
        0x4f => Some(Instruction::call),
        0x50 => Some(Instruction::ret),
        0x51 => Some(Instruction::fmt),
        0x52 => Some(Instruction::fnmt),
        0x53 => Some(Instruction::getbupid),
        _ => None,
    }
}

/// The command of opcode `op` in Konosuba.
pub open spec fn konosuba_command(op: u8) -> Option<Command> {
    match op {
        0x00 => Some(Command::EXIT),
        0x80 => Some(Command::SGET),
        0x81 => Some(Command::SSET),
        0x82 => Some(Command::WAIT),
        0x83 => Some(Command::MSGINIT),
        0x84 => Some(Command::MSGSET),
        0x85 => Some(Command::MSGWAIT),
        0x86 => Some(Command::MSGSIGNAL),
        0x87 => Some(Command::MSGCLOSE),
        0x88 => Some(Command::SELECT),
        0x89 => Some(Command::WIPE),
        0x8a => Some(Command::WIPEWAIT),
        0x90 => Some(Command::BGMPLAY),
        0x91 => Some(Command::BGMSTOP),
        0x92 => Some(Command::BGMVOL),
        0x93 => Some(Command::BGMWAIT),
        0x94 => Some(Command::BGMSYNC),
        0x95 => Some(Command::SEPLAY),
        0x96 => Some(Command::SESTOP),
        0x97 => Some(Command::SESTOPALL),
        0x98 => Some(Command::SEVOL),
        0x99 => Some(Command::SEPAN),
        0x9a => Some(Command::SEWAIT),
        0x9b => Some(Command::SEONCE),
        0x9c => Some(Command::VOICEPLAY),
        0x9d => Some(Command::VOICESTOP),
        0x9e => Some(Command::VOICEWAIT),
        0xc0 => Some(Command::LAYERINIT),
        0xc1 => Some(Command::LAYERLOAD),
        0xc2 => Some(Command::LAYERUNLOAD),
        0xc3 => Some(Command::LAYERCTRL),
        0xc4 => Some(Command::LAYERWAIT),
        0xc5 => Some(Command::LAYERBACK),
        0xc6 => Some(Command::LAYERSELECT),
        0xc7 => Some(Command::MOVIEWAIT),
        0xe0 => Some(Command::SLEEP),
        0xe1 => Some(Command::VSET),
        0xff => Some(Command::DEBUGOUT),
        _ => None,
    }
}

/// The instruction of opcode `op` in Umineko.
pub open spec fn umineko_instruction(op: u8) -> Option<Instruction> {
    match op {
        0x40 => Some(Instruction::uo),
        0x41 => Some(Instruction::bo),
        0x42 => Some(Instruction::exp),
        0x43 => Some(Instruction::mm),
        0x44 => Some(Instruction::gt),
        0x45 => Some(Instruction::st),
        0x46 => Some(Instruction::jc),
        0x47 => Some(Instruction::j),
        0x48 => Some(Instruction::gosub),
        0x49 => Some(Instruction::retsub),
        0x4a => Some(Instruction::jt),
        0x4b => Some(Instruction::gosubt),
        0x4c => Some(Instruction::rnd),
        0x4d => Some(Instruction::push),
        0x4e => Some(Instruction::pop),
        0x4f => Some(Instruction::call),
        0x50 => Some(Instruction::ret),
        0x51 => Some(Instruction::fmt),
        0x52 => Some(Instruction::fnmt),
        0x53 => Some(Instruction::getbupid),
        _ => None,
    }
}

/// The command of opcode `op` in Umineko.
pub open spec fn umineko_command(op: u8) -> Option<Command> {
    match op {
        0x00 => Some(Command::EXIT),
        0x81 => Some(Command::SGET),
        0x82 => Some(Command::SSET),
        0x83 => Some(Command::WAIT),
        0x85 => Some(Command::MSGINIT),
        0x86 => Some(Command::MSGSET),
        0x87 => Some(Command::MSGWAIT),
        0x88 => Some(Command::MSGSIGNAL),
        0x89 => Some(Command::MSGSYNC),
        0x8a => Some(Command::MSGCLOSE),
        0x8d => Some(Command::SELECT),
        0x8e => Some(Command::WIPE),
        0x8f => Some(Command::WIPEWAIT),
        0x90 => Some(Command::BGMPLAY),
        0x91 => Some(Command::BGMSTOP),
        0x92 => Some(Command::BGMVOL),
        0x93 => Some(Command::BGMWAIT),
        0x94 => Some(Command::BGMSYNC),
        0x95 => Some(Command::SEPLAY),
        0x96 => Some(Command::SESTOP),
        0x97 => Some(Command::SESTOPALL),
        0x98 => Some(Command::SEVOL),
        0x99 => Some(Command::SEPAN),
        0x9a => Some(Command::SEWAIT),
        0x9b => Some(Command::SEONCE),
        0x9c => Some(Command::VOICEPLAY),
        0x9d => Some(Command::VOICESTOP),
        0x9e => Some(Command::VOICEWAIT),
        0x9f => Some(Command::SYSSE),
        0xa0 => Some(Command::SAVEINFO),
        0xa1 => Some(Command::AUTOSAVE),
        0xa2 => Some(Command::EVBEGIN),
        0xa3 => Some(Command::EVEND),
        0xa4 => Some(Command::RESUMESET),
        0xa5 => Some(Command::RESUME),
        0xa6 => Some(Command::SYSCALL),
        0xb0 => Some(Command::TROPHY),
        0xb1 => Some(Command::UNLOCK),
        0xc0 => Some(Command::LAYERINIT),
        0xc1 => Some(Command::LAYERLOAD),
        0xc2 => Some(Command::LAYERUNLOAD),
        0xc3 => Some(Command::LAYERCTRL),
        0xc4 => Some(Command::LAYERWAIT),
        0xc5 => Some(Command::LAYERSWAP),
        0xc6 => Some(Command::LAYERSELECT),
        0xc7 => Some(Command::MOVIEWAIT),
        0xc9 => Some(Command::TRANSSET),
        0xca => Some(Command::TRANSWAIT),
        0xcb => Some(Command::PAGEBACK),
        0xcc => Some(Command::PLANESELECT),
        0xcd => Some(Command::PLANECLEAR),
        0xce => Some(Command::MASKLOAD),
        0xcf => Some(Command::MASKUNLOAD),
        0xe0 => Some(Command::CHARS),
        0xe1 => Some(Command::TIPSGET),
        0xe2 => Some(Command::QUIZ),
        0xe3 => Some(Command::SHOWCHARS),
        0xe4 => Some(Command::NOTIFYSET),
        0xff => Some(Command::DEBUGOUT),
        _ => None,
    }
}

/// The instruction of opcode `op` in Gerokasu2.
pub open spec fn gerokasu2_instruction(op: u8) -> Option<Instruction> {
    match op {
        0x40 => Some(Instruction::uo),
        0x41 => Some(Instruction::bo),
        0x42 => Some(Instruction::exp),
        0x43 => Some(Instruction::mm),
        0x44 => Some(Instruction::gt),
        0x45 => Some(Instruction::st),
        0x46 => Some(Instruction::jc),
        0x47 => Some(Instruction::j),
        0x48 => Some(Instruction::gosub),
        0x49 => Some(Instruction::retsub),
        0x4a => Some(Instruction::jt),
        0x4b => Some(Instruction::gosubt),
        0x4c => Some(Instruction::rnd),
        0x4d => Some(Instruction::push),
        0x4e => Some(Instruction::pop),
        0x4f => Some(Instruction::call),
        0x50 => Some(Instruction::ret),
        0x51 => Some(Instruction::fmt),
        0x52 => Some(Instruction::fnmt),
        0x53 => Some(Instruction::getbupid),
        _ => None,
    }
}

/// The command of opcode `op` in Gerokasu2.
pub open spec fn gerokasu2_command(op: u8) -> Option<Command> {
    match op {
        0x00 => Some(Command::EXIT),
        0x81 => Some(Command::SGET),
        0x82 => Some(Command::SSET),
        0x83 => Some(Command::WAIT),
        0x85 => Some(Command::MSGINIT),
        0x86 => Some(Command::MSGSET),
        0x87 => Some(Command::MSGWAIT),
        0x88 => Some(Command::MSGSIGNAL),
        0x89 => Some(Command::MSGSYNC),
        0x8a => Some(Command::MSGCLOSE),
        0x8b => Some(Command::MSGFACE),
        0x8d => Some(Command::SELECT),
        0x8e => Some(Command::WIPE),
        0x8f => Some(Command::WIPEWAIT),
        0x90 => Some(Command::BGMPLAY),
        0x91 => Some(Command::BGMSTOP),
        0x92 => Some(Command::BGMVOL),
        0x93 => Some(Command::BGMWAIT),
        0x94 => Some(Command::BGMSYNC),
        0x95 => Some(Command::SEPLAY),
        0x96 => Some(Command::SESTOP),
        0x97 => Some(Command::SESTOPALL),
        0x98 => Some(Command::SEVOL),
        0x99 => Some(Command::SEPAN),
        0x9a => Some(Command::SEWAIT),
        0x9b => Some(Command::SEONCE),
        0x9c => Some(Command::VOICEPLAY),
        0x9d => Some(Command::VOICESTOP),
        0x9e => Some(Command::VOICEWAIT),
        0x9f => Some(Command::SYSSE),
        0xa0 => Some(Command::SAVEINFO),
        0xa1 => Some(Command::AUTOSAVE),
        0xa2 => Some(Command::EVBEGIN),
        0xa3 => Some(Command::EVEND),
        0xa4 => Some(Command::RESUMESET),
        0xa5 => Some(Command::RESUME),
        0xa6 => Some(Command::SYSCALL),
        0xb0 => Some(Command::TROPHY),
        0xb1 => Some(Command::UNLOCK),
        0xc0 => Some(Command::LAYERINIT),
        0xc1 => Some(Command::LAYERLOAD),
        0xc2 => Some(Command::LAYERUNLOAD),
        0xc3 => Some(Command::LAYERCTRL),
        0xc4 => Some(Command::LAYERWAIT),
        0xc5 => Some(Command::LAYERSWAP),
        0xc6 => Some(Command::LAYERSELECT),
        0xc7 => Some(Command::MOVIEWAIT),
        0xc9 => Some(Command::TRANSSET),
        0xca => Some(Command::TRANSWAIT),
        0xcb => Some(Command::PAGEBACK),
        0xcc => Some(Command::PLANESELECT),
        0xcd => Some(Command::PLANECLEAR),
        0xce => Some(Command::MASKLOAD),
        0xcf => Some(Command::MASKUNLOAD),
        0xe0 => Some(Command::QUIZ),
        0xff => Some(Command::DEBUGOUT),
        _ => None,
    }
}

/// Whether `op` is in the instruction range of `version`: below 0x80, and, from White
/// Eternity on, not zero (which is then the opcode of `EXIT`).
pub open spec fn is_instruction_opcode(version: ShinVersion, op: u8) -> bool {
    match version {
        ShinVersion::HigurashiSui | ShinVersion::AliasCarnival => op < 0x80,
        _ => op != 0 && op < 0x80,
    }
}

/// The operation named by opcode `op` in `version`, if any.
pub open spec fn opcode_name(version: ShinVersion, op: u8) -> Option<Opcode> {
    match version {
        ShinVersion::HigurashiSui => if is_instruction_opcode(version, op) {
            match higurashi_sui_instruction(op) {
                Some(i) => Some(Opcode::Instruction(i)),
                None => None,
            }
        } else {
            match higurashi_sui_command(op) {
                Some(c) => Some(Opcode::Command(c)),
                None => None,
            }
        },
        ShinVersion::AliasCarnival => if is_instruction_opcode(version, op) {
            match alias_carnival_instruction(op) {
                Some(i) => Some(Opcode::Instruction(i)),
                None => None,
            }
        } else {
            match alias_carnival_command(op) {
                Some(c) => Some(Opcode::Command(c)),
                None => None,
            }
        },
        ShinVersion::WhiteEternity => if is_instruction_opcode(version, op) {
            match white_eternity_instruction(op) {
                Some(i) => Some(Opcode::Instruction(i)),
                None => None,
            }
        } else {
            match white_eternity_command(op) {
                Some(c) => Some(Opcode::Command(c)),
                None => None,
            }
        },
        ShinVersion::HigurashiHou => if is_instruction_opcode(version, op) {
            match higurashi_hou_instruction(op) {
                Some(i) => Some(Opcode::Instruction(i)),
                None => None,
            }
        } else {
            match higurashi_hou_command(op) {
                Some(c) => Some(Opcode::Command(c)),
                None => None,
            }
        },
        ShinVersion::HigurashiHouV2 => if is_instruction_opcode(version, op) {
            match higurashi_hou_v2_instruction(op) {
                Some(i) => Some(Opcode::Instruction(i)),
                None => None,
            }
        } else {
            match higurashi_hou_v2_command(op) {
                Some(c) => Some(Opcode::Command(c)),
                None => None,
            }
        },
        ShinVersion::DC4 => if is_instruction_opcode(version, op) {
            match dc4_instruction(op) {
                Some(i) => Some(Opcode::Instruction(i)),
                None => None,
            }
        } else {
            match dc4_command(op) {
                Some(c) => Some(Opcode::Command(c)),
                None => None,
            }
        },
        ShinVersion::Konosuba => if is_instruction_opcode(version, op) {
            match konosuba_instruction(op) {
                Some(i) => Some(Opcode::Instruction(i)),
                None => None,
            }
        } else {
            match konosuba_command(op) {
                Some(c) => Some(Opcode::Command(c)),
                None => None,
            }
        },
        ShinVersion::Umineko => if is_instruction_opcode(version, op) {
            match umineko_instruction(op) {
                Some(i) => Some(Opcode::Instruction(i)),
                None => None,
            }
        } else {
            match umineko_command(op) {
                Some(c) => Some(Opcode::Command(c)),
                None => None,
            }
        },
        ShinVersion::Gerokasu2 => if is_instruction_opcode(version, op) {
            match gerokasu2_instruction(op) {
                Some(i) => Some(Opcode::Instruction(i)),
                None => None,
            }
        } else {
            match gerokasu2_command(op) {
                Some(c) => Some(Opcode::Command(c)),
                None => None,
            }
        },
        ShinVersion::WorldRe => None,
    }
}


/// The instruction of opcode `opcode` in HigurashiSui.
fn higurashi_sui_instruction_of(opcode: u8) -> (r: Option<Instruction>)
    ensures
        r == higurashi_sui_instruction(opcode),
{
    Some(match opcode {
        0x40 => Instruction::uo,
        0x41 => Instruction::bo,
        0x42 => Instruction::exp,
        0x43 => Instruction::mm,
        0x44 => Instruction::gt,
        0x45 => Instruction::st,
        0x46 => Instruction::jc,
        0x47 => Instruction::j,
        0x48 => Instruction::gosub,
        0x49 => Instruction::retsub,
        0x4a => Instruction::jt,
        0x4b => Instruction::gosubt,
        0x4c => Instruction::rnd,
        0x4d => Instruction::push,
        0x4e => Instruction::pop,
        _ => return None,
    })
}

/// The command of opcode `opcode` in HigurashiSui.
fn higurashi_sui_command_of(opcode: u8) -> (r: Option<Command>)
    ensures
        r == higurashi_sui_command(opcode),
{
    Some(match opcode {
        0x80 => Command::EXIT,
        0x81 => Command::SGET,
        0x82 => Command::SSET,
        0x83 => Command::WAIT,
        0x84 => Command::KEYWAIT,
        0x85 => Command::MSGINIT,
        0x86 => Command::MSGSET,
        0x87 => Command::MSGWAIT,
        0x88 => Command::MSGSIGNAL,
        0x89 => Command::MSGCLOSE,
        0x8a => Command::MSGCHECK,
        0x8b => Command::MSGQUAKE,
        0x8c => Command::LOGSET,
        0x8d => Command::SELECT,
        0x8e => Command::WIPE,
        0x8f => Command::WIPEWAIT,
        0x90 => Command::BGMPLAY,
        0x91 => Command::BGMSTOP,
        0x92 => Command::BGMVOL,
        0x93 => Command::BGMWAIT,
        0x94 => Command::BGMSYNC,
        0x95 => Command::SEPLAY,
        0x96 => Command::SESTOP,
        0x97 => Command::SESTOPALL,
        0x98 => Command::SEVOL,
        0x99 => Command::SEWAIT,
        0x9a => Command::SEONCE,
        0x9b => Command::UNK9B,
        0xa0 => Command::SAVEINFO,
        0xa1 => Command::MOVIE,
        0xa2 => Command::EVBEGIN,
        0xa3 => Command::EVEND,
        0xa5 => Command::AUTOSAVE,
        0xa6 => Command::VOICEPLAY,
        0xa7 => Command::VOICEWAIT,
        0xaa => Command::TIPSGET,
        0xac => Command::CHARSEL,
        0xad => Command::OTSUGET,
        0xae => Command::CHART,
        0xaf => Command::SNRSEL,
        0xb0 => Command::KAKERA,
        0xb1 => Command::KAKERAGET,
        0xb2 => Command::QUIZ,
        0xb3 => Command::FAKESELECT,
        0xb4 => Command::TROPHY,
        0xc0 => Command::LAYERCLEAR,
        0xc1 => Command::LAYERLOAD,
        0xc2 => Command::LAYERCTRL,
        0xc3 => Command::LAYERWAIT,
        _ => return None,
    })
}

/// The instruction of opcode `opcode` in AliasCarnival.
fn alias_carnival_instruction_of(opcode: u8) -> (r: Option<Instruction>)
    ensures
        r == alias_carnival_instruction(opcode),
{
    Some(match opcode {
        0x40 => Instruction::uo,
        0x41 => Instruction::bo,
        0x42 => Instruction::exp,
        0x43 => Instruction::mm,
        0x44 => Instruction::gt,
        0x45 => Instruction::st,
        0x46 => Instruction::jc,
        0x47 => Instruction::j,
        0x48 => Instruction::gosub,
        0x49 => Instruction::retsub,
        0x4a => Instruction::jt,
        0x4b => Instruction::gosubt,
        0x4c => Instruction::rnd,
        0x4d => Instruction::push,
        0x4e => Instruction::pop,
        0x4f => Instruction::call,
        0x50 => Instruction::ret,
        _ => return None,
    })
}

/// The command of opcode `opcode` in AliasCarnival.
fn alias_carnival_command_of(opcode: u8) -> (r: Option<Command>)
    ensures
        r == alias_carnival_command(opcode),
{
    Some(match opcode {
        0x80 => Command::EXIT,
        0x81 => Command::SGET,
        0x82 => Command::SSET,
        0x83 => Command::WAIT,
        0x84 => Command::KEYWAIT,
        0x85 => Command::MSGINIT,
        0x86 => Command::MSGFACE,
        0x87 => Command::MSGSET,
        0x88 => Command::MSGWAIT,
        0x89 => Command::MSGSIGNAL,
        0x8a => Command::MSGCLOSE,
        0x8b => Command::MSGCHECK,
        0x8c => Command::LOGSET,
        0x8d => Command::SELECT,
        0x8e => Command::WIPE,
        0x8f => Command::WIPEWAIT,
        0x90 => Command::BGMPLAY,
        0x91 => Command::BGMSTOP,
        0x92 => Command::BGMVOL,
        0x93 => Command::BGMWAIT,
        0x94 => Command::BGMSYNC,
        0x95 => Command::SEPLAY,
        0x96 => Command::SESTOP,
        0x97 => Command::SESTOPALL,
        0x98 => Command::SEVOL,
        0x99 => Command::SEWAIT,
        0x9a => Command::SEONCE,
        0x9b => Command::UNK9B,
        0xa0 => Command::SAVEINFO,
        0xa1 => Command::MOVIE,
        0xa2 => Command::EVBEGIN,
        0xa3 => Command::EVEND,
        0xa5 => Command::AUTOSAVE,
        0xa6 => Command::VOICEPLAY,
        0xa7 => Command::VOICEWAIT,
        0xb0 => Command::TROPHY,
        0xb1 => Command::ICOGET,
        0xb2 => Command::STAGEINFO,
        0xb3 => Command::ICOCHK,
        0xc0 => Command::LAYERCLEAR,
        0xc1 => Command::LAYERLOAD,
        0xc2 => Command::LAYERCTRL,
        0xc3 => Command::LAYERWAIT,
        0xc4 => Command::EMOTEWAIT,
        0xc5 => Command::NAMED,
        0xc6 => Command::BACKINIT,
        0xff => Command::DEBUGOUT,
        _ => return None,
    })
}

/// The instruction of opcode `opcode` in WhiteEternity.
fn white_eternity_instruction_of(opcode: u8) -> (r: Option<Instruction>)
    ensures
        r == white_eternity_instruction(opcode),
{
    Some(match opcode {
        0x40 => Instruction::uo,
        0x41 => Instruction::bo,
        0x42 => Instruction::exp,
        0x43 => Instruction::mm,
        0x44 => Instruction::gt,
        0x45 => Instruction::st,
        0x46 => Instruction::jc,
        0x47 => Instruction::j,
        0x48 => Instruction::gosub,
        0x49 => Instruction::retsub,
        0x4a => Instruction::jt,
        0x4b => Instruction::gosubt,
        0x4c => Instruction::rnd,
        0x4d => Instruction::push,
        0x4e => Instruction::pop,
        0x4f => Instruction::call,
        0x50 => Instruction::ret,
        0x51 => Instruction::fmt,
        0x52 => Instruction::fnmt,
        _ => return None,
    })
}

/// The command of opcode `opcode` in WhiteEternity.
fn white_eternity_command_of(opcode: u8) -> (r: Option<Command>)
    ensures
        r == white_eternity_command(opcode),
{
    Some(match opcode {
        0x00 => Command::EXIT,
        0x81 => Command::SGET,
        0x82 => Command::SSET,
        0x83 => Command::WAIT,
        0x85 => Command::MSGINIT,
        0x87 => Command::MSGSET,
        0x88 => Command::MSGWAIT,
        0x89 => Command::MSGSIGNAL,
        0x8a => Command::MSGCLOSE,
        0x8b => Command::MSGFACE,
        0x8c => Command::LOGSET,
        0x8d => Command::SELECT,
        0x8e => Command::WIPE,
        0x8f => Command::WIPEWAIT,
        0x90 => Command::BGMPLAY,
        0x91 => Command::BGMSTOP,
        0x92 => Command::BGMVOL,
        0x93 => Command::BGMWAIT,
        0x94 => Command::BGMSYNC,
        0x95 => Command::SEPLAY,
        0x96 => Command::SESTOP,
        0x97 => Command::SESTOPALL,
        0x98 => Command::SEVOL,
        0x99 => Command::SEPAN,
        0x9a => Command::SEWAIT,
        0x9b => Command::SEONCE,
        0x9c => Command::VOICEPLAY,
        0x9d => Command::VOICEWAIT,
        0xa0 => Command::SAVEINFO,
        0xa1 => Command::AUTOSAVE,
        0xa2 => Command::EVBEGIN,
        0xa3 => Command::EVEND,
        0xb0 => Command::TROPHY,
        0xc0 => Command::LAYERINIT,
        0xc1 => Command::LAYERLOAD,
        0xc2 => Command::LAYERUNLOAD,
        0xc3 => Command::LAYERCTRL,
        0xc4 => Command::LAYERWAIT,
        0xc7 => Command::LAYERSELECT,
        0xc8 => Command::MOVIEWAIT,
        0xd0 => Command::CHARCLEAR,
        0xd1 => Command::CHARLOAD,
        0xd2 => Command::CHARUNLOAD,
        0xd3 => Command::CHARDISP,
        0xd4 => Command::CHARCTRL,
        0xd5 => Command::CHARWAIT,
        0xd6 => Command::CHARMARK,
        0xd7 => Command::CHARSYNC,
        0xff => Command::DEBUGOUT,
        _ => return None,
    })
}

/// The instruction of opcode `opcode` in HigurashiHou.
fn higurashi_hou_instruction_of(opcode: u8) -> (r: Option<Instruction>)
    ensures
        r == higurashi_hou_instruction(opcode),
{
    Some(match opcode {
        0x40 => Instruction::uo,
        0x41 => Instruction::bo,
        0x42 => Instruction::exp,
        0x43 => Instruction::mm,
        0x44 => Instruction::gt,
        0x45 => Instruction::st,
        0x46 => Instruction::jc,
        0x47 => Instruction::j,
        0x48 => Instruction::gosub,
        0x49 => Instruction::retsub,
        0x4a => Instruction::jt,
        0x4b => Instruction::gosubt,
        0x4c => Instruction::rnd,
        0x4d => Instruction::push,
        0x4e => Instruction::pop,
        0x4f => Instruction::call,
        0x50 => Instruction::ret,
        0x51 => Instruction::fmt,
        0x52 => Instruction::fnmt,
        0x53 => Instruction::getbupid,
        _ => return None,
    })
}

/// The command of opcode `opcode` in HigurashiHou.
fn higurashi_hou_command_of(opcode: u8) -> (r: Option<Command>)
    ensures
        r == higurashi_hou_command(opcode),
{
    Some(match opcode {
        0x00 => Command::EXIT,
        0x81 => Command::SGET,
        0x82 => Command::SSET,
        0x83 => Command::WAIT,
        0x85 => Command::MSGINIT,
        0x86 => Command::MSGSET,
        0x87 => Command::MSGWAIT,
        0x88 => Command::MSGSIGNAL,
        0x89 => Command::MSGSYNC,
        0x8a => Command::MSGCLOSE,
        0x8b => Command::MSGFACE,
        0x8c => Command::LOGSET,
        0x8d => Command::SELECT,
        0x8e => Command::WIPE,
        0x8f => Command::WIPEWAIT,
        0x90 => Command::BGMPLAY,
        0x91 => Command::BGMSTOP,
        0x92 => Command::BGMVOL,
        0x93 => Command::BGMWAIT,
        0x94 => Command::BGMSYNC,
        0x95 => Command::SEPLAY,
        0x96 => Command::SESTOP,
        0x97 => Command::SESTOPALL,
        0x98 => Command::SEVOL,
        0x99 => Command::SEPAN,
        0x9a => Command::SEWAIT,
        0x9b => Command::SEONCE,
        0x9c => Command::VOICEPLAY,
        0x9d => Command::VOICESTOP,
        0x9e => Command::VOICEWAIT,
        0xa0 => Command::SAVEINFO,
        0xa1 => Command::AUTOSAVE,
        0xa2 => Command::EVBEGIN,
        0xa3 => Command::EVEND,
        0xb0 => Command::TROPHY,
        0xc0 => Command::LAYERINIT,
        0xc1 => Command::LAYERLOAD,
        0xc2 => Command::LAYERUNLOAD,
        0xc3 => Command::LAYERCTRL,
        0xc4 => Command::LAYERWAIT,
        0xc5 => Command::LAYERBACK,
        0xc6 => Command::LAYERSWAP,
        0xc7 => Command::LAYERSELECT,
        0xc8 => Command::MOVIEWAIT,
        0xc9 => Command::FEELICON,
        0xd0 => Command::TIPSGET,
        0xd1 => Command::CHARSELECT,
        0xd2 => Command::OTSUGET,
        0xd3 => Command::CHART,
        0xd4 => Command::SNRSEL,
        0xd5 => Command::KAKERA,
        0xd6 => Command::KAKERAGET,
        0xd7 => Command::QUIZ,
        0xd8 => Command::FAKESELECT,
        0xd9 => Command::UNLOCK,
        0xff => Command::DEBUGOUT,
        _ => return None,
    })
}

/// The instruction of opcode `opcode` in HigurashiHouV2.
fn higurashi_hou_v2_instruction_of(opcode: u8) -> (r: Option<Instruction>)
    ensures
        r == higurashi_hou_v2_instruction(opcode),
{
    Some(match opcode {
        0x40 => Instruction::uo,
        0x41 => Instruction::bo,
        0x42 => Instruction::exp,
        0x43 => Instruction::mm,
        0x44 => Instruction::gt,
        0x45 => Instruction::st,
        0x46 => Instruction::jc,
        0x47 => Instruction::j,
        0x48 => Instruction::gosub,
        0x49 => Instruction::retsub,
        0x4a => Instruction::jt,
        0x4b => Instruction::gosubt,
        0x4c => Instruction::rnd,
        0x4d => Instruction::push,
        0x4e => Instruction::pop,
        0x4f => Instruction::call,
        0x50 => Instruction::ret,
        0x51 => Instruction::fmt,
        0x52 => Instruction::fnmt,
        0x53 => Instruction::getbupid,
        _ => return None,
    })
}

/// The command of opcode `opcode` in HigurashiHouV2.
fn higurashi_hou_v2_command_of(opcode: u8) -> (r: Option<Command>)
    ensures
        r == higurashi_hou_v2_command(opcode),
{
    Some(match opcode {
        0x00 => Command::EXIT,
        0x81 => Command::SGET,
        0x82 => Command::SSET,
        0x83 => Command::WAIT,
        0x85 => Command::MSGINIT,
        0x86 => Command::MSGSET,
        0x87 => Command::MSGWAIT,
        0x88 => Command::MSGSIGNAL,
        0x89 => Command::MSGSYNC,
        0x8a => Command::MSGCLOSE,
        0x8b => Command::MSGHIDE,
        0x8c => Command::LOGSET,
        0x8d => Command::SELECT,
        0x8e => Command::WIPE,
        0x8f => Command::WIPEWAIT,
        0x90 => Command::BGMPLAY,
        0x91 => Command::BGMSTOP,
        0x92 => Command::BGMVOL,
        0x93 => Command::BGMWAIT,
        0x94 => Command::BGMSYNC,
        0x95 => Command::SEPLAY,
        0x96 => Command::SESTOP,
        0x97 => Command::SESTOPALL,
        0x98 => Command::SEVOL,
        0x99 => Command::SEPAN,
        0x9a => Command::SEWAIT,
        0x9b => Command::SEONCE,
        0x9c => Command::VOICEPLAY,
        0x9d => Command::VOICESTOP,
        0x9e => Command::VOICEWAIT,
        0xa0 => Command::SAVEINFO,
        0xa1 => Command::AUTOSAVE,
        0xa2 => Command::EVBEGIN,
        0xa3 => Command::EVEND,
        0xb0 => Command::TROPHY,
        0xc0 => Command::LAYERINIT,
        0xc1 => Command::LAYERLOAD,
        0xc2 => Command::LAYERUNLOAD,
        0xc3 => Command::LAYERCTRL,
        0xc4 => Command::LAYERWAIT,
        0xc5 => Command::LAYERBACK,
        0xc6 => Command::LAYERSWAP,
        0xc7 => Command::LAYERSELECT,
        0xc8 => Command::MOVIEWAIT,
        0xc9 => Command::FEELICON,
        0xd0 => Command::TIPSGET,
        0xd1 => Command::CHARSELECT,
        0xd2 => Command::OTSUGET,
        0xd3 => Command::CHART,
        0xd4 => Command::SNRSEL,
        0xd5 => Command::KAKERA,
        0xd6 => Command::KAKERAGET,
        0xd7 => Command::QUIZ,
        0xd8 => Command::FAKESELECT,
        0xd9 => Command::UNLOCK,
        0xda => Command::KGET,
        0xdb => Command::KSET,
        0xff => Command::DEBUGOUT,
        _ => return None,
    })
}

/// The instruction of opcode `opcode` in DC4.
fn dc4_instruction_of(opcode: u8) -> (r: Option<Instruction>)
    ensures
        r == dc4_instruction(opcode),
{
    Some(match opcode {
        0x40 => Instruction::uo,
        0x41 => Instruction::bo,
        0x42 => Instruction::exp,
        0x43 => Instruction::mm,
        0x44 => Instruction::gt,
        0x45 => Instruction::st,
        0x46 => Instruction::jc,
        0x47 => Instruction::j,
        0x48 => Instruction::gosub,
        0x49 => Instruction::retsub,
        0x4a => Instruction::jt,
        0x4b => Instruction::gosubt,
        0x4c => Instruction::rnd,
        0x4d => Instruction::push,
        0x4e => Instruction::pop,
        0x4f => Instruction::call,
        0x50 => Instruction::ret,
        0x51 => Instruction::fmt,
        0x52 => Instruction::fnmt,
        0x53 => Instruction::getbupid,
        _ => return None,
    })
}

/// The command of opcode `opcode` in DC4.
fn dc4_command_of(opcode: u8) -> (r: Option<Command>)
    ensures
        r == dc4_command(opcode),
{
    Some(match opcode {
        0x00 => Command::EXIT,
        0x81 => Command::SGET,
        0x82 => Command::SSET,
        0x83 => Command::WAIT,
        0x85 => Command::MSGINIT,
        0x86 => Command::MSGSET,
        0x87 => Command::MSGWAIT,
        0x88 => Command::MSGSIGNAL,
        0x89 => Command::MSGSYNC,
        0x8a => Command::MSGCLOSE,
        0x8b => Command::MSGFACE,
        0x8d => Command::SELECT,
        0x8e => Command::WIPE,
        0x8f => Command::WIPEWAIT,
        0x90 => Command::BGMPLAY,
        0x91 => Command::BGMSTOP,
        0x92 => Command::BGMVOL,
        0x93 => Command::BGMWAIT,
        0x94 => Command::BGMSYNC,
        0x95 => Command::SEPLAY,
        0x96 => Command::SESTOP,
        0x97 => Command::SESTOPALL,
        0x98 => Command::SEVOL,
        0x99 => Command::SEPAN,
        0x9a => Command::SEWAIT,
        0x9b => Command::SEONCE,
        0x9c => Command::VOICEPLAY,
        0x9d => Command::VOICESTOP,
        0x9e => Command::VOICEWAIT,
        0xa0 => Command::SAVEINFO,
        0xa1 => Command::AUTOSAVE,
        0xa2 => Command::EVBEGIN,
        0xa3 => Command::EVEND,
        0xa4 => Command::RESUMESET,
        0xa5 => Command::RESUME,
        0xb0 => Command::TROPHY,
        0xb1 => Command::UNLOCK,
        0xc0 => Command::LAYERINIT,
        0xc1 => Command::LAYERLOAD,
        0xc2 => Command::LAYERUNLOAD,
        0xc3 => Command::LAYERCTRL,
        0xc4 => Command::LAYERWAIT,
        0xc5 => Command::LAYERSWAP,
        0xc6 => Command::LAYERSELECT,
        0xc7 => Command::MOVIEWAIT,
        0xc9 => Command::TRANSSET,
        0xca => Command::TRANSWAIT,
        0xcb => Command::PAGEBACK,
        0xcc => Command::PLANESELECT,
        0xcd => Command::PLANECLEAR,
        0xce => Command::MASKLOAD,
        0xcf => Command::MASKUNLOAD,
        0xd0 => Command::CHATSET,
        0xff => Command::DEBUGOUT,
        _ => return None,
    })
}

/// The instruction of opcode `opcode` in Konosuba.
fn konosuba_instruction_of(opcode: u8) -> (r: Option<Instruction>)
    ensures
        r == konosuba_instruction(opcode),
{
    Some(match opcode {
        0x40 => Instruction::uo,
        0x41 => Instruction::bo,
        0x42 => Instruction::exp,
        0x43 => Instruction::mm,
        0x44 => Instruction::gt,
        0x45 => Instruction::st,
        0x46 => Instruction::jc,
        0x47 => Instruction::j,
        0x48 => Instruction::gosub,
        0x49 => Instruction::retsub,
        0x4a => Instruction::jt,
        0x4b => Instruction::gosubt,
        0x4c => Instruction::rnd,
        0x4d => Instruction::push,
        0x4e => Instruction::pop,
        0x4f => Instruction::call,
        0x50 => Instruction::ret,
        0x51 => Instruction::fmt,
        0x52 => Instruction::fnmt,
        0x53 => Instruction::getbupid,
        _ => return None,
    })
}

/// The command of opcode `opcode` in Konosuba.
fn konosuba_command_of(opcode: u8) -> (r: Option<Command>)
    ensures
        r == konosuba_command(opcode),
{
    Some(match opcode {
        0x00 => Command::EXIT,
        0x80 => Command::SGET,
        0x81 => Command::SSET,
        0x82 => Command::WAIT,
        0x83 => Command::MSGINIT,
        0x84 => Command::MSGSET,
        0x85 => Command::MSGWAIT,
        0x86 => Command::MSGSIGNAL,
        0x87 => Command::MSGCLOSE,
        0x88 => Command::SELECT,
        0x89 => Command::WIPE,
        0x8a => Command::WIPEWAIT,
        0x90 => Command::BGMPLAY,
        0x91 => Command::BGMSTOP,
        0x92 => Command::BGMVOL,
        0x93 => Command::BGMWAIT,
        0x94 => Command::BGMSYNC,
        0x95 => Command::SEPLAY,
        0x96 => Command::SESTOP,
        0x97 => Command::SESTOPALL,
        0x98 => Command::SEVOL,
        0x99 => Command::SEPAN,
        0x9a => Command::SEWAIT,
        0x9b => Command::SEONCE,
        0x9c => Command::VOICEPLAY,
        0x9d => Command::VOICESTOP,
        0x9e => Command::VOICEWAIT,
        0xc0 => Command::LAYERINIT,
        0xc1 => Command::LAYERLOAD,
        0xc2 => Command::LAYERUNLOAD,
        0xc3 => Command::LAYERCTRL,
        0xc4 => Command::LAYERWAIT,
        0xc5 => Command::LAYERBACK,
        0xc6 => Command::LAYERSELECT,
        0xc7 => Command::MOVIEWAIT,
        0xe0 => Command::SLEEP,
        0xe1 => Command::VSET,
        0xff => Command::DEBUGOUT,
        _ => return None,
    })
}

/// The instruction of opcode `opcode` in Umineko.
fn umineko_instruction_of(opcode: u8) -> (r: Option<Instruction>)
    ensures
        r == umineko_instruction(opcode),
{
    Some(match opcode {
        0x40 => Instruction::uo,
        0x41 => Instruction::bo,
        0x42 => Instruction::exp,
        0x43 => Instruction::mm,
        0x44 => Instruction::gt,
        0x45 => Instruction::st,
        0x46 => Instruction::jc,
        0x47 => Instruction::j,
        0x48 => Instruction::gosub,
        0x49 => Instruction::retsub,
        0x4a => Instruction::jt,
        0x4b => Instruction::gosubt,
        0x4c => Instruction::rnd,
        0x4d => Instruction::push,
        0x4e => Instruction::pop,
        0x4f => Instruction::call,
        0x50 => Instruction::ret,
        0x51 => Instruction::fmt,
        0x52 => Instruction::fnmt,
        0x53 => Instruction::getbupid,
        _ => return None,
    })
}

/// The command of opcode `opcode` in Umineko.
fn umineko_command_of(opcode: u8) -> (r: Option<Command>)
    ensures
        r == umineko_command(opcode),
{
    Some(match opcode {
        0x00 => Command::EXIT,
        0x81 => Command::SGET,
        0x82 => Command::SSET,
        0x83 => Command::WAIT,
        0x85 => Command::MSGINIT,
        0x86 => Command::MSGSET,
        0x87 => Command::MSGWAIT,
        0x88 => Command::MSGSIGNAL,
        0x89 => Command::MSGSYNC,
        0x8a => Command::MSGCLOSE,
        0x8d => Command::SELECT,
        0x8e => Command::WIPE,
        0x8f => Command::WIPEWAIT,
        0x90 => Command::BGMPLAY,
        0x91 => Command::BGMSTOP,
        0x92 => Command::BGMVOL,
        0x93 => Command::BGMWAIT,
        0x94 => Command::BGMSYNC,
        0x95 => Command::SEPLAY,
        0x96 => Command::SESTOP,
        0x97 => Command::SESTOPALL,
        0x98 => Command::SEVOL,
        0x99 => Command::SEPAN,
        0x9a => Command::SEWAIT,
        0x9b => Command::SEONCE,
        0x9c => Command::VOICEPLAY,
        0x9d => Command::VOICESTOP,
        0x9e => Command::VOICEWAIT,
        0x9f => Command::SYSSE,
        0xa0 => Command::SAVEINFO,
        0xa1 => Command::AUTOSAVE,
        0xa2 => Command::EVBEGIN,
        0xa3 => Command::EVEND,
        0xa4 => Command::RESUMESET,
        0xa5 => Command::RESUME,
        0xa6 => Command::SYSCALL,
        0xb0 => Command::TROPHY,
        0xb1 => Command::UNLOCK,
        0xc0 => Command::LAYERINIT,
        0xc1 => Command::LAYERLOAD,
        0xc2 => Command::LAYERUNLOAD,
        0xc3 => Command::LAYERCTRL,
        0xc4 => Command::LAYERWAIT,
        0xc5 => Command::LAYERSWAP,
        0xc6 => Command::LAYERSELECT,
        0xc7 => Command::MOVIEWAIT,
        0xc9 => Command::TRANSSET,
        0xca => Command::TRANSWAIT,
        0xcb => Command::PAGEBACK,
        0xcc => Command::PLANESELECT,
        0xcd => Command::PLANECLEAR,
        0xce => Command::MASKLOAD,
        0xcf => Command::MASKUNLOAD,
        0xe0 => Command::CHARS,
        0xe1 => Command::TIPSGET,
        0xe2 => Command::QUIZ,
        0xe3 => Command::SHOWCHARS,
        0xe4 => Command::NOTIFYSET,
        0xff => Command::DEBUGOUT,
        _ => return None,
    })
}

/// The instruction of opcode `opcode` in Gerokasu2.
fn gerokasu2_instruction_of(opcode: u8) -> (r: Option<Instruction>)
    ensures
        r == gerokasu2_instruction(opcode),
{
    Some(match opcode {
        0x40 => Instruction::uo,
        0x41 => Instruction::bo,
        0x42 => Instruction::exp,
        0x43 => Instruction::mm,
        0x44 => Instruction::gt,
        0x45 => Instruction::st,
        0x46 => Instruction::jc,
        0x47 => Instruction::j,
        0x48 => Instruction::gosub,
        0x49 => Instruction::retsub,
        0x4a => Instruction::jt,
        0x4b => Instruction::gosubt,
        0x4c => Instruction::rnd,
        0x4d => Instruction::push,
        0x4e => Instruction::pop,
        0x4f => Instruction::call,
        0x50 => Instruction::ret,
        0x51 => Instruction::fmt,
        0x52 => Instruction::fnmt,
        0x53 => Instruction::getbupid,
        _ => return None,
    })
}

/// The command of opcode `opcode` in Gerokasu2.
fn gerokasu2_command_of(opcode: u8) -> (r: Option<Command>)
    ensures
        r == gerokasu2_command(opcode),
{
    Some(match opcode {
        0x00 => Command::EXIT,
        0x81 => Command::SGET,
        0x82 => Command::SSET,
        0x83 => Command::WAIT,
        0x85 => Command::MSGINIT,
        0x86 => Command::MSGSET,
        0x87 => Command::MSGWAIT,
        0x88 => Command::MSGSIGNAL,
        0x89 => Command::MSGSYNC,
        0x8a => Command::MSGCLOSE,
        0x8b => Command::MSGFACE,
        0x8d => Command::SELECT,
        0x8e => Command::WIPE,
        0x8f => Command::WIPEWAIT,
        0x90 => Command::BGMPLAY,
        0x91 => Command::BGMSTOP,
        0x92 => Command::BGMVOL,
        0x93 => Command::BGMWAIT,
        0x94 => Command::BGMSYNC,
        0x95 => Command::SEPLAY,
        0x96 => Command::SESTOP,
        0x97 => Command::SESTOPALL,
        0x98 => Command::SEVOL,
        0x99 => Command::SEPAN,
        0x9a => Command::SEWAIT,
        0x9b => Command::SEONCE,
        0x9c => Command::VOICEPLAY,
        0x9d => Command::VOICESTOP,
        0x9e => Command::VOICEWAIT,
        0x9f => Command::SYSSE,
        0xa0 => Command::SAVEINFO,
        0xa1 => Command::AUTOSAVE,
        0xa2 => Command::EVBEGIN,
        0xa3 => Command::EVEND,
        0xa4 => Command::RESUMESET,
        0xa5 => Command::RESUME,
        0xa6 => Command::SYSCALL,
        0xb0 => Command::TROPHY,
        0xb1 => Command::UNLOCK,
        0xc0 => Command::LAYERINIT,
        0xc1 => Command::LAYERLOAD,
        0xc2 => Command::LAYERUNLOAD,
        0xc3 => Command::LAYERCTRL,
        0xc4 => Command::LAYERWAIT,
        0xc5 => Command::LAYERSWAP,
        0xc6 => Command::LAYERSELECT,
        0xc7 => Command::MOVIEWAIT,
        0xc9 => Command::TRANSSET,
        0xca => Command::TRANSWAIT,
        0xcb => Command::PAGEBACK,
        0xcc => Command::PLANESELECT,
        0xcd => Command::PLANECLEAR,
        0xce => Command::MASKLOAD,
        0xcf => Command::MASKUNLOAD,
        0xe0 => Command::QUIZ,
        0xff => Command::DEBUGOUT,
        _ => return None,
    })
}

/// The operation named by opcode `opcode` in `version`: an instruction in the instruction
/// range, otherwise a command; `None` for an opcode the version does not define.
pub fn get_opcode_name(version: ShinVersion, opcode: u8) -> (r: Option<Opcode>)
    ensures
        r == opcode_name(version, opcode),
        r matches Some(Opcode::Instruction(_)) ==> is_instruction_opcode(version, opcode),
        r matches Some(Opcode::Command(_)) ==> !is_instruction_opcode(version, opcode),
{
    let (instruction, command) = match version {
        ShinVersion::HigurashiSui => if opcode < 0x80 {
            (higurashi_sui_instruction_of(opcode), None)
        } else {
            (None, higurashi_sui_command_of(opcode))
        },
        ShinVersion::AliasCarnival => if opcode < 0x80 {
            (alias_carnival_instruction_of(opcode), None)
        } else {
            (None, alias_carnival_command_of(opcode))
        },
        ShinVersion::WhiteEternity => if opcode != 0 && opcode < 0x80 {
            (white_eternity_instruction_of(opcode), None)
        } else {
            (None, white_eternity_command_of(opcode))
        },
        ShinVersion::HigurashiHou => if opcode != 0 && opcode < 0x80 {
            (higurashi_hou_instruction_of(opcode), None)
        } else {
            (None, higurashi_hou_command_of(opcode))
        },
        ShinVersion::HigurashiHouV2 => if opcode != 0 && opcode < 0x80 {
            (higurashi_hou_v2_instruction_of(opcode), None)
        } else {
            (None, higurashi_hou_v2_command_of(opcode))
        },
        ShinVersion::DC4 => if opcode != 0 && opcode < 0x80 {
            (dc4_instruction_of(opcode), None)
        } else {
            (None, dc4_command_of(opcode))
        },
        ShinVersion::Konosuba => if opcode != 0 && opcode < 0x80 {
            (konosuba_instruction_of(opcode), None)
        } else {
            (None, konosuba_command_of(opcode))
        },
        ShinVersion::Umineko => if opcode != 0 && opcode < 0x80 {
            (umineko_instruction_of(opcode), None)
        } else {
            (None, umineko_command_of(opcode))
        },
        ShinVersion::Gerokasu2 => if opcode != 0 && opcode < 0x80 {
            (gerokasu2_instruction_of(opcode), None)
        } else {
            (None, gerokasu2_command_of(opcode))
        },
        ShinVersion::WorldRe => return None,
    };
    match instruction {
        Some(i) => Some(Opcode::Instruction(i)),
        None => match command {
            Some(c) => Some(Opcode::Command(c)),
            None => None,
        },
    }
}

} // verus!
