//! The layout of operations: which elements each instruction and command consists of.
use vstd::prelude::*;

use crate::versions::{LengthKind, NumberStyle, StringArrayKind, StringKind};

pub mod def;

verus! {

/// The kinds of element an operation can consist of.
#[derive(Debug, Copy, Clone, PartialEq, Eq, Structural)]
pub enum OperationElement {
    /// Simple 1-byte integer without additional semantics
    U8,
    /// Simple 2-byte integer without additional semantics
    U16,
    /// Simple 4-byte integer without additional semantics
    U32,
    Operation,
    Condition,
    Expression,
    /// A register (lvalue). 2 bytes.
    Register,
    RegisterArray(LengthKind),
    Offset,
    OffsetArray(LengthKind),
    /// A number (rvalue). Either 2 bytes (older) or variable-length (newer)
    Number,
    /// A number that may be omitted, depending on the most significant bit in a previously parsed `Operation` element
    OptionalNumber,
    /// An array of numbers prefixed by array length.
    NumberArray(LengthKind),
    /// A padded array of numbers prefixed by array length. Each number is either 2 or 4 bytes, depending on the number style.
    PadNumberArray(LengthKind),
    /// A byte mask and then a number for each bit set.
    BitmaskNumberArray,
    /// A zero-terminated string prefixed with length.
    String(LengthKind),
    /// A zero-terminated array of zero-terminated strings prefixed with length.
    StringArray(LengthKind),
    HiguSuiWipeArg,
}

/// Virtual machine instructions: they do not affect the game state.
#[allow(non_camel_case_types)]
#[derive(Debug, Copy, Clone, PartialEq, Eq, Structural)]
pub enum Instruction {
    uo,
    bo,
    exp,
    mm,
    gt,
    st,
    jc,
    j,
    gosub,
    retsub,
    jt,
    gosubt,
    rnd,
    push,
    pop,
    call,
    ret,
    fmt,
    fnmt,
    getbupid,
}

/// Commands: they yield to the game loop and affect the game state.
#[allow(clippy::upper_case_acronyms)]
#[derive(Debug, Copy, Clone, PartialEq, Eq, Structural)]
pub enum Command {
    EXIT,
    SGET,
    SSET,
    WAIT,
    KEYWAIT,
    MSGINIT,
    MSGSET,
    MSGWAIT,
    MSGSIGNAL,
    MSGSYNC,
    MSGCLOSE,
    MSGFACE,
    MSGCHECK,
    MSGQUAKE,
    MSGHIDE,
    LOGSET,
    SELECT,
    WIPE,
    WIPEWAIT,
    BGMPLAY,
    BGMSTOP,
    BGMVOL,
    BGMWAIT,
    BGMSYNC,
    SEPLAY,
    SESTOP,
    SESTOPALL,
    SEVOL,
    SEPAN,
    SEWAIT,
    SEONCE,
    UNK9B,
    VOICEPLAY,
    VOICESTOP,
    VOICEWAIT,
    SYSSE,
    SAVEINFO,
    MOVIE,
    AUTOSAVE,
    EVBEGIN,
    EVEND,
    RESUMESET,
    RESUME,
    SYSCALL,
    TROPHY,
    UNLOCK,
    LAYERCLEAR,
    LAYERINIT,
    LAYERLOAD,
    LAYERUNLOAD,
    LAYERCTRL,
    LAYERWAIT,
    LAYERSWAP,
    LAYERSELECT,
    MOVIEWAIT,
    LAYERBACK,
    TRANSSET,
    TRANSWAIT,
    PAGEBACK,
    PLANESELECT,
    PLANECLEAR,
    MASKLOAD,
    MASKUNLOAD,
    ICOGET,
    STAGEINFO,
    ICOCHK,
    EMOTEWAIT,
    NAMED,
    BACKINIT,
    CHARCLEAR,
    CHARLOAD,
    CHARUNLOAD,
    CHARDISP,
    CHARCTRL,
    CHARWAIT,
    CHARMARK,
    CHARSYNC,
    CHATSET,
    SLEEP,
    VSET,
    TIPSGET,
    CHARSEL,
    OTSUGET,
    CHART,
    SNRSEL,
    KAKERA,
    KAKERAGET,
    QUIZ,
    FAKESELECT,
    CHARS,
    SHOWCHARS,
    NOTIFYSET,
    FEELICON,
    CHARSELECT,
    KGET,
    KSET,
    DEBUGOUT,
}

/// An operation code: an instruction or a command.
#[derive(Debug, Copy, Clone, PartialEq, Eq, Structural)]
pub enum Opcode {
    Instruction(Instruction),
    Command(Command),
}

/// The kind of the string operand of `command`, if it has one.
pub open spec fn command_string_kind(command: Command) -> Option<StringKind> {
    match command {
        Command::SAVEINFO => Some(StringKind::Saveinfo),
        Command::SELECT => Some(StringKind::Select),
        Command::MSGSET => Some(StringKind::Msgset),
        Command::DEBUGOUT => Some(StringKind::Dbgout),
        Command::LOGSET => Some(StringKind::Logset),
        Command::VOICEPLAY => Some(StringKind::Voiceplay),
        Command::CHATSET => Some(StringKind::Chatset),
        Command::NAMED => Some(StringKind::Named),
        Command::STAGEINFO => Some(StringKind::Stageinfo),
        _ => None,
    }
}

/// The kind of the string-array operand of `command`, if it has one.
pub open spec fn command_string_array_kind(command: Command) -> Option<StringArrayKind> {
    match command {
        Command::SELECT => Some(StringArrayKind::SelectChoice),
        _ => None,
    }
}

impl Command {
    /// The kind of this command's string operand (`Err` for commands without one).
    pub fn string_kind(self) -> (r: Result<StringKind, ()>)
        ensures
            match command_string_kind(self) {
                Some(k) => r == Ok::<StringKind, ()>(k),
                None => r is Err,
            },
    {
        match self {
            Command::SAVEINFO => Ok(StringKind::Saveinfo),
            Command::SELECT => Ok(StringKind::Select),
            Command::MSGSET => Ok(StringKind::Msgset),
            Command::DEBUGOUT => Ok(StringKind::Dbgout),
            Command::LOGSET => Ok(StringKind::Logset),
            Command::VOICEPLAY => Ok(StringKind::Voiceplay),
            Command::CHATSET => Ok(StringKind::Chatset),
            Command::NAMED => Ok(StringKind::Named),
            Command::STAGEINFO => Ok(StringKind::Stageinfo),
            _ => Err(()),
        }
    }

    /// The kind of this command's string-array operand (`Err` for commands without one).
    pub fn string_array_kind(self) -> (r: Result<StringArrayKind, ()>)
        ensures
            match command_string_array_kind(self) {
                Some(k) => r == Ok::<StringArrayKind, ()>(k),
                None => r is Err,
            },
    {
        match self {
            Command::SELECT => Ok(StringArrayKind::SelectChoice),
            _ => Err(()),
        }
    }
}

/// The elements of one operation.
pub struct OperationSchema<'a> {
    pub elements: &'a [OperationElement],
}

/// Where the elements of one operation lie in the element list of a schema.
#[derive(Copy, Clone)]
pub struct OperationSchemaSlice {
    /// The index of the first element, plus one.
    pub start: u8,
    pub count: u8,
}

/// Collects the elements of many operations into one list.
pub struct SchemaBuilder<E> {
    elements: Vec<E>,
}

impl<E> SchemaBuilder<E> {
    /// The elements collected so far.
    pub closed spec fn elements(&self) -> Seq<E> {
        self.elements@
    }

    pub fn new() -> (r: Self)
        ensures
            r.elements() == Seq::<E>::empty(),
    {
        Self { elements: Vec::new() }
    }

    /// Starts collecting the elements of one operation.
    pub fn start(&mut self) -> (r: OperationSchemaBuilder)
        requires
            old(self).elements().len() <= u8::MAX,
        ensures
            final(self).elements() == old(self).elements(),
            r.start() == old(self).elements().len(),
    {
        OperationSchemaBuilder { start: self.elements.len() as u8 }
    }

    pub fn finish(self) -> (r: Vec<E>)
        ensures
            r@ == self.elements(),
    {
        self.elements
    }
}

/// Collects the elements of one operation into a [`SchemaBuilder`].
pub struct OperationSchemaBuilder {
    start: u8,
}

impl OperationSchemaBuilder {
    /// Where the elements of this operation start.
    pub closed spec fn start(&self) -> int {
        self.start as int
    }

    pub fn add_element<E>(&mut self, parent: &mut SchemaBuilder<E>, element: E)
        ensures
            final(parent).elements() == old(parent).elements().push(element),
            final(self).start() == old(self).start(),
    {
        parent.elements.push(element);
    }

    /// Ends the operation; the slice covers the elements added since it started.
    pub fn finish<E>(self, parent: &SchemaBuilder<E>) -> (r: OperationSchemaSlice)
        requires
            self.start() <= parent.elements().len() <= u8::MAX,
            self.start() < u8::MAX,
        ensures
            r.start == self.start() + 1,
            r.count == parent.elements().len() - self.start(),
    {
        let count = parent.elements.len() as u8 - self.start;
        OperationSchemaSlice { start: self.start + 1, count }
    }

    /// Drops the operation, removing the elements added since it started.
    pub fn abandon<E>(self, parent: &mut SchemaBuilder<E>)
        requires
            self.start() <= old(parent).elements().len(),
        ensures
            final(parent).elements() == old(parent).elements().take(self.start()),
    {
        parent.elements.truncate(self.start as usize);
    }
}

impl OperationSchemaSlice {
    /// The elements of a schema list that this slice covers.
    pub fn elements<'a>(&self, all: &'a [OperationElement]) -> (r: OperationSchema<'a>)
        requires
            1 <= self.start,
            self.start - 1 + self.count <= all@.len(),
        ensures
            r.elements@ == all@.subrange(self.start - 1, self.start - 1 + self.count),
    {
        OperationSchema { elements: vstd::slice::slice_subrange(all, self.start as usize - 1, self.start as usize - 1 + self.count as usize) }
    }
}


/// The number of instructions.
pub const INSTRUCTION_COUNT: usize = 20;

/// The position of `x` in the list of instructions.
pub open spec fn instruction_index(x: Instruction) -> int {
    match x {
        Instruction::uo => 0,
        Instruction::bo => 1,
        Instruction::exp => 2,
        Instruction::mm => 3,
        Instruction::gt => 4,
        Instruction::st => 5,
        Instruction::jc => 6,
        Instruction::j => 7,
        Instruction::gosub => 8,
        Instruction::retsub => 9,
        Instruction::jt => 10,
        Instruction::gosubt => 11,
        Instruction::rnd => 12,
        Instruction::push => 13,
        Instruction::pop => 14,
        Instruction::call => 15,
        Instruction::ret => 16,
        Instruction::fmt => 17,
        Instruction::fnmt => 18,
        Instruction::getbupid => 19,
    }
}

/// The instruction at position `k` of the list of instructions.
pub open spec fn instruction_at(k: int) -> Instruction {
    if k == 0 {
        Instruction::uo
    } else if k == 1 {
        Instruction::bo
    } else if k == 2 {
        Instruction::exp
    } else if k == 3 {
        Instruction::mm
    } else if k == 4 {
        Instruction::gt
    } else if k == 5 {
        Instruction::st
    } else if k == 6 {
        Instruction::jc
    } else if k == 7 {
        Instruction::j
    } else if k == 8 {
        Instruction::gosub
    } else if k == 9 {
        Instruction::retsub
    } else if k == 10 {
        Instruction::jt
    } else if k == 11 {
        Instruction::gosubt
    } else if k == 12 {
        Instruction::rnd
    } else if k == 13 {
        Instruction::push
    } else if k == 14 {
        Instruction::pop
    } else if k == 15 {
        Instruction::call
    } else if k == 16 {
        Instruction::ret
    } else if k == 17 {
        Instruction::fmt
    } else if k == 18 {
        Instruction::fnmt
    } else {
        Instruction::getbupid
    }
}

/// The largest number of elements an instruction has in any version.
pub open spec fn instruction_max(x: Instruction) -> int {
    match x {
        Instruction::uo => 3,
        Instruction::bo => 4,
        Instruction::exp => 2,
        Instruction::mm => 2,
        Instruction::gt => 3,
        Instruction::st => 3,
        Instruction::jc => 4,
        Instruction::j => 1,
        Instruction::gosub => 1,
        Instruction::retsub => 0,
        Instruction::jt => 2,
        Instruction::gosubt => 2,
        Instruction::rnd => 3,
        Instruction::push => 1,
        Instruction::pop => 1,
        Instruction::call => 2,
        Instruction::ret => 0,
        Instruction::fmt => 4,
        Instruction::fnmt => 4,
        Instruction::getbupid => 3,
    }
}

/// The largest number of elements the first `k` instructions have together.
pub open spec fn instruction_budget(k: int) -> int
    decreases k,
{
    if k <= 0 {
        0
    } else {
        instruction_budget(k - 1) + instruction_max(instruction_at(k - 1))
    }
}

/// Positions and instructions correspond one to one.
pub proof fn lemma_instruction_index(x: Instruction)
    ensures
        0 <= instruction_index(x) < INSTRUCTION_COUNT,
        instruction_at(instruction_index(x)) == x,
{
    match x {
        Instruction::uo => {},
        Instruction::bo => {},
        Instruction::exp => {},
        Instruction::mm => {},
        Instruction::gt => {},
        Instruction::st => {},
        Instruction::jc => {},
        Instruction::j => {},
        Instruction::gosub => {},
        Instruction::retsub => {},
        Instruction::jt => {},
        Instruction::gosubt => {},
        Instruction::rnd => {},
        Instruction::push => {},
        Instruction::pop => {},
        Instruction::call => {},
        Instruction::ret => {},
        Instruction::fmt => {},
        Instruction::fnmt => {},
        Instruction::getbupid => {},
    }
}

impl Instruction {
    /// The position of this instruction in the list of instructions.
    pub fn index(self) -> (r: usize)
        ensures
            r == instruction_index(self),
    {
        match self {
            Instruction::uo => 0,
            Instruction::bo => 1,
            Instruction::exp => 2,
            Instruction::mm => 3,
            Instruction::gt => 4,
            Instruction::st => 5,
            Instruction::jc => 6,
            Instruction::j => 7,
            Instruction::gosub => 8,
            Instruction::retsub => 9,
            Instruction::jt => 10,
            Instruction::gosubt => 11,
            Instruction::rnd => 12,
            Instruction::push => 13,
            Instruction::pop => 14,
            Instruction::call => 15,
            Instruction::ret => 16,
            Instruction::fmt => 17,
            Instruction::fnmt => 18,
            Instruction::getbupid => 19,
        }
    }

    /// The instruction at position `k`.
    pub fn from_index(k: usize) -> (r: Self)
        requires
            k < INSTRUCTION_COUNT,
        ensures
            r == instruction_at(k as int),
            instruction_index(r) == k,
    {
        if k == 0 {
            Instruction::uo
        } else if k == 1 {
            Instruction::bo
        } else if k == 2 {
            Instruction::exp
        } else if k == 3 {
            Instruction::mm
        } else if k == 4 {
            Instruction::gt
        } else if k == 5 {
            Instruction::st
        } else if k == 6 {
            Instruction::jc
        } else if k == 7 {
            Instruction::j
        } else if k == 8 {
            Instruction::gosub
        } else if k == 9 {
            Instruction::retsub
        } else if k == 10 {
            Instruction::jt
        } else if k == 11 {
            Instruction::gosubt
        } else if k == 12 {
            Instruction::rnd
        } else if k == 13 {
            Instruction::push
        } else if k == 14 {
            Instruction::pop
        } else if k == 15 {
            Instruction::call
        } else if k == 16 {
            Instruction::ret
        } else if k == 17 {
            Instruction::fmt
        } else if k == 18 {
            Instruction::fnmt
        } else {
            Instruction::getbupid
        }
    }
}

/// The number of commands.
pub const COMMAND_COUNT: usize = 97;

/// The position of `x` in the list of commands.
pub open spec fn command_index(x: Command) -> int {
    match x {
        Command::EXIT => 0,
        Command::SGET => 1,
        Command::SSET => 2,
        Command::WAIT => 3,
        Command::KEYWAIT => 4,
        Command::MSGINIT => 5,
        Command::MSGSET => 6,
        Command::MSGWAIT => 7,
        Command::MSGSIGNAL => 8,
        Command::MSGSYNC => 9,
        Command::MSGCLOSE => 10,
        Command::MSGFACE => 11,
        Command::MSGCHECK => 12,
        Command::MSGQUAKE => 13,
        Command::MSGHIDE => 14,
        Command::LOGSET => 15,
        Command::SELECT => 16,
        Command::WIPE => 17,
        Command::WIPEWAIT => 18,
        Command::BGMPLAY => 19,
        Command::BGMSTOP => 20,
        Command::BGMVOL => 21,
        Command::BGMWAIT => 22,
        Command::BGMSYNC => 23,
        Command::SEPLAY => 24,
        Command::SESTOP => 25,
        Command::SESTOPALL => 26,
        Command::SEVOL => 27,
        Command::SEPAN => 28,
        Command::SEWAIT => 29,
        Command::SEONCE => 30,
        Command::UNK9B => 31,
        Command::VOICEPLAY => 32,
        Command::VOICESTOP => 33,
        Command::VOICEWAIT => 34,
        Command::SYSSE => 35,
        Command::SAVEINFO => 36,
        Command::MOVIE => 37,
        Command::AUTOSAVE => 38,
        Command::EVBEGIN => 39,
        Command::EVEND => 40,
        Command::RESUMESET => 41,
        Command::RESUME => 42,
        Command::SYSCALL => 43,
        Command::TROPHY => 44,
        Command::UNLOCK => 45,
        Command::LAYERCLEAR => 46,
        Command::LAYERINIT => 47,
        Command::LAYERLOAD => 48,
        Command::LAYERUNLOAD => 49,
        Command::LAYERCTRL => 50,
        Command::LAYERWAIT => 51,
        Command::LAYERSWAP => 52,
        Command::LAYERSELECT => 53,
        Command::MOVIEWAIT => 54,
        Command::LAYERBACK => 55,
        Command::TRANSSET => 56,
        Command::TRANSWAIT => 57,
        Command::PAGEBACK => 58,
        Command::PLANESELECT => 59,
        Command::PLANECLEAR => 60,
        Command::MASKLOAD => 61,
        Command::MASKUNLOAD => 62,
        Command::ICOGET => 63,
        Command::STAGEINFO => 64,
        Command::ICOCHK => 65,
        Command::EMOTEWAIT => 66,
        Command::NAMED => 67,
        Command::BACKINIT => 68,
        Command::CHARCLEAR => 69,
        Command::CHARLOAD => 70,
        Command::CHARUNLOAD => 71,
        Command::CHARDISP => 72,
        Command::CHARCTRL => 73,
        Command::CHARWAIT => 74,
        Command::CHARMARK => 75,
        Command::CHARSYNC => 76,
        Command::CHATSET => 77,
        Command::SLEEP => 78,
        Command::VSET => 79,
        Command::TIPSGET => 80,
        Command::CHARSEL => 81,
        Command::OTSUGET => 82,
        Command::CHART => 83,
        Command::SNRSEL => 84,
        Command::KAKERA => 85,
        Command::KAKERAGET => 86,
        Command::QUIZ => 87,
        Command::FAKESELECT => 88,
        Command::CHARS => 89,
        Command::SHOWCHARS => 90,
        Command::NOTIFYSET => 91,
        Command::FEELICON => 92,
        Command::CHARSELECT => 93,
        Command::KGET => 94,
        Command::KSET => 95,
        Command::DEBUGOUT => 96,
    }
}

/// The command at position `k` of the list of commands.
pub open spec fn command_at(k: int) -> Command {
    if k == 0 {
        Command::EXIT
    } else if k == 1 {
        Command::SGET
    } else if k == 2 {
        Command::SSET
    } else if k == 3 {
        Command::WAIT
    } else if k == 4 {
        Command::KEYWAIT
    } else if k == 5 {
        Command::MSGINIT
    } else if k == 6 {
        Command::MSGSET
    } else if k == 7 {
        Command::MSGWAIT
    } else if k == 8 {
        Command::MSGSIGNAL
    } else if k == 9 {
        Command::MSGSYNC
    } else if k == 10 {
        Command::MSGCLOSE
    } else if k == 11 {
        Command::MSGFACE
    } else if k == 12 {
        Command::MSGCHECK
    } else if k == 13 {
        Command::MSGQUAKE
    } else if k == 14 {
        Command::MSGHIDE
    } else if k == 15 {
        Command::LOGSET
    } else if k == 16 {
        Command::SELECT
    } else if k == 17 {
        Command::WIPE
    } else if k == 18 {
        Command::WIPEWAIT
    } else if k == 19 {
        Command::BGMPLAY
    } else if k == 20 {
        Command::BGMSTOP
    } else if k == 21 {
        Command::BGMVOL
    } else if k == 22 {
        Command::BGMWAIT
    } else if k == 23 {
        Command::BGMSYNC
    } else if k == 24 {
        Command::SEPLAY
    } else if k == 25 {
        Command::SESTOP
    } else if k == 26 {
        Command::SESTOPALL
    } else if k == 27 {
        Command::SEVOL
    } else if k == 28 {
        Command::SEPAN
    } else if k == 29 {
        Command::SEWAIT
    } else if k == 30 {
        Command::SEONCE
    } else if k == 31 {
        Command::UNK9B
    } else if k == 32 {
        Command::VOICEPLAY
    } else if k == 33 {
        Command::VOICESTOP
    } else if k == 34 {
        Command::VOICEWAIT
    } else if k == 35 {
        Command::SYSSE
    } else if k == 36 {
        Command::SAVEINFO
    } else if k == 37 {
        Command::MOVIE
    } else if k == 38 {
        Command::AUTOSAVE
    } else if k == 39 {
        Command::EVBEGIN
    } else if k == 40 {
        Command::EVEND
    } else if k == 41 {
        Command::RESUMESET
    } else if k == 42 {
        Command::RESUME
    } else if k == 43 {
        Command::SYSCALL
    } else if k == 44 {
        Command::TROPHY
    } else if k == 45 {
        Command::UNLOCK
    } else if k == 46 {
        Command::LAYERCLEAR
    } else if k == 47 {
        Command::LAYERINIT
    } else if k == 48 {
        Command::LAYERLOAD
    } else if k == 49 {
        Command::LAYERUNLOAD
    } else if k == 50 {
        Command::LAYERCTRL
    } else if k == 51 {
        Command::LAYERWAIT
    } else if k == 52 {
        Command::LAYERSWAP
    } else if k == 53 {
        Command::LAYERSELECT
    } else if k == 54 {
        Command::MOVIEWAIT
    } else if k == 55 {
        Command::LAYERBACK
    } else if k == 56 {
        Command::TRANSSET
    } else if k == 57 {
        Command::TRANSWAIT
    } else if k == 58 {
        Command::PAGEBACK
    } else if k == 59 {
        Command::PLANESELECT
    } else if k == 60 {
        Command::PLANECLEAR
    } else if k == 61 {
        Command::MASKLOAD
    } else if k == 62 {
        Command::MASKUNLOAD
    } else if k == 63 {
        Command::ICOGET
    } else if k == 64 {
        Command::STAGEINFO
    } else if k == 65 {
        Command::ICOCHK
    } else if k == 66 {
        Command::EMOTEWAIT
    } else if k == 67 {
        Command::NAMED
    } else if k == 68 {
        Command::BACKINIT
    } else if k == 69 {
        Command::CHARCLEAR
    } else if k == 70 {
        Command::CHARLOAD
    } else if k == 71 {
        Command::CHARUNLOAD
    } else if k == 72 {
        Command::CHARDISP
    } else if k == 73 {
        Command::CHARCTRL
    } else if k == 74 {
        Command::CHARWAIT
    } else if k == 75 {
        Command::CHARMARK
    } else if k == 76 {
        Command::CHARSYNC
    } else if k == 77 {
        Command::CHATSET
    } else if k == 78 {
        Command::SLEEP
    } else if k == 79 {
        Command::VSET
    } else if k == 80 {
        Command::TIPSGET
    } else if k == 81 {
        Command::CHARSEL
    } else if k == 82 {
        Command::OTSUGET
    } else if k == 83 {
        Command::CHART
    } else if k == 84 {
        Command::SNRSEL
    } else if k == 85 {
        Command::KAKERA
    } else if k == 86 {
        Command::KAKERAGET
    } else if k == 87 {
        Command::QUIZ
    } else if k == 88 {
        Command::FAKESELECT
    } else if k == 89 {
        Command::CHARS
    } else if k == 90 {
        Command::SHOWCHARS
    } else if k == 91 {
        Command::NOTIFYSET
    } else if k == 92 {
        Command::FEELICON
    } else if k == 93 {
        Command::CHARSELECT
    } else if k == 94 {
        Command::KGET
    } else if k == 95 {
        Command::KSET
    } else {
        Command::DEBUGOUT
    }
}

/// The largest number of elements an command has in any version.
pub open spec fn command_max(x: Command) -> int {
    match x {
        Command::EXIT => 2,
        Command::SGET => 2,
        Command::SSET => 2,
        Command::WAIT => 2,
        Command::KEYWAIT => 1,
        Command::MSGINIT => 3,
        Command::MSGSET => 5,
        Command::MSGWAIT => 1,
        Command::MSGSIGNAL => 0,
        Command::MSGSYNC => 2,
        Command::MSGCLOSE => 1,
        Command::MSGFACE => 4,
        Command::MSGCHECK => 1,
        Command::MSGQUAKE => 1,
        Command::MSGHIDE => 0,
        Command::LOGSET => 4,
        Command::SELECT => 6,
        Command::WIPE => 4,
        Command::WIPEWAIT => 0,
        Command::BGMPLAY => 4,
        Command::BGMSTOP => 1,
        Command::BGMVOL => 2,
        Command::BGMWAIT => 1,
        Command::BGMSYNC => 1,
        Command::SEPLAY => 7,
        Command::SESTOP => 2,
        Command::SESTOPALL => 1,
        Command::SEVOL => 3,
        Command::SEPAN => 3,
        Command::SEWAIT => 2,
        Command::SEONCE => 5,
        Command::UNK9B => 2,
        Command::VOICEPLAY => 3,
        Command::VOICESTOP => 0,
        Command::VOICEWAIT => 1,
        Command::SYSSE => 2,
        Command::SAVEINFO => 2,
        Command::MOVIE => 1,
        Command::AUTOSAVE => 0,
        Command::EVBEGIN => 1,
        Command::EVEND => 0,
        Command::RESUMESET => 0,
        Command::RESUME => 0,
        Command::SYSCALL => 2,
        Command::TROPHY => 1,
        Command::UNLOCK => 2,
        Command::LAYERCLEAR => 0,
        Command::LAYERINIT => 1,
        Command::LAYERLOAD => 4,
        Command::LAYERUNLOAD => 2,
        Command::LAYERCTRL => 3,
        Command::LAYERWAIT => 2,
        Command::LAYERSWAP => 2,
        Command::LAYERSELECT => 2,
        Command::MOVIEWAIT => 2,
        Command::LAYERBACK => 1,
        Command::TRANSSET => 4,
        Command::TRANSWAIT => 1,
        Command::PAGEBACK => 0,
        Command::PLANESELECT => 1,
        Command::PLANECLEAR => 0,
        Command::MASKLOAD => 3,
        Command::MASKUNLOAD => 0,
        Command::ICOGET => 1,
        Command::STAGEINFO => 2,
        Command::ICOCHK => 1,
        Command::EMOTEWAIT => 1,
        Command::NAMED => 2,
        Command::BACKINIT => 0,
        Command::CHARCLEAR => 0,
        Command::CHARLOAD => 3,
        Command::CHARUNLOAD => 1,
        Command::CHARDISP => 2,
        Command::CHARCTRL => 3,
        Command::CHARWAIT => 2,
        Command::CHARMARK => 3,
        Command::CHARSYNC => 0,
        Command::CHATSET => 1,
        Command::SLEEP => 5,
        Command::VSET => 2,
        Command::TIPSGET => 1,
        Command::CHARSEL => 4,
        Command::OTSUGET => 1,
        Command::CHART => 2,
        Command::SNRSEL => 1,
        Command::KAKERA => 0,
        Command::KAKERAGET => 2,
        Command::QUIZ => 4,
        Command::FAKESELECT => 0,
        Command::CHARS => 2,
        Command::SHOWCHARS => 0,
        Command::NOTIFYSET => 1,
        Command::FEELICON => 5,
        Command::CHARSELECT => 3,
        Command::KGET => 2,
        Command::KSET => 2,
        Command::DEBUGOUT => 2,
    }
}

/// The largest number of elements the first `k` commands have together.
pub open spec fn command_budget(k: int) -> int
    decreases k,
{
    if k <= 0 {
        0
    } else {
        command_budget(k - 1) + command_max(command_at(k - 1))
    }
}

/// Positions and commands correspond one to one.
pub proof fn lemma_command_index(x: Command)
    ensures
        0 <= command_index(x) < COMMAND_COUNT,
        command_at(command_index(x)) == x,
{
    match x {
        Command::EXIT => {},
        Command::SGET => {},
        Command::SSET => {},
        Command::WAIT => {},
        Command::KEYWAIT => {},
        Command::MSGINIT => {},
        Command::MSGSET => {},
        Command::MSGWAIT => {},
        Command::MSGSIGNAL => {},
        Command::MSGSYNC => {},
        Command::MSGCLOSE => {},
        Command::MSGFACE => {},
        Command::MSGCHECK => {},
        Command::MSGQUAKE => {},
        Command::MSGHIDE => {},
        Command::LOGSET => {},
        Command::SELECT => {},
        Command::WIPE => {},
        Command::WIPEWAIT => {},
        Command::BGMPLAY => {},
        Command::BGMSTOP => {},
        Command::BGMVOL => {},
        Command::BGMWAIT => {},
        Command::BGMSYNC => {},
        Command::SEPLAY => {},
        Command::SESTOP => {},
        Command::SESTOPALL => {},
        Command::SEVOL => {},
        Command::SEPAN => {},
        Command::SEWAIT => {},
        Command::SEONCE => {},
        Command::UNK9B => {},
        Command::VOICEPLAY => {},
        Command::VOICESTOP => {},
        Command::VOICEWAIT => {},
        Command::SYSSE => {},
        Command::SAVEINFO => {},
        Command::MOVIE => {},
        Command::AUTOSAVE => {},
        Command::EVBEGIN => {},
        Command::EVEND => {},
        Command::RESUMESET => {},
        Command::RESUME => {},
        Command::SYSCALL => {},
        Command::TROPHY => {},
        Command::UNLOCK => {},
        Command::LAYERCLEAR => {},
        Command::LAYERINIT => {},
        Command::LAYERLOAD => {},
        Command::LAYERUNLOAD => {},
        Command::LAYERCTRL => {},
        Command::LAYERWAIT => {},
        Command::LAYERSWAP => {},
        Command::LAYERSELECT => {},
        Command::MOVIEWAIT => {},
        Command::LAYERBACK => {},
        Command::TRANSSET => {},
        Command::TRANSWAIT => {},
        Command::PAGEBACK => {},
        Command::PLANESELECT => {},
        Command::PLANECLEAR => {},
        Command::MASKLOAD => {},
        Command::MASKUNLOAD => {},
        Command::ICOGET => {},
        Command::STAGEINFO => {},
        Command::ICOCHK => {},
        Command::EMOTEWAIT => {},
        Command::NAMED => {},
        Command::BACKINIT => {},
        Command::CHARCLEAR => {},
        Command::CHARLOAD => {},
        Command::CHARUNLOAD => {},
        Command::CHARDISP => {},
        Command::CHARCTRL => {},
        Command::CHARWAIT => {},
        Command::CHARMARK => {},
        Command::CHARSYNC => {},
        Command::CHATSET => {},
        Command::SLEEP => {},
        Command::VSET => {},
        Command::TIPSGET => {},
        Command::CHARSEL => {},
        Command::OTSUGET => {},
        Command::CHART => {},
        Command::SNRSEL => {},
        Command::KAKERA => {},
        Command::KAKERAGET => {},
        Command::QUIZ => {},
        Command::FAKESELECT => {},
        Command::CHARS => {},
        Command::SHOWCHARS => {},
        Command::NOTIFYSET => {},
        Command::FEELICON => {},
        Command::CHARSELECT => {},
        Command::KGET => {},
        Command::KSET => {},
        Command::DEBUGOUT => {},
    }
}

impl Command {
    /// The position of this command in the list of commands.
    pub fn index(self) -> (r: usize)
        ensures
            r == command_index(self),
    {
        match self {
            Command::EXIT => 0,
            Command::SGET => 1,
            Command::SSET => 2,
            Command::WAIT => 3,
            Command::KEYWAIT => 4,
            Command::MSGINIT => 5,
            Command::MSGSET => 6,
            Command::MSGWAIT => 7,
            Command::MSGSIGNAL => 8,
            Command::MSGSYNC => 9,
            Command::MSGCLOSE => 10,
            Command::MSGFACE => 11,
            Command::MSGCHECK => 12,
            Command::MSGQUAKE => 13,
            Command::MSGHIDE => 14,
            Command::LOGSET => 15,
            Command::SELECT => 16,
            Command::WIPE => 17,
            Command::WIPEWAIT => 18,
            Command::BGMPLAY => 19,
            Command::BGMSTOP => 20,
            Command::BGMVOL => 21,
            Command::BGMWAIT => 22,
            Command::BGMSYNC => 23,
            Command::SEPLAY => 24,
            Command::SESTOP => 25,
            Command::SESTOPALL => 26,
            Command::SEVOL => 27,
            Command::SEPAN => 28,
            Command::SEWAIT => 29,
            Command::SEONCE => 30,
            Command::UNK9B => 31,
            Command::VOICEPLAY => 32,
            Command::VOICESTOP => 33,
            Command::VOICEWAIT => 34,
            Command::SYSSE => 35,
            Command::SAVEINFO => 36,
            Command::MOVIE => 37,
            Command::AUTOSAVE => 38,
            Command::EVBEGIN => 39,
            Command::EVEND => 40,
            Command::RESUMESET => 41,
            Command::RESUME => 42,
            Command::SYSCALL => 43,
            Command::TROPHY => 44,
            Command::UNLOCK => 45,
            Command::LAYERCLEAR => 46,
            Command::LAYERINIT => 47,
            Command::LAYERLOAD => 48,
            Command::LAYERUNLOAD => 49,
            Command::LAYERCTRL => 50,
            Command::LAYERWAIT => 51,
            Command::LAYERSWAP => 52,
            Command::LAYERSELECT => 53,
            Command::MOVIEWAIT => 54,
            Command::LAYERBACK => 55,
            Command::TRANSSET => 56,
            Command::TRANSWAIT => 57,
            Command::PAGEBACK => 58,
            Command::PLANESELECT => 59,
            Command::PLANECLEAR => 60,
            Command::MASKLOAD => 61,
            Command::MASKUNLOAD => 62,
            Command::ICOGET => 63,
            Command::STAGEINFO => 64,
            Command::ICOCHK => 65,
            Command::EMOTEWAIT => 66,
            Command::NAMED => 67,
            Command::BACKINIT => 68,
            Command::CHARCLEAR => 69,
            Command::CHARLOAD => 70,
            Command::CHARUNLOAD => 71,
            Command::CHARDISP => 72,
            Command::CHARCTRL => 73,
            Command::CHARWAIT => 74,
            Command::CHARMARK => 75,
            Command::CHARSYNC => 76,
            Command::CHATSET => 77,
            Command::SLEEP => 78,
            Command::VSET => 79,
            Command::TIPSGET => 80,
            Command::CHARSEL => 81,
            Command::OTSUGET => 82,
            Command::CHART => 83,
            Command::SNRSEL => 84,
            Command::KAKERA => 85,
            Command::KAKERAGET => 86,
            Command::QUIZ => 87,
            Command::FAKESELECT => 88,
            Command::CHARS => 89,
            Command::SHOWCHARS => 90,
            Command::NOTIFYSET => 91,
            Command::FEELICON => 92,
            Command::CHARSELECT => 93,
            Command::KGET => 94,
            Command::KSET => 95,
            Command::DEBUGOUT => 96,
        }
    }

    /// The command at position `k`.
    pub fn from_index(k: usize) -> (r: Self)
        requires
            k < COMMAND_COUNT,
        ensures
            r == command_at(k as int),
            command_index(r) == k,
    {
        if k == 0 {
            Command::EXIT
        } else if k == 1 {
            Command::SGET
        } else if k == 2 {
            Command::SSET
        } else if k == 3 {
            Command::WAIT
        } else if k == 4 {
            Command::KEYWAIT
        } else if k == 5 {
            Command::MSGINIT
        } else if k == 6 {
            Command::MSGSET
        } else if k == 7 {
            Command::MSGWAIT
        } else if k == 8 {
            Command::MSGSIGNAL
        } else if k == 9 {
            Command::MSGSYNC
        } else if k == 10 {
            Command::MSGCLOSE
        } else if k == 11 {
            Command::MSGFACE
        } else if k == 12 {
            Command::MSGCHECK
        } else if k == 13 {
            Command::MSGQUAKE
        } else if k == 14 {
            Command::MSGHIDE
        } else if k == 15 {
            Command::LOGSET
        } else if k == 16 {
            Command::SELECT
        } else if k == 17 {
            Command::WIPE
        } else if k == 18 {
            Command::WIPEWAIT
        } else if k == 19 {
            Command::BGMPLAY
        } else if k == 20 {
            Command::BGMSTOP
        } else if k == 21 {
            Command::BGMVOL
        } else if k == 22 {
            Command::BGMWAIT
        } else if k == 23 {
            Command::BGMSYNC
        } else if k == 24 {
            Command::SEPLAY
        } else if k == 25 {
            Command::SESTOP
        } else if k == 26 {
            Command::SESTOPALL
        } else if k == 27 {
            Command::SEVOL
        } else if k == 28 {
            Command::SEPAN
        } else if k == 29 {
            Command::SEWAIT
        } else if k == 30 {
            Command::SEONCE
        } else if k == 31 {
            Command::UNK9B
        } else if k == 32 {
            Command::VOICEPLAY
        } else if k == 33 {
            Command::VOICESTOP
        } else if k == 34 {
            Command::VOICEWAIT
        } else if k == 35 {
            Command::SYSSE
        } else if k == 36 {
            Command::SAVEINFO
        } else if k == 37 {
            Command::MOVIE
        } else if k == 38 {
            Command::AUTOSAVE
        } else if k == 39 {
            Command::EVBEGIN
        } else if k == 40 {
            Command::EVEND
        } else if k == 41 {
            Command::RESUMESET
        } else if k == 42 {
            Command::RESUME
        } else if k == 43 {
            Command::SYSCALL
        } else if k == 44 {
            Command::TROPHY
        } else if k == 45 {
            Command::UNLOCK
        } else if k == 46 {
            Command::LAYERCLEAR
        } else if k == 47 {
            Command::LAYERINIT
        } else if k == 48 {
            Command::LAYERLOAD
        } else if k == 49 {
            Command::LAYERUNLOAD
        } else if k == 50 {
            Command::LAYERCTRL
        } else if k == 51 {
            Command::LAYERWAIT
        } else if k == 52 {
            Command::LAYERSWAP
        } else if k == 53 {
            Command::LAYERSELECT
        } else if k == 54 {
            Command::MOVIEWAIT
        } else if k == 55 {
            Command::LAYERBACK
        } else if k == 56 {
            Command::TRANSSET
        } else if k == 57 {
            Command::TRANSWAIT
        } else if k == 58 {
            Command::PAGEBACK
        } else if k == 59 {
            Command::PLANESELECT
        } else if k == 60 {
            Command::PLANECLEAR
        } else if k == 61 {
            Command::MASKLOAD
        } else if k == 62 {
            Command::MASKUNLOAD
        } else if k == 63 {
            Command::ICOGET
        } else if k == 64 {
            Command::STAGEINFO
        } else if k == 65 {
            Command::ICOCHK
        } else if k == 66 {
            Command::EMOTEWAIT
        } else if k == 67 {
            Command::NAMED
        } else if k == 68 {
            Command::BACKINIT
        } else if k == 69 {
            Command::CHARCLEAR
        } else if k == 70 {
            Command::CHARLOAD
        } else if k == 71 {
            Command::CHARUNLOAD
        } else if k == 72 {
            Command::CHARDISP
        } else if k == 73 {
            Command::CHARCTRL
        } else if k == 74 {
            Command::CHARWAIT
        } else if k == 75 {
            Command::CHARMARK
        } else if k == 76 {
            Command::CHARSYNC
        } else if k == 77 {
            Command::CHATSET
        } else if k == 78 {
            Command::SLEEP
        } else if k == 79 {
            Command::VSET
        } else if k == 80 {
            Command::TIPSGET
        } else if k == 81 {
            Command::CHARSEL
        } else if k == 82 {
            Command::OTSUGET
        } else if k == 83 {
            Command::CHART
        } else if k == 84 {
            Command::SNRSEL
        } else if k == 85 {
            Command::KAKERA
        } else if k == 86 {
            Command::KAKERAGET
        } else if k == 87 {
            Command::QUIZ
        } else if k == 88 {
            Command::FAKESELECT
        } else if k == 89 {
            Command::CHARS
        } else if k == 90 {
            Command::SHOWCHARS
        } else if k == 91 {
            Command::NOTIFYSET
        } else if k == 92 {
            Command::FEELICON
        } else if k == 93 {
            Command::CHARSELECT
        } else if k == 94 {
            Command::KGET
        } else if k == 95 {
            Command::KSET
        } else {
            Command::DEBUGOUT
        }
    }
}

/// Whether the slice `s`, if any, lies inside a list of `len` elements.
pub open spec fn slice_fits(s: Option<OperationSchemaSlice>, len: int) -> bool {
    s matches Some(x) ==> 1 <= x.start && x.start - 1 + x.count <= len
}

/// The elements of `all` that the slice `s` covers, if there is a slice.
pub open spec fn slice_elements(s: Option<OperationSchemaSlice>, all: Seq<OperationElement>) -> Option<
    Seq<OperationElement>,
> {
    match s {
        Some(x) => Some(all.subrange(x.start - 1, x.start - 1 + x.count)),
        None => None,
    }
}

/// The layout of every operation of one version: the operation each opcode names, and the
/// elements of each instruction and command that the version has.
pub struct EngineSchema {
    number_style: NumberStyle,
    opcode_map: Vec<Option<Opcode>>,
    instructions: Vec<Option<OperationSchemaSlice>>,
    commands: Vec<Option<OperationSchemaSlice>>,
    elements: Vec<OperationElement>,
}

impl EngineSchema {
    /// One entry per opcode, instruction and command, each slice inside the element list.
    #[verifier::type_invariant]
    spec fn wf(self) -> bool {
        &&& self.opcode_map@.len() == 256
        &&& self.instructions@.len() == INSTRUCTION_COUNT
        &&& self.commands@.len() == COMMAND_COUNT
        &&& self.elements@.len() <= 256
        &&& forall|k: int| 0 <= k < INSTRUCTION_COUNT ==> slice_fits(#[trigger] self.instructions@[k], self.elements@.len() as int)
        &&& forall|k: int| 0 <= k < COMMAND_COUNT ==> slice_fits(#[trigger] self.commands@[k], self.elements@.len() as int)
    }

    /// How numbers are encoded.
    pub closed spec fn style(&self) -> NumberStyle {
        self.number_style
    }

    /// The operation each opcode names.
    pub closed spec fn opcodes(&self) -> Seq<Option<Opcode>> {
        self.opcode_map@
    }

    /// The elements of `i`, where the version has it.
    pub closed spec fn instruction_elements(&self, i: Instruction) -> Option<Seq<OperationElement>> {
        slice_elements(self.instructions@[instruction_index(i)], self.elements@)
    }

    /// The elements of `c`, where the version has it.
    pub closed spec fn command_elements(&self, c: Command) -> Option<Seq<OperationElement>> {
        slice_elements(self.commands@[command_index(c)], self.elements@)
    }

    /// The elements of the operation `op`, where the version has it.
    pub open spec fn operation_elements(&self, op: Opcode) -> Option<Seq<OperationElement>> {
        match op {
            Opcode::Instruction(i) => self.instruction_elements(i),
            Opcode::Command(c) => self.command_elements(c),
        }
    }

    /// A schema from its parts; every slice has to lie inside the element list, which holds
    /// at most 256 elements.
    pub(crate) fn new(
        number_style: NumberStyle,
        opcode_map: Vec<Option<Opcode>>,
        instructions: Vec<Option<OperationSchemaSlice>>,
        commands: Vec<Option<OperationSchemaSlice>>,
        elements: Vec<OperationElement>,
    ) -> (r: Self)
        requires
            opcode_map@.len() == 256,
            instructions@.len() == INSTRUCTION_COUNT,
            commands@.len() == COMMAND_COUNT,
            elements@.len() <= 256,
            forall|k: int| 0 <= k < INSTRUCTION_COUNT ==> slice_fits(#[trigger] instructions@[k], elements@.len() as int),
            forall|k: int| 0 <= k < COMMAND_COUNT ==> slice_fits(#[trigger] commands@[k], elements@.len() as int),
        ensures
            r.style() == number_style,
            r.opcodes() == opcode_map@,
            forall|i: Instruction| #[trigger] r.instruction_elements(i) == slice_elements(
                instructions@[instruction_index(i)],
                elements@,
            ),
            forall|c: Command| #[trigger] r.command_elements(c) == slice_elements(commands@[command_index(c)], elements@),
    {
        EngineSchema { number_style, opcode_map, instructions, commands, elements }
    }

    pub fn number_style(&self) -> (r: NumberStyle)
        ensures
            r == self.style(),
    {
        self.number_style
    }

    /// The operation that `opcode` names.
    pub fn lookup_opcode(&self, opcode: u8) -> (r: Option<Opcode>)
        ensures
            r == self.opcodes()[opcode as int],
    {
        proof {
            use_type_invariant(self);
        }
        self.opcode_map[opcode as usize]
    }

    /// The elements of the slice `slot`, if any.
    fn slice_of(&self, slot: Option<OperationSchemaSlice>) -> (r: Option<OperationSchema<'_>>)
        requires
            slice_fits(slot, self.elements@.len() as int),
            self.elements@.len() <= 256,
        ensures
            match slice_elements(slot, self.elements@) {
                Some(e) => r matches Some(s) && s.elements@ == e,
                None => r is None,
            },
            r matches Some(s) ==> s.elements@.len() <= 256,
    {
        match slot {
            Some(schema) => Some(schema.elements(self.elements.as_slice())),
            None => None,
        }
    }

    /// The elements of the instruction `instruction`, where the version has it.
    pub fn lookup_instruction(&self, instruction: Instruction) -> (r: Option<OperationSchema<'_>>)
        ensures
            match self.instruction_elements(instruction) {
                Some(e) => r matches Some(s) && s.elements@ == e,
                None => r is None,
            },
            r matches Some(s) ==> s.elements@.len() <= 256,
    {
        proof {
            use_type_invariant(self);
            lemma_instruction_index(instruction);
        }
        self.slice_of(self.instructions[instruction.index()])
    }

    /// The elements of the command `command`, where the version has it.
    pub fn lookup_command(&self, command: Command) -> (r: Option<OperationSchema<'_>>)
        ensures
            match self.command_elements(command) {
                Some(e) => r matches Some(s) && s.elements@ == e,
                None => r is None,
            },
            r matches Some(s) ==> s.elements@.len() <= 256,
    {
        proof {
            use_type_invariant(self);
            lemma_command_index(command);
        }
        self.slice_of(self.commands[command.index()])
    }

    /// The elements of the operation `operation`, where the version has it.
    pub fn lookup_operation(&self, operation: Opcode) -> (r: Option<OperationSchema<'_>>)
        ensures
            match self.operation_elements(operation) {
                Some(e) => r matches Some(s) && s.elements@ == e,
                None => r is None,
            },
            r matches Some(s) ==> s.elements@.len() <= 256,
    {
        match operation {
            Opcode::Instruction(instruction) => self.lookup_instruction(instruction),
            Opcode::Command(command) => self.lookup_command(command),
        }
    }

    /// The operation each opcode names, by opcode.
    pub fn opcode_map(&self) -> (r: Vec<Option<Opcode>>)
        ensures
            r@ == self.opcodes(),
    {
        proof {
            use_type_invariant(self);
        }
        let mut r: Vec<Option<Opcode>> = Vec::new();
        let mut k: usize = 0;
        while k < 256
            invariant
                k <= 256,
                self.opcode_map@.len() == 256,
                r@ == self.opcode_map@.take(k as int),
            decreases 256 - k,
        {
            r.push(self.opcode_map[k]);
            proof {
                assert(self.opcode_map@.take(k + 1) =~= self.opcode_map@.take(k as int).push(self.opcode_map@[k as int]));
            }
            k = k + 1;
        }
        assert(self.opcode_map@.take(256) =~= self.opcode_map@);
        r
    }

    /// The elements of each instruction, by position in the list of instructions.
    pub fn instruction_map(&self) -> (r: Vec<Option<OperationSchema<'_>>>)
        ensures
            r@.len() == INSTRUCTION_COUNT,
            forall|k: int|
                0 <= k < INSTRUCTION_COUNT ==> match self.instruction_elements(instruction_at(k)) {
                    Some(e) => #[trigger] r@[k] matches Some(s) && s.elements@ == e,
                    None => r@[k] is None,
                },
    {
        let mut r: Vec<Option<OperationSchema<'_>>> = Vec::new();
        let mut k: usize = 0;
        while k < INSTRUCTION_COUNT
            invariant
                k <= INSTRUCTION_COUNT,
                r@.len() == k,
                forall|j: int|
                    0 <= j < k ==> match self.instruction_elements(instruction_at(j)) {
                        Some(e) => #[trigger] r@[j] matches Some(s) && s.elements@ == e,
                        None => r@[j] is None,
                    },
            decreases INSTRUCTION_COUNT - k,
        {
            let instruction = Instruction::from_index(k);
            r.push(self.lookup_instruction(instruction));
            k = k + 1;
        }
        r
    }

    /// The elements of each command, by position in the list of commands.
    pub fn command_map(&self) -> (r: Vec<Option<OperationSchema<'_>>>)
        ensures
            r@.len() == COMMAND_COUNT,
            forall|k: int|
                0 <= k < COMMAND_COUNT ==> match self.command_elements(command_at(k)) {
                    Some(e) => #[trigger] r@[k] matches Some(s) && s.elements@ == e,
                    None => r@[k] is None,
                },
    {
        let mut r: Vec<Option<OperationSchema<'_>>> = Vec::new();
        let mut k: usize = 0;
        while k < COMMAND_COUNT
            invariant
                k <= COMMAND_COUNT,
                r@.len() == k,
                forall|j: int|
                    0 <= j < k ==> match self.command_elements(command_at(j)) {
                        Some(e) => #[trigger] r@[j] matches Some(s) && s.elements@ == e,
                        None => r@[j] is None,
                    },
            decreases COMMAND_COUNT - k,
        {
            let command = Command::from_index(k);
            r.push(self.lookup_command(command));
            k = k + 1;
        }
        r
    }
}

} // verus!
