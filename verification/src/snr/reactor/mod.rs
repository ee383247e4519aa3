//! Where the strings of a script come from, and the passes that walk over its operations.
use vstd::prelude::*;

pub mod dump_bin;
pub mod location_painter;
pub mod offset_validator;
pub mod rewrite;
pub mod trace;

use crate::snr::operation::arena::{
    element_at, element_available, element_values, elements_readable, position_fits, position_start, OperationArena,
};
use crate::snr::operation::parse::{lemma_read_elements_len, lemma_read_write_elements_roundtrip, read_elements};
use crate::snr::operation::repr::{ElementValue, OperationElementRepr};
use crate::snr::operation::schema::{Command, EngineSchema, Opcode, OperationSchema};
use crate::snr::reader::Reader;
use crate::versions::{AnyStringKind, StringArrayKind, StringKind};

verus! {

/// The source of a single string or of one string of a string array.
#[derive(Debug, Copy, Clone, PartialEq, Eq, Structural)]
pub enum AnyStringSource {
    Singular(StringSource),
    Array(StringArraySource, u32),
}

/// The operation a single string belongs to; a message carries its message id.
#[derive(Debug, Copy, Clone, PartialEq, Eq, Structural)]
pub enum StringSource {
    Saveinfo,
    Select,
    Msgset(u32),
    Dbgout,
    Logset,
    Voiceplay,
    Chatset,
    Named,
    Stageinfo,
}

/// The operation a string array belongs to.
#[derive(Debug, Copy, Clone, PartialEq, Eq, Structural)]
pub enum StringArraySource {
    Select,
}

/// The kind of a string source.
pub open spec fn source_kind(s: StringSource) -> StringKind {
    match s {
        StringSource::Saveinfo => StringKind::Saveinfo,
        StringSource::Select => StringKind::Select,
        StringSource::Msgset(_) => StringKind::Msgset,
        StringSource::Dbgout => StringKind::Dbgout,
        StringSource::Logset => StringKind::Logset,
        StringSource::Voiceplay => StringKind::Voiceplay,
        StringSource::Chatset => StringKind::Chatset,
        StringSource::Named => StringKind::Named,
        StringSource::Stageinfo => StringKind::Stageinfo,
    }
}

/// The index that distinguishes strings of one kind: the message id of a message, else 0.
pub open spec fn source_subindex(s: StringSource) -> u32 {
    match s {
        StringSource::Msgset(i) => i,
        _ => 0,
    }
}

/// The string source of a kind with a subindex.
pub open spec fn source_from_kind(kind: StringKind, subindex: u32) -> StringSource {
    match kind {
        StringKind::Saveinfo => StringSource::Saveinfo,
        StringKind::Select => StringSource::Select,
        StringKind::Msgset => StringSource::Msgset(subindex),
        StringKind::Dbgout => StringSource::Dbgout,
        StringKind::Logset => StringSource::Logset,
        StringKind::Voiceplay => StringSource::Voiceplay,
        StringKind::Chatset => StringSource::Chatset,
        StringKind::Named => StringSource::Named,
        StringKind::Stageinfo => StringSource::Stageinfo,
    }
}

/// Whether strings of a source are shown in the message box: messages and log entries.
pub open spec fn source_is_for_messagebox(s: StringSource) -> bool {
    s is Msgset || s is Logset
}

/// Whether strings of a source may hold message commands: messages and log entries.
pub open spec fn source_contains_commands(s: StringSource) -> bool {
    s is Msgset || s is Logset
}

/// The kind of any string source.
pub open spec fn any_source_kind(s: AnyStringSource) -> AnyStringKind {
    match s {
        AnyStringSource::Singular(s) => AnyStringKind::Singular(source_kind(s)),
        AnyStringSource::Array(s, _) => AnyStringKind::Array(StringArrayKind::SelectChoice),
    }
}

/// The subindex of any string source: that of a single string, or the index in the array.
pub open spec fn any_source_subindex(s: AnyStringSource) -> u32 {
    match s {
        AnyStringSource::Singular(s) => source_subindex(s),
        AnyStringSource::Array(_, i) => i,
    }
}

/// Whether strings of any source are shown in the message box.
pub open spec fn any_source_is_for_messagebox(s: AnyStringSource) -> bool {
    match s {
        AnyStringSource::Singular(s) => source_is_for_messagebox(s),
        AnyStringSource::Array(_, _) => false,
    }
}

/// Whether strings of any source may hold message commands; choices of a selection do.
pub open spec fn any_source_contains_commands(s: AnyStringSource) -> bool {
    match s {
        AnyStringSource::Singular(s) => source_contains_commands(s),
        AnyStringSource::Array(_, _) => true,
    }
}

/// The string source of operation `cmd`, given the first element of the operation.
pub open spec fn command_string_source(cmd: Command, first: ElementValue) -> Option<StringSource> {
    match cmd {
        Command::SAVEINFO => Some(StringSource::Saveinfo),
        Command::SELECT => Some(StringSource::Select),
        Command::MSGSET => match first {
            ElementValue::U32(v) => Some(StringSource::Msgset(v & 0xffffff)),
            _ => None,
        },
        Command::DEBUGOUT => Some(StringSource::Dbgout),
        Command::LOGSET => Some(StringSource::Logset),
        Command::VOICEPLAY => Some(StringSource::Voiceplay),
        Command::CHATSET => Some(StringSource::Chatset),
        Command::NAMED => Some(StringSource::Named),
        Command::STAGEINFO => Some(StringSource::Stageinfo),
        _ => None,
    }
}

impl AnyStringSource {
    pub fn kind(&self) -> (r: AnyStringKind)
        ensures
            r == any_source_kind(*self),
    {
        match self {
            AnyStringSource::Singular(s) => AnyStringKind::Singular(s.kind()),
            AnyStringSource::Array(s, _) => AnyStringKind::Array(s.kind()),
        }
    }

    pub fn subindex(&self) -> (r: u32)
        ensures
            r == any_source_subindex(*self),
    {
        match self {
            AnyStringSource::Singular(s) => s.subindex(),
            AnyStringSource::Array(_, i) => *i,
        }
    }

    pub fn is_for_messagebox(&self) -> (r: bool)
        ensures
            r == any_source_is_for_messagebox(*self),
    {
        match self {
            AnyStringSource::Singular(s) => s.is_for_messagebox(),
            AnyStringSource::Array(s, _) => s.is_for_messagebox(),
        }
    }

    pub fn contains_commands(&self) -> (r: bool)
        ensures
            r == any_source_contains_commands(*self),
    {
        match self {
            AnyStringSource::Singular(s) => s.contains_commands(),
            AnyStringSource::Array(s, _) => s.contains_commands(),
        }
    }
}

impl StringSource {
    /// The string source of an operation: `None` for instructions and for commands
    /// without a string. A message takes the lower 24 bits of its first element, which
    /// must be a 32-bit value.
    pub fn for_operation(opcode: Opcode, op_schema: &OperationSchema, arena: &OperationArena) -> (r:
        Option<Self>)
        requires
            opcode == Opcode::Command(Command::MSGSET) ==> {
                &&& op_schema.elements@.len() > 0
                &&& position_fits(arena@, position_start())
                &&& element_available(arena@, position_start(), op_schema.elements@[0])
                &&& element_at(arena@, position_start(), op_schema.elements@[0]).0 is U32
            },
        ensures
            match opcode {
                Opcode::Instruction(_) => r is None,
                Opcode::Command(cmd) => r == command_string_source(
                    cmd,
                    element_at(arena@, position_start(), op_schema.elements@[0]).0,
                ),
            },
    {
        match opcode {
            Opcode::Instruction(_) => None,
            Opcode::Command(cmd) => match cmd {
                Command::SAVEINFO => Some(StringSource::Saveinfo),
                Command::SELECT => Some(StringSource::Select),
                Command::MSGSET => {
                    let mut iter = arena.iter(op_schema);
                    match iter.next() {
                        Some(OperationElementRepr::U32(first_argument)) => {
                            Some(StringSource::Msgset(first_argument & 0xffffff))
                        },
                        _ => None,
                    }
                },
                Command::DEBUGOUT => Some(StringSource::Dbgout),
                Command::LOGSET => Some(StringSource::Logset),
                Command::VOICEPLAY => Some(StringSource::Voiceplay),
                Command::CHATSET => Some(StringSource::Chatset),
                Command::NAMED => Some(StringSource::Named),
                Command::STAGEINFO => Some(StringSource::Stageinfo),
                _ => None,
            },
        }
    }

    pub fn from_kind(kind: StringKind, subindex: u32) -> (r: Self)
        ensures
            r == source_from_kind(kind, subindex),
    {
        match kind {
            StringKind::Saveinfo => StringSource::Saveinfo,
            StringKind::Select => StringSource::Select,
            StringKind::Msgset => StringSource::Msgset(subindex),
            StringKind::Dbgout => StringSource::Dbgout,
            StringKind::Logset => StringSource::Logset,
            StringKind::Voiceplay => StringSource::Voiceplay,
            StringKind::Chatset => StringSource::Chatset,
            StringKind::Named => StringSource::Named,
            StringKind::Stageinfo => StringSource::Stageinfo,
        }
    }

    pub fn kind(&self) -> (r: StringKind)
        ensures
            r == source_kind(*self),
    {
        match *self {
            StringSource::Saveinfo => StringKind::Saveinfo,
            StringSource::Select => StringKind::Select,
            StringSource::Msgset(_) => StringKind::Msgset,
            StringSource::Dbgout => StringKind::Dbgout,
            StringSource::Logset => StringKind::Logset,
            StringSource::Voiceplay => StringKind::Voiceplay,
            StringSource::Chatset => StringKind::Chatset,
            StringSource::Named => StringKind::Named,
            StringSource::Stageinfo => StringKind::Stageinfo,
        }
    }

    pub fn subindex(&self) -> (r: u32)
        ensures
            r == source_subindex(*self),
    {
        match *self {
            StringSource::Saveinfo => 0,
            StringSource::Select => 0,
            StringSource::Msgset(i) => i,
            StringSource::Dbgout => 0,
            StringSource::Logset => 0,
            StringSource::Voiceplay => 0,
            StringSource::Chatset => 0,
            StringSource::Named => 0,
            StringSource::Stageinfo => 0,
        }
    }

    pub fn is_for_messagebox(&self) -> (r: bool)
        ensures
            r == source_is_for_messagebox(*self),
    {
        match self {
            StringSource::Msgset(_) | StringSource::Logset => true,
            _ => false,
        }
    }

    pub fn contains_commands(&self) -> (r: bool)
        ensures
            r == source_contains_commands(*self),
    {
        match self {
            StringSource::Msgset(_) | StringSource::Logset => true,
            _ => false,
        }
    }
}

impl StringArraySource {
    /// The string-array source of an operation: only a selection has one.
    pub fn for_operation(opcode: Opcode, _op_schema: &OperationSchema, _arena: &OperationArena) -> (r:
        Option<Self>)
        ensures
            r == (if opcode == Opcode::Command(Command::SELECT) {
                Some(StringArraySource::Select)
            } else {
                None
            }),
    {
        match opcode {
            Opcode::Instruction(_) => None,
            Opcode::Command(cmd) => match cmd {
                Command::SELECT => Some(StringArraySource::Select),
                _ => None,
            },
        }
    }

    pub fn from_kind(kind: StringArrayKind) -> (r: Self)
        ensures
            r == StringArraySource::Select,
    {
        match kind {
            StringArrayKind::SelectChoice => StringArraySource::Select,
        }
    }

    pub fn kind(&self) -> (r: StringArrayKind)
        ensures
            r == StringArrayKind::SelectChoice,
    {
        match self {
            StringArraySource::Select => StringArrayKind::SelectChoice,
        }
    }

    pub fn is_for_messagebox(&self) -> (r: bool)
        ensures
            r == false,
    {
        match self {
            StringArraySource::Select => false,
        }
    }

    pub fn contains_commands(&self) -> (r: bool)
        ensures
            r == true,
    {
        match self {
            StringArraySource::Select => true,
        }
    }
}

/// A string source is recovered from its kind and subindex, and a source built from a
/// kind and subindex has that kind (and, for a message, that subindex).
pub proof fn lemma_source_kind_roundtrip(s: StringSource, kind: StringKind, subindex: u32)
    ensures
        source_from_kind(source_kind(s), source_subindex(s)) == s,
        source_kind(source_from_kind(kind, subindex)) == kind,
        kind == StringKind::Msgset ==> source_subindex(source_from_kind(kind, subindex)) == subindex,
{
}

/// Every string shown in the message box may hold commands.
pub proof fn lemma_messagebox_strings_contain_commands(s: AnyStringSource)
    ensures
        any_source_is_for_messagebox(s) ==> any_source_contains_commands(s),
{
}

/// A pass over the operations of a script, one call per operation.
pub trait Reactor: Sized {
    /// Whether the pass, as it is, can take the operation `opcode` (opcode byte
    /// `raw_opcode`) at `position`, whose elements hold `values`.
    spec fn accepts(&self, position: u32, raw_opcode: u8, opcode: Opcode, values: Seq<ElementValue>) -> bool;

    /// Whether the pass, as it is, can take the end of the script.
    spec fn can_end(&self) -> bool;

    /// Whether `self` is what the pass became from `before` on reacting to the operation
    /// `opcode` (opcode byte `raw_opcode`) at `position`, whose elements hold `values`.
    spec fn reacted(
        self,
        before: Self,
        position: u32,
        raw_opcode: u8,
        opcode: Opcode,
        values: Seq<ElementValue>,
    ) -> bool;

    /// Whether `self` is what the pass became from `before` at the end of the script.
    spec fn ended(self, before: Self) -> bool;

    /// Takes one operation, whose element values `arena` holds in the order of `op_schema`.
    fn react(
        &mut self,
        operation_position: u32,
        raw_opcode: u8,
        opcode: Opcode,
        op_schema: &OperationSchema,
        arena: &OperationArena,
    )
        requires
            elements_readable(arena@, position_start(), op_schema.elements@),
            old(self).accepts(
                operation_position,
                raw_opcode,
                opcode,
                element_values(arena@, position_start(), op_schema.elements@),
            ),
        ensures
            final(self).reacted(
                *old(self),
                operation_position,
                raw_opcode,
                opcode,
                element_values(arena@, position_start(), op_schema.elements@),
            ),
    ;

    /// Called once after the last operation.
    fn end_of_stream(&mut self)
        requires
            old(self).can_end(),
        ensures
            final(self).ended(*old(self)),
    ;
}

/// Whether an operation starts at `pos`: a script is padded with zero bytes, so the
/// operations have ended where at most 16 bytes remain and all of them are zero.
pub open spec fn has_instr_at(bytes: Seq<u8>, pos: int) -> bool {
    pos + 16 < bytes.len() || exists|i: int| pos <= i < bytes.len() && bytes[i] != 0
}

/// The operations of the script `bytes` from `pos` on, each as its position, its opcode
/// byte, the operation that byte names and the values of its elements; `None` where an
/// opcode names no operation, the operation has no layout, or its elements cannot be read.
pub open spec fn script_ops(schema: EngineSchema, bytes: Seq<u8>, pos: int) -> Option<
    Seq<(u32, u8, Opcode, Seq<ElementValue>)>,
>
    decreases bytes.len() - pos,
{
    if pos < 0 || pos > bytes.len() {
        None
    } else if !has_instr_at(bytes, pos) {
        Some(Seq::empty())
    } else if pos == bytes.len() {
        None
    } else {
        let raw = bytes[pos];
        match schema.opcodes()[raw as int] {
            None => None,
            Some(opcode) => match schema.operation_elements(opcode) {
                None => None,
                Some(es) => match read_elements(schema.style(), bytes.skip(pos + 1), 0, es) {
                    None => None,
                    Some((vs, u)) => {
                        proof {
                            lemma_read_elements_len(schema.style(), bytes.skip(pos + 1), 0, es);
                        }
                        match script_ops(schema, bytes, pos + 1 + u) {
                            None => None,
                            Some(rest) => Some(seq![(pos as u32, raw, opcode, vs)] + rest),
                        }
                    },
                },
            },
        }
    }
}

/// Whether the pass, starting as `r`, can take each of `ops` in turn, whatever it becomes
/// after each, and then the end of the script.
pub open spec fn runs_through<R: Reactor>(r: R, ops: Seq<(u32, u8, Opcode, Seq<ElementValue>)>) -> bool
    decreases ops.len(),
{
    if ops.len() == 0 {
        r.can_end()
    } else {
        &&& r.accepts(ops[0].0, ops[0].1, ops[0].2, ops[0].3)
        &&& forall|next: R|
            #[trigger] next.reacted(r, ops[0].0, ops[0].1, ops[0].2, ops[0].3) ==> runs_through(next, ops.drop_first())
    }
}

/// Whether the pass went from `first` to `last` by reacting to each of `ops` in turn and
/// then to the end of the script.
pub open spec fn reacted_all<R: Reactor>(last: R, first: R, ops: Seq<(u32, u8, Opcode, Seq<ElementValue>)>) -> bool
    decreases ops.len(),
{
    if ops.len() == 0 {
        last.ended(first)
    } else {
        exists|next: R|
            #[trigger] next.reacted(first, ops[0].0, ops[0].1, ops[0].2, ops[0].3) && reacted_all(
                last,
                next,
                ops.drop_first(),
            )
    }
}

/// Whether each of `ops`, read from a script of `len` bytes, fits the arena: the bytes
/// after its opcode, with at most two arena entries per element beyond them, stay within
/// the arena's 32-bit positions.
pub open spec fn ops_fit_arena(len: int, ops: Seq<(u32, u8, Opcode, Seq<ElementValue>)>) -> bool {
    forall|i: int| 0 <= i < ops.len() ==> len - (#[trigger] ops[i]).0 - 1 + 2 * ops[i].3.len() <= u32::MAX
}

/// Reads the script from the reader's position operation by operation and hands each to
/// `reactor`, then tells it that the script has ended. The script has to be readable to
/// its end with `schema`, and the pass has to be able to take each operation and the end.
pub fn react_with<R: Reactor>(reader: Reader, schema: &EngineSchema, reactor: &mut R)
    requires
        0 <= reader.pos() <= reader.bytes().len(),
        reader.bytes().len() <= u32::MAX,
        script_ops(*schema, reader.bytes(), reader.pos()) matches Some(ops) && ops_fit_arena(
            reader.bytes().len() as int,
            ops,
        ) && runs_through(*old(reactor), ops),
    ensures
        reacted_all(*final(reactor), *old(reactor), script_ops(*schema, reader.bytes(), reader.pos()).unwrap()),
{
    let mut reader = reader;
    let ghost bytes = reader.bytes();
    let ghost ops = script_ops(*schema, bytes, reader.pos()).unwrap();
    let ghost r0 = *reactor;
    let mut arena = OperationArena::new();
    while reader.has_instr()
        invariant
            reader.bytes() == bytes,
            0 <= reader.pos() <= bytes.len(),
            bytes.len() <= u32::MAX,
            script_ops(*schema, bytes, reader.pos()) is Some,
            ops_fit_arena(bytes.len() as int, script_ops(*schema, bytes, reader.pos()).unwrap()),
            runs_through(*reactor, script_ops(*schema, bytes, reader.pos()).unwrap()),
            forall|fin: R|
                reacted_all(fin, *reactor, #[trigger] script_ops(*schema, bytes, reader.pos()).unwrap()) ==> reacted_all(
                    fin,
                    r0,
                    ops,
                ),
        decreases bytes.len() - reader.pos(),
    {
        let ghost pos = reader.pos();
        let ghost rest = script_ops(*schema, bytes, pos).unwrap();
        let operation_position = reader.position();
        let raw_opcode = reader.take_u8();
        let opcode = match schema.lookup_opcode(raw_opcode) {
            Some(o) => o,
            None => {
                assert(false);
                return;
            },
        };
        let op_schema = match schema.lookup_operation(opcode) {
            Some(s) => s,
            None => {
                assert(false);
                return;
            },
        };
        let ghost es = op_schema.elements@;
        proof {
            assert(reader.rest() =~= bytes.skip(pos + 1));
            lemma_read_write_elements_roundtrip(schema.style(), bytes.skip(pos + 1), 0, es);
            assert(rest[0].3.len() == es.len());
        }
        op_schema.parse(schema.number_style(), &mut reader, &mut arena);
        let ghost (vs, u) = read_elements(schema.style(), bytes.skip(pos + 1), 0, es).unwrap();
        let ghost cur = *reactor;
        proof {
            lemma_read_elements_len(schema.style(), bytes.skip(pos + 1), 0, es);
            assert(rest[0] == (pos as u32, raw_opcode, opcode, vs));
            assert(rest.drop_first() =~= script_ops(*schema, bytes, pos + 1 + u).unwrap());
        }
        reactor.react(operation_position, raw_opcode, opcode, &op_schema, &arena);
        proof {
            let next = *reactor;
            assert forall|fin: R| reacted_all(fin, next, #[trigger] script_ops(*schema, bytes, reader.pos()).unwrap()) implies reacted_all(
                fin,
                r0,
                ops,
            ) by {
                assert(next.reacted(cur, rest[0].0, rest[0].1, rest[0].2, rest[0].3));
                assert(reacted_all(fin, cur, rest));
            }
            assert(runs_through(next, script_ops(*schema, bytes, reader.pos()).unwrap()));
            assert forall|i: int| 0 <= i < rest.drop_first().len() implies bytes.len() - (
            #[trigger] rest.drop_first()[i]).0 - 1 + 2 * rest.drop_first()[i].3.len() <= u32::MAX by {
                assert(rest.drop_first()[i] == rest[i + 1]);
            }
        }
    }
    let ghost cur = *reactor;
    proof {
        assert(script_ops(*schema, bytes, reader.pos()).unwrap() =~= Seq::<(u32, u8, Opcode, Seq<ElementValue>)>::empty());
    }
    reactor.end_of_stream();
    proof {
        assert(reacted_all(*reactor, cur, Seq::<(u32, u8, Opcode, Seq<ElementValue>)>::empty()));
    }
}

/// The strings of `MSGSET` belong to a message whose id is the low 24 bits of the
/// command's first value: below 2^24, equal to that value where it is below 2^24, and the
/// same for two values that differ only in their top 8 bits.
pub proof fn lemma_msgset_source(v: u32, w: u32)
    ensures
        command_string_source(Command::MSGSET, ElementValue::U32(v)) matches Some(StringSource::Msgset(id)) && id
            < 0x100_0000 && id == v % 0x100_0000,
        v < 0x100_0000 ==> command_string_source(Command::MSGSET, ElementValue::U32(v)) == Some(
            StringSource::Msgset(v),
        ),
        v % 0x100_0000 == w % 0x100_0000 ==> command_string_source(Command::MSGSET, ElementValue::U32(v))
            == command_string_source(Command::MSGSET, ElementValue::U32(w)),
{
    assert(v & 0xffffff == v % 0x100_0000) by (bit_vector);
    assert(w & 0xffffff == w % 0x100_0000) by (bit_vector);
}

} // verus!
