//! The layout of every instruction and command, for each engine version.
use vstd::prelude::*;

use crate::snr::operation::opcode::{get_opcode_name, opcode_name};
use crate::snr::operation::schema::{
    command_at, command_budget, command_index, command_max, instruction_at, instruction_budget, instruction_index,
    instruction_max, lemma_command_index, lemma_instruction_index, slice_elements, slice_fits, Command,
    EngineSchema, Instruction, Opcode, OperationElement, OperationSchemaBuilder, OperationSchemaSlice, SchemaBuilder,
    COMMAND_COUNT, INSTRUCTION_COUNT,
};
use crate::snr::operation::schema::def::command::{command_schema, get_schema_for_command, lemma_command_max};
use crate::snr::operation::schema::def::instruction::{
    get_schema_for_instruction, instruction_schema, lemma_instruction_max,
};
use crate::versions::{LengthKind, ShinVersion, VersionFacts};

pub mod command;
pub mod instruction;

verus! {

/// How describing one operation went.
#[derive(Debug, Copy, Clone, PartialEq, Eq, Structural)]
pub enum OperationResult {
    /// The operation has the elements that were added.
    Done,
    /// The version has no such operation.
    Unreachable,
    /// The operation is not described yet.
    Unimplemented,
}

/// Describes the elements of one instruction of a version.
pub struct InstructionSchemaCtx {
    facts: VersionFacts,
    parent: SchemaBuilder<OperationElement>,
    builder: OperationSchemaBuilder,
}

/// Describes the elements of one command of a version.
pub struct CommandSchemaCtx {
    facts: VersionFacts,
    command: Command,
    parent: SchemaBuilder<OperationElement>,
    builder: OperationSchemaBuilder,
}

impl InstructionSchemaCtx {
    /// This operation's elements start inside the collected ones.
    pub closed spec fn wf(&self) -> bool {
        self.builder.start() <= self.parent.elements().len()
    }

    /// The version being described.
    pub closed spec fn facts(&self) -> VersionFacts {
        self.facts
    }

    /// Every element collected so far, this operation's at the end.
    pub closed spec fn elements(&self) -> Seq<OperationElement> {
        self.parent.elements()
    }

    /// Where this operation's elements start.
    pub closed spec fn start(&self) -> int {
        self.builder.start()
    }

    /// `self` is `prev` with `e` added.
    pub open spec fn pushed(&self, prev: Self, e: OperationElement) -> bool {
        &&& self.facts() == prev.facts()
        &&& self.start() == prev.start()
        &&& self.elements() == prev.elements().push(e)
        &&& self.elements().take(self.start()) == prev.elements().take(prev.start())
        &&& self.wf()
    }

    /// Starts describing an operation after the elements `parent` has.
    pub fn new(facts: VersionFacts, parent: SchemaBuilder<OperationElement>) -> (r: Self)
        requires
            parent.elements().len() <= u8::MAX,
        ensures
            r.facts() == facts,
            r.elements() == parent.elements(),
            r.start() == parent.elements().len(),
            r.wf(),
    {
        let mut parent = parent;
        let builder = parent.start();
        InstructionSchemaCtx { facts, parent, builder }
    }

    /// Gives the collected elements back, with where this operation's start.
    pub fn into_parts(self) -> (r: (SchemaBuilder<OperationElement>, OperationSchemaBuilder))
        requires
            self.wf(),
        ensures
            r.0.elements() == self.elements(),
            r.1.start() == self.start(),
            self.start() <= self.elements().len(),
    {
        (self.parent, self.builder)
    }

    /// Get engine version (to handle encodings that are different between versions)
    pub fn version(&self) -> (r: ShinVersion)
        ensures
            r == self.facts().version,
    {
        self.facts.version
    }

    /// What the layout of the version depends on.
    pub fn version_facts(&self) -> (r: VersionFacts)
        ensures
            r == self.facts(),
    {
        self.facts
    }

    fn add(&mut self, e: OperationElement)
        requires
            old(self).wf(),
        ensures
            final(self).pushed(*old(self), e),
    {
        let ghost start = self.builder.start();
        self.builder.add_element(&mut self.parent, e);
        assert(self.parent.elements().take(start) =~= old(self).parent.elements().take(start));
    }

    pub fn operation(&mut self)
        requires
            old(self).wf(),
        ensures
            final(self).pushed(*old(self), OperationElement::Operation),
    {
        self.add(OperationElement::Operation);
    }

    pub fn condition(&mut self)
        requires
            old(self).wf(),
        ensures
            final(self).pushed(*old(self), OperationElement::Condition),
    {
        self.add(OperationElement::Condition);
    }

    pub fn expression(&mut self)
        requires
            old(self).wf(),
        ensures
            final(self).pushed(*old(self), OperationElement::Expression),
    {
        self.add(OperationElement::Expression);
    }

    pub fn reg(&mut self)
        requires
            old(self).wf(),
        ensures
            final(self).pushed(*old(self), OperationElement::Register),
    {
        self.add(OperationElement::Register);
    }

    pub fn reg_array(&mut self, length: LengthKind)
        requires
            old(self).wf(),
        ensures
            final(self).pushed(*old(self), OperationElement::RegisterArray(length)),
    {
        self.add(OperationElement::RegisterArray(length));
    }

    pub fn offset(&mut self)
        requires
            old(self).wf(),
        ensures
            final(self).pushed(*old(self), OperationElement::Offset),
    {
        self.add(OperationElement::Offset);
    }

    pub fn offset_array(&mut self, length: LengthKind)
        requires
            old(self).wf(),
        ensures
            final(self).pushed(*old(self), OperationElement::OffsetArray(length)),
    {
        self.add(OperationElement::OffsetArray(length));
    }

    pub fn number(&mut self)
        requires
            old(self).wf(),
        ensures
            final(self).pushed(*old(self), OperationElement::Number),
    {
        self.add(OperationElement::Number);
    }

    pub fn optional_number(&mut self)
        requires
            old(self).wf(),
        ensures
            final(self).pushed(*old(self), OperationElement::OptionalNumber),
    {
        self.add(OperationElement::OptionalNumber);
    }

    pub fn number_array(&mut self, length: LengthKind)
        requires
            old(self).wf(),
        ensures
            final(self).pushed(*old(self), OperationElement::NumberArray(length)),
    {
        self.add(OperationElement::NumberArray(length));
    }

    pub fn pad_number_array(&mut self, length: LengthKind)
        requires
            old(self).wf(),
        ensures
            final(self).pushed(*old(self), OperationElement::PadNumberArray(length)),
    {
        self.add(OperationElement::PadNumberArray(length));
    }
}

impl CommandSchemaCtx {
    /// This operation's elements start inside the collected ones.
    pub closed spec fn wf(&self) -> bool {
        self.builder.start() <= self.parent.elements().len()
    }

    /// The version being described.
    pub closed spec fn facts(&self) -> VersionFacts {
        self.facts
    }

    /// The command being described.
    pub closed spec fn command(&self) -> Command {
        self.command
    }

    /// Every element collected so far, this operation's at the end.
    pub closed spec fn elements(&self) -> Seq<OperationElement> {
        self.parent.elements()
    }

    /// Where this operation's elements start.
    pub closed spec fn start(&self) -> int {
        self.builder.start()
    }

    /// `self` is `prev` with `e` added.
    pub open spec fn pushed(&self, prev: Self, e: OperationElement) -> bool {
        &&& self.facts() == prev.facts()
        &&& self.command() == prev.command()
        &&& self.start() == prev.start()
        &&& self.elements() == prev.elements().push(e)
        &&& self.elements().take(self.start()) == prev.elements().take(prev.start())
        &&& self.wf()
    }

    /// Starts describing `command` after the elements `parent` has.
    pub fn new(facts: VersionFacts, command: Command, parent: SchemaBuilder<OperationElement>) -> (r: Self)
        requires
            parent.elements().len() <= u8::MAX,
        ensures
            r.facts() == facts,
            r.command() == command,
            r.elements() == parent.elements(),
            r.start() == parent.elements().len(),
            r.wf(),
    {
        let mut parent = parent;
        let builder = parent.start();
        CommandSchemaCtx { facts, command, parent, builder }
    }

    /// Gives the collected elements back, with where this operation's start.
    pub fn into_parts(self) -> (r: (SchemaBuilder<OperationElement>, OperationSchemaBuilder))
        requires
            self.wf(),
        ensures
            r.0.elements() == self.elements(),
            r.1.start() == self.start(),
            self.start() <= self.elements().len(),
    {
        (self.parent, self.builder)
    }

    /// Get engine version (to handle encodings that are different between versions)
    pub fn version(&self) -> (r: ShinVersion)
        ensures
            r == self.facts().version,
    {
        self.facts.version
    }

    /// What the layout of the version depends on.
    pub fn version_facts(&self) -> (r: VersionFacts)
        ensures
            r == self.facts(),
    {
        self.facts
    }

    fn add(&mut self, e: OperationElement)
        requires
            old(self).wf(),
        ensures
            final(self).pushed(*old(self), e),
    {
        let ghost start = self.builder.start();
        self.builder.add_element(&mut self.parent, e);
        assert(self.parent.elements().take(start) =~= old(self).parent.elements().take(start));
    }

    /// Simple 1-byte integer without additional semantics
    pub fn u8(&mut self)
        requires
            old(self).wf(),
        ensures
            final(self).pushed(*old(self), OperationElement::U8),
    {
        self.add(OperationElement::U8);
    }

    /// Simple 2-byte integer without additional semantics
    pub fn u16(&mut self)
        requires
            old(self).wf(),
        ensures
            final(self).pushed(*old(self), OperationElement::U16),
    {
        self.add(OperationElement::U16);
    }

    /// Simple 4-byte integer without additional semantics
    pub fn u32(&mut self)
        requires
            old(self).wf(),
        ensures
            final(self).pushed(*old(self), OperationElement::U32),
    {
        self.add(OperationElement::U32);
    }

    /// A register (lvalue). 2 bytes.
    pub fn reg(&mut self)
        requires
            old(self).wf(),
        ensures
            final(self).pushed(*old(self), OperationElement::Register),
    {
        self.add(OperationElement::Register);
    }

    /// A number (rvalue). Either 2 bytes (older) or variable-length (newer)
    pub fn number(&mut self)
        requires
            old(self).wf(),
        ensures
            final(self).pushed(*old(self), OperationElement::Number),
    {
        self.add(OperationElement::Number);
    }

    /// An array of numbers prefixed by array length.
    pub fn number_array(&mut self, length: LengthKind)
        requires
            old(self).wf(),
        ensures
            final(self).pushed(*old(self), OperationElement::NumberArray(length)),
    {
        self.add(OperationElement::NumberArray(length));
    }

    /// A byte mask and then a number for each bit set. Used for a lot of initialization commands
    pub fn bitmask_number_array(&mut self)
        requires
            old(self).wf(),
        ensures
            final(self).pushed(*old(self), OperationElement::BitmaskNumberArray),
    {
        self.add(OperationElement::BitmaskNumberArray);
    }

    /// A zero-terminated string prefixed with length; the size of the length depends on the
    /// version and on the kind of string the command has.
    pub fn string(&mut self)
        requires
            old(self).wf(),
            crate::snr::operation::schema::command_string_kind(old(self).command()) is Some,
        ensures
            final(self).pushed(
                *old(self),
                OperationElement::String(
                    crate::versions::string_size(
                        old(self).facts().string_sizes,
                        crate::snr::operation::schema::command_string_kind(old(self).command()).unwrap(),
                    ),
                ),
            ),
    {
        let kind = self.command.string_kind().unwrap();
        let size = self.facts.string_sizes.size_of(kind);
        self.add(OperationElement::String(size));
    }

    /// A zero-terminated array of zero-terminated strings prefixed with length; the size of
    /// the length depends on the version.
    pub fn string_array(&mut self)
        requires
            old(self).wf(),
            crate::snr::operation::schema::command_string_array_kind(old(self).command()) is Some,
        ensures
            final(self).pushed(*old(self), OperationElement::StringArray(old(self).facts().string_sizes.select_choice)),
    {
        let size = self.facts.string_sizes.select_choice;
        self.add(OperationElement::StringArray(size));
    }

    pub fn custom(&mut self, element: OperationElement)
        requires
            old(self).wf(),
        ensures
            final(self).pushed(*old(self), element),
    {
        self.add(element);
    }
}


/// The first `k` instructions have at most 45 elements together, in any version.
proof fn lemma_instruction_budget(k: int)
    requires
        0 <= k <= INSTRUCTION_COUNT,
    ensures
        instruction_budget(k) <= 45,
        k < INSTRUCTION_COUNT ==> instruction_budget(k + 1) == instruction_budget(k) + instruction_max(
            instruction_at(k),
        ),
    decreases INSTRUCTION_COUNT - k,
{
    if k < INSTRUCTION_COUNT {
        lemma_instruction_budget(k + 1);
        lemma_instruction_index(instruction_at(k));
    } else {
        assert(instruction_budget(20) == 45) by {
            reveal_with_fuel(instruction_budget, 21);
        }
    }
}

/// All commands together have at most 179 elements, in any version.
proof fn lemma_command_budget_total()
    ensures
        command_budget(97) == 179,
{
    assert(command_budget(0) == 0);
    assert(command_budget(1) == 2);
    assert(command_budget(2) == 4);
    assert(command_budget(3) == 6);
    assert(command_budget(4) == 8);
    assert(command_budget(5) == 9);
    assert(command_budget(6) == 12);
    assert(command_budget(7) == 17);
    assert(command_budget(8) == 18);
    assert(command_budget(9) == 18);
    assert(command_budget(10) == 20);
    assert(command_budget(11) == 21);
    assert(command_budget(12) == 25);
    assert(command_budget(13) == 26);
    assert(command_budget(14) == 27);
    assert(command_budget(15) == 27);
    assert(command_budget(16) == 31);
    assert(command_budget(17) == 37);
    assert(command_budget(18) == 41);
    assert(command_budget(19) == 41);
    assert(command_budget(20) == 45);
    assert(command_budget(21) == 46);
    assert(command_budget(22) == 48);
    assert(command_budget(23) == 49);
    assert(command_budget(24) == 50);
    assert(command_budget(25) == 57);
    assert(command_budget(26) == 59);
    assert(command_budget(27) == 60);
    assert(command_budget(28) == 63);
    assert(command_budget(29) == 66);
    assert(command_budget(30) == 68);
    assert(command_budget(31) == 73);
    assert(command_budget(32) == 75);
    assert(command_budget(33) == 78);
    assert(command_budget(34) == 78);
    assert(command_budget(35) == 79);
    assert(command_budget(36) == 81);
    assert(command_budget(37) == 83);
    assert(command_budget(38) == 84);
    assert(command_budget(39) == 84);
    assert(command_budget(40) == 85);
    assert(command_budget(41) == 85);
    assert(command_budget(42) == 85);
    assert(command_budget(43) == 85);
    assert(command_budget(44) == 87);
    assert(command_budget(45) == 88);
    assert(command_budget(46) == 90);
    assert(command_budget(47) == 90);
    assert(command_budget(48) == 91);
    assert(command_budget(49) == 95);
    assert(command_budget(50) == 97);
    assert(command_budget(51) == 100);
    assert(command_budget(52) == 102);
    assert(command_budget(53) == 104);
    assert(command_budget(54) == 106);
    assert(command_budget(55) == 108);
    assert(command_budget(56) == 109);
    assert(command_budget(57) == 113);
    assert(command_budget(58) == 114);
    assert(command_budget(59) == 114);
    assert(command_budget(60) == 115);
    assert(command_budget(61) == 115);
    assert(command_budget(62) == 118);
    assert(command_budget(63) == 118);
    assert(command_budget(64) == 119);
    assert(command_budget(65) == 121);
    assert(command_budget(66) == 122);
    assert(command_budget(67) == 123);
    assert(command_budget(68) == 125);
    assert(command_budget(69) == 125);
    assert(command_budget(70) == 125);
    assert(command_budget(71) == 128);
    assert(command_budget(72) == 129);
    assert(command_budget(73) == 131);
    assert(command_budget(74) == 134);
    assert(command_budget(75) == 136);
    assert(command_budget(76) == 139);
    assert(command_budget(77) == 139);
    assert(command_budget(78) == 140);
    assert(command_budget(79) == 145);
    assert(command_budget(80) == 147);
    assert(command_budget(81) == 148);
    assert(command_budget(82) == 152);
    assert(command_budget(83) == 153);
    assert(command_budget(84) == 155);
    assert(command_budget(85) == 156);
    assert(command_budget(86) == 156);
    assert(command_budget(87) == 158);
    assert(command_budget(88) == 162);
    assert(command_budget(89) == 162);
    assert(command_budget(90) == 164);
    assert(command_budget(91) == 164);
    assert(command_budget(92) == 165);
    assert(command_budget(93) == 170);
    assert(command_budget(94) == 173);
    assert(command_budget(95) == 175);
    assert(command_budget(96) == 177);
    assert(command_budget(97) == 179);
}

/// The first `k` commands have at most 179 elements together, in any version.
proof fn lemma_command_budget(k: int)
    requires
        0 <= k <= COMMAND_COUNT,
    ensures
        command_budget(k) <= 179,
        k < COMMAND_COUNT ==> command_budget(k + 1) == command_budget(k) + command_max(command_at(k)),
    decreases COMMAND_COUNT - k,
{
    if k < COMMAND_COUNT {
        lemma_command_budget(k + 1);
        lemma_command_index(command_at(k));
    } else {
        lemma_command_budget_total();
    }
}

/// A slice that lies inside `a` covers the same elements of any list that starts with `a`.
proof fn lemma_slice_kept(s: Option<OperationSchemaSlice>, a: Seq<OperationElement>, b: Seq<OperationElement>)
    requires
        slice_fits(s, a.len() as int),
        a.len() <= b.len(),
        b.take(a.len() as int) == a,
    ensures
        slice_fits(s, b.len() as int),
        slice_elements(s, b) == slice_elements(s, a),
{
    if let Some(x) = s {
        assert(b.subrange(x.start - 1, x.start - 1 + x.count) =~= a.subrange(x.start - 1, x.start - 1 + x.count)) by {
            assert forall|i: int| 0 <= i < a.len() implies b[i] == a[i] by {
                assert(b.take(a.len() as int)[i] == b[i]);
            }
        }
    }
}

/// The layout of every operation of the version that `facts` describes: the operation each
/// opcode names, and the elements of each instruction and command the version has.
pub fn get_schema_for_version(facts: VersionFacts) -> (r: EngineSchema)
    ensures
        r.style() == facts.number_style,
        forall|op: u8| #[trigger] r.opcodes()[op as int] == opcode_name(facts.version, op),
        forall|i: Instruction| #[trigger] r.instruction_elements(i) == instruction_schema(facts, i),
        forall|c: Command| #[trigger] r.command_elements(c) == command_schema(facts, c),
{
    let mut builder: SchemaBuilder<OperationElement> = SchemaBuilder::new();

    let mut opcode_map: Vec<Option<Opcode>> = Vec::new();
    let mut op: usize = 0;
    while op < 256
        invariant
            op <= 256,
            opcode_map@.len() == op,
            forall|j: int| 0 <= j < op ==> #[trigger] opcode_map@[j] == opcode_name(facts.version, j as u8),
        decreases 256 - op,
    {
        opcode_map.push(get_opcode_name(facts.version, op as u8));
        op = op + 1;
    }

    let mut instructions: Vec<Option<OperationSchemaSlice>> = Vec::new();
    let mut k: usize = 0;
    while k < INSTRUCTION_COUNT
        invariant
            k <= INSTRUCTION_COUNT,
            instructions@.len() == k,
            builder.elements().len() <= instruction_budget(k as int),
            forall|j: int| 0 <= j < k ==> slice_fits(#[trigger] instructions@[j], builder.elements().len() as int),
            forall|j: int|
                0 <= j < k ==> slice_elements(#[trigger] instructions@[j], builder.elements()) == instruction_schema(
                    facts,
                    instruction_at(j),
                ),
        decreases INSTRUCTION_COUNT - k,
    {
        let instruction = Instruction::from_index(k);
        let ghost before = builder.elements();
        let ghost old_slots = instructions@;
        proof {
            lemma_instruction_budget(k as int);
            lemma_instruction_budget(k + 1);
            lemma_instruction_max(facts, instruction);
            assert(before.take(before.len() as int) =~= before);
        }
        let mut ctx = InstructionSchemaCtx::new(facts, builder);
        let res = get_schema_for_instruction(&mut ctx, instruction);
        let (parent, schema) = ctx.into_parts();
        builder = parent;
        if res == OperationResult::Done {
            let slice = schema.finish(&builder);
            instructions.push(Some(slice));
            proof {
                let e = instruction_schema(facts, instruction).unwrap();
                assert(builder.elements().take(before.len() as int) =~= before);
                assert(builder.elements().subrange(before.len() as int, builder.elements().len() as int) =~= e);
            }
        } else {
            schema.abandon(&mut builder);
            instructions.push(None);
        }
        proof {
            assert forall|j: int| 0 <= j < k + 1 implies slice_fits(#[trigger] instructions@[j], builder.elements().len() as int)
                && slice_elements(instructions@[j], builder.elements()) == instruction_schema(facts, instruction_at(j)) by {
                if j < k {
                    assert(instructions@[j] == old_slots[j]);
                    lemma_slice_kept(old_slots[j], before, builder.elements());
                }
            }
        }
        k = k + 1;
    }

    let ghost instruction_elements = builder.elements();
    proof {
        lemma_instruction_budget(INSTRUCTION_COUNT as int);
    }
    let mut commands: Vec<Option<OperationSchemaSlice>> = Vec::new();
    let mut k: usize = 0;
    while k < COMMAND_COUNT
        invariant
            k <= COMMAND_COUNT,
            commands@.len() == k,
            instructions@.len() == INSTRUCTION_COUNT,
            instruction_elements.len() <= builder.elements().len(),
            builder.elements().take(instruction_elements.len() as int) == instruction_elements,
            instruction_elements.len() <= 45,
            builder.elements().len() <= 45 + command_budget(k as int),
            forall|j: int|
                0 <= j < INSTRUCTION_COUNT ==> slice_fits(#[trigger] instructions@[j], instruction_elements.len() as int),
            forall|j: int|
                0 <= j < INSTRUCTION_COUNT ==> slice_elements(#[trigger] instructions@[j], instruction_elements)
                    == instruction_schema(facts, instruction_at(j)),
            forall|j: int| 0 <= j < k ==> slice_fits(#[trigger] commands@[j], builder.elements().len() as int),
            forall|j: int|
                0 <= j < k ==> slice_elements(#[trigger] commands@[j], builder.elements()) == command_schema(
                    facts,
                    command_at(j),
                ),
        decreases COMMAND_COUNT - k,
    {
        let command = Command::from_index(k);
        let ghost before = builder.elements();
        let ghost old_slots = commands@;
        proof {
            lemma_command_budget(k as int);
            lemma_command_budget(k + 1);
            lemma_command_max(facts, command);
            assert(before.take(before.len() as int) =~= before);
        }
        let mut ctx = CommandSchemaCtx::new(facts, command, builder);
        let res = get_schema_for_command(&mut ctx, command);
        let (parent, schema) = ctx.into_parts();
        builder = parent;
        if res == OperationResult::Done {
            let slice = schema.finish(&builder);
            commands.push(Some(slice));
            proof {
                let e = command_schema(facts, command).unwrap();
                assert(builder.elements().take(before.len() as int) =~= before);
                assert(builder.elements().subrange(before.len() as int, builder.elements().len() as int) =~= e);
            }
        } else {
            schema.abandon(&mut builder);
            commands.push(None);
        }
        proof {
            assert(builder.elements().take(instruction_elements.len() as int) =~= instruction_elements) by {
                assert forall|i: int| 0 <= i < instruction_elements.len() implies builder.elements()[i]
                    == instruction_elements[i] by {
                    assert(before.take(instruction_elements.len() as int)[i] == before[i]);
                    assert(builder.elements().take(before.len() as int)[i] == builder.elements()[i]);
                }
            }
            assert forall|j: int| 0 <= j < k + 1 implies slice_fits(#[trigger] commands@[j], builder.elements().len() as int)
                && slice_elements(commands@[j], builder.elements()) == command_schema(facts, command_at(j)) by {
                if j < k {
                    assert(commands@[j] == old_slots[j]);
                    lemma_slice_kept(old_slots[j], before, builder.elements());
                }
            }
        }
        k = k + 1;
    }

    let elements = builder.finish();
    proof {
        lemma_command_budget_total();
        assert forall|j: int| 0 <= j < INSTRUCTION_COUNT implies slice_fits(#[trigger] instructions@[j], elements@.len() as int)
            && slice_elements(instructions@[j], elements@) == instruction_schema(facts, instruction_at(j)) by {
            lemma_slice_kept(instructions@[j], instruction_elements, elements@);
        }
    }
    let r = EngineSchema::new(facts.number_style, opcode_map, instructions, commands, elements);
    proof {
        assert forall|i: Instruction| #[trigger] r.instruction_elements(i) == instruction_schema(facts, i) by {
            lemma_instruction_index(i);
        }
        assert forall|c: Command| #[trigger] r.command_elements(c) == command_schema(facts, c) by {
            lemma_command_index(c);
        }
        assert forall|op: u8| #[trigger] r.opcodes()[op as int] == opcode_name(facts.version, op) by {
            assert(opcode_map@[op as int] == opcode_name(facts.version, (op as int) as u8));
        }
    }
    r
}

} // verus!
