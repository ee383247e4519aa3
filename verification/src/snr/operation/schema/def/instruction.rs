//! The elements of each instruction, by version.
use vstd::prelude::*;

use crate::snr::operation::schema::def::{InstructionSchemaCtx, OperationResult};
use crate::snr::operation::schema::{instruction_max, Instruction, OperationElement};
use crate::versions::{LengthKind, ShinVersion, VersionFacts};

verus! {

/// The elements of instruction `i` in the version `f` describes; `None` where the version has
/// no such instruction.
pub open spec fn instruction_schema(f: VersionFacts, i: Instruction) -> Option<Seq<OperationElement>> {
    match i {
        Instruction::uo => Some(seq![OperationElement::Operation, OperationElement::Register, OperationElement::OptionalNumber]),
        Instruction::bo => Some(seq![OperationElement::Operation, OperationElement::Register, OperationElement::OptionalNumber, OperationElement::Number]),
        Instruction::exp => Some(seq![OperationElement::Register, OperationElement::Expression]),
        Instruction::mm => Some(seq![OperationElement::Number, OperationElement::RegisterArray(f.mm_gt_st_length)]),
        Instruction::gt => Some(seq![OperationElement::Register, OperationElement::Number, OperationElement::PadNumberArray(f.mm_gt_st_length)]),
        Instruction::st => Some(seq![OperationElement::Number, OperationElement::Number, OperationElement::RegisterArray(f.mm_gt_st_length)]),
        Instruction::jc => Some(seq![OperationElement::Condition, OperationElement::Number, OperationElement::Number, OperationElement::Offset]),
        Instruction::j => Some(seq![OperationElement::Offset]),
        Instruction::gosub => Some(seq![OperationElement::Offset]),
        Instruction::retsub => Some(Seq::empty()),
        Instruction::jt => Some(seq![OperationElement::Number, OperationElement::OffsetArray(f.gt_gosubt_length)]),
        Instruction::gosubt => Some(seq![OperationElement::Number, OperationElement::OffsetArray(f.gt_gosubt_length)]),
        Instruction::rnd => Some(seq![OperationElement::Register, OperationElement::Number, OperationElement::Number]),
        Instruction::push => Some(seq![OperationElement::NumberArray(LengthKind::U8Length)]),
        Instruction::pop => Some(seq![OperationElement::RegisterArray(LengthKind::U8Length)]),
        Instruction::call => if !(f.version == ShinVersion::AliasCarnival || f.version == ShinVersion::WhiteEternity || f.version == ShinVersion::HigurashiHou || f.version == ShinVersion::HigurashiHouV2 || f.version == ShinVersion::DC4 || f.version == ShinVersion::Konosuba || f.version == ShinVersion::Umineko || f.version == ShinVersion::Gerokasu2) {
                None
            } else {
                Some(seq![OperationElement::Offset, OperationElement::NumberArray(LengthKind::U8Length)])
            },
        Instruction::ret => if !(f.version == ShinVersion::AliasCarnival || f.version == ShinVersion::WhiteEternity || f.version == ShinVersion::HigurashiHou || f.version == ShinVersion::HigurashiHouV2 || f.version == ShinVersion::DC4 || f.version == ShinVersion::Konosuba || f.version == ShinVersion::Umineko || f.version == ShinVersion::Gerokasu2) {
                None
            } else {
                Some(Seq::empty())
            },
        Instruction::fmt | Instruction::fnmt => if !(f.post_shin) {
                None
            } else {
                Some(seq![OperationElement::Register, OperationElement::Number, OperationElement::Number, OperationElement::PadNumberArray(LengthKind::U16Length)])
            },
        Instruction::getbupid => if !(f.switch) {
                None
            } else {
                Some(seq![OperationElement::Register, OperationElement::Number, OperationElement::Number])
            },
    }
}

/// No version gives instruction `i` more elements than `instruction_max` allows.
pub proof fn lemma_instruction_max(f: VersionFacts, i: Instruction)
    ensures
        instruction_schema(f, i) matches Some(e) ==> e.len() <= instruction_max(i),
{
}

/// Adds the elements of `instruction` to `ctx`, as `instruction_schema` gives them, and says
/// whether the version has the instruction; where it does not, what was added is to be dropped.
#[verifier::rlimit(40)]
pub fn get_schema_for_instruction(ctx: &mut InstructionSchemaCtx, instruction: Instruction) -> (r: OperationResult)
    requires
        old(ctx).wf(),
    ensures
        final(ctx).wf(),
        final(ctx).facts() == old(ctx).facts(),
        final(ctx).start() == old(ctx).start(),
        final(ctx).elements().take(final(ctx).start()) == old(ctx).elements().take(old(ctx).start()),
        (r == OperationResult::Done) == (instruction_schema(old(ctx).facts(), instruction) is Some),
        r != OperationResult::Unimplemented,
        r == OperationResult::Done ==> final(ctx).elements() =~= old(ctx).elements() + instruction_schema(
            old(ctx).facts(),
            instruction,
        ).unwrap(),
{
    match instruction {
        Instruction::uo => {
            ctx.operation();
            ctx.reg();
            ctx.optional_number();
        },
        Instruction::bo => {
            ctx.operation();
            ctx.reg();
            ctx.optional_number();
            ctx.number();
        },
        Instruction::exp => {
            ctx.reg();
            ctx.expression();
        },
        Instruction::mm => {
            ctx.number();
            let length = ctx.version_facts().mm_gt_st_length;
            ctx.reg_array(length);
        },
        Instruction::gt => {
            ctx.reg();
            ctx.number();
            let length = ctx.version_facts().mm_gt_st_length;
            ctx.pad_number_array(length);
        },
        Instruction::st => {
            ctx.number();
            ctx.number();
            let length = ctx.version_facts().mm_gt_st_length;
            ctx.reg_array(length);
        },
        Instruction::jc => {
            ctx.condition();
            ctx.number();
            ctx.number();
            ctx.offset();
        },
        Instruction::j => {
            ctx.offset();
        },
        Instruction::gosub => {
            ctx.offset();
        },
        Instruction::retsub => {
        },
        Instruction::jt => {
            ctx.number();
            let length = ctx.version_facts().gt_gosubt_length;
            ctx.offset_array(length);
        },
        Instruction::gosubt => {
            ctx.number();
            let length = ctx.version_facts().gt_gosubt_length;
            ctx.offset_array(length);
        },
        Instruction::rnd => {
            ctx.reg();
            ctx.number();
            ctx.number();
        },
        Instruction::push => {
            ctx.number_array(LengthKind::U8Length);
        },
        Instruction::pop => {
            ctx.reg_array(LengthKind::U8Length);
        },
        Instruction::call => {
            if !matches!(ctx.version(), ShinVersion::AliasCarnival | ShinVersion::WhiteEternity | ShinVersion::HigurashiHou | ShinVersion::HigurashiHouV2 | ShinVersion::DC4 | ShinVersion::Konosuba | ShinVersion::Umineko | ShinVersion::Gerokasu2) {
                return OperationResult::Unreachable;
            }
            ctx.offset();
            ctx.number_array(LengthKind::U8Length);
        },
        Instruction::ret => {
            if !matches!(ctx.version(), ShinVersion::AliasCarnival | ShinVersion::WhiteEternity | ShinVersion::HigurashiHou | ShinVersion::HigurashiHouV2 | ShinVersion::DC4 | ShinVersion::Konosuba | ShinVersion::Umineko | ShinVersion::Gerokasu2) {
                return OperationResult::Unreachable;
            }
        },
        Instruction::fmt | Instruction::fnmt => {
            if !ctx.version_facts().post_shin {
                return OperationResult::Unreachable;
            }
            ctx.reg();
            ctx.number();
            ctx.number();
            ctx.pad_number_array(LengthKind::U16Length);
        },
        Instruction::getbupid => {
            if !ctx.version_facts().switch {
                return OperationResult::Unreachable;
            }
            ctx.reg();
            ctx.number();
            ctx.number();
        },
    }
    OperationResult::Done
}

} // verus!
