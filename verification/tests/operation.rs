use shin_tl::snr::operation::arena::OperationArena;
use shin_tl::snr::operation::opcode::get_opcode_name;
use shin_tl::snr::operation::parse::InstructionParseContext;
use shin_tl::snr::reader::Reader;
use shin_tl::snr::operation::schema::OperationSchema;
use shin_tl::snr::operation::repr::{NumberArrayKind, OperationElementRepr, SeqFmt};
use shin_tl::snr::operation::schema::def::{get_schema_for_version, CommandSchemaCtx, OperationResult};
use shin_tl::snr::operation::schema::def::command::get_schema_for_command;
use shin_tl::snr::operation::schema::{
    Command, Instruction, Opcode, OperationElement, SchemaBuilder, COMMAND_COUNT, INSTRUCTION_COUNT,
};
use shin_tl::snr::operation::serialize::InstructionSerializeContext;
use shin_tl::snr::writer::RealWriter;
use shin_tl::versions::{LengthKind, NumberStyle, ShinVersion, StringKind, StringSizes, VersionFacts};

fn sizes(k: LengthKind) -> StringSizes {
    StringSizes {
        saveinfo: k,
        select: k,
        msgset: LengthKind::U16Length,
        dbgout: k,
        logset: k,
        voiceplay: k,
        chatset: k,
        named: k,
        stageinfo: k,
        select_choice: LengthKind::U16Length,
    }
}

fn higurashi_sui() -> VersionFacts {
    VersionFacts {
        version: ShinVersion::HigurashiSui,
        number_style: NumberStyle::U16,
        pre_shin: true,
        post_shin: false,
        not_konosuba: true,
        post_plane: false,
        higurashi: true,
        switch: false,
        mm_gt_st_length: LengthKind::U8Length,
        gt_gosubt_length: LengthKind::U16Length,
        string_sizes: sizes(LengthKind::U8Length),
    }
}

fn umineko() -> VersionFacts {
    VersionFacts {
        version: ShinVersion::Umineko,
        number_style: NumberStyle::VarInt,
        pre_shin: false,
        post_shin: true,
        not_konosuba: true,
        post_plane: true,
        higurashi: false,
        switch: true,
        mm_gt_st_length: LengthKind::U16Length,
        gt_gosubt_length: LengthKind::U16Length,
        string_sizes: sizes(LengthKind::U16Length),
    }
}

#[test]
fn opcode_names() {
    assert!(matches!(get_opcode_name(ShinVersion::HigurashiSui, 0x40), Some(Opcode::Instruction(Instruction::uo))));
    assert!(matches!(get_opcode_name(ShinVersion::HigurashiSui, 0x4e), Some(Opcode::Instruction(Instruction::pop))));
    assert!(get_opcode_name(ShinVersion::HigurashiSui, 0x4f).is_none());
    assert!(matches!(get_opcode_name(ShinVersion::HigurashiSui, 0x80), Some(Opcode::Command(Command::EXIT))));
    assert!(matches!(get_opcode_name(ShinVersion::HigurashiSui, 0x8b), Some(Opcode::Command(Command::MSGQUAKE))));
    assert!(get_opcode_name(ShinVersion::HigurashiSui, 0x00).is_none());
    assert!(matches!(get_opcode_name(ShinVersion::Gerokasu2, 0x00), Some(Opcode::Command(Command::EXIT))));
    assert!(matches!(get_opcode_name(ShinVersion::Konosuba, 0x40), Some(Opcode::Instruction(Instruction::uo))));
}

#[test]
fn element_debug_strings() {
    assert_eq!(OperationElementRepr::U8(5).debug_string(), "0x05u8");
    assert_eq!(OperationElementRepr::U16(0xab).debug_string(), "0x00ABu16");
    assert_eq!(OperationElementRepr::U32(1).debug_string(), "0x00000001u32");
    assert_eq!(OperationElementRepr::Operation(3).debug_string(), "3op");
    assert_eq!(OperationElementRepr::Condition(17).debug_string(), "17cd");
    assert_eq!(OperationElementRepr::Register(0x1f).debug_string(), "0x001Fr");
    assert_eq!(OperationElementRepr::Offset(0xabcd).debug_string(), "0x00ABCDj");
    assert_eq!(OperationElementRepr::Number(2).debug_string(), "0x00000002rn");
    assert_eq!(OperationElementRepr::OptionalNumber(None).debug_string(), "<>ron");
    assert_eq!(OperationElementRepr::OptionalNumber(Some(1)).debug_string(), "0x00000001ron");
    let numbers = [1u32, 0xffff_ffff];
    assert_eq!(
        OperationElementRepr::NumberArray(LengthKind::U8Length, NumberArrayKind::Dense, &numbers).debug_string(),
        "rn[0x00000001, 0xFFFFFFFF]"
    );
    let regs = [1u16];
    assert_eq!(OperationElementRepr::RegisterArray(LengthKind::U8Length, &regs).debug_string(), "r[0x0001]");
    assert_eq!(OperationElementRepr::OffsetArray(LengthKind::U16Length, &[]).debug_string(), "j[]");
    assert_eq!(OperationElementRepr::BitmaskNumberArray(5, &numbers[..1]).debug_string(), "bm{0x5/[0x00000001]}");
    assert_eq!(OperationElementRepr::Expression(&[0, 0xff], &[3]).debug_string(), "exp{[0x0, 0xFF]/[0x00000003]}");
    assert_eq!(OperationElementRepr::String(LengthKind::U8Length, &[0x41, 0x0a, 0]).debug_string(), "s[41 a 0]");
    assert_eq!(OperationElementRepr::StringArray(LengthKind::U8Length, &[]).debug_string(), "sa[]");
    assert_eq!(
        OperationElementRepr::HiguSuiWipeArg(1, 0x22, &[4]).debug_string(),
        "higu_sui_wipe{b1: 0x01, b2: 0x22, numbers: [0x00000004]}"
    );
}

#[test]
fn seq_fmt_joins_with_commas() {
    let f = SeqFmt::new(vec!["a".to_string(), "b".to_string(), "c".to_string()]);
    let mut out = String::from(">");
    f.write_to(&mut out);
    assert_eq!(out, ">a, b, c");
}

#[test]
fn schema_builder_slices() {
    let mut b: SchemaBuilder<u32> = SchemaBuilder::new();
    let mut first = b.start();
    first.add_element(&mut b, 1);
    first.add_element(&mut b, 2);
    let s = first.finish(&b);
    assert_eq!((s.start, s.count), (1, 2));
    let mut second = b.start();
    second.add_element(&mut b, 3);
    second.abandon(&mut b);
    let third = b.start();
    let t = third.finish(&b);
    assert_eq!((t.start, t.count), (3, 0));
    assert_eq!(b.finish(), vec![1, 2]);
}

#[test]
fn command_schema_by_version() {
    let mut ctx = CommandSchemaCtx::new(higurashi_sui(), Command::MSGSET, SchemaBuilder::new());
    assert_eq!(get_schema_for_command(&mut ctx, Command::MSGSET), OperationResult::Done);
    let (parent, _) = ctx.into_parts();
    assert_eq!(parent.finish(), vec![OperationElement::U32, OperationElement::String(LengthKind::U16Length)]);

    let mut ctx = CommandSchemaCtx::new(higurashi_sui(), Command::MSGSYNC, SchemaBuilder::new());
    assert_eq!(get_schema_for_command(&mut ctx, Command::MSGSYNC), OperationResult::Unreachable);
}

#[test]
fn engine_schema_of_higurashi_sui() {
    let schema = get_schema_for_version(higurashi_sui());
    assert_eq!(schema.number_style(), NumberStyle::U16);
    assert!(matches!(schema.lookup_opcode(0x43), Some(Opcode::Instruction(Instruction::mm))));
    assert!(schema.lookup_opcode(0x00).is_none());

    let exit = schema.lookup_command(Command::EXIT).unwrap();
    assert_eq!(exit.elements, &[OperationElement::Number]);
    let msgset = schema.lookup_command(Command::MSGSET).unwrap();
    assert_eq!(msgset.elements, &[OperationElement::U32, OperationElement::String(LengthKind::U16Length)]);
    let wipe = schema.lookup_command(Command::WIPE).unwrap();
    assert_eq!(wipe.elements, &[OperationElement::HiguSuiWipeArg]);
    let select = schema.lookup_command(Command::SELECT).unwrap();
    assert_eq!(
        select.elements,
        &[
            OperationElement::U16,
            OperationElement::U16,
            OperationElement::Register,
            OperationElement::Number,
            OperationElement::String(LengthKind::U8Length),
            OperationElement::StringArray(LengthKind::U16Length),
        ]
    );
    assert!(schema.lookup_command(Command::MSGSYNC).is_none());
    assert!(schema.lookup_command(Command::SLEEP).is_none());
    assert!(schema.lookup_command(Command::MSGCHECK).is_some());
    assert!(schema.lookup_command(Command::KAKERA).unwrap().elements.is_empty());

    let mm = schema.lookup_instruction(Instruction::mm).unwrap();
    assert_eq!(mm.elements, &[OperationElement::Number, OperationElement::RegisterArray(LengthKind::U8Length)]);
    assert!(schema.lookup_instruction(Instruction::call).is_none());
    assert!(schema.lookup_instruction(Instruction::fmt).is_none());
    assert!(schema.lookup_instruction(Instruction::getbupid).is_none());
    let uo = schema.lookup_operation(Opcode::Instruction(Instruction::uo)).unwrap();
    assert_eq!(uo.elements, &[OperationElement::Operation, OperationElement::Register, OperationElement::OptionalNumber]);

    assert_eq!(schema.opcode_map().len(), 256);
    assert_eq!(schema.instruction_map().len(), INSTRUCTION_COUNT);
    assert_eq!(schema.command_map().len(), COMMAND_COUNT);
    assert!(schema.command_map()[Command::EXIT.index()].is_some());
}

#[test]
fn engine_schema_of_umineko() {
    let schema = get_schema_for_version(umineko());
    assert_eq!(schema.number_style(), NumberStyle::VarInt);
    let exit = schema.lookup_command(Command::EXIT).unwrap();
    assert_eq!(exit.elements, &[OperationElement::U8, OperationElement::Number]);
    let gt = schema.lookup_instruction(Instruction::gt).unwrap();
    assert_eq!(
        gt.elements,
        &[OperationElement::Register, OperationElement::Number, OperationElement::PadNumberArray(LengthKind::U16Length)]
    );
    assert!(schema.lookup_instruction(Instruction::getbupid).is_some());
    assert!(schema.lookup_command(Command::MSGCHECK).is_none());
    assert!(schema.lookup_command(Command::CHARS).is_some());
    assert!(schema.lookup_command(Command::SYSSE).is_some());
}

#[test]
fn index_roundtrip() {
    for k in 0..INSTRUCTION_COUNT {
        assert_eq!(Instruction::from_index(k).index(), k);
    }
    for k in 0..COMMAND_COUNT {
        assert_eq!(Command::from_index(k).index(), k);
    }
    assert_eq!(Command::DEBUGOUT.index(), COMMAND_COUNT - 1);
}

#[test]
fn string_kinds() {
    assert_eq!(Command::MSGSET.string_kind(), Ok(StringKind::Msgset));
    assert!(Command::EXIT.string_kind().is_err());
}

#[test]
fn serialize_elements() {
    let mut ctx = InstructionSerializeContext::new(NumberStyle::U16, RealWriter::new(Vec::new()));
    ctx.put_element(&OperationElementRepr::U16(0x1234));
    ctx.put_element(&OperationElementRepr::Offset(0x0a0b0c0d));
    ctx.put_element(&OperationElementRepr::NumberArray(LengthKind::U8Length, NumberArrayKind::Dense, &[1, 2]));
    ctx.put_element(&OperationElementRepr::String(LengthKind::U16Length, b"ab\0"));
    let (_, w) = ctx.into_parts();
    assert_eq!(
        w.into_buffer(),
        vec![0x34, 0x12, 0x0d, 0x0c, 0x0b, 0x0a, 2, 1, 0, 2, 0, 3, 0, b'a', b'b', 0]
    );
}

#[test]
fn arena_starts_empty() {
    let mut arena = OperationArena::new();
    assert!(arena.u8s.is_empty() && arena.numbers.is_empty() && arena.strings.is_empty());
    arena.numbers.push(3);
    arena.clear();
    assert!(arena.numbers.is_empty());
}

fn reparse(style: NumberStyle, elements: &[OperationElement], bytes: &[u8]) -> (Vec<String>, usize, Vec<u8>) {
    let schema = OperationSchema { elements };
    let mut reader = Reader::new(bytes, 0);
    let mut arena = OperationArena::new();
    schema.parse(style, &mut reader, &mut arena);
    let consumed = reader.position() as usize;
    let mut shown = Vec::new();
    let mut ctx = InstructionSerializeContext::new(style, RealWriter::new(Vec::new()));
    let mut iter = arena.iter(&schema);
    while let Some(e) = iter.next() {
        shown.push(e.debug_string());
        ctx.put_element(&e);
    }
    let (_, w) = ctx.into_parts();
    (shown, consumed, w.into_buffer())
}

#[test]
fn parse_and_write_back_simple() {
    let elements = [
        OperationElement::Operation,
        OperationElement::Register,
        OperationElement::OptionalNumber,
        OperationElement::Number,
    ];
    // an operation byte with the top bit set has its optional number
    let bytes = [0x81, 0x02, 0x00, 0x05, 0x00, 0x07, 0x00, 0xee];
    let (shown, consumed, written) = reparse(NumberStyle::U16, &elements, &bytes);
    assert_eq!(shown, vec!["129op", "0x0002r", "0x00000005ron", "0x00000007rn"]);
    assert_eq!(consumed, 7);
    assert_eq!(written, bytes[..7].to_vec());
    // without the top bit it has none
    let bytes = [0x01, 0x02, 0x00, 0x07, 0x00];
    let (shown, consumed, written) = reparse(NumberStyle::U16, &elements, &bytes);
    assert_eq!(shown, vec!["1op", "0x0002r", "<>ron", "0x00000007rn"]);
    assert_eq!(consumed, 5);
    assert_eq!(written, bytes.to_vec());
}

#[test]
fn parse_and_write_back_varint_arrays() {
    let elements = [
        OperationElement::NumberArray(LengthKind::U8Length),
        OperationElement::PadNumberArray(LengthKind::U16Length),
        OperationElement::BitmaskNumberArray,
        OperationElement::RegisterArray(LengthKind::U8Length),
        OperationElement::OffsetArray(LengthKind::U8Length),
    ];
    let bytes = [
        2, 0x05, 0x81, 0x01, // two numbers: one byte, then two bytes
        1, 0, 0x12, 0x34, 0x56, 0x78, // one padded number
        0b101, 0x03, 0x04, // a mask with two bits and their numbers
        1, 0x09, 0x00, // one register
        1, 0x10, 0, 0, 0, // one offset
    ];
    let (shown, consumed, written) = reparse(NumberStyle::VarInt, &elements, &bytes);
    assert_eq!(
        shown,
        vec![
            "rn[0x00000005, 0x00000181]",
            "rn[0x78563412]",
            "bm{0x5/[0x00000003, 0x00000004]}",
            "r[0x0009]",
            "j[0x000010]",
        ]
    );
    assert_eq!(consumed, bytes.len());
    assert_eq!(written, bytes.to_vec());
}

#[test]
fn parse_and_write_back_expression_and_strings() {
    let elements = [
        OperationElement::Expression,
        OperationElement::String(LengthKind::U8Length),
        OperationElement::StringArray(LengthKind::U16Length),
        OperationElement::HiguSuiWipeArg,
    ];
    let bytes = [
        0x00, 0x07, 0x00, 0x01, 0x00, 0x02, 0x00, 0xff, // push 7, add, push 2, end
        3, b'a', b'b', 0, // a string
        4, 0, b'x', 0, b'y', 0, // a string array
        0, 0b0101, 0x01, 0x00, 0x02, 0x00, // wipe: b1 = 0, two numbers
    ];
    let (shown, consumed, written) = reparse(NumberStyle::U16, &elements, &bytes);
    assert_eq!(
        shown,
        vec![
            "exp{[0x0, 0x1, 0x0, 0xFF]/[0x00000007, 0x00000002]}",
            "s[61 62 0]",
            "sa[78 0 79 0]",
            "higu_sui_wipe{b1: 0x00, b2: 0x05, numbers: [0x00000001, 0x00000002]}",
        ]
    );
    assert_eq!(consumed, bytes.len());
    assert_eq!(written, bytes.to_vec());
}

#[test]
fn parse_context_remembers_operation() {
    let mut ctx = InstructionParseContext::new(NumberStyle::U16);
    let bytes = [0x80, 0x03, 0x00];
    let mut reader = Reader::new(&bytes, 0);
    let mut arena = OperationArena::new();
    ctx.take_element(&mut reader, &mut arena, OperationElement::Operation);
    ctx.take_element(&mut reader, &mut arena, OperationElement::OptionalNumber);
    assert_eq!(arena.u8s, vec![0x80]);
    assert_eq!(arena.numbers, vec![3]);
    assert_eq!(reader.position(), 3);
}

#[test]
fn schema_consistency() {
    let mut diags = Vec::new();
    // the groups each version belongs to: before or after the newer engine, not Konosuba,
    // with planes, a Higurashi game, with the newer instructions
    let groups = [
        (ShinVersion::HigurashiSui, true, false, true, false, true, false),
        (ShinVersion::AliasCarnival, true, false, true, false, false, false),
        (ShinVersion::WhiteEternity, false, true, true, false, false, false),
        (ShinVersion::HigurashiHou, false, true, true, false, true, true),
        (ShinVersion::HigurashiHouV2, false, true, true, false, true, true),
        (ShinVersion::DC4, false, true, true, true, false, true),
        (ShinVersion::Konosuba, false, true, false, false, false, true),
        (ShinVersion::Umineko, false, true, true, true, false, true),
        (ShinVersion::Gerokasu2, false, true, true, true, false, true),
    ];
    for (version, pre_shin, post_shin, not_konosuba, post_plane, higurashi, switch) in groups {
        let facts = VersionFacts {
            version,
            number_style: if pre_shin { NumberStyle::U16 } else { NumberStyle::VarInt },
            pre_shin,
            post_shin,
            not_konosuba,
            post_plane,
            higurashi,
            switch,
            mm_gt_st_length: LengthKind::U16Length,
            gt_gosubt_length: LengthKind::U16Length,
            string_sizes: sizes(LengthKind::U16Length),
        };
        let schema = get_schema_for_version(facts);
        let names = schema.opcode_map();
        for (raw, name) in names.iter().enumerate() {
            if let Some(operation) = name {
                if schema.lookup_operation(*operation).is_none() {
                    diags.push(format!("{:?}: opcode 0x{:02x} names {:?}, which has no schema", facts.version, raw, operation));
                }
            }
        }
        for k in 0..INSTRUCTION_COUNT {
            let instruction = Instruction::from_index(k);
            let named = names.iter().any(|n| *n == Some(Opcode::Instruction(instruction)));
            if named != schema.lookup_instruction(instruction).is_some() {
                diags.push(format!("{:?}: {:?} should have a schema exactly when an opcode names it", facts.version, instruction));
            }
        }
        for k in 0..COMMAND_COUNT {
            let command = Command::from_index(k);
            let named = names.iter().any(|n| *n == Some(Opcode::Command(command)));
            if named != schema.lookup_command(command).is_some() {
                diags.push(format!("{:?}: {:?} should have a schema exactly when an opcode names it", facts.version, command));
            }
        }
    }
    assert!(diags.is_empty(), "Found following issues with the schema:\n{}", diags.join("\n"));
}
