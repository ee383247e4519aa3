use shin_tl::snr::layout::message_parser::lint::AnyDiagnostic;
use shin_tl::snr::operation::arena::OperationArena;
use shin_tl::snr::operation::repr::OperationElementRepr;
use shin_tl::snr::operation::schema::{Command, Instruction, Opcode, OperationElement, OperationSchema};
use shin_tl::snr::reactor::dump_bin::DumpBinReactor;
use shin_tl::snr::reactor::location_painter::{LocationColor, LocationPainterReactor};
use shin_tl::snr::reactor::offset_validator::OffsetValidatorReactor;
use shin_tl::snr::reactor::rewrite::csv_rewriter::{
    parse_hex_offset, CsvData, CsvRewriter, RawEntry, StringReplacementMode,
};
use shin_tl::snr::reactor::rewrite::noop_rewriter::NoopRewriter;
use shin_tl::snr::reactor::rewrite::x_rewriter::XRewriter;
use shin_tl::snr::reactor::rewrite::{BuildOffsetMapMode, OffsetMap, OffsetMapBuilder};
use shin_tl::snr::reactor::trace::CsvTraceListener;
use shin_tl::snr::reactor::{AnyStringSource, Reactor, StringArraySource, StringSource};
use shin_tl::snr::reader::Reader;
use shin_tl::versions::{AnyStringKind, LengthKind, MessageCommandStyle, NumberStyle, StringArrayKind, StringKind};

const MSG: AnyStringSource = AnyStringSource::Singular(StringSource::Msgset(7));

fn row(index: u32, offset: u32, s: &str, translated: Option<&str>) -> RawEntry {
    RawEntry {
        index,
        offset,
        source: AnyStringKind::Singular(StringKind::Msgset),
        source_subindex: 7,
        s: s.to_string(),
        translated: translated.map(|t| t.to_string()),
    }
}

#[test]
fn string_sources() {
    assert_eq!(MSG.kind(), AnyStringKind::Singular(StringKind::Msgset));
    assert_eq!(MSG.subindex(), 7);
    assert!(MSG.is_for_messagebox());
    assert!(MSG.contains_commands());
    let choice = AnyStringSource::Array(StringArraySource::Select, 2);
    assert_eq!(choice.kind(), AnyStringKind::Array(StringArrayKind::SelectChoice));
    assert_eq!(choice.subindex(), 2);
    assert!(!choice.is_for_messagebox());
    assert!(choice.contains_commands());
    let save = StringSource::Saveinfo;
    assert!(!save.is_for_messagebox() && !save.contains_commands());
    assert_eq!(StringSource::from_kind(StringKind::Msgset, 3), StringSource::Msgset(3));
    assert_eq!(StringSource::from_kind(StringKind::Logset, 3), StringSource::Logset);
    assert!(StringSource::Logset.is_for_messagebox());
}

#[test]
fn dump_bin_writes_message_strings() {
    let mut arena = OperationArena::new();
    arena.u32s.push(42);
    arena.strings.push(b"hi\0");
    let elements = [OperationElement::U32, OperationElement::String(LengthKind::U16Length)];
    let schema = OperationSchema { elements: &elements };
    let mut r = DumpBinReactor::new(vec![1]);
    r.react(0, 0x86, Opcode::Command(Command::MSGSET), &schema, &arena);
    assert_eq!(r.into_writer(), vec![1, b'h', b'i', 0]);

    let mut arena = OperationArena::new();
    arena.numbers.push(3);
    arena.strings.push(b"save\0");
    let elements = [OperationElement::Number, OperationElement::String(LengthKind::U8Length)];
    let schema = OperationSchema { elements: &elements };
    let mut r = DumpBinReactor::new(Vec::new());
    r.react(0, 0xa0, Opcode::Command(Command::SAVEINFO), &schema, &arena);
    assert!(r.into_writer().is_empty());
}

#[test]
fn offset_validator_accepts_and_reports() {
    let mut arena = OperationArena::new();
    arena.offsets.push(0x20);
    let jump = [OperationElement::Offset];
    let none: [OperationElement; 0] = [];
    let mut v = OffsetValidatorReactor::new();
    v.react(0x10, 0x47, Opcode::Instruction(Instruction::j), &OperationSchema { elements: &jump }, &arena);
    v.react(0x20, 0x49, Opcode::Instruction(Instruction::retsub), &OperationSchema { elements: &none }, &OperationArena::new());
    assert_eq!(v.validate(), Ok(()));

    let mut arena = OperationArena::new();
    arena.offsets.push(0x30);
    let mut v = OffsetValidatorReactor::new();
    v.react(0x10, 0x47, Opcode::Instruction(Instruction::j), &OperationSchema { elements: &jump }, &arena);
    assert_eq!(v.validate(), Err("1 invalid offsets\n- 0x00000030".to_string()));
}

#[test]
fn offset_validator_caps_the_list() {
    let mut arena = OperationArena::new();
    arena.offsets = (1..=40u32).collect();
    arena.lengths.push(40);
    let table = [OperationElement::OffsetArray(LengthKind::U8Length)];
    let mut v = OffsetValidatorReactor::new();
    v.react(0, 0x4a, Opcode::Instruction(Instruction::jt), &OperationSchema { elements: &table }, &arena);
    let err = v.validate().unwrap_err();
    let lines: Vec<&str> = err.lines().collect();
    assert_eq!(lines[0], "40 invalid offsets");
    assert_eq!(lines.len(), 1 + 32 + 1);
    assert_eq!(lines[33], "...");
    assert!(lines[1..33].iter().all(|l| l.starts_with("- 0x000000")));
}

#[test]
fn hex_offsets() {
    assert_eq!(parse_hex_offset("0x1f"), Some(31));
    assert_eq!(parse_hex_offset("1F"), Some(31));
    assert_eq!(parse_hex_offset("0xffffffff"), Some(u32::MAX));
    assert_eq!(parse_hex_offset("0x100000000"), None);
    assert_eq!(parse_hex_offset("0x"), None);
    assert_eq!(parse_hex_offset(""), None);
    assert_eq!(parse_hex_offset("0xg"), None);
    assert_eq!(parse_hex_offset("+a"), Some(10));
}

#[test]
fn csv_rewriter_replaces_strings() {
    let data = CsvData::new(vec![row(0, 0x10, "orig", Some("tr")), row(1, 0x20, "keep", None), row(100, 0x30, "far", None)]);
    let only = CsvRewriter::new(data, StringReplacementMode::TranslatedOnly);
    assert_eq!(only.rewrite_string(0, 0x10, MSG), Some("tr"));
    assert_eq!(only.rewrite_string(1, 0x20, MSG), None);
    assert_eq!(only.rewrite_string(2, 0x99, MSG), None);
    assert_eq!(only.rewrite_string(100, 0x30, MSG), None);

    let data = CsvData::new(vec![row(0, 0x10, "orig", Some("tr")), row(1, 0x20, "keep", None)]);
    let or = CsvRewriter::new(data, StringReplacementMode::TranslatedOrOriginal);
    assert_eq!(or.rewrite_string(0, 0x10, MSG), Some("tr"));
    assert_eq!(or.rewrite_string(1, 0x20, MSG), Some("keep"));
}

#[test]
fn csv_entries_and_modes() {
    let e = row(0, 0x10, "orig", None).into_entry();
    assert_eq!(e.source, MSG);
    assert_eq!(e.get_effective_string(StringReplacementMode::TranslatedOnly), None);
    assert_eq!(e.get_effective_string(StringReplacementMode::TranslatedOrOriginal), Some("orig"));
    assert_eq!(StringReplacementMode::default(), StringReplacementMode::TranslatedOnly);
}

#[test]
fn csv_lint_reports_lines() {
    let data = CsvData::new(vec![row(0, 0x10, "@rok", None), row(1, 0x20, "a@q", None), row(2, 0x30, "x", Some("@w"))]);
    assert!(data.lint(StringReplacementMode::TranslatedOnly, MessageCommandStyle::Escaped).is_err());
    let reports = match data.lint(StringReplacementMode::TranslatedOrOriginal, MessageCommandStyle::Escaped) {
        Ok(()) => panic!("expected reports"),
        Err(r) => r,
    };
    assert_eq!(reports.len(), 2);
    assert_eq!(reports[0].index, 1);
    assert_eq!(reports[0].src, "a@q");
    assert_eq!(reports[0].diagnostics, vec![AnyDiagnostic::UnknownCommand { offset: 1, len: 2, advice_style: false }]);
    assert_eq!(reports[1].index, 2);
    assert_eq!(reports[1].diagnostics, vec![AnyDiagnostic::MissingCommandArgument { offset: 0, len: 2 }]);

    let clean = CsvData::new(vec![row(0, 0x10, "@rok", None)]);
    assert!(clean.lint(StringReplacementMode::TranslatedOrOriginal, MessageCommandStyle::Escaped).is_ok());
}

#[test]
fn simple_rewriters() {
    assert_eq!(XRewriter.rewrite_string("anything", 0, 0, StringSource::Msgset(1)), Some("X"));
    let noop = NoopRewriter::new(MessageCommandStyle::Unescaped, MessageCommandStyle::Escaped);
    assert_eq!(noop.rewrite_string("r!a", 0, 0, MSG), Some("@ra".to_string()));
    assert_eq!(noop.rewrite_string("r!a", 0, 0, AnyStringSource::Singular(StringSource::Saveinfo)), Some("r!a".to_string()));
}

#[test]
fn trace_records() {
    let mut l = CsvTraceListener::new();
    l.add(0xabcd, MSG, "hello");
    l.add(0x10, AnyStringSource::Array(StringArraySource::Select, 1), "choice");
    let records = l.into_records();
    assert_eq!(records.len(), 2);
    assert_eq!(records[0].index, 0);
    assert_eq!(records[0].offset, "0x0000abcd");
    assert_eq!(records[0].source, AnyStringKind::Singular(StringKind::Msgset));
    assert_eq!(records[0].source_subindex, 7);
    assert_eq!(records[0].s, "hello");
    assert!(records[0].translated.is_none());
    assert_eq!(records[1].index, 1);
    assert_eq!(records[1].offset, "0x00000010");
    assert_eq!(records[1].source, AnyStringKind::Array(StringArrayKind::SelectChoice));
}

#[test]
fn offset_map_from_builder() {
    let empty = OffsetMap::new();
    assert_eq!(empty.get(0), None);
    let built = OffsetMapBuilder::new().build();
    assert_eq!(built.get(5), None);
}

#[test]
fn two_pass_rewrite_moves_offsets() {
    // input: `j 0x5` at 0 (five bytes), `retsub` at 5
    let mut first = BuildOffsetMapMode::new(NumberStyle::U16, 0);
    first.instr_start(0, 0x47);
    first.put_element(&OperationElementRepr::Offset(5));
    first.instr_start(5, 0x49);
    first.end_of_stream();
    assert_eq!(first.output_size(), 16);

    let mut second = first.into_emit(Vec::new());
    second.instr_start(0, 0x47);
    second.put_element(&OperationElementRepr::Offset(5));
    second.instr_start(5, 0x49);
    second.end_of_stream();
    let out = second.finish();
    let mut expected = vec![0x47, 5, 0, 0, 0, 0x49];
    expected.resize(16, 0);
    assert_eq!(out, expected);
}

#[test]
fn two_pass_rewrite_with_longer_operations() {
    // the output starts at 0x100, so the operation at input offset 3 lands at 0x104
    let mut first = BuildOffsetMapMode::new(NumberStyle::U16, 0x100);
    first.instr_start(0, 0x80);
    first.put_element(&OperationElementRepr::U16(7));
    first.put_element(&OperationElementRepr::U8(1));
    first.instr_start(3, 0x47);
    first.put_element(&OperationElementRepr::Offset(3));
    first.end_of_stream();
    assert_eq!(first.output_size(), 0x110);

    let mut second = first.into_emit(Vec::new());
    second.instr_start(0, 0x80);
    second.put_element(&OperationElementRepr::U16(7));
    second.put_element(&OperationElementRepr::U8(1));
    second.instr_start(3, 0x47);
    second.put_element(&OperationElementRepr::Offset(3));
    let out = second.finish();
    assert_eq!(out, vec![0x80, 7, 0, 1, 0x47, 0x04, 0x01, 0, 0]);
}

#[test]
fn location_painter_colors_bytes() {
    let data = [1u8, 2, 3, 4, 5, 6, 7, 0, 0];
    let mut p = LocationPainterReactor::new(Reader::new(&data, 0));
    assert_eq!(p.byte(), 1);
    assert_eq!(p.short(), 0x0302);
    p.reg();
    assert_eq!(p.in_location(), 5);
    let colors = p.finish();
    assert_eq!(
        colors,
        vec![
            LocationColor::Byte,
            LocationColor::Short,
            LocationColor::Short,
            LocationColor::Reg,
            LocationColor::Reg,
            LocationColor::Unmarked,
            LocationColor::Unmarked,
            LocationColor::Unmarked,
            LocationColor::Unmarked,
        ]
    );
    assert_eq!(LocationColor::default(), LocationColor::Unmarked);
}
