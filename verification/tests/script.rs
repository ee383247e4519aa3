use shin_tl::snr::location_painter::{paint_locations, LocationColor};
use shin_tl::snr::operation::schema::def::get_schema_for_version;
use shin_tl::snr::operation::schema::EngineSchema;
use shin_tl::snr::reactor::dump_bin::DumpBinReactor;
use shin_tl::snr::reactor::offset_validator::OffsetValidatorReactor;
use shin_tl::snr::reactor::{react_with, AnyStringSource, StringSource};
use shin_tl::snr::reader::Reader;
use shin_tl::snr::reactor::rewrite::noop_rewriter::NoopRewriter;
use shin_tl::snr::reactor::rewrite::rewrite_reactor::RewriteReactor;
use shin_tl::snr::reactor::rewrite::stringer::{Position, Stringer};
use shin_tl::snr::reactor::rewrite::x_rewriter::XRewriter;
use shin_tl::versions::{LengthKind, MessageCommandStyle, NumberStyle, ShinVersion, StringSizes, VersionFacts};

fn higurashi_sui_schema() -> EngineSchema {
    let k = LengthKind::U8Length;
    get_schema_for_version(VersionFacts {
        version: ShinVersion::HigurashiSui,
        number_style: NumberStyle::U16,
        pre_shin: true,
        post_shin: false,
        not_konosuba: true,
        post_plane: false,
        higurashi: true,
        switch: false,
        mm_gt_st_length: LengthKind::U8Length,
        gt_gosubt_length: LengthKind::U16Length,
        string_sizes: StringSizes {
            saveinfo: k,
            select: k,
            msgset: LengthKind::U16Length,
            dbgout: k,
            logset: k,
            voiceplay: k,
            chatset: k,
            named: k,
            stageinfo: k,
            select_choice: LengthKind::U16Length,
        },
    })
}

/// `j target` followed by `retsub`, padded with zeros to 16 bytes.
fn jump_script(target: u8) -> Vec<u8> {
    let mut s = vec![0x47, target, 0, 0, 0, 0x49];
    s.resize(16, 0);
    s
}

#[test]
fn react_with_validates_offsets_of_a_script() {
    let schema = higurashi_sui_schema();
    let script = jump_script(5);
    let mut v = OffsetValidatorReactor::new();
    react_with(Reader::new(&script, 0), &schema, &mut v);
    assert_eq!(v.validate(), Ok(()));

    let script = jump_script(7);
    let mut v = OffsetValidatorReactor::new();
    react_with(Reader::new(&script, 0), &schema, &mut v);
    assert_eq!(v.validate(), Err("1 invalid offsets\n- 0x00000007".to_string()));
}

#[test]
fn react_with_dumps_message_strings() {
    let schema = higurashi_sui_schema();
    let mut script = vec![0x86, 42, 0, 0, 0, 3, 0, b'h', b'i', 0, 0x49, 0x86, 1, 0, 0, 0, 2, 0, b'!', 0];
    script.resize(32, 0);
    let mut r = DumpBinReactor::new(Vec::new());
    react_with(Reader::new(&script, 0), &schema, &mut r);
    assert_eq!(r.into_writer(), b"hi\0!\0".to_vec());
}

#[test]
fn react_with_on_padding_only_does_nothing() {
    let schema = higurashi_sui_schema();
    let script = vec![0u8; 16];
    let mut r = DumpBinReactor::new(vec![9]);
    react_with(Reader::new(&script, 0), &schema, &mut r);
    assert_eq!(r.into_writer(), vec![9]);
}

#[test]
fn paint_locations_of_a_script() {
    let schema = higurashi_sui_schema();
    let script = jump_script(5);
    let colors = paint_locations(Reader::new(&script, 0), &schema);
    let mut expected = vec![
        LocationColor::Opcode,
        LocationColor::Offset,
        LocationColor::Offset,
        LocationColor::Offset,
        LocationColor::Offset,
        LocationColor::Opcode,
    ];
    expected.resize(16, LocationColor::Unmarked);
    assert_eq!(colors, expected);

    // starting past the first operation leaves its bytes unmarked
    let colors = paint_locations(Reader::new(&script, 5), &schema);
    let mut expected = vec![LocationColor::Unmarked; 16];
    expected[5] = LocationColor::Opcode;
    assert_eq!(colors, expected);
}

/// `j` to the `retsub`, a message "hi", then `retsub`, padded with zeros.
fn message_script() -> Vec<u8> {
    let mut s = vec![0x47, 15, 0, 0, 0, 0x86, 42, 0, 0, 0, 3, 0, b'h', b'i', 0, 0x49];
    s.resize(32, 0);
    s
}

#[test]
fn rewrite_replaces_strings_and_moves_offsets() {
    let schema = higurashi_sui_schema();
    let script = message_script();
    let style = MessageCommandStyle::Escaped;
    let mut r = RewriteReactor::new(NumberStyle::U16, style, style, false, XRewriter, 0);
    react_with(Reader::new(&script, 0), &schema, &mut r);
    assert_eq!(r.output_size(), 16);
    let mut r = r.into_emit(Vec::new());
    react_with(Reader::new(&script, 0), &schema, &mut r);
    assert_eq!(
        r.finish(),
        vec![0x47, 14, 0, 0, 0, 0x86, 42, 0, 0, 0, 2, 0, b'X', 0, 0x49, 0]
    );
}

#[test]
fn rewrite_with_noop_keeps_the_script() {
    let schema = higurashi_sui_schema();
    let script = message_script();
    let style = MessageCommandStyle::Escaped;
    let mut r = RewriteReactor::new(NumberStyle::U16, style, style, false, NoopRewriter::new(style, style), 0);
    react_with(Reader::new(&script, 0), &schema, &mut r);
    let mut r = r.into_emit(Vec::new());
    react_with(Reader::new(&script, 0), &schema, &mut r);
    assert_eq!(r.finish(), script[..16].to_vec());
}

#[test]
fn stringer_rewrites_array_choices() {
    let style = MessageCommandStyle::Escaped;
    let stringer = Stringer::new(style, style, false, XRewriter);
    let mut position = Position::default();
    let out = stringer.rewrite_array(&mut position, b"yes\0no\0\0");
    assert_eq!(out, b"X\0X\0\0".to_vec());
    assert_eq!(position.current_str_index, 2);
    let out = stringer.rewrite_string(&mut position, b"abc\0", AnyStringSource::Singular(StringSource::Saveinfo));
    assert_eq!(out, b"X\0".to_vec());
    assert_eq!(position.current_str_index, 3);
}

#[test]
fn rewrite_passes_agree_after_a_buffer() {
    let schema = higurashi_sui_schema();
    let script = message_script();
    let style = MessageCommandStyle::Escaped;
    let mut r = RewriteReactor::new(NumberStyle::U16, style, style, false, XRewriter, 4);
    react_with(Reader::new(&script, 0), &schema, &mut r);
    let size = r.output_size();
    assert_eq!(size, 32);
    let mut r = r.into_emit(vec![9, 9, 9, 9]);
    react_with(Reader::new(&script, 0), &schema, &mut r);
    let out = r.finish();
    assert_eq!(out.len(), size as usize);
    assert_eq!(out.len() % 16, 0);
    let mut expected = vec![9, 9, 9, 9, 0x47, 18, 0, 0, 0, 0x86, 42, 0, 0, 0, 2, 0, b'X', 0, 0x49];
    expected.resize(32, 0);
    assert_eq!(out, expected);
    // the jump leads to where its target was written
    assert_eq!(out[18], 0x49);
}
