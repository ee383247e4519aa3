use shin_tl::font::{fnt0_lz77_decompress, font0_map_sjis_to_index, FontError, FontMetrics};

const GLYPHS: usize = 8244;

/// A version 0 font whose every character uses one glyph header placed after the table.
fn font_with_one_glyph() -> Vec<u8> {
    let mut data = Vec::new();
    data.extend_from_slice(b"FNT4");
    data.extend_from_slice(&0u32.to_le_bytes());
    data.extend_from_slice(&28u16.to_le_bytes());
    data.extend_from_slice(&4u16.to_le_bytes());
    data.extend_from_slice(&0u32.to_le_bytes());
    let glyph_offset = (16 + 4 * GLYPHS) as u32;
    for _ in 0..GLYPHS {
        data.extend_from_slice(&glyph_offset.to_le_bytes());
    }
    // bearing_x, bearing_y, width, height, advance_width, unk, compressed_size
    data.extend_from_slice(&[0xff, 2, 3, 4, 5, 0, 0, 0]);
    data
}

#[test]
fn sjis_index_ascii_and_katakana() {
    assert_eq!(font0_map_sjis_to_index(0x20), Some(0));
    assert_eq!(font0_map_sjis_to_index(0x41), Some(0x21));
    assert_eq!(font0_map_sjis_to_index(0x7f), Some(0x5f));
    assert_eq!(font0_map_sjis_to_index(0xa0), Some(0x60));
    assert_eq!(font0_map_sjis_to_index(0xdf), Some(0x9f));
}

#[test]
fn sjis_index_double_byte() {
    assert_eq!(font0_map_sjis_to_index(0x8140), Some(0xc0));
    assert_eq!(font0_map_sjis_to_index(0x8180), Some(0xff));
    assert_eq!(font0_map_sjis_to_index(0x8240), Some(0xc0 + 188));
    assert_eq!(font0_map_sjis_to_index(0xe040), Some(0x16c4 + 0xc0));
    assert_eq!(font0_map_sjis_to_index(0xf040), Some(0x16c4 + 0x814 + 0xc0));
}

#[test]
fn sjis_index_unmapped() {
    assert_eq!(font0_map_sjis_to_index(0x1f), None);
    assert_eq!(font0_map_sjis_to_index(0x80), None);
    assert_eq!(font0_map_sjis_to_index(0x827f), None);
    assert_eq!(font0_map_sjis_to_index(0x813f), None);
    assert_eq!(font0_map_sjis_to_index(0x81fd), None);
    assert_eq!(font0_map_sjis_to_index(0xa040), None);
}

#[test]
fn lz77_literals() {
    let mut out = Vec::new();
    fnt0_lz77_decompress(&[0x00, 1, 2, 3, 4, 5, 6, 7, 8], &mut out);
    assert_eq!(out, vec![1, 2, 3, 4, 5, 6, 7, 8]);
}

#[test]
fn lz77_back_reference() {
    // literal 'A', then a back reference of length 1 + 2 at distance 0 + 1
    let mut out = Vec::new();
    fnt0_lz77_decompress(&[0x02, 0x41, 0x01], &mut out);
    assert_eq!(out, vec![0x41; 4]);
    // two literals, then length 0 + 2 at distance 1 + 1
    let mut out = Vec::new();
    fnt0_lz77_decompress(&[0x04, 1, 2, 0x08], &mut out);
    assert_eq!(out, vec![1, 2, 1, 2]);
}

#[test]
fn lz77_appends_to_output() {
    let mut out = vec![9];
    fnt0_lz77_decompress(&[0x00, 7], &mut out);
    assert_eq!(out, vec![9, 7]);
}

#[test]
fn font0_reads_header_and_metrics() {
    let data = font_with_one_glyph();
    let font = match FontMetrics::from_font0(&data) {
        Ok(f) => f,
        Err(e) => panic!("font rejected: {:?}", e),
    };
    let info = font.get_info();
    assert_eq!(info.ascent, 28);
    assert_eq!(info.descent, 4);
    let m = font.get_glyph_metrics(0x41).unwrap();
    assert_eq!(m.bearing_x, -1);
    assert_eq!(m.bearing_y, 2);
    assert_eq!(m.width, 3);
    assert_eq!(m.height, 4);
    assert_eq!(m.advance_width, 5);
}

#[test]
fn font0_errors() {
    assert!(matches!(FontMetrics::from_font0(b"FNT"), Err(FontError::UnexpectedEof)));
    assert!(matches!(FontMetrics::from_font0(b"FNT3\0\0\0\0"), Err(FontError::BadMagic)));
    assert!(matches!(FontMetrics::from_font0(b"FNT4\0\0\0\0\0\0\0\0\0\0\0\0"), Err(FontError::UnexpectedEof)));
    let mut data = font_with_one_glyph();
    data.truncate(16 + 4 * GLYPHS + 4);
    assert!(matches!(
        FontMetrics::from_font0(&data),
        Err(FontError::GlyphOutOfBounds { character: 0, offset }) if offset == (16 + 4 * GLYPHS) as u32
    ));
}

#[test]
fn sjis_index_is_increasing_and_dense() {
    // consecutive code points of the font get consecutive indices, `0x7f` skipped
    assert_eq!(font0_map_sjis_to_index(0xdf), Some(0x9f));
    assert_eq!(font0_map_sjis_to_index(0x8140), Some(192));
    assert_eq!(font0_map_sjis_to_index(0x817e), Some(254));
    assert_eq!(font0_map_sjis_to_index(0x8180), Some(255));
    assert_eq!(font0_map_sjis_to_index(0x81fc), Some(379));
    assert_eq!(font0_map_sjis_to_index(0x8240), Some(380));
    // the ranges follow each other without a hole
    assert_eq!(font0_map_sjis_to_index(0x9ffc), Some(6019));
    assert_eq!(font0_map_sjis_to_index(0xe040), Some(6020));
    assert_eq!(font0_map_sjis_to_index(0xeafc), Some(8087));
    assert_eq!(font0_map_sjis_to_index(0xf040), Some(8088));
    assert_eq!(font0_map_sjis_to_index(0xf0fc), Some(192 + 0x16c4 + 0x814 + 0xbc - 1));

    let mut last = None;
    for cp in 0u32..0x1_0000 {
        if let Some(i) = font0_map_sjis_to_index(cp) {
            if let Some(prev) = last {
                assert!(i == prev + 1 || (prev == 0x9f && i == 192), "{cp:#x}: {prev} then {i}");
            }
            last = Some(i);
        }
    }
    assert_eq!(last, Some(192 + 0x16c4 + 0x814 + 0xbc - 1));
}
