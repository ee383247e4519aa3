//! Fonts (FNT): glyph metrics, the character table and the glyph bitmap compression.
use vstd::prelude::*;

use crate::le::{le_value, lemma_le_value_small};
use crate::snr::reader::Reader;

verus! {

/// Placement and size of one glyph.
#[derive(Debug, Copy, Clone, PartialEq, Eq, Structural)]
pub struct GlyphMetrics {
    pub bearing_x: i8,
    pub bearing_y: i8,
    pub advance_width: u8,
    pub width: u8,
    pub height: u8,
}

impl Default for GlyphMetrics {
    fn default() -> (r: Self)
        ensures
            r == (GlyphMetrics { bearing_x: 0, bearing_y: 0, advance_width: 0, width: 0, height: 0 }),
    {
        GlyphMetrics { bearing_x: 0, bearing_y: 0, advance_width: 0, width: 0, height: 0 }
    }
}

/// An ID of the glyph within the FNT file.
#[derive(Copy, Clone, Debug, PartialEq, Eq, Structural)]
pub struct GlyphId(pub u32);

/// Vertical metrics of a font.
#[derive(Copy, Clone, Debug, PartialEq, Eq, Structural)]
pub struct FontInfo {
    /// Distance between the baseline and the top of the font.
    pub ascent: u16,
    /// Distance between the baseline and the bottom of the font.
    pub descent: u16,
}

/// The kinds of font files.
#[derive(Copy, Clone, Debug, PartialEq, Eq, Structural)]
pub enum FontType {
    Font0,
}

/// The metrics of every glyph of a font, in character-table order.
pub struct FontMetrics {
    font_type: FontType,
    metrics: Vec<GlyphMetrics>,
    info: FontInfo,
}

/// The number of characters of a version 0 font.
pub const FONT0_GLYPH_COUNT: usize = 8244;

/// Why a font file could not be read.
#[derive(Copy, Clone, Debug, PartialEq, Eq, Structural)]
pub enum FontError {
    /// The file does not start with `FNT4`.
    BadMagic,
    /// The file ends before the header or the character table is complete.
    UnexpectedEof,
    /// A glyph header lies outside the file.
    GlyphOutOfBounds { character: u32, offset: u32 },
}

/// The double-byte Shift-JIS ranges of a version 0 font: their number of glyphs and their
/// first and last code point.
pub open spec fn sjis_ranges() -> Seq<(u32, u32, u32)> {
    seq![(0x16c4u32, 0x8100u32, 0x9fffu32), (0x814u32, 0xe000u32, 0xeaffu32), (0xbcu32, 0xf000u32, 0xf0ffu32)]
}

/// The glyph index of a double-byte code point in range `k`, whose preceding ranges hold
/// `accum` glyphs; `None` for an invalid low byte.
pub open spec fn double_byte_index(cp: u32, begin: u32, accum: int) -> Option<u32> {
    let lo = (cp & 0xff) as int;
    let hi0 = ((cp - begin) as u32 >> 8u32) as int * 188 + accum;
    let hi = if cp & 0x80 != 0 {
        hi0 - 1
    } else {
        hi0
    };
    if !(0x40 <= lo <= 0xfc) || lo == 0x7f {
        None
    } else {
        Some((hi + lo + 0x20 + 0x60) as u32)
    }
}

/// The index in the character table of a Shift-JIS code point, if the font has it.
pub open spec fn font0_index_of(cp: u32) -> Option<u32> {
    if 0x20 <= cp <= 0x7f {
        Some((cp - 0x20) as u32)
    } else if 0xa0 <= cp <= 0xdf {
        Some((cp - 0xa0 + 0x60) as u32)
    } else if 0x8100 <= cp <= 0x9fff {
        double_byte_index(cp, 0x8100, 0)
    } else if 0xe000 <= cp <= 0xeaff {
        double_byte_index(cp, 0xe000, 0x16c4)
    } else if 0xf000 <= cp <= 0xf0ff {
        double_byte_index(cp, 0xf000, 0x16c4int + 0x814int)
    } else {
        None
    }
}

/// The index in the character table of a Shift-JIS code point: ASCII first, then the
/// single-byte katakana, then each double-byte range, two Shift-JIS rows of 94 characters
/// per high byte.
pub fn font0_map_sjis_to_index(sjis_codepoint: u32) -> (r: Option<u32>)
    ensures
        r == font0_index_of(sjis_codepoint),
{
    if 0x20 <= sjis_codepoint && sjis_codepoint <= 0x7f {
        return Some(sjis_codepoint - 0x20);
    }
    if 0xa0 <= sjis_codepoint && sjis_codepoint <= 0xdf {
        return Some(sjis_codepoint - 0xa0 + 0x60);
    }
    let sizes: [u32; 3] = [0x16c4, 0x814, 0xbc];
    let begins: [u32; 3] = [0x8100, 0xe000, 0xf000];
    let ends: [u32; 3] = [0x9fff, 0xeaff, 0xf0ff];
    let mut range_size_accum: u32 = 0;
    let mut k: usize = 0;
    while k < 3
        invariant
            k <= 3,
            sizes@ == seq![0x16c4u32, 0x814u32, 0xbcu32],
            begins@ == seq![0x8100u32, 0xe000u32, 0xf000u32],
            ends@ == seq![0x9fffu32, 0xeaffu32, 0xf0ffu32],
            range_size_accum == (if k == 0 {
                0
            } else if k == 1 {
                0x16c4
            } else if k == 2 {
                0x16c4 + 0x814
            } else {
                0x16c4 + 0x814 + 0xbc
            }),
            forall|j: int| 0 <= j < k ==> !(#[trigger] begins@[j] <= sjis_codepoint <= ends@[j]),
            !(0x20 <= sjis_codepoint <= 0x7f),
            !(0xa0 <= sjis_codepoint <= 0xdf),
        decreases 3 - k,
    {
        let begin = begins[k];
        if begin <= sjis_codepoint && sjis_codepoint <= ends[k] {
            let d = sjis_codepoint - begin;
            assert(d <= 0x1fff);
            assert(d >> 8u32 <= 0x1f) by (bit_vector)
                requires
                    d <= 0x1fff,
            ;
            assert((sjis_codepoint & 0xff) <= 0xff) by (bit_vector);
            let hi0: i32 = ((d >> 8) * 188 + range_size_accum) as i32;
            let lo: i32 = (sjis_codepoint & 0xff) as i32;
            if !(0x40 <= lo && lo <= 0xfc) || lo == 0x7f {
                return None;
            }
            let hi = if sjis_codepoint & 0x80 != 0 {
                hi0 - 1
            } else {
                hi0
            };
            return Some((hi + lo + 0x20 + 0x60) as u32);
        }
        range_size_accum = range_size_accum + sizes[k];
        k = k + 1;
    }
    None
}

/// The metrics stored in the glyph header at `off`.
pub open spec fn glyph_metrics_at(data: Seq<u8>, off: int) -> GlyphMetrics {
    GlyphMetrics {
        bearing_x: data[off] as i8,
        bearing_y: data[off + 1] as i8,
        width: data[off + 2],
        height: data[off + 3],
        advance_width: data[off + 4],
    }
}

/// The glyph header offset of character `k` in the character table.
pub open spec fn table_offset(data: Seq<u8>, k: int) -> nat {
    le_value(data.subrange(16 + 4 * k, 20 + 4 * k))
}

/// The `FNT4` magic.
pub open spec fn font0_magic() -> Seq<u8> {
    seq![0x46u8, 0x4eu8, 0x54u8, 0x34u8]
}

/// The size of the header and character table of a version 0 font.
pub open spec fn font0_table_end() -> int {
    16int + 4int * 8244int
}

/// Whether the glyph header of character `k` lies inside the file.
pub open spec fn glyph_inside(data: Seq<u8>, k: int) -> bool {
    table_offset(data, k) + 8 <= data.len()
}

/// The first character whose glyph header lies outside the file.
pub open spec fn first_outside(data: Seq<u8>) -> int {
    choose|k: int| 0 <= k < 8244 && !glyph_inside(data, k) && forall|j: int| 0 <= j < k ==> glyph_inside(data, j)
}

/// The result of reading the metrics of a version 0 font from `data`.
pub open spec fn font0_result(data: Seq<u8>) -> Result<(FontInfo, Seq<GlyphMetrics>), FontError> {
    if data.len() < 4 {
        Err(FontError::UnexpectedEof)
    } else if data.take(4) != font0_magic() {
        Err(FontError::BadMagic)
    } else if data.len() < font0_table_end() {
        Err(FontError::UnexpectedEof)
    } else if exists|k: int| 0 <= k < 8244 && !glyph_inside(data, k) {
        let k = first_outside(data);
        Err(FontError::GlyphOutOfBounds { character: k as u32, offset: table_offset(data, k) as u32 })
    } else {
        Ok((
            FontInfo {
                ascent: le_value(data.subrange(8, 10)) as u16,
                descent: le_value(data.subrange(10, 12)) as u16,
            },
            Seq::new(8244, |k: int| glyph_metrics_at(data, table_offset(data, k) as int)),
        ))
    }
}

impl FontMetrics {
    /// The character-table order metrics of the glyphs.
    pub closed spec fn metrics(&self) -> Seq<GlyphMetrics> {
        self.metrics@
    }

    /// The vertical metrics of the font.
    pub closed spec fn info(&self) -> FontInfo {
        self.info
    }

    /// Reads the header and the metrics of every glyph of a version 0 font.
    pub fn from_font0(data: &[u8]) -> (r: Result<Self, FontError>)
        ensures
            match font0_result(data@) {
                Ok((info, metrics)) => r matches Ok(f) && f.info() == info && f.metrics() == metrics,
                Err(e) => r == Err::<Self, FontError>(e),
            },
    {
        let n = data.len();
        if n < 4 {
            return Err(FontError::UnexpectedEof);
        }
        if !(data[0] == 0x46 && data[1] == 0x4e && data[2] == 0x54 && data[3] == 0x34) {
            assert(data@.take(4) != font0_magic()) by {
                if data@.take(4) == font0_magic() {
                    assert(data@.take(4)[0] == data@[0]);
                    assert(data@.take(4)[1] == data@[1]);
                    assert(data@.take(4)[2] == data@[2]);
                    assert(data@.take(4)[3] == data@[3]);
                }
            }
            return Err(FontError::BadMagic);
        }
        assert(data@.take(4) =~= font0_magic());
        if n < 16 + 4 * 8244 {
            return Err(FontError::UnexpectedEof);
        }
        let mut reader = Reader::new(data, 8);
        let ascent = reader.take_u16();
        let descent = reader.take_u16();
        let mut metrics: Vec<GlyphMetrics> = Vec::with_capacity(FONT0_GLYPH_COUNT);
        let mut k: usize = 0;
        while k < FONT0_GLYPH_COUNT
            invariant
                k <= 8244,
                n == data@.len(),
                n >= font0_table_end(),
                data@.take(4) == font0_magic(),
                metrics@.len() == k,
                forall|j: int| 0 <= j < k ==> #[trigger] glyph_inside(data@, j),
                forall|j: int| 0 <= j < k ==> #[trigger] metrics@[j] == glyph_metrics_at(data@, table_offset(data@, j) as int),
            decreases 8244 - k,
        {
            let mut table_reader = Reader::new(data, 16 + 4 * k);
            let offset = table_reader.take_u32();
            assert(offset == table_offset(data@, k as int));
            if offset as usize > n || n - (offset as usize) < 8 {
                proof {
                    assert(!glyph_inside(data@, k as int));
                    assert(exists|j: int| 0 <= j < 8244 && !glyph_inside(data@, j));
                    assert(0 <= k < 8244 && !glyph_inside(data@, k as int) && forall|i: int| 0 <= i < k ==> glyph_inside(data@, i));
                    let c = first_outside(data@);
                    if c < k {
                        assert(glyph_inside(data@, c));
                    } else if c > k {
                        assert(glyph_inside(data@, k as int));
                    }
                    assert(c == k);
                }
                return Err(FontError::GlyphOutOfBounds { character: k as u32, offset });
            }
            let o = offset as usize;
            metrics.push(GlyphMetrics {
                bearing_x: data[o] as i8,
                bearing_y: data[o + 1] as i8,
                width: data[o + 2],
                height: data[o + 3],
                advance_width: data[o + 4],
            });
            k = k + 1;
        }
        assert(!exists|j: int| 0 <= j < 8244 && !glyph_inside(data@, j));
        assert(metrics@ =~= Seq::new(8244, |j: int| glyph_metrics_at(data@, table_offset(data@, j) as int)));
        Ok(FontMetrics { font_type: FontType::Font0, metrics, info: FontInfo { ascent, descent } })
    }

    pub fn get_info(&self) -> (r: FontInfo)
        ensures
            r == self.info(),
    {
        self.info
    }

    /// The metrics of the glyph of a character, given its Shift-JIS code point (the font
    /// table is indexed by Shift-JIS). The font must have the code point.
    pub fn get_glyph_metrics(&self, sjis_codepoint: u16) -> (r: Option<GlyphMetrics>)
        requires
            font0_index_of(sjis_codepoint as u32) matches Some(i) && (i as int) < self.metrics().len(),
        ensures
            r == Some(self.metrics()[font0_index_of(sjis_codepoint as u32).unwrap() as int]),
    {
        let index = match self.font_type {
            FontType::Font0 => match font0_map_sjis_to_index(sjis_codepoint as u32) {
                Some(i) => i as usize,
                None => 0,
            },
        };
        Some(self.metrics[index])
    }
}

/// `out` extended by `n` bytes, each copied from `back` bytes before the end (the copies
/// may overlap what they produce).
pub open spec fn copy_back(out: Seq<u8>, back: nat, n: nat) -> Seq<u8>
    decreases n,
{
    if n == 0 {
        out
    } else {
        copy_back(out.push(out[out.len() - back]), back, (n - 1) as nat)
    }
}

/// Decoding from input position `pos`, at the start of a group of eight items led by a
/// map byte: `None` where a back reference reaches before the start of the output.
pub open spec fn lz_decode(input: Seq<u8>, pos: int, out: Seq<u8>) -> Option<Seq<u8>>
    decreases input.len() - pos, 0int,
{
    if pos < 0 || pos >= input.len() {
        Some(out)
    } else {
        lz_decode_items(input, pos + 1, input[pos], 0, out)
    }
}

/// Decoding item `i` of a group with map byte `map` at input position `pos`: a clear map
/// bit is a literal byte, a set one a back reference byte whose low three bits give the
/// length less two and whose high five bits give the distance less one.
pub open spec fn lz_decode_items(input: Seq<u8>, pos: int, map: u8, i: nat, out: Seq<u8>) -> Option<Seq<u8>>
    decreases input.len() - pos, 9 - i,
{
    if i >= 8 {
        if i == 8 {
            lz_decode(input, pos, out)
        } else {
            None
        }
    } else if pos < 0 || pos >= input.len() {
        Some(out)
    } else if (map >> i as u8) & 1 == 0 {
        lz_decode_items(input, pos + 1, map, i + 1, out.push(input[pos]))
    } else {
        let spec_byte = input[pos];
        let len = ((spec_byte & 7) + 2) as nat;
        let back = ((spec_byte >> 3u8) + 1) as nat;
        if back > out.len() {
            None
        } else {
            lz_decode_items(input, pos + 1, map, i + 1, copy_back(out, back, len))
        }
    }
}

/// The output of decompressing `input` after `out`, where every back reference stays
/// inside the output.
pub open spec fn fnt0_decompressed(input: Seq<u8>, out: Seq<u8>) -> Option<Seq<u8>> {
    lz_decode(input, 0, out)
}

/// Decompresses the glyph bitmap compression of version 0 fonts: groups of eight items led
/// by a map byte, each a literal byte or a back reference of 2 to 9 bytes up to 32 bytes
/// back. The decompressed bytes are appended to `output`.
pub fn fnt0_lz77_decompress(input: &[u8], output: &mut Vec<u8>)
    requires
        fnt0_decompressed(input@, old(output)@) is Some,
    ensures
        final(output)@ == fnt0_decompressed(input@, old(output)@).unwrap(),
{
    let ghost result = fnt0_decompressed(input@, output@);
    let n = input.len();
    let mut pos: usize = 0;
    while pos < n
        invariant
            n == input@.len(),
            pos <= n,
            lz_decode(input@, pos as int, output@) == result,
            result is Some,
        decreases n - pos,
    {
        let map = input[pos];
        pos = pos + 1;
        let ghost p0 = pos;
        let mut i: u8 = 0;
        while i < 8
            invariant
                n == input@.len(),
                p0 <= pos <= n,
                i <= 8,
                lz_decode_items(input@, pos as int, map, i as nat, output@) == result,
                result is Some,
            ensures
                p0 <= pos <= n,
                lz_decode(input@, pos as int, output@) == result,
            decreases 8 - i,
        {
            if pos >= n {
                break;
            }
            if (map >> i) & 1 == 0 {
                output.push(input[pos]);
                pos = pos + 1;
            } else {
                let backseek_spec = input[pos];
                pos = pos + 1;
                assert(backseek_spec & 7 <= 7) by (bit_vector);
                assert(backseek_spec >> 3u8 <= 31) by (bit_vector);
                let len = (backseek_spec & 7) + 2;
                let back_offset = (backseek_spec >> 3) + 1;
                assert(back_offset <= output@.len());
                let ghost start = output@;
                let mut j: u8 = 0;
                while j < len
                    invariant
                        j <= len,
                        1 <= back_offset <= start.len(),
                        copy_back(output@, back_offset as nat, (len - j) as nat) == copy_back(
                            start,
                            back_offset as nat,
                            len as nat,
                        ),
                        start.len() <= output@.len(),
                    decreases len - j,
                {
                    let last = output.len() - back_offset as usize;
                    let b = output[last];
                    output.push(b);
                    j = j + 1;
                }
            }
            i = i + 1;
        }
    }
}

/// The glyph index of a valid double-byte code point of a range that starts at `begin` (a
/// whole high byte) and spans `rows` high bytes, in plain arithmetic: 188 per high byte
/// from `accum + 192` on, the low bytes in order with `0x7f` left out.
proof fn lemma_double_byte_index(cp: u32, begin: u32, accum: int, rows: int)
    requires
        begin % 256 == 0,
        begin <= cp,
        cp < begin + 256 * rows,
        accum >= 0,
    ensures
        ({
            let q = (cp - begin) / 256;
            let r = cp % 256;
            &&& double_byte_index(cp, begin, accum) == if 0x40 <= r <= 0xfc && r != 0x7f {
                Some(
                    (188 * q + accum + r + 0x80 - (if r >= 0x80 {
                        1int
                    } else {
                        0int
                    })) as u32,
                )
            } else {
                None
            }
            &&& 0 <= q < rows
            &&& cp == begin + 256 * q + r
        }),
{
    let x = (cp - begin) as u32;
    assert((x >> 8u32) == x / 256) by (bit_vector);
    assert((cp & 0xff) == cp % 256) by (bit_vector);
    assert((cp & 0x80 != 0) == (cp % 256 >= 128)) by (bit_vector);
    assert(cp % 256 == (cp - begin) % 256 && (cp - begin) / 256 < rows && cp == begin + 256 * ((cp - begin) / 256)
        + cp % 256) by (nonlinear_arith)
        requires
            begin % 256 == 0,
            begin <= cp,
            cp < begin + 256 * rows,
    {
        vstd::arithmetic::div_mod::lemma_fundamental_div_mod(cp as int, 256);
        vstd::arithmetic::div_mod::lemma_fundamental_div_mod((cp - begin) as int, 256);
        vstd::arithmetic::div_mod::lemma_fundamental_div_mod(begin as int, 256);
    }
}

/// Where the glyph indices of the code points of a font lie: the single-byte ones below
/// `0xa0`, the double-byte ones of the three ranges from `192`, `0x16c4 + 192` and
/// `0x16c4 + 0x814 + 192` on, each below the next.
proof fn lemma_font0_index_bounds(cp: u32)
    requires
        font0_index_of(cp) is Some,
    ensures
        ({
            let i = font0_index_of(cp).unwrap();
            &&& cp <= 0xdf ==> i < 0xa0
            &&& 0x8100 <= cp <= 0x9fff ==> 192 <= i <= 0x16c4 + 191
            &&& 0xe000 <= cp <= 0xeaff ==> 0x16c4 + 192 <= i <= 0x16c4 + 0x814 + 191
            &&& 0xf000 <= cp ==> 0x16c4 + 0x814 + 192 <= i
        }),
{
    if 0x8100 <= cp <= 0x9fff {
        lemma_double_byte_index(cp, 0x8100, 0, 31);
        let q = (cp - 0x8100) / 256;
        assert(188 * q <= 188 * 30) by (nonlinear_arith)
            requires
                q < 31,
        ;
    } else if 0xe000 <= cp <= 0xeaff {
        lemma_double_byte_index(cp, 0xe000, 0x16c4, 11);
        let q = (cp - 0xe000) / 256;
        assert(188 * q <= 188 * 10) by (nonlinear_arith)
            requires
                q < 11,
        ;
    } else if 0xf000 <= cp <= 0xf0ff {
        lemma_double_byte_index(cp, 0xf000, 0x16c4int + 0x814int, 1);
    }
}

/// Within one double-byte range, a later code point has a later glyph index.
proof fn lemma_double_byte_increasing(a: u32, b: u32, begin: u32, accum: int, rows: int)
    requires
        begin % 256 == 0,
        begin <= a < b,
        b < begin + 256 * rows,
        rows <= 256,
        0 <= accum <= 0x10000,
        double_byte_index(a, begin, accum) is Some,
        double_byte_index(b, begin, accum) is Some,
    ensures
        double_byte_index(a, begin, accum).unwrap() < double_byte_index(b, begin, accum).unwrap(),
{
    lemma_double_byte_index(a, begin, accum, rows);
    lemma_double_byte_index(b, begin, accum, rows);
    let qa = (a - begin) / 256;
    let qb = (b - begin) / 256;
    let ra = a % 256;
    let rb = b % 256;
    assert(qa < qb || (qa == qb && ra < rb)) by (nonlinear_arith)
        requires
            begin <= a < b,
            begin % 256 == 0,
            qa == (a - begin) / 256,
            qb == (b - begin) / 256,
            ra == a % 256,
            rb == b % 256,
    {
        vstd::arithmetic::div_mod::lemma_fundamental_div_mod(a as int, 256);
        vstd::arithmetic::div_mod::lemma_fundamental_div_mod(b as int, 256);
        vstd::arithmetic::div_mod::lemma_fundamental_div_mod((a - begin) as int, 256);
        vstd::arithmetic::div_mod::lemma_fundamental_div_mod((b - begin) as int, 256);
        vstd::arithmetic::div_mod::lemma_fundamental_div_mod(begin as int, 256);
    }
    assert(188 * qa + 188 <= 188 * qb || qa == qb) by (nonlinear_arith)
        requires
            qa <= qb,
    ;
    assert(188 * qb <= 188 * 256) by (nonlinear_arith)
        requires
            qb < rows,
            rows <= 256,
    ;
}

/// The glyph indices of a version 0 font follow the order of the Shift-JIS code points: a
/// later code point that the font has gets a later glyph index.
pub proof fn lemma_font0_index_increasing(a: u32, b: u32)
    requires
        a < b,
        font0_index_of(a) is Some,
        font0_index_of(b) is Some,
    ensures
        font0_index_of(a).unwrap() < font0_index_of(b).unwrap(),
{
    lemma_font0_index_bounds(a);
    lemma_font0_index_bounds(b);
    if 0x8100 <= a && b <= 0x9fff {
        lemma_double_byte_increasing(a, b, 0x8100, 0, 31);
    } else if 0xe000 <= a && b <= 0xeaff {
        lemma_double_byte_increasing(a, b, 0xe000, 0x16c4, 11);
    } else if 0xf000 <= a && b <= 0xf0ff {
        lemma_double_byte_increasing(a, b, 0xf000, 0x16c4int + 0x814int, 1);
    }
}

/// The code point of the glyph `n` of the double-byte range that starts at `begin` with
/// `accum` glyphs before it: row `(n - accum - 192) / 188` of the range, and the low byte at
/// the column, `0x7f` left out.
proof fn lemma_double_byte_onto(n: int, begin: u32, accum: int, rows: int)
    requires
        begin % 256 == 0,
        0 <= accum <= 0x10000,
        1 <= rows <= 256,
        begin + 256 * rows <= 0x1_0000,
        accum + 192 <= n < accum + 192 + 188 * rows,
    ensures
        exists|cp: u32|
            begin <= cp < begin + 256 * rows && #[trigger] double_byte_index(cp, begin, accum) == Some(n as u32),
{
    let m = n - accum - 192;
    let q = m / 188;
    let col = m % 188;
    let lo = if col < 63 { 0x40 + col } else { 0x41 + col };
    assert(0 <= q < rows && m == 188 * q + col && 0 <= col < 188) by (nonlinear_arith)
        requires
            0 <= m < 188 * rows,
            q == m / 188,
            col == m % 188,
    {
        vstd::arithmetic::div_mod::lemma_fundamental_div_mod(m, 188);
    }
    assert(0 <= 256 * q && 256 * q + 256 <= 256 * rows) by (nonlinear_arith)
        requires
            0 <= q < rows,
    ;
    let cp = (begin + 256 * q + lo) as u32;
    assert(cp % 256 == lo && (cp - begin) / 256 == q) by (nonlinear_arith)
        requires
            cp == begin + 256 * q + lo,
            begin % 256 == 0,
            0 <= lo < 256,
            0 <= q,
    {
        vstd::arithmetic::div_mod::lemma_fundamental_div_mod(begin as int, 256);
        vstd::arithmetic::div_mod::lemma_mod_multiples_vanish((begin / 256 + q) as int, lo as int, 256);
        vstd::arithmetic::div_mod::lemma_fundamental_div_mod((cp - begin) as int, 256);
        vstd::arithmetic::div_mod::lemma_mod_multiples_vanish(q as int, lo as int, 256);
    }
    lemma_double_byte_index(cp, begin, accum, rows);
}

/// The glyph indices of a version 0 font leave no hole but one: the single-byte code points
/// take the indices below `0xa0`, the double-byte ones those from `192` up to the number of
/// glyphs, and every such index belongs to some code point.
pub proof fn lemma_font0_index_dense(n: u32)
    ensures
        (exists|cp: u32| #[trigger] font0_index_of(cp) == Some(n)) <==> (n < 0xa0 || 192 <= n < 192 + 0x16c4
            + 0x814 + 0xbc),
{
    assert forall|cp: u32| #[trigger] font0_index_of(cp) == Some(n) implies (n < 0xa0 || 192 <= n < 192 + 0x16c4
        + 0x814 + 0xbc) by {
        lemma_font0_index_bounds(cp);
        if 0xf000 <= cp {
            lemma_double_byte_index(cp, 0xf000, 0x16c4int + 0x814int, 1);
        }
    }
    if n < 0x60 {
        assert(font0_index_of((n + 0x20) as u32) == Some(n));
    } else if n < 0xa0 {
        assert(font0_index_of((n - 0x60 + 0xa0) as u32) == Some(n));
    } else if 192 <= n < 192 + 0x16c4 {
        lemma_double_byte_onto(n as int, 0x8100, 0, 31);
        let cp = choose|cp: u32| 0x8100 <= cp < 0x8100 + 256 * 31 && #[trigger] double_byte_index(cp, 0x8100, 0) == Some(n);
        assert(font0_index_of(cp) == Some(n));
    } else if 192 + 0x16c4 <= n < 192 + 0x16c4 + 0x814 {
        lemma_double_byte_onto(n as int, 0xe000, 0x16c4, 11);
        let cp = choose|cp: u32| 0xe000 <= cp < 0xe000 + 256 * 11 && #[trigger] double_byte_index(cp, 0xe000, 0x16c4) == Some(n);
        assert(font0_index_of(cp) == Some(n));
    } else if 192 + 0x16c4 + 0x814 <= n < 192 + 0x16c4 + 0x814 + 0xbc {
        lemma_double_byte_onto(n as int, 0xf000, 0x16c4int + 0x814int, 1);
        let cp = choose|cp: u32| 0xf000 <= cp < 0xf000 + 256 && #[trigger] double_byte_index(cp, 0xf000, 0x16c4int + 0x814int) == Some(n);
        assert(font0_index_of(cp) == Some(n));
    }
}

/// The glyph header offset stored in the character table entry of character `k`: the
/// four bytes from `16 + 4 * k`, little-endian.
pub open spec fn stored_offset(data: Seq<u8>, k: int) -> int {
    data[16 + 4 * k] as int + 256 * data[17 + 4 * k] as int + 65536 * data[18 + 4 * k] as int + 16777216
        * data[19 + 4 * k] as int
}

/// Reading a version 0 font: its ascent and descent are the 16-bit little-endian values at
/// bytes 8 and 10, and the metrics of character `k` are the five bytes of the glyph header
/// at the full 32-bit offset that the character table stores for `k` (all four of its
/// bytes count); a glyph header out of the file is reported with that same offset.
pub proof fn lemma_font0_reads_table(data: Seq<u8>, k: int)
    requires
        0 <= k < 8244,
        data.len() >= 16 + 4 * 8244,
    ensures
        font0_result(data) matches Ok((info, metrics)) ==> {
            let o = stored_offset(data, k);
            &&& info.ascent == data[8] as int + 256 * data[9] as int
            &&& info.descent == data[10] as int + 256 * data[11] as int
            &&& metrics.len() == 8244
            &&& o + 8 <= data.len()
            &&& metrics[k].bearing_x == data[o] as i8
            &&& metrics[k].bearing_y == data[o + 1] as i8
            &&& metrics[k].width == data[o + 2]
            &&& metrics[k].height == data[o + 3]
            &&& metrics[k].advance_width == data[o + 4]
        },
        font0_result(data) matches Err(FontError::GlyphOutOfBounds { character, offset }) ==> stored_offset(
            data,
            character as int,
        ) == offset && stored_offset(data, character as int) + 8 > data.len(),
{
    let t = data.subrange(16 + 4 * k, 20 + 4 * k);
    lemma_le_value_small(t);
    assert(t[0] == data[16 + 4 * k] && t[1] == data[17 + 4 * k] && t[2] == data[18 + 4 * k] && t[3] == data[19
        + 4 * k]);
    assert(table_offset(data, k) == stored_offset(data, k));
    let h1 = data.subrange(8, 10);
    let h2 = data.subrange(10, 12);
    lemma_le_value_small(h1);
    lemma_le_value_small(h2);
    assert(h1[0] == data[8] && h1[1] == data[9]);
    assert(h2[0] == data[10] && h2[1] == data[11]);
    if font0_result(data) is Ok {
        assert(!exists|j: int| 0 <= j < 8244 && !glyph_inside(data, j));
        assert(glyph_inside(data, k));
        let (info, metrics) = font0_result(data).unwrap();
        assert(metrics[k] == glyph_metrics_at(data, table_offset(data, k) as int));
        assert(info.ascent == le_value(h1) as u16);
        assert(le_value(h1) < 65536);
        assert(le_value(h2) < 65536);
    }
    if font0_result(data) matches Err(FontError::GlyphOutOfBounds { character, offset }) {
        let c = first_outside(data);
        assert(exists|j: int| 0 <= j < 8244 && !glyph_inside(data, j));
        let w = choose|j: int| 0 <= j < 8244 && !glyph_inside(data, j);
        lemma_first_outside_exists(data, w);
        let tc = data.subrange(16 + 4 * c, 20 + 4 * c);
        lemma_le_value_small(tc);
        assert(tc[0] == data[16 + 4 * c] && tc[1] == data[17 + 4 * c] && tc[2] == data[18 + 4 * c] && tc[3]
            == data[19 + 4 * c]);
        assert(table_offset(data, c) < 0x1_0000_0000);
    }
}

/// Where some character's glyph header lies outside the file, there is a first one.
proof fn lemma_first_outside_exists(data: Seq<u8>, w: int)
    requires
        0 <= w < 8244,
        !glyph_inside(data, w),
    ensures
        0 <= first_outside(data) < 8244,
        !glyph_inside(data, first_outside(data)),
        forall|j: int| 0 <= j < first_outside(data) ==> glyph_inside(data, j),
    decreases w,
{
    if forall|j: int| 0 <= j < w ==> glyph_inside(data, j) {
        assert(0 <= w < 8244 && !glyph_inside(data, w) && forall|j: int| 0 <= j < w ==> glyph_inside(data, j));
    } else {
        let v = choose|j: int| 0 <= j < w && !glyph_inside(data, j);
        lemma_first_outside_exists(data, v);
    }
}

/// `copy_back` extends `out` by `n` bytes, each the byte `back` places before it.
proof fn lemma_copy_back(out: Seq<u8>, back: nat, n: nat)
    requires
        1 <= back <= out.len(),
    ensures
        copy_back(out, back, n).len() == out.len() + n,
        copy_back(out, back, n).subrange(0, out.len() as int) == out,
        forall|k: int|
            out.len() <= k < out.len() + n ==> #[trigger] copy_back(out, back, n)[k] == copy_back(out, back, n)[k
                - back],
    decreases n,
{
    if n > 0 {
        let o2 = out.push(out[out.len() - back]);
        lemma_copy_back(o2, back, (n - 1) as nat);
        let r = copy_back(out, back, n);
        assert(r == copy_back(o2, back, (n - 1) as nat));
        assert(r.subrange(0, o2.len() as int) == o2);
        assert(r.subrange(0, out.len() as int) =~= out) by {
            assert forall|t: int| 0 <= t < out.len() implies r.subrange(0, out.len() as int)[t] == out[t] by {
                assert(r.subrange(0, o2.len() as int)[t] == o2[t]);
            }
        }
        assert forall|k: int| out.len() <= k < out.len() + n implies #[trigger] r[k] == r[k - back] by {
            if k == out.len() {
                assert(r.subrange(0, o2.len() as int)[k] == o2[k]);
                assert(r.subrange(0, o2.len() as int)[k - back] == o2[k - back]);
            }
        }
    }
}

/// The item of a group of the glyph bitmap compression whose map bit is set is a back
/// reference: its byte `b` copies `b % 8 + 2` bytes, each taken `b / 8 + 1` bytes before
/// it in the output, which it appends; a back reference that reaches before the start of
/// the output fails the decompression. Decompressing then goes on after that byte with the
/// next item.
pub proof fn lemma_lz_back_reference(input: Seq<u8>, pos: int, map: u8, i: nat, out: Seq<u8>)
    requires
        0 <= pos < input.len(),
        i < 8,
        (map >> i as u8) & 1 == 1,
    ensures
        ({
            let b = input[pos];
            let back = b / 8 + 1;
            &&& back > out.len() ==> lz_decode_items(input, pos, map, i, out) is None
            &&& back <= out.len() ==> exists|out2: Seq<u8>|
                {
                    &&& out2.len() == out.len() + b % 8 + 2
                    &&& out2.subrange(0, out.len() as int) == out
                    &&& forall|k: int| out.len() <= k < out2.len() ==> #[trigger] out2[k] == out2[k - back]
                    &&& lz_decode_items(input, pos, map, i, out) == lz_decode_items(
                        input,
                        pos + 1,
                        map,
                        i + 1,
                        out2,
                    )
                }
        }),
{
    let b = input[pos];
    assert(b & 7 == b % 8) by (bit_vector);
    assert(b >> 3u8 == b / 8) by (bit_vector);
    let back = (b / 8 + 1) as nat;
    let len = (b % 8 + 2) as nat;
    if back <= out.len() {
        lemma_copy_back(out, back, len);
        let out2 = copy_back(out, back, len);
        assert(lz_decode_items(input, pos, map, i, out) == lz_decode_items(input, pos + 1, map, i + 1, out2));
    }
}

/// The item of a group whose map bit is clear is a literal: its byte is appended to the
/// output, and decompressing goes on after it with the next item.
pub proof fn lemma_lz_literal(input: Seq<u8>, pos: int, map: u8, i: nat, out: Seq<u8>)
    requires
        0 <= pos < input.len(),
        i < 8,
        (map >> i as u8) & 1 == 0,
    ensures
        lz_decode_items(input, pos, map, i, out) == lz_decode_items(input, pos + 1, map, i + 1, out.push(input[pos])),
{
}

/// The glyph bitmap compression comes in groups: a map byte, then eight items, one per bit
/// of the map byte from the lowest, after which the next group starts; where the input
/// ends, the output is what was decompressed so far.
pub proof fn lemma_lz_groups(input: Seq<u8>, pos: int, map: u8, i: nat, out: Seq<u8>)
    requires
        0 <= pos,
    ensures
        pos < input.len() ==> lz_decode(input, pos, out) == lz_decode_items(input, pos + 1, input[pos], 0, out),
        lz_decode_items(input, pos, map, 8, out) == lz_decode(input, pos, out),
        pos >= input.len() ==> lz_decode(input, pos, out) == Some(out),
        pos >= input.len() && i < 8 ==> lz_decode_items(input, pos, map, i, out) == Some(out),
{
}

} // verus!
