//! Writing the primitive values of the script (SNR) format.
use vstd::prelude::*;

use crate::le::{
    byte_bound, le_bytes, le_value, lemma_byte_bound_small, lemma_le_bytes_len, lemma_le_bytes_of_value,
    lemma_le_value_of_bytes,
};
use crate::snr::reader::{
    length_len, number_len, number_readable, number_value, var_int_size, varint_extra,
    varint_first_byte_ok, VarIntSize,
};
use crate::versions::{LengthKind, NumberStyle};

verus! {

/// The bytes that encode `number` in `style`.
pub open spec fn encode_number(style: NumberStyle, number: nat) -> Seq<u8> {
    match style {
        NumberStyle::U16 => le_bytes(number, 2),
        NumberStyle::VarInt => le_bytes(number, 1 + varint_extra((number % 256) as u8)),
    }
}

/// Whether `number` can be written in `style` (a `U16` number fits in 16 bits,
/// a variable-length number has a known first byte).
pub open spec fn number_writable(style: NumberStyle, number: nat) -> bool {
    match style {
        NumberStyle::U16 => number < 65536,
        NumberStyle::VarInt => varint_first_byte_ok((number % 256) as u8),
    }
}

/// The number of zero bytes that bring position `p` to a multiple of 16.
pub open spec fn pad16(p: int) -> int {
    (16 - p % 16) % 16
}

/// `n` zero bytes.
pub open spec fn zeros(n: nat) -> Seq<u8> {
    Seq::new(n, |_i: int| 0u8)
}

/// `new` is `old` after writing `data`.
pub open spec fn wrote<W: Writer>(new: W, old: W, data: Seq<u8>) -> bool {
    &&& new.written() == old.written() + data
    &&& new.spec_position() == old.spec_position() + data.len()
    &&& new.room() == old.room() - data.len()
}

/// A sink for script bytes that knows its position.
pub trait Writer: Sized {
    /// The bytes written so far.
    spec fn written(&self) -> Seq<u8>;

    /// The position of the next byte.
    spec fn spec_position(&self) -> int;

    /// How many more bytes can be written.
    spec fn room(&self) -> int;

    fn put(&mut self, data: &[u8])
        requires
            data@.len() <= old(self).room(),
        ensures
            final(self).written() == old(self).written() + (data@),
            final(self).spec_position() == old(self).spec_position() + (data@).len(),
            final(self).room() == old(self).room() - (data@).len(),
    ;

    fn position(&self) -> (r: u32)
        requires
            0 <= self.spec_position() <= u32::MAX,
        ensures
            r == self.spec_position(),
    ;

    fn put_u8(&mut self, value: u8)
        requires
            1 <= old(self).room(),
        ensures
            final(self).written() == old(self).written() + (seq![value]),
            final(self).spec_position() == old(self).spec_position() + (seq![value]).len(),
            final(self).room() == old(self).room() - (seq![value]).len(),
    {
        let a = [value];
        assert(a@ =~= seq![value]);
        self.put(&a)
    }

    fn put_u16(&mut self, value: u16)
        requires
            2 <= old(self).room(),
        ensures
            final(self).written() == old(self).written() + (le_bytes(value as nat, 2)),
            final(self).spec_position() == old(self).spec_position() + (le_bytes(value as nat, 2)).len(),
            final(self).room() == old(self).room() - (le_bytes(value as nat, 2)).len(),
    {
        let a = [(value % 256) as u8, (value / 256) as u8];
        proof {
            reveal_with_fuel(le_bytes, 3);
        }
        assert(a@ =~= le_bytes(value as nat, 2));
        self.put(&a)
    }

    fn put_u32(&mut self, value: u32)
        requires
            4 <= old(self).room(),
        ensures
            final(self).written() == old(self).written() + (le_bytes(value as nat, 4)),
            final(self).spec_position() == old(self).spec_position() + (le_bytes(value as nat, 4)).len(),
            final(self).room() == old(self).room() - (le_bytes(value as nat, 4)).len(),
    {
        let a = [
            (value % 256) as u8,
            (value / 256 % 256) as u8,
            (value / 65536 % 256) as u8,
            (value / 16777216) as u8,
        ];
        proof {
            reveal_with_fuel(le_bytes, 5);
            assert(value / 256 / 256 == value / 65536);
            assert(value / 256 / 256 / 256 == value / 16777216);
        }
        assert(a@ =~= le_bytes(value as nat, 4));
        self.put(&a)
    }

    /// Writes a length prefix; the value has to fit in the prefix.
    fn put_length(&mut self, kind: LengthKind, value: usize)
        requires
            value < byte_bound(length_len(kind)),
            length_len(kind) <= old(self).room(),
        ensures
            final(self).written() == old(self).written() + (le_bytes(value as nat, length_len(kind))),
            final(self).spec_position() == old(self).spec_position() + (le_bytes(value as nat, length_len(kind))).len(),
            final(self).room() == old(self).room() - (le_bytes(value as nat, length_len(kind))).len(),
    {
        proof {
            lemma_byte_bound_small();
            reveal_with_fuel(le_bytes, 3);
        }
        match kind {
            LengthKind::U8Length => self.put_u8(value as u8),
            LengthKind::U16Length => self.put_u16(value as u16),
        }
    }

    fn put_reg(&mut self, value: u16)
        requires
            2 <= old(self).room(),
        ensures
            final(self).written() == old(self).written() + (le_bytes(value as nat, 2)),
            final(self).spec_position() == old(self).spec_position() + (le_bytes(value as nat, 2)).len(),
            final(self).room() == old(self).room() - (le_bytes(value as nat, 2)).len(),
    {
        self.put_u16(value)
    }

    /// Writes a number in its compressed representation (see `Reader::take_number`).
    fn put_number(&mut self, style: NumberStyle, number: u32)
        requires
            number_writable(style, number as nat),
            encode_number(style, number as nat).len() <= old(self).room(),
        ensures
            final(self).written() == old(self).written() + (encode_number(style, number as nat)),
            final(self).spec_position() == old(self).spec_position() + (encode_number(style, number as nat)).len(),
            final(self).room() == old(self).room() - (encode_number(style, number as nat)).len(),
    {
        proof {
            lemma_le_bytes_len(number as nat, 2);
            lemma_le_bytes_len(number as nat, 1 + varint_extra((number % 256) as u8));
        }
        match style {
            NumberStyle::U16 => self.put_u16(number as u16),
            NumberStyle::VarInt => {
                let b0 = (number % 256) as u8;
                let b1 = (number / 256 % 256) as u8;
                let b2 = (number / 65536 % 256) as u8;
                let b3 = (number / 16777216) as u8;
                proof {
                    reveal_with_fuel(le_bytes, 5);
                    assert(number / 256 / 256 == number / 65536);
                    assert(number / 256 / 256 / 256 == number / 16777216);
                }
                match var_int_size(b0) {
                    VarIntSize::Zero => {
                        let a = [b0];
                        assert(a@ =~= le_bytes(number as nat, 1));
                        self.put(&a);
                    },
                    VarIntSize::One => {
                        let a = [b0, b1];
                        assert(a@ =~= le_bytes(number as nat, 2));
                        self.put(&a);
                    },
                    VarIntSize::Two => {
                        let a = [b0, b1, b2];
                        assert(a@ =~= le_bytes(number as nat, 3));
                        self.put(&a);
                    },
                    VarIntSize::Three => {
                        let a = [b0, b1, b2, b3];
                        assert(a@ =~= le_bytes(number as nat, 4));
                        self.put(&a);
                    },
                }
            },
        }
    }

    fn put_offset(&mut self, value: u32)
        requires
            4 <= old(self).room(),
        ensures
            final(self).written() == old(self).written() + (le_bytes(value as nat, 4)),
            final(self).spec_position() == old(self).spec_position() + (le_bytes(value as nat, 4)).len(),
            final(self).room() == old(self).room() - (le_bytes(value as nat, 4)).len(),
    {
        self.put_u32(value)
    }

    /// Writes a length prefix and then the bytes of `string`.
    fn put_string(&mut self, length_kind: LengthKind, string: &[u8])
        requires
            string@.len() < byte_bound(length_len(length_kind)),
            length_len(length_kind) + string@.len() <= old(self).room(),
        ensures
            final(self).written() == old(self).written() + (le_bytes(string@.len(), length_len(length_kind)) + string@),
            final(self).spec_position() == old(self).spec_position() + (le_bytes(string@.len(), length_len(length_kind)) + string@).len(),
            final(self).room() == old(self).room() - (le_bytes(string@.len(), length_len(length_kind)) + string@).len(),
    {
        proof {
            lemma_le_bytes_len(string@.len(), length_len(length_kind));
        }
        self.put_length(length_kind, string.len());
        self.put(string);
        assert(self.written() =~= old(self).written() + (le_bytes(
            string@.len(),
            length_len(length_kind),
        ) + string@));
    }

    /// Writes a length prefix and then the bytes of a string array.
    fn put_string_array(&mut self, length_kind: LengthKind, string_array: &[u8])
        requires
            string_array@.len() < byte_bound(length_len(length_kind)),
            length_len(length_kind) + string_array@.len() <= old(self).room(),
        ensures
            final(self).written() == old(self).written() + (le_bytes(string_array@.len(), length_len(length_kind)) + string_array@),
            final(self).spec_position() == old(self).spec_position() + (le_bytes(string_array@.len(), length_len(length_kind)) + string_array@).len(),
            final(self).room() == old(self).room() - (le_bytes(string_array@.len(), length_len(length_kind)) + string_array@).len(),
    {
        self.put_string(length_kind, string_array)
    }

    fn put_u8string(&mut self, string: &[u8])
        requires
            string@.len() < 256,
            1 + string@.len() <= old(self).room(),
        ensures
            final(self).written() == old(self).written() + (le_bytes(string@.len(), 1) + string@),
            final(self).spec_position() == old(self).spec_position() + (le_bytes(string@.len(), 1) + string@).len(),
            final(self).room() == old(self).room() - (le_bytes(string@.len(), 1) + string@).len(),
    {
        proof {
            lemma_byte_bound_small();
        }
        self.put_string(LengthKind::U8Length, string)
    }

    fn put_u16string(&mut self, string: &[u8])
        requires
            string@.len() < 65536,
            2 + string@.len() <= old(self).room(),
        ensures
            final(self).written() == old(self).written() + (le_bytes(string@.len(), 2) + string@),
            final(self).spec_position() == old(self).spec_position() + (le_bytes(string@.len(), 2) + string@).len(),
            final(self).room() == old(self).room() - (le_bytes(string@.len(), 2) + string@).len(),
    {
        proof {
            lemma_byte_bound_small();
        }
        self.put_string(LengthKind::U16Length, string)
    }

    fn put_u8string_array(&mut self, string_array: &[u8])
        requires
            string_array@.len() < 256,
            1 + string_array@.len() <= old(self).room(),
        ensures
            final(self).written() == old(self).written() + (le_bytes(string_array@.len(), 1) + string_array@),
            final(self).spec_position() == old(self).spec_position() + (le_bytes(string_array@.len(), 1) + string_array@).len(),
            final(self).room() == old(self).room() - (le_bytes(string_array@.len(), 1) + string_array@).len(),
    {
        proof {
            lemma_byte_bound_small();
        }
        self.put_string_array(LengthKind::U8Length, string_array);
    }

    fn put_u16string_array(&mut self, string_array: &[u8])
        requires
            string_array@.len() < 65536,
            2 + string_array@.len() <= old(self).room(),
        ensures
            final(self).written() == old(self).written() + (le_bytes(string_array@.len(), 2) + string_array@),
            final(self).spec_position() == old(self).spec_position() + (le_bytes(string_array@.len(), 2) + string_array@).len(),
            final(self).room() == old(self).room() - (le_bytes(string_array@.len(), 2) + string_array@).len(),
    {
        proof {
            lemma_byte_bound_small();
        }
        self.put_string_array(LengthKind::U16Length, string_array);
    }

    /// Pads with zero bytes up to the next multiple of 16.
    fn pad_16(&mut self)
        requires
            0 <= old(self).spec_position(),
            old(self).spec_position() + pad16(old(self).spec_position()) <= u32::MAX,
            pad16(old(self).spec_position()) <= old(self).room(),
        ensures
            final(self).written() == old(self).written() + (zeros(pad16(old(self).spec_position()) as nat)),
            final(self).spec_position() == old(self).spec_position() + (zeros(pad16(old(self).spec_position()) as nat)).len(),
            final(self).room() == old(self).room() - (zeros(pad16(old(self).spec_position()) as nat)).len(),
    {
        let pos = self.position();
        let pad = (16 - pos % 16) % 16;
        let mut i: u32 = 0;
        while i < pad
            invariant
                0 <= i <= pad,
                pad == pad16(old(self).spec_position()),
                pad <= old(self).room(),
                self.written() == old(self).written() + (zeros(i as nat)),
            self.spec_position() == old(self).spec_position() + (zeros(i as nat)).len(),
            self.room() == old(self).room() - (zeros(i as nat)).len(),
            decreases pad - i,
        {
            self.put_u8(0);
            i = i + 1;
            assert(zeros((i - 1) as nat).push(0u8) =~= zeros(i as nat));
        }
    }
}

/// A writer that only counts the bytes written to it.
pub struct CountingWriter {
    position: u32,
    ghost_written: Ghost<Seq<u8>>,
    ghost_start: Ghost<int>,
}

impl CountingWriter {
    /// The position the count started from.
    pub closed spec fn start(&self) -> int {
        self.ghost_start@
    }

    /// A counting writer stands as far past where it started as the bytes it counted.
    #[verifier::type_invariant]
    spec fn counts_what_it_was_given(&self) -> bool {
        self.position == self.ghost_start@ + self.ghost_written@.len()
    }

    pub fn new(position: u32) -> (r: Self)
        ensures
            r.written() == Seq::<u8>::empty(),
            r.spec_position() == position,
            r.start() == position,
            r.room() == u32::MAX - position,
    {
        Self { position, ghost_written: Ghost(Seq::empty()), ghost_start: Ghost(position as int) }
    }

    /// The position of a counting writer is a 32-bit value.
    pub proof fn lemma_position_fits(&self)
        ensures
            0 <= self.spec_position() <= u32::MAX,
    {
    }

    /// The position the writer reached: where it started plus the number of bytes handed to
    /// it, which a real writer given the same calls would have appended.
    pub fn into_position(self) -> (r: u32)
        ensures
            r == self.spec_position(),
            r == self.start() + self.written().len(),
    {
        proof {
            use_type_invariant(&self);
        }
        self.position
    }
}

impl Writer for CountingWriter {
    /// The bytes that would have been written (they are counted, not kept).
    closed spec fn written(&self) -> Seq<u8> {
        self.ghost_written@
    }

    closed spec fn spec_position(&self) -> int {
        self.position as int
    }

    closed spec fn room(&self) -> int {
        u32::MAX - self.position
    }

    fn put(&mut self, data: &[u8]) {
        proof {
            use_type_invariant(&*self);
        }
        let position = self.position + data.len() as u32;
        let ghost written = self.ghost_written@ + data@;
        *self = CountingWriter { position, ghost_written: Ghost(written), ghost_start: self.ghost_start };
    }

    fn position(&self) -> (r: u32) {
        self.position
    }
}

/// A writer that appends to a byte buffer.
pub struct RealWriter {
    buffer: Vec<u8>,
}

impl RealWriter {
    pub fn new(buffer: Vec<u8>) -> (r: Self)
        ensures
            r.written() == buffer@,
            r.spec_position() == buffer@.len(),
            r.room() == usize::MAX - buffer@.len(),
    {
        Self { buffer }
    }

    pub fn into_buffer(self) -> (r: Vec<u8>)
        ensures
            r@ == self.written(),
    {
        self.buffer
    }
}

impl Writer for RealWriter {
    closed spec fn written(&self) -> Seq<u8> {
        self.buffer@
    }

    closed spec fn spec_position(&self) -> int {
        self.buffer@.len() as int
    }

    closed spec fn room(&self) -> int {
        usize::MAX - self.buffer@.len()
    }

    fn put(&mut self, data: &[u8]) {
        let ghost before = self.buffer@;
        self.buffer.extend_from_slice(data);
        assert(self.buffer@ =~= before + data@);
    }

    fn position(&self) -> (r: u32) {
        self.buffer.len() as u32
    }
}

} // verus!

verus! {

/// Reading a number back: a number written in `style` that fits its encoding is read back
/// unchanged from the written bytes, whatever follows them, and reading consumes exactly
/// the written bytes.
pub proof fn lemma_number_write_read(style: NumberStyle, number: nat, rest: Seq<u8>)
    requires
        number_writable(style, number),
        number < byte_bound(encode_number(style, number).len()),
    ensures
        number_readable(style, encode_number(style, number) + rest),
        number_len(style, (encode_number(style, number) + rest)[0]) == encode_number(
            style,
            number,
        ).len(),
        number_value(style, encode_number(style, number) + rest) == number,
{
    let e = encode_number(style, number);
    let k: nat = match style {
        NumberStyle::U16 => 2,
        NumberStyle::VarInt => 1 + varint_extra((number % 256) as u8),
    };
    lemma_le_bytes_len(number, k);
    reveal_with_fuel(le_bytes, 2);
    assert(e[0] == (number % 256) as u8);
    let s = e + rest;
    assert(s.take(k as int) =~= e);
    lemma_le_value_of_bytes(number, k);
}

/// Writing a number back: the number read from well-formed bytes is writable, and writing
/// it reproduces exactly the bytes that were read.
pub proof fn lemma_number_read_write(style: NumberStyle, bytes: Seq<u8>)
    requires
        number_readable(style, bytes),
    ensures
        number_writable(style, number_value(style, bytes)),
        encode_number(style, number_value(style, bytes)) == bytes.take(
            number_len(style, bytes[0]) as int,
        ),
{
    let k = number_len(style, bytes[0]);
    let t = bytes.take(k as int);
    let v = number_value(style, bytes);
    lemma_le_bytes_of_value(t);
    assert(v == le_value(t));
    let r = le_value(t.drop_first());
    assert(v % 256 == t[0] as nat) by (nonlinear_arith)
        requires
            v == t[0] as nat + 256 * r,
            t[0] < 256,
    ;
    lemma_byte_bound_small();
    if style == NumberStyle::U16 {
        assert(v < 65536);
    }
}

} // verus!
