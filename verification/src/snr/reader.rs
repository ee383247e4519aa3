//! Reading the primitive values of the script (SNR) format.
use vstd::prelude::*;

use crate::le::{le_value, lemma_le_value_small};
use crate::versions::{LengthKind, NumberStyle};

verus! {

/// The number of bytes that follow the first byte of a variable-length number.
pub enum VarIntSize {
    Zero,
    One,
    Two,
    Three,
}

/// Whether a first byte of a variable-length number has a known layout.
///
/// The byte is `0XXXXXXX` (a 7-bit constant) or `1PPPKKKK` with `PPP` below 7.
pub open spec fn varint_first_byte_ok(t: u8) -> bool {
    t < 0xf0
}

/// The number of extra bytes after the first byte `t` of a variable-length number.
pub open spec fn varint_extra(t: u8) -> nat {
    if t < 0x80 {
        0
    } else {
        let p = (t - 0x80) / 16;
        if p == 0 {
            1
        } else if p == 1 {
            2
        } else if p == 2 {
            3
        } else if p == 4 {
            1
        } else {
            0
        }
    }
}

impl VarIntSize {
    /// The count of extra bytes this size stands for.
    pub open spec fn count(self) -> nat {
        match self {
            VarIntSize::Zero => 0,
            VarIntSize::One => 1,
            VarIntSize::Two => 2,
            VarIntSize::Three => 3,
        }
    }
}

impl From<VarIntSize> for usize {
    fn from(size: VarIntSize) -> (r: usize) {
        match size {
            VarIntSize::Zero => 0,
            VarIntSize::One => 1,
            VarIntSize::Two => 2,
            VarIntSize::Three => 3,
        }
    }
}

impl vstd::std_specs::convert::FromSpecImpl<VarIntSize> for usize {
    open spec fn obeys_from_spec() -> bool {
        true
    }

    open spec fn from_spec(v: VarIntSize) -> usize {
        v.count() as usize
    }
}

/// Determine the amount of additional bytes needed to parse a variable integer based on the first read byte.
///
/// `t=0XXXXXXX` is a 7-bit constant. Otherwise `t=1PPPKKKK`, and `PPP` selects:
/// 0 (one more byte), 1 (two), 2 (three), 3 (none, register), 4 (one, register),
/// 5 (none, argument register), 6 (none, the minimal integer). `PPP == 7` is not a known layout.
pub fn var_int_size(t: u8) -> (r: VarIntSize)
    requires
        varint_first_byte_ok(t),
    ensures
        r.count() == varint_extra(t),
{
    if t & 0x80 != 0 {
        let p = (t & 0x70) >> 4;
        assert(t & 0x80 != 0 ==> t >= 0x80) by (bit_vector);
        assert(t >= 0x80 ==> (t & 0x70) >> 4 == (t - 0x80) / 16) by (bit_vector);
        match p {
            0 => VarIntSize::One,
            1 => VarIntSize::Two,
            2 => VarIntSize::Three,
            3 => VarIntSize::Zero,
            4 => VarIntSize::One,
            5 => VarIntSize::Zero,
            _ => VarIntSize::Zero,
        }
    } else {
        assert(t & 0x80 == 0 ==> t < 0x80) by (bit_vector);
        VarIntSize::Zero
    }
}

/// The byte length of a number encoded in `style` that starts with byte `first`.
pub open spec fn number_len(style: NumberStyle, first: u8) -> nat {
    match style {
        NumberStyle::U16 => 2,
        NumberStyle::VarInt => 1 + varint_extra(first),
    }
}

/// Whether `s` starts with a complete, well-formed number in `style`.
pub open spec fn number_readable(style: NumberStyle, s: Seq<u8>) -> bool {
    match style {
        NumberStyle::U16 => s.len() >= 2,
        NumberStyle::VarInt => s.len() >= 1 && varint_first_byte_ok(s[0]) && s.len() >= number_len(
            style,
            s[0],
        ),
    }
}

/// The compressed representation of the number at the start of `s`: its bytes, little endian.
pub open spec fn number_value(style: NumberStyle, s: Seq<u8>) -> nat {
    le_value(s.take(number_len(style, s[0]) as int))
}

/// The byte length of a length prefix of kind `kind`.
pub open spec fn length_len(kind: LengthKind) -> nat {
    match kind {
        LengthKind::U8Length => 1,
        LengthKind::U16Length => 2,
    }
}

/// A cursor over the bytes of a script.
#[derive(Clone)]
pub struct Reader<'a> {
    data: &'a [u8],
    pos: usize,
}

impl<'a> Reader<'a> {
    /// The bytes being read.
    pub closed spec fn bytes(&self) -> Seq<u8> {
        self.data@
    }

    /// The current position.
    pub closed spec fn pos(&self) -> int {
        self.pos as int
    }

    /// The bytes from the current position on.
    pub open spec fn rest(&self) -> Seq<u8> {
        self.bytes().skip(self.pos())
    }

    /// Whether `n` more bytes can be taken.
    pub open spec fn has(&self, n: int) -> bool {
        0 <= self.pos() && self.pos() + n <= self.bytes().len()
    }

    /// The reader state after taking `n` bytes.
    pub open spec fn advanced(&self, old: Self, n: int) -> bool {
        self.bytes() == old.bytes() && self.pos() == old.pos() + n
    }

    pub fn new(data: &'a [u8], pos: usize) -> (r: Self)
        ensures
            r.bytes() == data@,
            r.pos() == pos,
    {
        Self { data, pos }
    }

    #[must_use]
    pub fn rewound(&self, position: u32) -> (r: Self)
        ensures
            r.bytes() == self.bytes(),
            r.pos() == position,
    {
        Self { data: self.data, pos: position as usize }
    }

    pub fn take(&mut self, size: usize) -> (res: &'a [u8])
        requires
            old(self).has(size as int),
        ensures
            res@ == old(self).bytes().subrange(old(self).pos(), old(self).pos() + size),
            final(self).advanced(*old(self), size as int),
    {
        let _len = self.data.len();
        let res = vstd::slice::slice_subrange(self.data, self.pos, self.pos + size);
        self.pos = self.pos + size;
        res
    }

    pub fn take_u8(&mut self) -> (r: u8)
        requires
            old(self).has(1),
        ensures
            r == old(self).bytes()[old(self).pos()],
            final(self).advanced(*old(self), 1),
    {
        let b = self.take(1);
        b[0]
    }

    pub fn take_u16(&mut self) -> (r: u16)
        requires
            old(self).has(2),
        ensures
            r == le_value(old(self).bytes().subrange(old(self).pos(), old(self).pos() + 2)),
            final(self).advanced(*old(self), 2),
    {
        let b = self.take(2);
        proof {
            lemma_le_value_small(b@);
        }
        b[0] as u16 + (b[1] as u16) * 256
    }

    pub fn take_u32(&mut self) -> (r: u32)
        requires
            old(self).has(4),
        ensures
            r == le_value(old(self).bytes().subrange(old(self).pos(), old(self).pos() + 4)),
            final(self).advanced(*old(self), 4),
    {
        let b = self.take(4);
        proof {
            lemma_le_value_small(b@);
        }
        b[0] as u32 + (b[1] as u32) * 256 + (b[2] as u32) * 65536 + (b[3] as u32) * 16777216
    }

    pub fn take_length(&mut self, kind: LengthKind) -> (r: u16)
        requires
            old(self).has(length_len(kind) as int),
        ensures
            r == le_value(
                old(self).bytes().subrange(old(self).pos(), old(self).pos() + length_len(kind)),
            ),
            final(self).advanced(*old(self), length_len(kind) as int),
    {
        match kind {
            LengthKind::U8Length => {
                proof {
                    lemma_le_value_small(
                        self.bytes().subrange(self.pos(), self.pos() + 1),
                    );
                }
                self.take_u8() as u16
            },
            LengthKind::U16Length => self.take_u16(),
        }
    }

    pub fn take_reg(&mut self) -> (r: u16)
        requires
            old(self).has(2),
        ensures
            r == le_value(old(self).bytes().subrange(old(self).pos(), old(self).pos() + 2)),
            final(self).advanced(*old(self), 2),
    {
        self.take_u16()
    }

    /// Read a Number, which can be either a register reference or an immediate constant.
    ///
    /// The number is not fully parsed, but stored in a compressed representation as `u32`:
    /// its bytes as read, little endian.
    pub fn take_number(&mut self, style: NumberStyle) -> (r: u32)
        requires
            0 <= old(self).pos() <= old(self).bytes().len(),
            number_readable(style, old(self).rest()),
        ensures
            r == number_value(style, old(self).rest()),
            final(self).advanced(*old(self), number_len(style, old(self).rest()[0]) as int),
    {
        let ghost s = self.rest();
        match style {
            NumberStyle::U16 => {
                proof {
                    assert(s.take(2) =~= self.bytes().subrange(self.pos(), self.pos() + 2));
                }
                self.take_u16() as u32
            },
            NumberStyle::VarInt => {
                let t = self.take_u8();
                assert(t == s[0]);
                match var_int_size(t) {
                    VarIntSize::Zero => {
                        proof {
                            lemma_le_value_small(s.take(1));
                        }
                        t as u32
                    },
                    VarIntSize::One => {
                        let b1 = self.take_u8();
                        proof {
                            lemma_le_value_small(s.take(2));
                        }
                        t as u32 + (b1 as u32) * 256
                    },
                    VarIntSize::Two => {
                        let b1 = self.take_u8();
                        let b2 = self.take_u8();
                        proof {
                            lemma_le_value_small(s.take(3));
                        }
                        t as u32 + (b1 as u32) * 256 + (b2 as u32) * 65536
                    },
                    VarIntSize::Three => {
                        let b1 = self.take_u8();
                        let b2 = self.take_u8();
                        let b3 = self.take_u8();
                        proof {
                            lemma_le_value_small(s.take(4));
                        }
                        t as u32 + (b1 as u32) * 256 + (b2 as u32) * 65536 + (b3 as u32)
                            * 16777216
                    },
                }
            },
        }
    }

    pub fn take_offset(&mut self) -> (r: u32)
        requires
            old(self).has(4),
        ensures
            r == le_value(old(self).bytes().subrange(old(self).pos(), old(self).pos() + 4)),
            final(self).advanced(*old(self), 4),
    {
        self.take_u32()
    }

    /// Reads a length prefix of kind `length_kind` and then that many bytes.
    pub fn take_string(&mut self, length_kind: LengthKind) -> (r: &'a [u8])
        requires
            old(self).has(length_len(length_kind) as int),
            old(self).has(
                (length_len(length_kind) + le_value(
                    old(self).bytes().subrange(
                        old(self).pos(),
                        old(self).pos() + length_len(length_kind),
                    ),
                )) as int,
            ),
        ensures
            ({
                let p = old(self).pos();
                let l = length_len(length_kind);
                let n = le_value(old(self).bytes().subrange(p, p + l));
                &&& r@ == old(self).bytes().subrange(p + l, p + l + n)
                &&& final(self).advanced(*old(self), (l + n) as int)
            }),
    {
        let len = self.take_length(length_kind);
        self.take(len as usize)
    }

    /// Reads a length-prefixed string array: zero-terminated strings back to back, followed by a zero byte.
    pub fn take_string_array(&mut self, length_kind: LengthKind) -> (r: &'a [u8])
        requires
            old(self).has(length_len(length_kind) as int),
            old(self).has(
                (length_len(length_kind) + le_value(
                    old(self).bytes().subrange(
                        old(self).pos(),
                        old(self).pos() + length_len(length_kind),
                    ),
                )) as int,
            ),
        ensures
            ({
                let p = old(self).pos();
                let l = length_len(length_kind);
                let n = le_value(old(self).bytes().subrange(p, p + l));
                &&& r@ == old(self).bytes().subrange(p + l, p + l + n)
                &&& final(self).advanced(*old(self), (l + n) as int)
            }),
    {
        let len = self.take_length(length_kind);
        self.take(len as usize)
    }

    pub fn take_u8string(&mut self) -> (r: &'a [u8])
        requires
            old(self).has(1),
            old(self).has(1 + old(self).bytes()[old(self).pos()]),
        ensures
            ({
                let p = old(self).pos();
                let n = old(self).bytes()[p] as int;
                &&& r@ == old(self).bytes().subrange(p + 1, p + 1 + n)
                &&& final(self).advanced(*old(self), 1 + n)
            }),
    {
        proof {
            lemma_le_value_small(self.bytes().subrange(self.pos(), self.pos() + 1));
        }
        self.take_string(LengthKind::U8Length)
    }

    pub fn take_u16string(&mut self) -> (r: &'a [u8])
        requires
            old(self).has(2),
            old(self).has(
                (2 + le_value(old(self).bytes().subrange(old(self).pos(), old(self).pos() + 2))) as int,
            ),
        ensures
            ({
                let p = old(self).pos();
                let n = le_value(old(self).bytes().subrange(p, p + 2));
                &&& r@ == old(self).bytes().subrange(p + 2, p + 2 + n)
                &&& final(self).advanced(*old(self), (2 + n) as int)
            }),
    {
        self.take_string(LengthKind::U16Length)
    }

    pub fn take_u8string_array(&mut self) -> (r: &'a [u8])
        requires
            old(self).has(1),
            old(self).has(1 + old(self).bytes()[old(self).pos()]),
        ensures
            ({
                let p = old(self).pos();
                let n = old(self).bytes()[p] as int;
                &&& r@ == old(self).bytes().subrange(p + 1, p + 1 + n)
                &&& final(self).advanced(*old(self), 1 + n)
            }),
    {
        proof {
            lemma_le_value_small(self.bytes().subrange(self.pos(), self.pos() + 1));
        }
        self.take_string_array(LengthKind::U8Length)
    }

    pub fn take_u16string_array(&mut self) -> (r: &'a [u8])
        requires
            old(self).has(2),
            old(self).has(
                (2 + le_value(old(self).bytes().subrange(old(self).pos(), old(self).pos() + 2))) as int,
            ),
        ensures
            ({
                let p = old(self).pos();
                let n = le_value(old(self).bytes().subrange(p, p + 2));
                &&& r@ == old(self).bytes().subrange(p + 2, p + 2 + n)
                &&& final(self).advanced(*old(self), (2 + n) as int)
            }),
    {
        self.take_string_array(LengthKind::U16Length)
    }

    /// Whether another instruction follows.
    ///
    /// The file is padded with zero bytes to a multiple of 16, so the stream has ended
    /// when at most 16 bytes remain and all of them are zero.
    pub fn has_instr(&self) -> (r: bool)
        requires
            0 <= self.pos() <= self.bytes().len(),
        ensures
            r == (self.pos() + 16 < self.bytes().len() || exists|i: int|
                self.pos() <= i < self.bytes().len() && self.bytes()[i] != 0),
    {
        if self.data.len() > 16 && self.pos < self.data.len() - 16 {
            return true;
        }
        let mut i = self.pos;
        while i < self.data.len()
            invariant
                self.pos <= i <= self.data@.len(),
                forall|j: int| self.pos <= j < i ==> self.data@[j] == 0,
            decreases self.data@.len() - i,
        {
            if self.data[i] != 0 {
                return true;
            }
            i += 1;
        }
        false
    }

    /// The position as a 32-bit value (cut to its low 32 bits, as script offsets are).
    pub fn position(&self) -> (r: u32)
        ensures
            r == self.pos() as u32,
            0 <= self.pos() <= u32::MAX ==> r == self.pos(),
    {
        self.pos as u32
    }

    pub fn size(&self) -> (r: usize)
        ensures
            r == self.bytes().len(),
    {
        self.data.len()
    }
}


} // verus!
