//! Serializing operation elements back into script bytes.
use vstd::prelude::*;

use crate::le::{byte_bound, le_bytes, lemma_le_bytes_len};
use crate::snr::operation::arena::{Number, Offset, Register};
use crate::snr::operation::repr::{ElementValue, NumberArrayKind, OperationElementRepr};
use crate::snr::reader::length_len;
use crate::snr::writer::{encode_number, number_writable, wrote, Writer};
use crate::versions::{LengthKind, NumberStyle};

verus! {

/// The bytes of a number padded to a fixed width: two bytes, or four for variable-length numbers.
pub open spec fn encode_pad_number(style: NumberStyle, number: nat) -> Seq<u8> {
    match style {
        NumberStyle::U16 => le_bytes(number, 2),
        NumberStyle::VarInt => le_bytes(number, 4),
    }
}

/// Whether a padded number fits its width.
pub open spec fn pad_number_writable(style: NumberStyle, number: nat) -> bool {
    match style {
        NumberStyle::U16 => number < 65536,
        NumberStyle::VarInt => true,
    }
}

/// The number of zero bytes in `s`.
pub open spec fn zero_count(s: Seq<u8>) -> nat
    decreases s.len(),
{
    if s.len() == 0 {
        0
    } else {
        zero_count(s.drop_last()) + if s.last() == 0 {
            1nat
        } else {
            0nat
        }
    }
}

/// The bytes of an expression: each code, and after each zero code the next number.
pub open spec fn encode_expression(style: NumberStyle, codes: Seq<u8>, numbers: Seq<u32>) -> Seq<u8>
    decreases codes.len(),
{
    if codes.len() == 0 {
        Seq::empty()
    } else {
        let before = codes.drop_last();
        encode_expression(style, before, numbers) + seq![codes.last()] + if codes.last() == 0 {
            encode_number(style, numbers[zero_count(before) as int] as nat)
        } else {
            Seq::empty()
        }
    }
}

/// Whether every zero code of an expression has a writable number to go with it.
pub open spec fn expression_writable(style: NumberStyle, codes: Seq<u8>, numbers: Seq<u32>) -> bool {
    forall|i: int|
        0 <= i < codes.len() && codes[i] == 0 ==> zero_count(codes.take(i)) < numbers.len()
            && number_writable(style, numbers[zero_count(codes.take(i)) as int] as nat)
}

/// The bytes of numbers written one after the other, compact or padded.
pub open spec fn encode_numbers(style: NumberStyle, kind: NumberArrayKind, numbers: Seq<u32>) -> Seq<
    u8,
>
    decreases numbers.len(),
{
    if numbers.len() == 0 {
        Seq::empty()
    } else {
        encode_numbers(style, kind, numbers.drop_last()) + match kind {
            NumberArrayKind::Dense => encode_number(style, numbers.last() as nat),
            NumberArrayKind::Padded => encode_pad_number(style, numbers.last() as nat),
        }
    }
}

/// Whether every number of an array is writable.
pub open spec fn numbers_writable(style: NumberStyle, kind: NumberArrayKind, numbers: Seq<u32>) -> bool {
    forall|i: int|
        0 <= i < numbers.len() ==> match kind {
            NumberArrayKind::Dense => number_writable(style, numbers[i] as nat),
            NumberArrayKind::Padded => pad_number_writable(style, numbers[i] as nat),
        }
}

/// The bytes of 16-bit values written one after the other.
pub open spec fn encode_u16s(values: Seq<u16>) -> Seq<u8>
    decreases values.len(),
{
    if values.len() == 0 {
        Seq::empty()
    } else {
        encode_u16s(values.drop_last()) + le_bytes(values.last() as nat, 2)
    }
}

/// The bytes of 32-bit values written one after the other.
pub open spec fn encode_u32s(values: Seq<u32>) -> Seq<u8>
    decreases values.len(),
{
    if values.len() == 0 {
        Seq::empty()
    } else {
        encode_u32s(values.drop_last()) + le_bytes(values.last() as nat, 4)
    }
}

/// The length prefix for `n` items.
pub open spec fn encode_length(kind: LengthKind, n: nat) -> Seq<u8> {
    le_bytes(n, length_len(kind))
}

/// Whether `n` fits a length prefix of kind `kind`.
pub open spec fn length_fits(kind: LengthKind, n: nat) -> bool {
    n < byte_bound(length_len(kind))
}

/// The bytes of an operation element.
pub open spec fn encode_element(style: NumberStyle, v: ElementValue) -> Seq<u8> {
    match v {
        ElementValue::U8(x) => seq![x],
        ElementValue::U16(x) => le_bytes(x as nat, 2),
        ElementValue::U32(x) => le_bytes(x as nat, 4),
        ElementValue::Operation(x) => seq![x],
        ElementValue::Condition(x) => seq![x],
        ElementValue::Expression(codes, numbers) => encode_expression(style, codes, numbers),
        ElementValue::Register(x) => le_bytes(x as nat, 2),
        ElementValue::RegisterArray(k, values) => encode_length(k, values.len()) + encode_u16s(
            values,
        ),
        ElementValue::Offset(x) => le_bytes(x as nat, 4),
        ElementValue::OffsetArray(k, values) => encode_length(k, values.len()) + encode_u32s(
            values,
        ),
        ElementValue::Number(x) => encode_number(style, x as nat),
        ElementValue::OptionalNumber(x) => match x {
            Some(n) => encode_number(style, n as nat),
            None => Seq::empty(),
        },
        ElementValue::NumberArray(k, a, values) => encode_length(k, values.len()) + encode_numbers(
            style,
            a,
            values,
        ),
        ElementValue::BitmaskNumberArray(mask, values) => seq![mask] + encode_numbers(
            style,
            NumberArrayKind::Dense,
            values,
        ),
        ElementValue::String(k, s) => encode_length(k, s.len()) + s,
        ElementValue::StringArray(k, s) => encode_length(k, s.len()) + s,
        ElementValue::HiguSuiWipeArg(b1, b2, values) => seq![b1, b2] + encode_numbers(
            style,
            NumberArrayKind::Dense,
            values,
        ),
    }
}

/// Whether an operation element can be written: lengths fit their prefixes and numbers their encodings.
pub open spec fn element_writable(style: NumberStyle, v: ElementValue) -> bool {
    match v {
        ElementValue::Expression(codes, numbers) => expression_writable(style, codes, numbers),
        ElementValue::RegisterArray(k, values) => length_fits(k, values.len()),
        ElementValue::OffsetArray(k, values) => length_fits(k, values.len()),
        ElementValue::Number(x) => number_writable(style, x as nat),
        ElementValue::OptionalNumber(x) => match x {
            Some(n) => number_writable(style, n as nat),
            None => true,
        },
        ElementValue::NumberArray(k, a, values) => length_fits(k, values.len()) && numbers_writable(
            style,
            a,
            values,
        ),
        ElementValue::BitmaskNumberArray(_, values) => numbers_writable(
            style,
            NumberArrayKind::Dense,
            values,
        ),
        ElementValue::String(k, s) => length_fits(k, s.len()),
        ElementValue::StringArray(k, s) => length_fits(k, s.len()),
        ElementValue::HiguSuiWipeArg(_, _, values) => numbers_writable(
            style,
            NumberArrayKind::Dense,
            values,
        ),
        _ => true,
    }
}

/// Writes the elements of operations with a given number style.
pub struct InstructionSerializeContext<W> {
    number_style: NumberStyle,
    writer: W,
}

impl<W> InstructionSerializeContext<W> {
    /// The number style used.
    pub closed spec fn style(&self) -> NumberStyle {
        self.number_style
    }

    /// The writer written to.
    pub closed spec fn writer_view(&self) -> W {
        self.writer
    }

    pub fn new(number_style: NumberStyle, writer: W) -> (r: Self)
        ensures
            r.style() == number_style,
            r.writer_view() == writer,
    {
        Self { number_style, writer }
    }

    pub fn writer_ref(&self) -> (r: &W)
        ensures
            *r == self.writer_view(),
    {
        &self.writer
    }

    pub fn writer_mut(&mut self) -> (r: &mut W)
        ensures
            *r == old(self).writer_view(),
            final(self).writer_view() == *final(r),
            final(self).style() == old(self).style(),
    {
        &mut self.writer
    }

    pub fn into_parts(self) -> (r: (NumberStyle, W))
        ensures
            r.0 == self.style(),
            r.1 == self.writer_view(),
    {
        (self.number_style, self.writer)
    }
}

impl<W: Writer> InstructionSerializeContext<W> {
    /// The room left in the writer.
    pub open spec fn room(&self) -> int {
        self.writer_view().room()
    }

    /// `new` is `old` after writing `data`.
    pub open spec fn did_write(new: Self, old: Self, data: Seq<u8>) -> bool {
        &&& new.style() == old.style()
        &&& wrote(new.writer_view(), old.writer_view(), data)
    }

    pub fn put_u8(&mut self, value: u8)
        requires
            1 <= old(self).room(),
        ensures
            Self::did_write(*final(self), *old(self), seq![value]),
    {
        self.writer.put_u8(value);
    }

    pub fn put_u16(&mut self, value: u16)
        requires
            2 <= old(self).room(),
        ensures
            Self::did_write(*final(self), *old(self), le_bytes(value as nat, 2)),
    {
        self.writer.put_u16(value);
    }

    pub fn put_u32(&mut self, value: u32)
        requires
            4 <= old(self).room(),
        ensures
            Self::did_write(*final(self), *old(self), le_bytes(value as nat, 4)),
    {
        self.writer.put_u32(value);
    }

    pub fn put_operation(&mut self, value: u8)
        requires
            1 <= old(self).room(),
        ensures
            Self::did_write(*final(self), *old(self), seq![value]),
    {
        self.writer.put_u8(value);
    }

    pub fn put_condition(&mut self, value: u8)
        requires
            1 <= old(self).room(),
        ensures
            Self::did_write(*final(self), *old(self), seq![value]),
    {
        self.writer.put_u8(value);
    }

    pub fn put_register(&mut self, value: Register)
        requires
            2 <= old(self).room(),
        ensures
            Self::did_write(*final(self), *old(self), le_bytes(value as nat, 2)),
    {
        self.writer.put_u16(value);
    }

    pub fn put_offset(&mut self, value: Offset)
        requires
            4 <= old(self).room(),
        ensures
            Self::did_write(*final(self), *old(self), le_bytes(value as nat, 4)),
    {
        self.writer.put_offset(value);
    }

    pub fn put_number(&mut self, value: Number)
        requires
            number_writable(old(self).style(), value as nat),
            encode_number(old(self).style(), value as nat).len() <= old(self).room(),
        ensures
            Self::did_write(*final(self), *old(self), encode_number(old(self).style(), value as nat)),
    {
        self.writer.put_number(self.number_style, value);
    }

    /// Writes a number padded to a fixed width (the padding bytes are written back as they were read).
    pub fn put_pad_number(&mut self, value: Number)
        requires
            pad_number_writable(old(self).style(), value as nat),
            encode_pad_number(old(self).style(), value as nat).len() <= old(self).room(),
        ensures
            Self::did_write(
                *final(self),
                *old(self),
                encode_pad_number(old(self).style(), value as nat),
            ),
    {
        proof {
            lemma_le_bytes_len(value as nat, 2);
            lemma_le_bytes_len(value as nat, 4);
        }
        match self.number_style {
            NumberStyle::U16 => self.writer.put_u16(value as u16),
            NumberStyle::VarInt => self.writer.put_u32(value),
        }
    }

    /// Writes the number if there is one; its presence is signalled elsewhere in the operation.
    pub fn put_optional_number(&mut self, value: Option<Number>)
        requires
            element_writable(old(self).style(), ElementValue::OptionalNumber(value)),
            encode_element(old(self).style(), ElementValue::OptionalNumber(value)).len()
                <= old(self).room(),
        ensures
            Self::did_write(
                *final(self),
                *old(self),
                encode_element(old(self).style(), ElementValue::OptionalNumber(value)),
            ),
    {
        if let Some(value) = value {
            self.put_number(value)
        } else {
            assert(self.writer_view().written() =~= self.writer_view().written() + Seq::<
                u8,
            >::empty());
        }
    }

    pub fn put_string(&mut self, length_kind: LengthKind, string: &[u8])
        requires
            length_fits(length_kind, string@.len()),
            length_len(length_kind) + string@.len() <= old(self).room(),
        ensures
            Self::did_write(
                *final(self),
                *old(self),
                encode_length(length_kind, string@.len()) + string@,
            ),
    {
        self.writer.put_string(length_kind, string);
    }

    pub fn put_string_array(&mut self, length_kind: LengthKind, string_array: &[u8])
        requires
            length_fits(length_kind, string_array@.len()),
            length_len(length_kind) + string_array@.len() <= old(self).room(),
        ensures
            Self::did_write(
                *final(self),
                *old(self),
                encode_length(length_kind, string_array@.len()) + string_array@,
            ),
    {
        self.writer.put_string_array(length_kind, string_array);
    }

    pub fn put_length(&mut self, kind: LengthKind, value: usize)
        requires
            length_fits(kind, value as nat),
            length_len(kind) <= old(self).room(),
        ensures
            Self::did_write(*final(self), *old(self), encode_length(kind, value as nat)),
    {
        self.writer.put_length(kind, value);
    }

    /// Writes each code of an expression, and after each zero code the next number.
    pub fn put_expression(&mut self, operations: &[u8], numbers: &[Number])
        requires
            expression_writable(old(self).style(), operations@, numbers@),
            encode_expression(old(self).style(), operations@, numbers@).len() <= old(self).room(),
        ensures
            Self::did_write(
                *final(self),
                *old(self),
                encode_expression(old(self).style(), operations@, numbers@),
            ),
    {
        let style = self.number_style;
        let mut next: usize = 0;
        let mut i: usize = 0;
        while i < operations.len()
            invariant
                0 <= i <= operations@.len(),
                style == self.style(),
                next == zero_count(operations@.take(i as int)),
                expression_writable(style, operations@, numbers@),
                Self::did_write(
                    *self,
                    *old(self),
                    encode_expression(style, operations@.take(i as int), numbers@),
                ),
                encode_expression(style, operations@, numbers@).len() <= old(self).room(),
            decreases operations@.len() - i,
        {
            let code = operations[i];
            proof {
                lemma_expression_prefix(style, operations@, numbers@, i as int + 1);
                assert(operations@.take(i + 1).drop_last() =~= operations@.take(i as int));
            }
            self.writer.put_u8(code);
            if code == 0 {
                proof {
                    lemma_le_bytes_len(numbers@[next as int] as nat, 2);
                }
                self.writer.put_number(self.number_style, numbers[next]);
                next = next + 1;
            }
            i = i + 1;
            proof {
                let before = operations@.take(i - 1);
                assert(operations@.take(i as int).drop_last() =~= before);
                assert(self.writer_view().written() =~= old(self).writer_view().written()
                    + encode_expression(style, operations@.take(i as int), numbers@));
            }
        }
        assert(operations@.take(i as int) =~= operations@);
    }

    pub fn put_bitmask_number_array(&mut self, mask: u8, numbers: &[Number])
        requires
            numbers_writable(old(self).style(), NumberArrayKind::Dense, numbers@),
            1 + encode_numbers(old(self).style(), NumberArrayKind::Dense, numbers@).len()
                <= old(self).room(),
        ensures
            Self::did_write(
                *final(self),
                *old(self),
                seq![mask] + encode_numbers(old(self).style(), NumberArrayKind::Dense, numbers@),
            ),
    {
        self.writer.put_u8(mask);
        let ghost mid = *self;
        self.put_numbers(NumberArrayKind::Dense, numbers);
        assert(self.writer_view().written() =~= old(self).writer_view().written() + (seq![mask]
            + encode_numbers(old(self).style(), NumberArrayKind::Dense, numbers@)));
    }

    pub fn put_higu_sui_wipe_arg(&mut self, b1: u8, b2: u8, numbers: &[Number])
        requires
            numbers_writable(old(self).style(), NumberArrayKind::Dense, numbers@),
            2 + encode_numbers(old(self).style(), NumberArrayKind::Dense, numbers@).len()
                <= old(self).room(),
        ensures
            Self::did_write(
                *final(self),
                *old(self),
                seq![b1, b2] + encode_numbers(old(self).style(), NumberArrayKind::Dense, numbers@),
            ),
    {
        self.writer.put_u8(b1);
        self.writer.put_u8(b2);
        self.put_numbers(NumberArrayKind::Dense, numbers);
        assert(self.writer_view().written() =~= old(self).writer_view().written() + (seq![b1, b2]
            + encode_numbers(old(self).style(), NumberArrayKind::Dense, numbers@)));
    }

    /// Writes the numbers of an array one after the other.
    fn put_numbers(&mut self, kind: NumberArrayKind, numbers: &[Number])
        requires
            numbers_writable(old(self).style(), kind, numbers@),
            encode_numbers(old(self).style(), kind, numbers@).len() <= old(self).room(),
        ensures
            Self::did_write(
                *final(self),
                *old(self),
                encode_numbers(old(self).style(), kind, numbers@),
            ),
    {
        let mut i: usize = 0;
        while i < numbers.len()
            invariant
                0 <= i <= numbers@.len(),
                numbers_writable(old(self).style(), kind, numbers@),
                Self::did_write(
                    *self,
                    *old(self),
                    encode_numbers(old(self).style(), kind, numbers@.take(i as int)),
                ),
                encode_numbers(old(self).style(), kind, numbers@).len() <= old(self).room(),
            decreases numbers@.len() - i,
        {
            proof {
                lemma_numbers_prefix(old(self).style(), kind, numbers@, i as int + 1);
                assert(numbers@.take(i + 1).drop_last() =~= numbers@.take(i as int));
            }
            match kind {
                NumberArrayKind::Dense => self.put_number(numbers[i]),
                NumberArrayKind::Padded => self.put_pad_number(numbers[i]),
            }
            i = i + 1;
            assert(self.writer_view().written() =~= old(self).writer_view().written()
                + encode_numbers(old(self).style(), kind, numbers@.take(i as int)));
        }
        assert(numbers@.take(i as int) =~= numbers@);
    }

    /// Writes 16-bit values one after the other.
    fn put_registers(&mut self, values: &[Register])
        requires
            encode_u16s(values@).len() <= old(self).room(),
        ensures
            Self::did_write(*final(self), *old(self), encode_u16s(values@)),
    {
        let mut i: usize = 0;
        while i < values.len()
            invariant
                0 <= i <= values@.len(),
                Self::did_write(*self, *old(self), encode_u16s(values@.take(i as int))),
                encode_u16s(values@).len() <= old(self).room(),
            decreases values@.len() - i,
        {
            proof {
                lemma_u16s_prefix(values@, i as int + 1);
                assert(values@.take(i + 1).drop_last() =~= values@.take(i as int));
                lemma_le_bytes_len(values@[i as int] as nat, 2);
            }
            self.put_register(values[i]);
            i = i + 1;
            assert(self.writer_view().written() =~= old(self).writer_view().written()
                + encode_u16s(values@.take(i as int)));
        }
        assert(values@.take(i as int) =~= values@);
    }

    /// Writes 32-bit offsets one after the other.
    fn put_offsets(&mut self, values: &[Offset])
        requires
            encode_u32s(values@).len() <= old(self).room(),
        ensures
            Self::did_write(*final(self), *old(self), encode_u32s(values@)),
    {
        let mut i: usize = 0;
        while i < values.len()
            invariant
                0 <= i <= values@.len(),
                Self::did_write(*self, *old(self), encode_u32s(values@.take(i as int))),
                encode_u32s(values@).len() <= old(self).room(),
            decreases values@.len() - i,
        {
            proof {
                lemma_u32s_prefix(values@, i as int + 1);
                assert(values@.take(i + 1).drop_last() =~= values@.take(i as int));
                lemma_le_bytes_len(values@[i as int] as nat, 4);
            }
            self.put_offset(values[i]);
            i = i + 1;
            assert(self.writer_view().written() =~= old(self).writer_view().written()
                + encode_u32s(values@.take(i as int)));
        }
        assert(values@.take(i as int) =~= values@);
    }

    /// Writes one element of an operation.
    pub fn put_element(&mut self, element: &OperationElementRepr)
        requires
            element_writable(old(self).style(), element@),
            encode_element(old(self).style(), element@).len() <= old(self).room(),
        ensures
            Self::did_write(*final(self), *old(self), encode_element(old(self).style(), element@)),
    {
        proof {
            lemma_length_len_bytes();
        }
        match *element {
            OperationElementRepr::U8(value) => self.put_u8(value),
            OperationElementRepr::U16(value) => self.put_u16(value),
            OperationElementRepr::U32(value) => self.put_u32(value),
            OperationElementRepr::Operation(value) => self.put_operation(value),
            OperationElementRepr::Condition(value) => self.put_condition(value),
            OperationElementRepr::Expression(operations, numbers) => {
                self.put_expression(operations, numbers)
            },
            OperationElementRepr::Register(value) => self.put_register(value),
            OperationElementRepr::RegisterArray(kind, values) => {
                proof {
                    lemma_le_bytes_len(values@.len(), length_len(kind));
                }
                self.put_length(kind, values.len());
                self.put_registers(values);
                assert(self.writer_view().written() =~= old(self).writer_view().written()
                    + encode_element(old(self).style(), element@));
            },
            OperationElementRepr::Offset(value) => self.put_offset(value),
            OperationElementRepr::OffsetArray(kind, values) => {
                proof {
                    lemma_le_bytes_len(values@.len(), length_len(kind));
                }
                self.put_length(kind, values.len());
                self.put_offsets(values);
                assert(self.writer_view().written() =~= old(self).writer_view().written()
                    + encode_element(old(self).style(), element@));
            },
            OperationElementRepr::Number(value) => {
                self.put_number(value);
            },
            OperationElementRepr::OptionalNumber(value) => {
                self.put_optional_number(value);
            },
            OperationElementRepr::NumberArray(kind, array_kind, values) => {
                proof {
                    lemma_le_bytes_len(values@.len(), length_len(kind));
                }
                self.put_length(kind, values.len());
                self.put_numbers(array_kind, values);
                assert(self.writer_view().written() =~= old(self).writer_view().written()
                    + encode_element(old(self).style(), element@));
            },
            OperationElementRepr::BitmaskNumberArray(mask, numbers) => {
                self.put_bitmask_number_array(mask, numbers)
            },
            OperationElementRepr::String(kind, value) => {
                proof {
                    lemma_le_bytes_len(value@.len(), length_len(kind));
                }
                self.put_string(kind, value)
            },
            OperationElementRepr::StringArray(kind, value) => {
                proof {
                    lemma_le_bytes_len(value@.len(), length_len(kind));
                }
                self.put_string_array(kind, value)
            },
            OperationElementRepr::HiguSuiWipeArg(b1, b2, numbers) => {
                self.put_higu_sui_wipe_arg(b1, b2, numbers)
            },
        }
    }
}

proof fn lemma_length_len_bytes()
    ensures
        forall|v: nat, k: LengthKind| #[trigger] le_bytes(v, length_len(k)).len() == length_len(k),
        forall|v: nat| #[trigger] le_bytes(v, 2).len() == 2,
        forall|v: nat| #[trigger] le_bytes(v, 4).len() == 4,
{
    assert forall|v: nat| #[trigger] le_bytes(v, 2).len() == 2 by {
        lemma_le_bytes_len(v, 2);
    }
    assert forall|v: nat| #[trigger] le_bytes(v, 4).len() == 4 by {
        lemma_le_bytes_len(v, 4);
    }
    assert forall|v: nat, k: LengthKind| #[trigger] le_bytes(v, length_len(k)).len() == length_len(
        k,
    ) by {
        lemma_le_bytes_len(v, length_len(k));
    }
}

/// The encoding of a prefix of an expression is a prefix of the encoding.
proof fn lemma_expression_prefix(style: NumberStyle, codes: Seq<u8>, numbers: Seq<u32>, n: int)
    requires
        0 <= n <= codes.len(),
    ensures
        encode_expression(style, codes.take(n), numbers).len() <= encode_expression(
            style,
            codes,
            numbers,
        ).len(),
    decreases codes.len(),
{
    if n < codes.len() {
        lemma_expression_prefix(style, codes.drop_last(), numbers, n);
        assert(codes.drop_last().take(n) =~= codes.take(n));
    } else {
        assert(codes.take(n) =~= codes);
    }
}

/// The encoding of a prefix of a number array is no longer than the encoding.
proof fn lemma_numbers_prefix(style: NumberStyle, kind: NumberArrayKind, numbers: Seq<u32>, n: int)
    requires
        0 <= n <= numbers.len(),
    ensures
        encode_numbers(style, kind, numbers.take(n)).len() <= encode_numbers(
            style,
            kind,
            numbers,
        ).len(),
    decreases numbers.len(),
{
    if n < numbers.len() {
        lemma_numbers_prefix(style, kind, numbers.drop_last(), n);
        assert(numbers.drop_last().take(n) =~= numbers.take(n));
    } else {
        assert(numbers.take(n) =~= numbers);
    }
}

proof fn lemma_u16s_prefix(values: Seq<u16>, n: int)
    requires
        0 <= n <= values.len(),
    ensures
        encode_u16s(values.take(n)).len() <= encode_u16s(values).len(),
    decreases values.len(),
{
    if n < values.len() {
        lemma_u16s_prefix(values.drop_last(), n);
        assert(values.drop_last().take(n) =~= values.take(n));
    } else {
        assert(values.take(n) =~= values);
    }
}

proof fn lemma_u32s_prefix(values: Seq<u32>, n: int)
    requires
        0 <= n <= values.len(),
    ensures
        encode_u32s(values.take(n)).len() <= encode_u32s(values).len(),
    decreases values.len(),
{
    if n < values.len() {
        lemma_u32s_prefix(values.drop_last(), n);
        assert(values.drop_last().take(n) =~= values.take(n));
    } else {
        assert(values.take(n) =~= values);
    }
}

} // verus!
