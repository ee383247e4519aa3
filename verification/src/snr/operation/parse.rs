//! Reading the elements of an operation from a script into an arena.
use vstd::prelude::*;

use crate::le::{byte_bound, le_bytes, le_value, lemma_byte_bound_small, lemma_le_bytes_of_value, lemma_le_value_small};
use crate::snr::operation::arena::{
    element_at, element_available, element_values, elements_readable, position_fits, position_start, ArenaView,
    OperationArena, PositionView,
};
use crate::snr::operation::repr::{ElementValue, NumberArrayKind};
use crate::snr::operation::schema::{OperationElement, OperationSchema};
use crate::snr::reader::{length_len, number_len, number_readable, number_value, Reader};
use crate::snr::operation::serialize::{
    element_writable, encode_element, encode_expression, encode_length, encode_numbers, encode_u16s, encode_u32s,
    expression_writable, length_fits, numbers_writable, zero_count,
};
use crate::snr::writer::{encode_number, lemma_number_read_write, number_writable};
use crate::versions::{LengthKind, NumberStyle};

verus! {

/// The number of set bits of `m`.
pub open spec fn ones(m: nat) -> nat
    decreases m,
{
    if m == 0 {
        0
    } else {
        m % 2 + ones(m / 2)
    }
}

/// How many numbers follow the two bytes of the wipe argument of Higurashi Sui: one per
/// set bit among the low four bits of `b2` where `b1` is zero, else one if the lowest bit
/// of `b2` is set.
pub open spec fn wipe_count(b1: u8, b2: u8) -> nat {
    if b1 == 0 {
        ones((b2 % 16) as nat)
    } else {
        (b2 % 2) as nat
    }
}

/// The width in bytes of a padded number.
pub open spec fn pad_width(style: NumberStyle) -> nat {
    match style {
        NumberStyle::U16 => 2,
        NumberStyle::VarInt => 4,
    }
}

/// `n` numbers read one after the other from the start of `s`, compact or padded, and the
/// bytes they take; `None` where `s` ends first or a number is malformed.
pub open spec fn read_numbers(style: NumberStyle, kind: NumberArrayKind, s: Seq<u8>, n: nat) -> Option<
    (Seq<u32>, nat),
>
    decreases n,
{
    if n == 0 {
        Some((Seq::empty(), 0))
    } else {
        match read_numbers(style, kind, s, (n - 1) as nat) {
            Some((ns, used)) => {
                let r = s.skip(used as int);
                match kind {
                    NumberArrayKind::Dense => if number_readable(style, r) {
                        Some((ns.push(number_value(style, r) as u32), used + number_len(style, r[0])))
                    } else {
                        None
                    },
                    NumberArrayKind::Padded => if r.len() >= pad_width(style) {
                        Some((ns.push(le_value(r.take(pad_width(style) as int)) as u32), used + pad_width(style)))
                    } else {
                        None
                    },
                }
            },
            None => None,
        }
    }
}

/// `n` little-endian values of `w` bytes each read from the start of `s`, and the bytes they
/// take; `None` where `s` is too short.
pub open spec fn read_fixed(s: Seq<u8>, w: nat, n: nat) -> Option<(Seq<nat>, nat)>
    decreases n,
{
    if n == 0 {
        Some((Seq::empty(), 0))
    } else {
        match read_fixed(s, w, (n - 1) as nat) {
            Some((vs, used)) => if s.len() >= used + w {
                Some((vs.push(le_value(s.subrange(used as int, (used + w) as int))), used + w))
            } else {
                None
            },
            None => None,
        }
    }
}

/// The length prefix of kind `kind` at the start of `s`, if `s` is long enough.
pub open spec fn read_length(kind: LengthKind, s: Seq<u8>) -> Option<nat> {
    if s.len() >= length_len(kind) {
        Some(le_value(s.take(length_len(kind) as int)))
    } else {
        None
    }
}

/// An expression read from the start of `s`: its codes up to and including the final
/// `0xff`, the number that follows each zero code, and the bytes they take; `None` where a
/// code is neither below `0x20` nor `0xff`, or `s` ends first.
pub open spec fn read_expression(style: NumberStyle, s: Seq<u8>) -> Option<(Seq<u8>, Seq<u32>, nat)>
    decreases s.len(),
{
    if s.len() == 0 {
        None
    } else {
        let t = s[0];
        let r = s.skip(1);
        if t == 0xff {
            Some((seq![t], Seq::empty(), 1))
        } else if t >= 0x20 {
            None
        } else if t == 0 {
            if number_readable(style, r) && number_len(style, r[0]) >= 1 {
                let l = number_len(style, r[0]);
                match read_expression(style, r.skip(l as int)) {
                    Some((c, ns, u)) => Some((seq![t] + c, seq![number_value(style, r) as u32] + ns, 1 + l + u)),
                    None => None,
                }
            } else {
                None
            }
        } else {
            match read_expression(style, r) {
                Some((c, ns, u)) => Some((seq![t] + c, ns, 1 + u)),
                None => None,
            }
        }
    }
}

/// The 16-bit values of a run read by `read_fixed`.
pub open spec fn as_u16s(vs: Seq<nat>) -> Seq<u16> {
    vs.map_values(|v: nat| v as u16)
}

/// The 32-bit values of a run read by `read_fixed`.
pub open spec fn as_u32s(vs: Seq<nat>) -> Seq<u32> {
    vs.map_values(|v: nat| v as u32)
}

/// The element `e` read from the start of `s`, and the bytes it takes; `op` is the last
/// operation byte read, whose top bit says whether an optional number is present. `None`
/// where `s` does not start with such an element (or a count does not fit in 16 bits).
pub open spec fn read_element(style: NumberStyle, s: Seq<u8>, op: u8, e: OperationElement) -> Option<
    (ElementValue, nat),
> {
    match e {
        OperationElement::U8 => if s.len() >= 1 {
            Some((ElementValue::U8(s[0]), 1))
        } else {
            None
        },
        OperationElement::U16 => if s.len() >= 2 {
            Some((ElementValue::U16(le_value(s.take(2)) as u16), 2))
        } else {
            None
        },
        OperationElement::U32 => if s.len() >= 4 {
            Some((ElementValue::U32(le_value(s.take(4)) as u32), 4))
        } else {
            None
        },
        OperationElement::Operation => if s.len() >= 1 {
            Some((ElementValue::Operation(s[0]), 1))
        } else {
            None
        },
        OperationElement::Condition => if s.len() >= 1 {
            Some((ElementValue::Condition(s[0]), 1))
        } else {
            None
        },
        OperationElement::Expression => match read_expression(style, s) {
            Some((c, ns, u)) => if c.len() <= u16::MAX && ns.len() <= u16::MAX {
                Some((ElementValue::Expression(c, ns), u))
            } else {
                None
            },
            None => None,
        },
        OperationElement::Register => if s.len() >= 2 {
            Some((ElementValue::Register(le_value(s.take(2)) as u16), 2))
        } else {
            None
        },
        OperationElement::RegisterArray(k) => match read_length(k, s) {
            Some(n) => match read_fixed(s.skip(length_len(k) as int), 2, n) {
                Some((vs, u)) => Some((ElementValue::RegisterArray(k, as_u16s(vs)), length_len(k) + u)),
                None => None,
            },
            None => None,
        },
        OperationElement::Offset => if s.len() >= 4 {
            Some((ElementValue::Offset(le_value(s.take(4)) as u32), 4))
        } else {
            None
        },
        OperationElement::OffsetArray(k) => match read_length(k, s) {
            Some(n) => match read_fixed(s.skip(length_len(k) as int), 4, n) {
                Some((vs, u)) => Some((ElementValue::OffsetArray(k, as_u32s(vs)), length_len(k) + u)),
                None => None,
            },
            None => None,
        },
        OperationElement::Number => if number_readable(style, s) {
            Some((ElementValue::Number(number_value(style, s) as u32), number_len(style, s[0])))
        } else {
            None
        },
        OperationElement::OptionalNumber => if op >= 0x80 {
            if number_readable(style, s) {
                Some((ElementValue::OptionalNumber(Some(number_value(style, s) as u32)), number_len(style, s[0])))
            } else {
                None
            }
        } else {
            Some((ElementValue::OptionalNumber(None), 0))
        },
        OperationElement::NumberArray(k) => match read_length(k, s) {
            Some(n) => match read_numbers(style, NumberArrayKind::Dense, s.skip(length_len(k) as int), n) {
                Some((ns, u)) => Some(
                    (ElementValue::NumberArray(k, NumberArrayKind::Dense, ns), length_len(k) + u),
                ),
                None => None,
            },
            None => None,
        },
        OperationElement::PadNumberArray(k) => match read_length(k, s) {
            Some(n) => match read_numbers(style, NumberArrayKind::Padded, s.skip(length_len(k) as int), n) {
                Some((ns, u)) => Some(
                    (ElementValue::NumberArray(k, NumberArrayKind::Padded, ns), length_len(k) + u),
                ),
                None => None,
            },
            None => None,
        },
        OperationElement::BitmaskNumberArray => if s.len() >= 1 {
            match read_numbers(style, NumberArrayKind::Dense, s.skip(1), ones(s[0] as nat)) {
                Some((ns, u)) => Some((ElementValue::BitmaskNumberArray(s[0], ns), 1 + u)),
                None => None,
            }
        } else {
            None
        },
        OperationElement::String(k) => match read_length(k, s) {
            Some(n) => if s.len() >= length_len(k) + n {
                Some(
                    (
                        ElementValue::String(k, s.subrange(length_len(k) as int, (length_len(k) + n) as int)),
                        length_len(k) + n,
                    ),
                )
            } else {
                None
            },
            None => None,
        },
        OperationElement::StringArray(k) => match read_length(k, s) {
            Some(n) => if s.len() >= length_len(k) + n {
                Some(
                    (
                        ElementValue::StringArray(k, s.subrange(length_len(k) as int, (length_len(k) + n) as int)),
                        length_len(k) + n,
                    ),
                )
            } else {
                None
            },
            None => None,
        },
        OperationElement::HiguSuiWipeArg => if s.len() >= 2 {
            match read_numbers(style, NumberArrayKind::Dense, s.skip(2), wipe_count(s[0], s[1])) {
                Some((ns, u)) => Some((ElementValue::HiguSuiWipeArg(s[0], s[1], ns), 2 + u)),
                None => None,
            }
        } else {
            None
        },
    }
}

/// The position just past every entry of an arena.
pub open spec fn arena_end(a: ArenaView) -> PositionView {
    PositionView {
        u8s: a.u8s.len() as int,
        u16s: a.u16s.len() as int,
        u32s: a.u32s.len() as int,
        registers: a.registers.len() as int,
        offsets: a.offsets.len() as int,
        numbers: a.numbers.len() as int,
        strings: a.strings.len() as int,
        string_arrays: a.string_arrays.len() as int,
        lengths: a.lengths.len() as int,
    }
}

/// The number of entries of the longest column of an arena.
pub open spec fn arena_size(a: ArenaView) -> nat {
    let n1 = if a.u8s.len() > a.u16s.len() { a.u8s.len() } else { a.u16s.len() };
    let n2 = if a.u32s.len() > a.registers.len() { a.u32s.len() } else { a.registers.len() };
    let n3 = if a.offsets.len() > a.numbers.len() { a.offsets.len() } else { a.numbers.len() };
    let n4 = if a.strings.len() > a.string_arrays.len() { a.strings.len() } else { a.string_arrays.len() };
    let m1 = if n1 > n2 { n1 } else { n2 };
    let m2 = if n3 > n4 { n3 } else { n4 };
    let m = if m1 > m2 { m1 } else { m2 };
    if m > a.lengths.len() { m } else { a.lengths.len() }
}

/// `t` starts with `s`.
pub open spec fn starts_with<T>(t: Seq<T>, s: Seq<T>) -> bool {
    s.len() <= t.len() && forall|i: int| 0 <= i < s.len() ==> t[i] == s[i]
}

/// `b` is `a` with entries added at the end of its columns.
pub open spec fn arena_extends(b: ArenaView, a: ArenaView) -> bool {
    &&& starts_with(b.u8s, a.u8s)
    &&& starts_with(b.u16s, a.u16s)
    &&& starts_with(b.u32s, a.u32s)
    &&& starts_with(b.registers, a.registers)
    &&& starts_with(b.offsets, a.offsets)
    &&& starts_with(b.numbers, a.numbers)
    &&& starts_with(b.strings, a.strings)
    &&& starts_with(b.string_arrays, a.string_arrays)
    &&& starts_with(b.lengths, a.lengths)
}


/// After reading element `e` into arena `a1`, giving `a2`, the element is found at the old
/// end of the arena with value `v`, and the new end follows it.
pub open spec fn parsed_into(a2: ArenaView, a1: ArenaView, e: OperationElement, v: ElementValue) -> bool {
    &&& arena_extends(a2, a1)
    &&& element_available(a2, arena_end(a1), e)
    &&& element_at(a2, arena_end(a1), e) == (v, arena_end(a2))
}

/// A prefix of a readable run of numbers is readable.
proof fn lemma_read_numbers_prefix(style: NumberStyle, kind: NumberArrayKind, s: Seq<u8>, i: nat, n: nat)
    requires
        i <= n,
        read_numbers(style, kind, s, n) is Some,
    ensures
        read_numbers(style, kind, s, i) is Some,
    decreases n,
{
    if i < n {
        lemma_read_numbers_prefix(style, kind, s, i, (n - 1) as nat);
    }
}

/// A prefix of a readable fixed-width run is readable.
proof fn lemma_read_fixed_prefix(s: Seq<u8>, w: nat, i: nat, n: nat)
    requires
        i <= n,
        read_fixed(s, w, n) is Some,
    ensures
        read_fixed(s, w, i) is Some,
    decreases n,
{
    if i < n {
        lemma_read_fixed_prefix(s, w, i, (n - 1) as nat);
    }
}

/// A run of `n` numbers holds `n` numbers and takes at least `n` bytes of `s`.
proof fn lemma_read_numbers_len(style: NumberStyle, kind: NumberArrayKind, s: Seq<u8>, n: nat)
    requires
        read_numbers(style, kind, s, n) is Some,
    ensures
        read_numbers(style, kind, s, n).unwrap().0.len() == n,
        n <= read_numbers(style, kind, s, n).unwrap().1 <= s.len(),
    decreases n,
{
    if n > 0 {
        lemma_read_numbers_len(style, kind, s, (n - 1) as nat);
    }
}

/// A fixed-width run of `n` values holds `n` values and takes at least `n` bytes of `s`.
proof fn lemma_read_fixed_len(s: Seq<u8>, w: nat, n: nat)
    requires
        read_fixed(s, w, n) is Some,
        w >= 1,
    ensures
        read_fixed(s, w, n).unwrap().0.len() == n,
        n <= read_fixed(s, w, n).unwrap().1 <= s.len(),
    decreases n,
{
    if n > 0 {
        lemma_read_fixed_len(s, w, (n - 1) as nat);
    }
}

/// The bytes of a reader from position `p` on, moved past `u` bytes.
proof fn lemma_rest_skip(bytes: Seq<u8>, p: int, u: int)
    requires
        0 <= p,
        0 <= u,
        p + u <= bytes.len(),
    ensures
        bytes.skip(p).skip(u) == bytes.skip(p + u),
{
    assert(bytes.skip(p).skip(u) =~= bytes.skip(p + u));
}

/// Reads `n` numbers, compact or padded, onto the end of `column`.
fn take_numbers(
    style: NumberStyle,
    kind: NumberArrayKind,
    reader: &mut Reader,
    column: &mut Vec<u32>,
    n: u16,
)
    requires
        0 <= old(reader).pos() <= old(reader).bytes().len(),
        read_numbers(style, kind, old(reader).rest(), n as nat) is Some,
    ensures
        ({
            let (ns, u) = read_numbers(style, kind, old(reader).rest(), n as nat).unwrap();
            &&& final(column)@ == old(column)@ + ns
            &&& final(reader).advanced(*old(reader), u as int)
        }),
{
    let ghost rest0 = reader.rest();
    let ghost p0 = reader.pos();
    let ghost c0 = column@;
    let mut i: u16 = 0;
    proof {
        assert(c0 + Seq::<u32>::empty() =~= c0);
    }
    while i < n
        invariant
            i <= n,
            reader.bytes() == old(reader).bytes(),
            p0 == old(reader).pos(),
            rest0 == old(reader).rest(),
            0 <= p0 <= reader.pos() <= reader.bytes().len(),
            read_numbers(style, kind, rest0, n as nat) is Some,
            read_numbers(style, kind, rest0, i as nat) == Some(
                (column@.skip(c0.len() as int), (reader.pos() - p0) as nat),
            ),
            column@.take(c0.len() as int) == c0,
            c0.len() <= column@.len(),
        decreases n - i,
    {
        proof {
            lemma_read_numbers_prefix(style, kind, rest0, (i + 1) as nat, n as nat);
            lemma_rest_skip(reader.bytes(), p0, reader.pos() - p0);
        }
        let ghost before = column@;
        let ghost r = reader.rest();
        let v: u32 = match kind {
            NumberArrayKind::Dense => reader.take_number(style),
            NumberArrayKind::Padded => match style {
                NumberStyle::U16 => {
                    assert(r.take(2) =~= reader.bytes().subrange(reader.pos(), reader.pos() + 2));
                    reader.take_u16() as u32
                },
                NumberStyle::VarInt => {
                    assert(r.take(4) =~= reader.bytes().subrange(reader.pos(), reader.pos() + 4));
                    reader.take_u32()
                },
            },
        };
        column.push(v);
        proof {
            assert(column@.skip(c0.len() as int) =~= before.skip(c0.len() as int).push(v));
            assert(column@.take(c0.len() as int) =~= before.take(c0.len() as int));
        }
        i = i + 1;
    }
    proof {
        assert(column@ =~= c0 + column@.skip(c0.len() as int));
    }
}

/// Reads `n` little-endian values of `w` bytes (two or four) onto the end of `column`.
fn take_fixed(reader: &mut Reader, column: &mut Vec<u32>, w: usize, n: u16)
    requires
        0 <= old(reader).pos() <= old(reader).bytes().len(),
        w == 2 || w == 4,
        read_fixed(old(reader).rest(), w as nat, n as nat) is Some,
    ensures
        ({
            let (vs, u) = read_fixed(old(reader).rest(), w as nat, n as nat).unwrap();
            &&& final(column)@ == old(column)@ + as_u32s(vs)
            &&& final(reader).advanced(*old(reader), u as int)
        }),
{
    let ghost rest0 = reader.rest();
    let ghost p0 = reader.pos();
    let ghost c0 = column@;
    let mut i: u16 = 0;
    proof {
        assert(c0 + as_u32s(Seq::<nat>::empty()) =~= c0);
    }
    while i < n
        invariant
            i <= n,
            w == 2 || w == 4,
            reader.bytes() == old(reader).bytes(),
            p0 == old(reader).pos(),
            rest0 == old(reader).rest(),
            0 <= p0 <= reader.pos() <= reader.bytes().len(),
            read_fixed(rest0, w as nat, n as nat) is Some,
            read_fixed(rest0, w as nat, i as nat) matches Some((vs, u)) && column@ == c0 + as_u32s(vs) && u
                == reader.pos() - p0,
        decreases n - i,
    {
        proof {
            lemma_read_fixed_prefix(rest0, w as nat, (i + 1) as nat, n as nat);
        }
        let ghost (vs, u) = read_fixed(rest0, w as nat, i as nat).unwrap();
        proof {
            assert(rest0.subrange(u as int, (u + w) as int) =~= reader.bytes().subrange(reader.pos(), reader.pos() + w));
            lemma_le_value_small(reader.bytes().subrange(reader.pos(), reader.pos() + w));
        }
        let v: u32 = if w == 2 {
            reader.take_u16() as u32
        } else {
            reader.take_u32()
        };
        column.push(v);
        proof {
            let vs2 = vs.push(le_value(rest0.subrange(u as int, (u + w) as int)));
            assert(as_u32s(vs2) =~= as_u32s(vs).push(v));
            assert(column@ =~= c0 + as_u32s(vs2));
        }
        i = i + 1;
    }
}

/// Reads `n` little-endian 16-bit values onto the end of `column`.
fn take_fixed16(reader: &mut Reader, column: &mut Vec<u16>, n: u16)
    requires
        0 <= old(reader).pos() <= old(reader).bytes().len(),
        read_fixed(old(reader).rest(), 2, n as nat) is Some,
    ensures
        ({
            let (vs, u) = read_fixed(old(reader).rest(), 2, n as nat).unwrap();
            &&& final(column)@ == old(column)@ + as_u16s(vs)
            &&& final(reader).advanced(*old(reader), u as int)
        }),
{
    let ghost rest0 = reader.rest();
    let ghost p0 = reader.pos();
    let ghost c0 = column@;
    let mut i: u16 = 0;
    proof {
        assert(c0 + as_u16s(Seq::<nat>::empty()) =~= c0);
    }
    while i < n
        invariant
            i <= n,
            reader.bytes() == old(reader).bytes(),
            p0 == old(reader).pos(),
            rest0 == old(reader).rest(),
            0 <= p0 <= reader.pos() <= reader.bytes().len(),
            read_fixed(rest0, 2, n as nat) is Some,
            read_fixed(rest0, 2, i as nat) matches Some((vs, u)) && column@ == c0 + as_u16s(vs) && u
                == reader.pos() - p0,
        decreases n - i,
    {
        proof {
            lemma_read_fixed_prefix(rest0, 2, (i + 1) as nat, n as nat);
        }
        let ghost (vs, u) = read_fixed(rest0, 2, i as nat).unwrap();
        proof {
            assert(rest0.subrange(u as int, (u + 2) as int) =~= reader.bytes().subrange(reader.pos(), reader.pos() + 2));
        }
        let v = reader.take_u16();
        column.push(v);
        proof {
            let vs2 = vs.push(le_value(rest0.subrange(u as int, (u + 2) as int)));
            assert(as_u16s(vs2) =~= as_u16s(vs).push(v));
            assert(column@ =~= c0 + as_u16s(vs2));
        }
        i = i + 1;
    }
}

/// A readable expression holds at least one code, and no more codes or numbers than bytes.
proof fn lemma_read_expression_len(style: NumberStyle, s: Seq<u8>)
    requires
        read_expression(style, s) is Some,
    ensures
        read_expression(style, s).unwrap().0.len() >= 1,
        read_expression(style, s).unwrap().0.len() <= read_expression(style, s).unwrap().2,
        read_expression(style, s).unwrap().1.len() <= read_expression(style, s).unwrap().2,
        read_expression(style, s).unwrap().2 <= s.len(),
    decreases s.len(),
{
    let t = s[0];
    let r = s.skip(1);
    if t != 0xff && t < 0x20 {
        if t == 0 {
            let l = number_len(style, r[0]);
            lemma_read_expression_len(style, r.skip(l as int));
        } else {
            lemma_read_expression_len(style, r);
        }
    }
}

/// Reads an expression: its codes onto the end of `codes` and its numbers onto the end
/// of `numbers`.
fn take_expression(style: NumberStyle, reader: &mut Reader, codes: &mut Vec<u8>, numbers: &mut Vec<u32>)
    requires
        0 <= old(reader).pos() <= old(reader).bytes().len(),
        read_expression(style, old(reader).rest()) is Some,
    ensures
        ({
            let (c, ns, u) = read_expression(style, old(reader).rest()).unwrap();
            &&& final(codes)@ == old(codes)@ + c
            &&& final(numbers)@ == old(numbers)@ + ns
            &&& final(reader).advanced(*old(reader), u as int)
        }),
{
    let ghost rest0 = reader.rest();
    let ghost p0 = reader.pos();
    let ghost c0 = codes@;
    let ghost n0 = numbers@;
    proof {
        assert(c0.skip(c0.len() as int) =~= Seq::<u8>::empty());
        assert(n0.skip(n0.len() as int) =~= Seq::<u32>::empty());
        assert(reader.rest() =~= rest0);
        let (c, ns, u) = read_expression(style, rest0).unwrap();
        assert(Seq::<u8>::empty() + c =~= c);
        assert(Seq::<u32>::empty() + ns =~= ns);
    }
    loop
        invariant_except_break
            reader.bytes() == old(reader).bytes(),
            p0 == old(reader).pos(),
            rest0 == old(reader).rest(),
            0 <= p0 <= reader.pos() <= reader.bytes().len(),
            codes@.take(c0.len() as int) == c0,
            c0.len() <= codes@.len(),
            numbers@.take(n0.len() as int) == n0,
            n0.len() <= numbers@.len(),
            read_expression(style, reader.rest()) is Some,
            read_expression(style, rest0) == ({
                let (c, ns, u) = read_expression(style, reader.rest()).unwrap();
                Some(
                    (
                        codes@.skip(c0.len() as int) + c,
                        numbers@.skip(n0.len() as int) + ns,
                        ((reader.pos() - p0) + u) as nat,
                    ),
                )
            }),
        ensures
            reader.bytes() == old(reader).bytes(),
            0 <= p0 <= reader.pos() <= reader.bytes().len(),
            read_expression(style, rest0) == Some(
                (codes@.skip(c0.len() as int), numbers@.skip(n0.len() as int), (reader.pos() - p0) as nat),
            ),
            codes@.take(c0.len() as int) == c0,
            c0.len() <= codes@.len(),
            numbers@.take(n0.len() as int) == n0,
            n0.len() <= numbers@.len(),
        decreases reader.bytes().len() - reader.pos(),
    {
        let ghost s = reader.rest();
        let ghost cb = codes@;
        let ghost nb = numbers@;
        let ghost pb = reader.pos();
        let ghost (c, ns, u) = read_expression(style, s).unwrap();
        proof {
            assert(s[0] == reader.bytes()[reader.pos()]);
        }
        let t = reader.take_u8();
        codes.push(t);
        proof {
            assert(codes@.take(c0.len() as int) =~= c0);
            lemma_rest_skip(reader.bytes(), pb, 1);
        }
        if t == 0 {
            proof {
                assert(reader.rest() =~= s.skip(1));
            }
            let v = reader.take_number(style);
            numbers.push(v);
            proof {
                assert(numbers@.take(n0.len() as int) =~= n0);
                let l = number_len(style, s.skip(1)[0]);
                lemma_rest_skip(reader.bytes(), pb + 1, l as int);
                assert(reader.rest() =~= s.skip(1).skip(l as int));
                assert(codes@.skip(c0.len() as int) =~= cb.skip(c0.len() as int).push(0u8));
                assert(numbers@.skip(n0.len() as int) =~= nb.skip(n0.len() as int).push(v));
                let (c2, ns2, u2) = read_expression(style, reader.rest()).unwrap();
                assert(cb.skip(c0.len() as int) + c =~= codes@.skip(c0.len() as int) + c2);
                assert(nb.skip(n0.len() as int) + ns =~= numbers@.skip(n0.len() as int) + ns2);
            }
        } else if t < 0x20 {
            proof {
                assert(reader.rest() =~= s.skip(1));
                assert(codes@.skip(c0.len() as int) =~= cb.skip(c0.len() as int).push(t));
                let (c2, ns2, u2) = read_expression(style, reader.rest()).unwrap();
                assert(cb.skip(c0.len() as int) + c =~= codes@.skip(c0.len() as int) + c2);
            }
        } else {
            proof {
                assert(codes@.skip(c0.len() as int) =~= cb.skip(c0.len() as int) + c);
            }
            break;
        }
    }
    proof {
        assert(codes@ =~= c0 + codes@.skip(c0.len() as int));
        assert(numbers@ =~= n0 + numbers@.skip(n0.len() as int));
    }
}

/// Counts the set bits of `m`.
fn count_ones(m: u8) -> (r: u16)
    ensures
        r == ones(m as nat),
{
    let mut x: u16 = m as u16;
    let mut count: u16 = 0;
    while x != 0
        invariant
            count + ones(x as nat) == ones(m as nat),
            count + x <= m,
        decreases x,
    {
        count = count + x % 2;
        x = x / 2;
    }
    count
}

/// How many numbers follow the two bytes of the wipe argument of Higurashi Sui.
fn wipe_numbers(b1: u8, b2: u8) -> (r: u16)
    ensures
        r == wipe_count(b1, b2),
{
    if b1 == 0 {
        count_ones(b2 % 16)
    } else {
        (b2 % 2) as u16
    }
}

/// Reads the elements of an operation one after the other, remembering the operation byte
/// that decides whether an optional number is present.
pub struct InstructionParseContext {
    number_style: NumberStyle,
    last_operation: u8,
}

/// `reader` moved past element `e` of `old_reader`, whose value `arena` now holds at the
/// old end of `old_arena`; no column grew by more than the bytes read and two.
pub open spec fn took_element(
    arena: ArenaView,
    old_arena: ArenaView,
    reader: Reader,
    old_reader: Reader,
    style: NumberStyle,
    op: u8,
    e: OperationElement,
) -> bool {
    read_element(style, old_reader.rest(), op, e) matches Some((v, u)) && reader.advanced(old_reader, u as int)
        && parsed_into(arena, old_arena, e, v) && arena_size(arena) <= arena_size(old_arena) + u + 2
}

impl InstructionParseContext {
    /// How numbers are encoded.
    pub closed spec fn style(&self) -> NumberStyle {
        self.number_style
    }

    /// The last operation byte read.
    pub closed spec fn last_operation(&self) -> u8 {
        self.last_operation
    }

    pub fn new(number_style: NumberStyle) -> (r: Self)
        ensures
            r.style() == number_style,
            r.last_operation() == 0,
    {
        Self { number_style, last_operation: 0 }
    }
}

/// Reads element `OperationElement::U8` onto the end of the arena.
fn take_u8_element<'snr>(reader: &mut Reader<'snr>, arena: &mut OperationArena<'snr>, style: NumberStyle, op: u8, element: OperationElement)
    requires
        element == OperationElement::U8,
        0 <= old(reader).pos() <= old(reader).bytes().len(),
        read_element(style, old(reader).rest(), op, element) is Some,
    ensures
        took_element(final(arena)@, old(arena)@, *final(reader), *old(reader), style, op, element),
{
    let ghost a1 = arena@;
    let ghost s = reader.rest();
    let ghost p = reader.pos();
    proof {
        assert(s[0] == reader.bytes()[p]);
    }
    let v = reader.take_u8();
    arena.u8s.push(v);
}

/// Reads element `OperationElement::Condition` onto the end of the arena.
fn take_condition_element<'snr>(reader: &mut Reader<'snr>, arena: &mut OperationArena<'snr>, style: NumberStyle, op: u8, element: OperationElement)
    requires
        element == OperationElement::Condition,
        0 <= old(reader).pos() <= old(reader).bytes().len(),
        read_element(style, old(reader).rest(), op, element) is Some,
    ensures
        took_element(final(arena)@, old(arena)@, *final(reader), *old(reader), style, op, element),
{
    let ghost a1 = arena@;
    let ghost s = reader.rest();
    let ghost p = reader.pos();
    proof {
        assert(s[0] == reader.bytes()[p]);
    }
    let v = reader.take_u8();
    arena.u8s.push(v);
}

/// Reads element `OperationElement::U16` onto the end of the arena.
fn take_u16_element<'snr>(reader: &mut Reader<'snr>, arena: &mut OperationArena<'snr>, style: NumberStyle, op: u8, element: OperationElement)
    requires
        element == OperationElement::U16,
        0 <= old(reader).pos() <= old(reader).bytes().len(),
        read_element(style, old(reader).rest(), op, element) is Some,
    ensures
        took_element(final(arena)@, old(arena)@, *final(reader), *old(reader), style, op, element),
{
    let ghost a1 = arena@;
    let ghost s = reader.rest();
    let ghost p = reader.pos();
    proof {
        assert(s.take(2) =~= reader.bytes().subrange(p, p + 2));
    }
    let v = reader.take_u16();
    arena.u16s.push(v);
}

/// Reads element `OperationElement::U32` onto the end of the arena.
fn take_u32_element<'snr>(reader: &mut Reader<'snr>, arena: &mut OperationArena<'snr>, style: NumberStyle, op: u8, element: OperationElement)
    requires
        element == OperationElement::U32,
        0 <= old(reader).pos() <= old(reader).bytes().len(),
        read_element(style, old(reader).rest(), op, element) is Some,
    ensures
        took_element(final(arena)@, old(arena)@, *final(reader), *old(reader), style, op, element),
{
    let ghost a1 = arena@;
    let ghost s = reader.rest();
    let ghost p = reader.pos();
    proof {
        assert(s.take(4) =~= reader.bytes().subrange(p, p + 4));
    }
    let v = reader.take_u32();
    arena.u32s.push(v);
}

/// Reads element `OperationElement::Register` onto the end of the arena.
fn take_register_element<'snr>(reader: &mut Reader<'snr>, arena: &mut OperationArena<'snr>, style: NumberStyle, op: u8, element: OperationElement)
    requires
        element == OperationElement::Register,
        0 <= old(reader).pos() <= old(reader).bytes().len(),
        read_element(style, old(reader).rest(), op, element) is Some,
    ensures
        took_element(final(arena)@, old(arena)@, *final(reader), *old(reader), style, op, element),
{
    let ghost a1 = arena@;
    let ghost s = reader.rest();
    let ghost p = reader.pos();
    proof {
        assert(s.take(2) =~= reader.bytes().subrange(p, p + 2));
    }
    let v = reader.take_reg();
    arena.registers.push(v);
}

/// Reads element `OperationElement::Offset` onto the end of the arena.
fn take_offset_element<'snr>(reader: &mut Reader<'snr>, arena: &mut OperationArena<'snr>, style: NumberStyle, op: u8, element: OperationElement)
    requires
        element == OperationElement::Offset,
        0 <= old(reader).pos() <= old(reader).bytes().len(),
        read_element(style, old(reader).rest(), op, element) is Some,
    ensures
        took_element(final(arena)@, old(arena)@, *final(reader), *old(reader), style, op, element),
{
    let ghost a1 = arena@;
    let ghost s = reader.rest();
    let ghost p = reader.pos();
    proof {
        assert(s.take(4) =~= reader.bytes().subrange(p, p + 4));
    }
    let v = reader.take_offset();
    arena.offsets.push(v);
}

/// Reads element `OperationElement::Number` onto the end of the arena.
fn take_number_element<'snr>(reader: &mut Reader<'snr>, arena: &mut OperationArena<'snr>, style: NumberStyle, op: u8, element: OperationElement)
    requires
        element == OperationElement::Number,
        0 <= old(reader).pos() <= old(reader).bytes().len(),
        read_element(style, old(reader).rest(), op, element) is Some,
    ensures
        took_element(final(arena)@, old(arena)@, *final(reader), *old(reader), style, op, element),
{
    let ghost a1 = arena@;
    let ghost s = reader.rest();
    let ghost p = reader.pos();
    let v = reader.take_number(style);
    arena.numbers.push(v);
}

/// Reads element `OperationElement::OptionalNumber` onto the end of the arena.
fn take_optional_number_element<'snr>(reader: &mut Reader<'snr>, arena: &mut OperationArena<'snr>, style: NumberStyle, op: u8, element: OperationElement)
    requires
        element == OperationElement::OptionalNumber,
        0 <= old(reader).pos() <= old(reader).bytes().len(),
        read_element(style, old(reader).rest(), op, element) is Some,
    ensures
        took_element(final(arena)@, old(arena)@, *final(reader), *old(reader), style, op, element),
{
    let ghost a1 = arena@;
    let ghost s = reader.rest();
    let ghost p = reader.pos();
    if op >= 0x80 {
        let v = reader.take_number(style);
        proof {
            lemma_number_read_write(style, s);
            if style == NumberStyle::VarInt {
                assert(v % 256 < 0xf0);
            }
        }
        arena.numbers.push(v);
    } else {
        arena.numbers.push(u32::MAX);
    }
}

/// Reads element `OperationElement::Expression` onto the end of the arena.
fn take_expression_element<'snr>(reader: &mut Reader<'snr>, arena: &mut OperationArena<'snr>, style: NumberStyle, op: u8, element: OperationElement)
    requires
        element == OperationElement::Expression,
        0 <= old(reader).pos() <= old(reader).bytes().len(),
        read_element(style, old(reader).rest(), op, element) is Some,
    ensures
        took_element(final(arena)@, old(arena)@, *final(reader), *old(reader), style, op, element),
{
    let ghost a1 = arena@;
    let ghost s = reader.rest();
    let ghost p = reader.pos();
    let u8s_before = arena.u8s.len();
    let numbers_before = arena.numbers.len();
    take_expression(style, reader, &mut arena.u8s, &mut arena.numbers);
    proof {
        lemma_read_expression_len(style, s);
    }
    let codes = (arena.u8s.len() - u8s_before) as u16;
    let numbers = (arena.numbers.len() - numbers_before) as u16;
    arena.lengths.push(codes);
    arena.lengths.push(numbers);
    proof {
        let (c, ns, u) = read_expression(style, s).unwrap();
        assert(arena.u8s@.subrange(a1.u8s.len() as int, (a1.u8s.len() + c.len()) as int) =~= c);
        assert(arena.numbers@.subrange(a1.numbers.len() as int, (a1.numbers.len() + ns.len()) as int) =~= ns);
    }
}

/// Reads a register array onto the end of the arena.
fn take_register_array_element<'snr>(reader: &mut Reader<'snr>, arena: &mut OperationArena<'snr>, style: NumberStyle, op: u8, k: LengthKind)
    requires
        0 <= old(reader).pos() <= old(reader).bytes().len(),
        read_element(style, old(reader).rest(), op, OperationElement::RegisterArray(k)) is Some,
    ensures
        took_element(final(arena)@, old(arena)@, *final(reader), *old(reader), style, op, OperationElement::RegisterArray(k)),
{
    let ghost a1 = arena@;
    let ghost s = reader.rest();
    let ghost p = reader.pos();
    proof {
        assert(s.take(length_len(k) as int) =~= reader.bytes().subrange(p, p + length_len(k)));
    }
    let n = reader.take_length(k);
    proof {
        lemma_rest_skip(reader.bytes(), p, length_len(k) as int);
        assert(reader.rest() =~= s.skip(length_len(k) as int));
        lemma_read_fixed_len(s.skip(length_len(k) as int), 2, n as nat);
    }
    take_fixed16(reader, &mut arena.registers, n);
    arena.lengths.push(n);
    proof {
        let (vs, u) = read_fixed(s.skip(length_len(k) as int), 2, n as nat).unwrap();
        assert(arena.registers@.subrange(a1.registers.len() as int, a1.registers.len() + n) =~= as_u16s(vs));
    }
}

/// Reads an offset array onto the end of the arena.
fn take_offset_array_element<'snr>(reader: &mut Reader<'snr>, arena: &mut OperationArena<'snr>, style: NumberStyle, op: u8, k: LengthKind)
    requires
        0 <= old(reader).pos() <= old(reader).bytes().len(),
        read_element(style, old(reader).rest(), op, OperationElement::OffsetArray(k)) is Some,
    ensures
        took_element(final(arena)@, old(arena)@, *final(reader), *old(reader), style, op, OperationElement::OffsetArray(k)),
{
    let ghost a1 = arena@;
    let ghost s = reader.rest();
    let ghost p = reader.pos();
    proof {
        assert(s.take(length_len(k) as int) =~= reader.bytes().subrange(p, p + length_len(k)));
    }
    let n = reader.take_length(k);
    proof {
        lemma_rest_skip(reader.bytes(), p, length_len(k) as int);
        assert(reader.rest() =~= s.skip(length_len(k) as int));
        lemma_read_fixed_len(s.skip(length_len(k) as int), 4, n as nat);
    }
    take_fixed(reader, &mut arena.offsets, 4, n);
    arena.lengths.push(n);
    proof {
        let (vs, u) = read_fixed(s.skip(length_len(k) as int), 4, n as nat).unwrap();
        assert(arena.offsets@.subrange(a1.offsets.len() as int, a1.offsets.len() + n) =~= as_u32s(vs));
    }
}

/// Reads a number array onto the end of the arena.
fn take_number_array_element<'snr>(reader: &mut Reader<'snr>, arena: &mut OperationArena<'snr>, style: NumberStyle, op: u8, k: LengthKind)
    requires
        0 <= old(reader).pos() <= old(reader).bytes().len(),
        read_element(style, old(reader).rest(), op, OperationElement::NumberArray(k)) is Some,
    ensures
        took_element(final(arena)@, old(arena)@, *final(reader), *old(reader), style, op, OperationElement::NumberArray(k)),
{
    let ghost a1 = arena@;
    let ghost s = reader.rest();
    let ghost p = reader.pos();
    proof {
        assert(s.take(length_len(k) as int) =~= reader.bytes().subrange(p, p + length_len(k)));
    }
    let n = reader.take_length(k);
    proof {
        lemma_rest_skip(reader.bytes(), p, length_len(k) as int);
        assert(reader.rest() =~= s.skip(length_len(k) as int));
        lemma_read_numbers_len(style, NumberArrayKind::Dense, s.skip(length_len(k) as int), n as nat);
    }
    take_numbers(style, NumberArrayKind::Dense, reader, &mut arena.numbers, n);
    arena.lengths.push(n);
    proof {
        let (vs, u) = read_numbers(style, NumberArrayKind::Dense, s.skip(length_len(k) as int), n as nat).unwrap();
        assert(arena.numbers@.subrange(a1.numbers.len() as int, a1.numbers.len() + n) =~= vs);
    }
}

/// Reads a padded number array onto the end of the arena.
fn take_pad_number_array_element<'snr>(reader: &mut Reader<'snr>, arena: &mut OperationArena<'snr>, style: NumberStyle, op: u8, k: LengthKind)
    requires
        0 <= old(reader).pos() <= old(reader).bytes().len(),
        read_element(style, old(reader).rest(), op, OperationElement::PadNumberArray(k)) is Some,
    ensures
        took_element(final(arena)@, old(arena)@, *final(reader), *old(reader), style, op, OperationElement::PadNumberArray(k)),
{
    let ghost a1 = arena@;
    let ghost s = reader.rest();
    let ghost p = reader.pos();
    proof {
        assert(s.take(length_len(k) as int) =~= reader.bytes().subrange(p, p + length_len(k)));
    }
    let n = reader.take_length(k);
    proof {
        lemma_rest_skip(reader.bytes(), p, length_len(k) as int);
        assert(reader.rest() =~= s.skip(length_len(k) as int));
        lemma_read_numbers_len(style, NumberArrayKind::Padded, s.skip(length_len(k) as int), n as nat);
    }
    take_numbers(style, NumberArrayKind::Padded, reader, &mut arena.numbers, n);
    arena.lengths.push(n);
    proof {
        let (vs, u) = read_numbers(style, NumberArrayKind::Padded, s.skip(length_len(k) as int), n as nat).unwrap();
        assert(arena.numbers@.subrange(a1.numbers.len() as int, a1.numbers.len() + n) =~= vs);
    }
}

/// Reads a byte mask and a number per set bit onto the end of the arena.
fn take_bitmask_element<'snr>(reader: &mut Reader<'snr>, arena: &mut OperationArena<'snr>, style: NumberStyle, op: u8)
    requires
        0 <= old(reader).pos() <= old(reader).bytes().len(),
        read_element(style, old(reader).rest(), op, OperationElement::BitmaskNumberArray) is Some,
    ensures
        took_element(final(arena)@, old(arena)@, *final(reader), *old(reader), style, op, OperationElement::BitmaskNumberArray),
{
    let ghost a1 = arena@;
    let ghost s = reader.rest();
    let ghost p = reader.pos();
    proof {
        assert(s[0] == reader.bytes()[p]);
    }
    let m = reader.take_u8();
    arena.u8s.push(m);
    let n = count_ones(m);
    proof {
        lemma_rest_skip(reader.bytes(), p, 1);
        assert(reader.rest() =~= s.skip(1));
        lemma_read_numbers_len(style, NumberArrayKind::Dense, s.skip(1), n as nat);
    }
    take_numbers(style, NumberArrayKind::Dense, reader, &mut arena.numbers, n);
    arena.lengths.push(n);
    proof {
        let (ns, u) = read_numbers(style, NumberArrayKind::Dense, s.skip(1), n as nat).unwrap();
        assert(arena.numbers@.subrange(a1.numbers.len() as int, a1.numbers.len() + n) =~= ns);
    }
}

/// Reads the wipe argument of Higurashi Sui onto the end of the arena.
fn take_wipe_element<'snr>(reader: &mut Reader<'snr>, arena: &mut OperationArena<'snr>, style: NumberStyle, op: u8)
    requires
        0 <= old(reader).pos() <= old(reader).bytes().len(),
        read_element(style, old(reader).rest(), op, OperationElement::HiguSuiWipeArg) is Some,
    ensures
        took_element(final(arena)@, old(arena)@, *final(reader), *old(reader), style, op, OperationElement::HiguSuiWipeArg),
{
    let ghost a1 = arena@;
    let ghost s = reader.rest();
    let ghost p = reader.pos();
    proof {
        assert(s[0] == reader.bytes()[p]);
        assert(s[1] == reader.bytes()[p + 1]);
    }
    let b1 = reader.take_u8();
    let b2 = reader.take_u8();
    arena.u8s.push(b1);
    arena.u8s.push(b2);
    let n = wipe_numbers(b1, b2);
    proof {
        lemma_rest_skip(reader.bytes(), p, 2);
        assert(reader.rest() =~= s.skip(2));
        lemma_read_numbers_len(style, NumberArrayKind::Dense, s.skip(2), n as nat);
    }
    take_numbers(style, NumberArrayKind::Dense, reader, &mut arena.numbers, n);
    arena.lengths.push(n);
    proof {
        let (ns, u) = read_numbers(style, NumberArrayKind::Dense, s.skip(2), n as nat).unwrap();
        assert(arena.numbers@.subrange(a1.numbers.len() as int, a1.numbers.len() + n) =~= ns);
    }
}

/// Reads a length-prefixed string onto the end of the arena.
fn take_string_element<'snr>(reader: &mut Reader<'snr>, arena: &mut OperationArena<'snr>, style: NumberStyle, op: u8, k: LengthKind)
    requires
        0 <= old(reader).pos() <= old(reader).bytes().len(),
        read_element(style, old(reader).rest(), op, OperationElement::String(k)) is Some,
    ensures
        took_element(final(arena)@, old(arena)@, *final(reader), *old(reader), style, op, OperationElement::String(k)),
{
    let ghost a1 = arena@;
    let ghost s = reader.rest();
    let ghost p = reader.pos();
    proof {
        assert(s.take(length_len(k) as int) =~= reader.bytes().subrange(p, p + length_len(k)));
    }
    let v = reader.take_string(k);
    arena.strings.push(v);
    proof {
        assert(arena.strings@.map_values(|x: &[u8]| x@) =~= a1.strings.push(v@));
        assert(v@ =~= s.subrange(length_len(k) as int, (length_len(k) + le_value(s.take(length_len(k) as int))) as int));
    }
}

/// Reads a length-prefixed string array onto the end of the arena.
fn take_string_array_element<'snr>(reader: &mut Reader<'snr>, arena: &mut OperationArena<'snr>, style: NumberStyle, op: u8, k: LengthKind)
    requires
        0 <= old(reader).pos() <= old(reader).bytes().len(),
        read_element(style, old(reader).rest(), op, OperationElement::StringArray(k)) is Some,
    ensures
        took_element(final(arena)@, old(arena)@, *final(reader), *old(reader), style, op, OperationElement::StringArray(k)),
{
    let ghost a1 = arena@;
    let ghost s = reader.rest();
    let ghost p = reader.pos();
    proof {
        assert(s.take(length_len(k) as int) =~= reader.bytes().subrange(p, p + length_len(k)));
    }
    let v = reader.take_string_array(k);
    arena.string_arrays.push(v);
    proof {
        assert(arena.string_arrays@.map_values(|x: &[u8]| x@) =~= a1.string_arrays.push(v@));
        assert(v@ =~= s.subrange(length_len(k) as int, (length_len(k) + le_value(s.take(length_len(k) as int))) as int));
    }
}

impl InstructionParseContext {
    /// Reads element `element` and puts its value at the end of the arena.
    pub fn take_element<'snr>(
        &mut self,
        reader: &mut Reader<'snr>,
        arena: &mut OperationArena<'snr>,
        element: OperationElement,
    )
        requires
            0 <= old(reader).pos() <= old(reader).bytes().len(),
            read_element(old(self).style(), old(reader).rest(), old(self).last_operation(), element) is Some,
        ensures
            took_element(
                final(arena)@,
                old(arena)@,
                *final(reader),
                *old(reader),
                old(self).style(),
                old(self).last_operation(),
                element,
            ),
            final(self).style() == old(self).style(),
            final(self).last_operation() == (if element is Operation {
                old(reader).rest()[0]
            } else {
                old(self).last_operation()
            }),
    {
        let style = self.number_style;
        let op = self.last_operation;
        match element {
            OperationElement::U8 => take_u8_element(reader, arena, style, op, element),
            OperationElement::U16 => take_u16_element(reader, arena, style, op, element),
            OperationElement::U32 => take_u32_element(reader, arena, style, op, element),
            OperationElement::Operation => {
                let ghost s = reader.rest();
                proof {
                    assert(s[0] == reader.bytes()[reader.pos()]);
                }
                let v = reader.take_u8();
                arena.u8s.push(v);
                self.last_operation = v;
            },
            OperationElement::Condition => take_condition_element(reader, arena, style, op, element),
            OperationElement::Expression => take_expression_element(reader, arena, style, op, element),
            OperationElement::Register => take_register_element(reader, arena, style, op, element),
            OperationElement::RegisterArray(k) => take_register_array_element(reader, arena, style, op, k),
            OperationElement::Offset => take_offset_element(reader, arena, style, op, element),
            OperationElement::OffsetArray(k) => take_offset_array_element(reader, arena, style, op, k),
            OperationElement::Number => take_number_element(reader, arena, style, op, element),
            OperationElement::OptionalNumber => take_optional_number_element(reader, arena, style, op, element),
            OperationElement::NumberArray(k) => take_number_array_element(reader, arena, style, op, k),
            OperationElement::PadNumberArray(k) => take_pad_number_array_element(reader, arena, style, op, k),
            OperationElement::BitmaskNumberArray => take_bitmask_element(reader, arena, style, op),
            OperationElement::String(k) => take_string_element(reader, arena, style, op, k),
            OperationElement::StringArray(k) => take_string_array_element(reader, arena, style, op, k),
            OperationElement::HiguSuiWipeArg => take_wipe_element(reader, arena, style, op),
        }
    }
}


/// The elements `es` read one after the other from the start of `s`, and the bytes they
/// take; `op` is the last operation byte read before them.
pub open spec fn read_elements(style: NumberStyle, s: Seq<u8>, op: u8, es: Seq<OperationElement>) -> Option<
    (Seq<ElementValue>, nat),
>
    decreases es.len(),
{
    if es.len() == 0 {
        Some((Seq::empty(), 0))
    } else {
        match read_element(style, s, op, es[0]) {
            Some((v, u)) => {
                let op2 = if es[0] is Operation {
                    s[0]
                } else {
                    op
                };
                match read_elements(style, s.skip(u as int), op2, es.drop_first()) {
                    Some((vs, u2)) => Some((seq![v] + vs, u + u2)),
                    None => None,
                }
            },
            None => None,
        }
    }
}

/// The position after reading the elements `es` one after the other from `p`.
pub open spec fn end_position(a: ArenaView, p: PositionView, es: Seq<OperationElement>) -> PositionView
    decreases es.len(),
{
    if es.len() == 0 {
        p
    } else {
        end_position(a, element_at(a, p, es[0]).1, es.drop_first())
    }
}

/// An element readable from an arena reads the same from any arena that extends it.
proof fn lemma_element_extends(a: ArenaView, b: ArenaView, p: PositionView, e: OperationElement)
    requires
        arena_extends(b, a),
        position_fits(a, p),
        element_available(a, p, e),
    ensures
        element_available(b, p, e),
        element_at(b, p, e) == element_at(a, p, e),
{
    match e {
        OperationElement::Expression => {
            let n1 = a.lengths[p.lengths] as int;
            let n2 = a.lengths[p.lengths + 1] as int;
            assert(b.u8s.subrange(p.u8s, p.u8s + n1) =~= a.u8s.subrange(p.u8s, p.u8s + n1));
            assert(b.numbers.subrange(p.numbers, p.numbers + n2) =~= a.numbers.subrange(p.numbers, p.numbers + n2));
        },
        OperationElement::RegisterArray(_) => {
            let n = a.lengths[p.lengths] as int;
            assert(b.registers.subrange(p.registers, p.registers + n) =~= a.registers.subrange(
                p.registers,
                p.registers + n,
            ));
        },
        OperationElement::OffsetArray(_) => {
            let n = a.lengths[p.lengths] as int;
            assert(b.offsets.subrange(p.offsets, p.offsets + n) =~= a.offsets.subrange(p.offsets, p.offsets + n));
        },
        OperationElement::NumberArray(_) | OperationElement::PadNumberArray(_)
        | OperationElement::BitmaskNumberArray | OperationElement::HiguSuiWipeArg => {
            let n = a.lengths[p.lengths] as int;
            assert(b.numbers.subrange(p.numbers, p.numbers + n) =~= a.numbers.subrange(p.numbers, p.numbers + n));
        },
        _ => {},
    }
}

/// The positions within an arena stay within any arena that extends it, if that arena's
/// columns still have 32-bit lengths.
proof fn lemma_position_extends(a: ArenaView, b: ArenaView, p: PositionView)
    requires
        arena_extends(b, a),
        position_fits(a, p),
        arena_size(b) <= u32::MAX,
    ensures
        position_fits(b, p),
{
}

/// Elements readable from an arena read the same from any arena that extends it.
proof fn lemma_elements_extend(a: ArenaView, b: ArenaView, p: PositionView, es: Seq<OperationElement>)
    requires
        arena_extends(b, a),
        elements_readable(a, p, es),
        position_fits(a, p),
        position_fits(a, end_position(a, p, es)),
        arena_size(b) <= u32::MAX,
    ensures
        elements_readable(b, p, es),
        element_values(b, p, es) == element_values(a, p, es),
        end_position(b, p, es) == end_position(a, p, es),
    decreases es.len(),
{
    if es.len() > 0 {
        lemma_element_extends(a, b, p, es[0]);
        lemma_position_extends(a, b, p);
        let q = element_at(a, p, es[0]).1;
        let rest = es.drop_first();
        assert(element_at(b, p, es[0]).1 == q);
        if es.len() > 1 {
            assert(position_fits(a, q));
            assert(end_position(a, p, es) == end_position(a, q, rest));
            lemma_elements_extend(a, b, q, rest);
            assert(end_position(b, p, es) == end_position(b, q, rest));
        } else {
            assert(rest.len() == 0);
            assert(elements_readable(b, q, rest));
            assert(end_position(b, q, rest) == q);
            assert(end_position(a, q, rest) == q);
            assert(element_values(b, q, rest) =~= Seq::<ElementValue>::empty());
            assert(element_values(a, q, rest) =~= Seq::<ElementValue>::empty());
        }
        assert(elements_readable(b, p, es));
        assert(end_position(b, p, es) == end_position(b, q, rest));
        assert(end_position(a, p, es) == end_position(a, q, rest));
        assert(element_values(b, p, es) =~= seq![element_at(b, p, es[0]).0] + element_values(b, q, rest));
        assert(element_values(a, p, es) =~= seq![element_at(a, p, es[0]).0] + element_values(a, q, rest));
    }
}

/// Reading one more element after a sequence of readable elements.
proof fn lemma_elements_push(a: ArenaView, p: PositionView, es: Seq<OperationElement>, e: OperationElement)
    requires
        elements_readable(a, p, es),
        position_fits(a, end_position(a, p, es)),
        element_available(a, end_position(a, p, es), e),
    ensures
        elements_readable(a, p, es.push(e)),
        element_values(a, p, es.push(e)) == element_values(a, p, es).push(
            element_at(a, end_position(a, p, es), e).0,
        ),
        end_position(a, p, es.push(e)) == element_at(a, end_position(a, p, es), e).1,
    decreases es.len(),
{
    if es.len() == 0 {
        assert(es.push(e).len() == 1);
        assert(es.push(e)[0] == e);
        assert(es.push(e).drop_first() =~= Seq::<OperationElement>::empty());
        let q = element_at(a, p, e).1;
        assert(elements_readable(a, q, es.push(e).drop_first()));
        assert(element_values(a, q, es.push(e).drop_first()) == Seq::<ElementValue>::empty());
        assert(end_position(a, q, es.push(e).drop_first()) == q);
        assert(element_values(a, p, es.push(e)) =~= seq![element_at(a, p, e).0] + Seq::<ElementValue>::empty());
    } else {
        let q = element_at(a, p, es[0]).1;
        assert(es.push(e).drop_first() =~= es.drop_first().push(e));
        lemma_elements_push(a, q, es.drop_first(), e);
        assert(element_values(a, p, es.push(e)) =~= element_values(a, p, es).push(
            element_at(a, end_position(a, p, es), e).0,
        ));
    }
}

/// The position after an available element lies within the arena.
proof fn lemma_element_position_fits(a: ArenaView, p: PositionView, e: OperationElement)
    requires
        position_fits(a, p),
        element_available(a, p, e),
    ensures
        position_fits(a, element_at(a, p, e).1),
{
}

/// An element read from the start of `s` takes no more bytes than `s` has.
pub proof fn lemma_read_element_len(style: NumberStyle, s: Seq<u8>, op: u8, e: OperationElement)
    requires
        read_element(style, s, op, e) is Some,
    ensures
        read_element(style, s, op, e).unwrap().1 <= s.len(),
{
    match e {
        OperationElement::Expression => lemma_read_expression_len(style, s),
        OperationElement::RegisterArray(k) => {
            let n = read_length(k, s).unwrap();
            lemma_read_fixed_len(s.skip(length_len(k) as int), 2, n);
        },
        OperationElement::OffsetArray(k) => {
            let n = read_length(k, s).unwrap();
            lemma_read_fixed_len(s.skip(length_len(k) as int), 4, n);
        },
        OperationElement::NumberArray(k) => {
            let n = read_length(k, s).unwrap();
            lemma_read_numbers_len(style, NumberArrayKind::Dense, s.skip(length_len(k) as int), n);
        },
        OperationElement::PadNumberArray(k) => {
            let n = read_length(k, s).unwrap();
            lemma_read_numbers_len(style, NumberArrayKind::Padded, s.skip(length_len(k) as int), n);
        },
        OperationElement::BitmaskNumberArray => {
            lemma_read_numbers_len(style, NumberArrayKind::Dense, s.skip(1), ones(s[0] as nat));
        },
        OperationElement::HiguSuiWipeArg => {
            lemma_read_numbers_len(style, NumberArrayKind::Dense, s.skip(2), wipe_count(s[0], s[1]));
        },
        _ => {},
    }
}

/// Every position along readable elements lies within the arena.
proof fn lemma_end_position_fits(a: ArenaView, p: PositionView, es: Seq<OperationElement>)
    requires
        elements_readable(a, p, es),
        position_fits(a, p),
    ensures
        position_fits(a, end_position(a, p, es)),
    decreases es.len(),
{
    if es.len() > 0 {
        let q = element_at(a, p, es[0]).1;
        lemma_element_position_fits(a, p, es[0]);
        lemma_end_position_fits(a, q, es.drop_first());
    }
}

impl<'a> OperationSchema<'a> {
    /// Reads the elements of this operation from `reader` into `arena`, which is emptied
    /// first.
    #[verifier::rlimit(40)]
    pub fn parse<'snr>(&self, number_style: NumberStyle, reader: &mut Reader<'snr>, arena: &mut OperationArena<'snr>)
        requires
            0 <= old(reader).pos() <= old(reader).bytes().len(),
            old(reader).rest().len() + 2 * self.elements@.len() <= u32::MAX,
            read_elements(number_style, old(reader).rest(), 0, self.elements@) is Some,
        ensures
            ({
                let (vs, u) = read_elements(number_style, old(reader).rest(), 0, self.elements@).unwrap();
                &&& final(reader).advanced(*old(reader), u as int)
                &&& elements_readable(final(arena)@, position_start(), self.elements@)
                &&& element_values(final(arena)@, position_start(), self.elements@) == vs
            }),
    {
        arena.clear();
        let mut context = InstructionParseContext::new(number_style);
        let ghost es = self.elements@;
        let ghost rest0 = reader.rest();
        let ghost p0 = reader.pos();
        let n = self.elements.len();
        let mut i: usize = 0;
        proof {
            assert(arena_end(arena@) == position_start());
            assert(arena_size(arena@) == 0);
            assert(es.take(0) =~= Seq::<OperationElement>::empty());
            assert(es.skip(0) =~= es);
            assert(reader.rest() =~= rest0);
            let (vs, u) = read_elements(number_style, rest0, 0, es).unwrap();
            assert(Seq::<ElementValue>::empty() + vs =~= vs);
        }
        while i < n
            invariant
                i <= n,
                n == es.len(),
                es == self.elements@,
                es.len() * 2 + (reader.bytes().len() - p0) <= u32::MAX,
                reader.bytes() == old(reader).bytes(),
                p0 == old(reader).pos(),
                rest0 == old(reader).rest(),
                0 <= p0 <= reader.pos() <= reader.bytes().len(),
                context.style() == number_style,
                arena_size(arena@) <= (reader.pos() - p0) + 2 * i,
                elements_readable(arena@, position_start(), es.take(i as int)),
                end_position(arena@, position_start(), es.take(i as int)) == arena_end(arena@),
                read_elements(number_style, reader.rest(), context.last_operation(), es.skip(i as int)) is Some,
                read_elements(number_style, rest0, 0, es) == ({
                    let (vs, u) = read_elements(number_style, reader.rest(), context.last_operation(), es.skip(i as int)).unwrap();
                    Some((element_values(arena@, position_start(), es.take(i as int)) + vs, ((reader.pos() - p0) + u) as nat))
                }),
            decreases n - i,
        {
            let ghost a1 = arena@;
            let ghost r1 = *reader;
            let ghost op1 = context.last_operation();
            let ghost tail = es.skip(i as int);
            proof {
                assert(tail[0] == es[i as int]);
                assert(tail.drop_first() =~= es.skip(i + 1));
            }
            proof {
                lemma_read_element_len(number_style, r1.rest(), op1, es[i as int]);
            }
            context.take_element(reader, arena, self.elements[i]);
            proof {
                let (v, u) = read_element(number_style, r1.rest(), op1, es[i as int]).unwrap();
                lemma_rest_skip(reader.bytes(), r1.pos(), u as int);
                assert(reader.rest() =~= r1.rest().skip(u as int));
                assert(position_fits(a1, position_start()));
                lemma_end_position_fits(a1, position_start(), es.take(i as int));
                lemma_elements_extend(a1, arena@, position_start(), es.take(i as int));
                lemma_position_extends(a1, arena@, arena_end(a1));
                lemma_elements_push(arena@, position_start(), es.take(i as int), es[i as int]);
                assert(es.take(i + 1) =~= es.take(i as int).push(es[i as int]));
                let (vs2, u2) = read_elements(number_style, reader.rest(), context.last_operation(), es.skip(i + 1)).unwrap();
                assert(element_values(a1, position_start(), es.take(i as int)) + (seq![v] + vs2) =~= element_values(
                    arena@,
                    position_start(),
                    es.take(i + 1),
                ) + vs2);
            }
            i = i + 1;
        }
        proof {
            assert(es.take(n as int) =~= es);
            assert(es.skip(n as int) =~= Seq::<OperationElement>::empty());
            let (vs, u) = read_elements(number_style, rest0, 0, es).unwrap();
            assert(element_values(arena@, position_start(), es) + Seq::<ElementValue>::empty() =~= element_values(
                arena@,
                position_start(),
                es,
            ));
        }
    }
}


/// The bytes of elements written one after the other.
pub open spec fn encode_elements(style: NumberStyle, vs: Seq<ElementValue>) -> Seq<u8>
    decreases vs.len(),
{
    if vs.len() == 0 {
        Seq::empty()
    } else {
        encode_element(style, vs[0]) + encode_elements(style, vs.drop_first())
    }
}

/// `s` taken up to `a + b` is `s` taken up to `a`, then the next `b` bytes.
proof fn lemma_take_split(s: Seq<u8>, a: int, b: int)
    requires
        0 <= a,
        0 <= b,
        a + b <= s.len(),
    ensures
        s.take(a + b) == s.take(a) + s.skip(a).take(b),
{
    assert(s.take(a + b) =~= s.take(a) + s.skip(a).take(b));
}

/// A number read from bytes is below 2^32, so it survives the conversion to `u32`.
proof fn lemma_number_value_small(style: NumberStyle, s: Seq<u8>)
    requires
        number_readable(style, s),
    ensures
        number_value(style, s) < 0x1_0000_0000,
        (number_value(style, s) as u32) as nat == number_value(style, s),
{
    let k = number_len(style, s[0]);
    lemma_le_bytes_of_value(s.take(k as int));
    lemma_byte_bound_small();
    assert(k <= 4);
    if k < 4 {
        assert(byte_bound(k) <= byte_bound(4)) by {
            reveal_with_fuel(byte_bound, 5);
        }
    }
}

/// A run of numbers read from bytes is writable and writes the bytes it was read from.
proof fn lemma_read_numbers_encode(style: NumberStyle, kind: NumberArrayKind, s: Seq<u8>, n: nat)
    requires
        read_numbers(style, kind, s, n) is Some,
    ensures
        ({
            let (ns, u) = read_numbers(style, kind, s, n).unwrap();
            &&& numbers_writable(style, kind, ns)
            &&& encode_numbers(style, kind, ns) == s.take(u as int)
            &&& u <= s.len()
        }),
    decreases n,
{
    if n == 0 {
        assert(s.take(0) =~= Seq::<u8>::empty());
    } else {
        lemma_read_numbers_encode(style, kind, s, (n - 1) as nat);
        let (ns, u) = read_numbers(style, kind, s, (n - 1) as nat).unwrap();
        let r = s.skip(u as int);
        let (ns2, u2) = read_numbers(style, kind, s, n).unwrap();
        assert(ns2.drop_last() =~= ns);
        match kind {
            NumberArrayKind::Dense => {
                lemma_number_read_write(style, r);
                lemma_number_value_small(style, r);
                let l = number_len(style, r[0]);
                lemma_take_split(s, u as int, l as int);
            },
            NumberArrayKind::Padded => {
                let w = pad_width(style);
                lemma_le_bytes_of_value(r.take(w as int));
                lemma_byte_bound_small();
                lemma_take_split(s, u as int, w as int);
                if style == NumberStyle::U16 {
                    assert(w == 2);
                } else {
                    assert(w == 4);
                }
            },
        }
    }
}

/// A fixed-width run read from bytes writes the bytes it was read from.
proof fn lemma_read_fixed_encode(s: Seq<u8>, w: nat, n: nat)
    requires
        read_fixed(s, w, n) is Some,
        w == 2 || w == 4,
    ensures
        ({
            let (vs, u) = read_fixed(s, w, n).unwrap();
            &&& w == 2 ==> encode_u16s(as_u16s(vs)) == s.take(u as int)
            &&& w == 4 ==> encode_u32s(as_u32s(vs)) == s.take(u as int)
            &&& u <= s.len()
        }),
    decreases n,
{
    if n == 0 {
        assert(s.take(0) =~= Seq::<u8>::empty());
        assert(as_u16s(Seq::<nat>::empty()) =~= Seq::<u16>::empty());
        assert(as_u32s(Seq::<nat>::empty()) =~= Seq::<u32>::empty());
    } else {
        lemma_read_fixed_encode(s, w, (n - 1) as nat);
        let (vs, u) = read_fixed(s, w, (n - 1) as nat).unwrap();
        let t = s.subrange(u as int, (u + w) as int);
        lemma_le_bytes_of_value(t);
        lemma_byte_bound_small();
        lemma_take_split(s, u as int, w as int);
        assert(s.skip(u as int).take(w as int) =~= t);
        let (vs2, u2) = read_fixed(s, w, n).unwrap();
        assert(as_u16s(vs2).drop_last() =~= as_u16s(vs));
        assert(as_u32s(vs2).drop_last() =~= as_u32s(vs));
    }
}

/// Counting zeros of a sequence with one code in front.
proof fn lemma_zero_count_cons(t: u8, w: Seq<u8>)
    ensures
        zero_count(seq![t] + w) == zero_count(w) + if t == 0 {
            1nat
        } else {
            0nat
        },
    decreases w.len(),
{
    if w.len() > 0 {
        lemma_zero_count_cons(t, w.drop_last());
        assert((seq![t] + w).drop_last() =~= seq![t] + w.drop_last());
        assert((seq![t] + w).last() == w.last());
        assert(zero_count(w) == zero_count(w.drop_last()) + if w.last() == 0 {
            1nat
        } else {
            0nat
        });
    } else {
        assert(seq![t] + w =~= seq![t]);
        assert(seq![t].drop_last() =~= Seq::<u8>::empty());
        assert(zero_count(Seq::<u8>::empty()) == 0);
        assert(zero_count(w) == 0);
    }
}

/// The bytes of an expression with one more code in front: the code, its number if it is
/// zero, then the bytes of the rest.
proof fn lemma_encode_expression_cons(style: NumberStyle, t: u8, c: Seq<u8>, pre: Seq<u32>, ns: Seq<u32>)
    requires
        pre.len() == if t == 0 {
            1nat
        } else {
            0nat
        },
        zero_count(c) <= ns.len(),
    ensures
        encode_expression(style, seq![t] + c, pre + ns) == seq![t] + (if t == 0 {
            encode_number(style, pre[0] as nat)
        } else {
            Seq::empty()
        }) + encode_expression(style, c, ns),
    decreases c.len(),
{
    let all = seq![t] + c;
    if c.len() == 0 {
        assert(all =~= seq![t]);
        assert(all.drop_last() =~= Seq::<u8>::empty());
        assert(all.last() == t);
        assert(zero_count(Seq::<u8>::empty()) == 0);
        assert(zero_count(all.drop_last()) == 0);
        assert(encode_expression(style, c, ns) == Seq::<u8>::empty());
        assert(encode_expression(style, all.drop_last(), pre + ns) == Seq::<u8>::empty());
        if t == 0 {
            assert((pre + ns)[0] == pre[0]);
        }
        assert(encode_expression(style, all, pre + ns) =~= seq![t] + (if t == 0 {
            encode_number(style, pre[0] as nat)
        } else {
            Seq::empty()
        }) + encode_expression(style, c, ns));
    } else {
        let before = c.drop_last();
        assert(all.drop_last() =~= seq![t] + before);
        assert(all.last() == c.last());
        lemma_zero_count_cons(t, before);
        assert(zero_count(before) <= zero_count(c));
        lemma_encode_expression_cons(style, t, before, pre, ns);
        if c.last() == 0 {
            let j = zero_count(before) as int;
            assert(zero_count(seq![t] + before) == pre.len() + j);
            assert((pre + ns)[pre.len() + j] == ns[j]);
        }
    }
}

/// An expression with one more code in front stays writable when the code's number is.
proof fn lemma_expression_writable_cons(style: NumberStyle, t: u8, c2: Seq<u8>, pre: Seq<u32>, ns2: Seq<u32>)
    requires
        pre.len() == if t == 0 {
            1nat
        } else {
            0nat
        },
        t == 0 ==> number_writable(style, pre[0] as nat),
        expression_writable(style, c2, ns2),
    ensures
        expression_writable(style, seq![t] + c2, pre + ns2),
{
    let c = seq![t] + c2;
    let ns = pre + ns2;
    assert forall|i: int| 0 <= i < c.len() && c[i] == 0 implies zero_count(c.take(i)) < ns.len()
        && number_writable(style, ns[zero_count(c.take(i)) as int] as nat) by {
        if i == 0 {
            assert(c.take(0) =~= Seq::<u8>::empty());
            assert(zero_count(Seq::<u8>::empty()) == 0);
        } else {
            assert(c.take(i) =~= seq![t] + c2.take(i - 1));
            lemma_zero_count_cons(t, c2.take(i - 1));
            assert(c2[i - 1] == c[i]);
        }
    }
}

/// What reading an expression from `s` gives back when written.
pub open spec fn expression_roundtrips(style: NumberStyle, s: Seq<u8>) -> bool {
    read_expression(style, s) matches Some((c, ns, u)) && expression_writable(style, c, ns) && encode_expression(
        style,
        c,
        ns,
    ) == s.take(u as int) && zero_count(c) == ns.len()
}

/// An expression that is only its final code.
proof fn lemma_expression_end(style: NumberStyle, s: Seq<u8>)
    requires
        s.len() > 0,
        s[0] == 0xff,
    ensures
        expression_roundtrips(style, s),
{
    let t = s[0];
    let (c, ns, u) = read_expression(style, s).unwrap();
    assert(c =~= seq![t]);
    assert(c.drop_last() =~= Seq::<u8>::empty());
    assert(zero_count(c.drop_last()) == 0);
    assert(encode_expression(style, c.drop_last(), ns) == Seq::<u8>::empty());
    assert(s.take(1) =~= seq![t]);
    assert(encode_expression(style, c, ns) =~= seq![t]);
    assert(zero_count(c) == 0);
}

/// An expression that starts with a zero code and its number.
proof fn lemma_expression_zero_step(style: NumberStyle, s: Seq<u8>)
    requires
        read_expression(style, s) is Some,
        s[0] == 0,
        expression_roundtrips(style, s.skip(1).skip(number_len(style, s.skip(1)[0]) as int)),
    ensures
        expression_roundtrips(style, s),
{
    let t = s[0];
    let r = s.skip(1);
    let (c, ns, u) = read_expression(style, s).unwrap();
    let l = number_len(style, r[0]);
    let r2 = r.skip(l as int);
    let (c2, ns2, u2) = read_expression(style, r2).unwrap();
    let x = number_value(style, r) as u32;
    lemma_number_read_write(style, r);
    lemma_number_value_small(style, r);
    lemma_encode_expression_cons(style, t, c2, seq![x], ns2);
    lemma_expression_writable_cons(style, t, c2, seq![x], ns2);
    assert(c =~= seq![t] + c2);
    assert(ns =~= seq![x] + ns2);
    lemma_zero_count_cons(t, c2);
    lemma_read_expression_len(style, r2);
    assert(s.take(u as int) =~= seq![t] + r.take(l as int) + r2.take(u2 as int));
}

/// An expression that starts with a code other than zero and the final code.
proof fn lemma_expression_code_step(style: NumberStyle, s: Seq<u8>)
    requires
        read_expression(style, s) is Some,
        s[0] != 0,
        s[0] != 0xff,
        expression_roundtrips(style, s.skip(1)),
    ensures
        expression_roundtrips(style, s),
{
    let t = s[0];
    let r = s.skip(1);
    let (c, ns, u) = read_expression(style, s).unwrap();
    let (c2, ns2, u2) = read_expression(style, r).unwrap();
    lemma_encode_expression_cons(style, t, c2, Seq::empty(), ns2);
    lemma_expression_writable_cons(style, t, c2, Seq::empty(), ns2);
    assert(c =~= seq![t] + c2);
    assert(Seq::<u32>::empty() + ns2 =~= ns2);
    lemma_zero_count_cons(t, c2);
    lemma_read_expression_len(style, r);
    assert(s.take(u as int) =~= seq![t] + r.take(u2 as int));
}

/// An expression read from bytes is writable and writes the bytes it was read from.
proof fn lemma_read_expression_encode(style: NumberStyle, s: Seq<u8>)
    requires
        read_expression(style, s) is Some,
    ensures
        expression_roundtrips(style, s),
    decreases s.len(),
{
    let t = s[0];
    let r = s.skip(1);
    if t == 0xff {
        lemma_expression_end(style, s);
    } else if t == 0 {
        let l = number_len(style, r[0]);
        lemma_read_expression_encode(style, r.skip(l as int));
        lemma_expression_zero_step(style, s);
    } else {
        lemma_read_expression_encode(style, r);
        lemma_expression_code_step(style, s);
    }
}

/// The roundtrip of one element, for the elements of fixed size and numbers.
proof fn lemma_roundtrip_scalar(style: NumberStyle, s: Seq<u8>, op: u8, e: OperationElement)
    requires
        read_element(style, s, op, e) is Some,
        e is U8 || e is Operation || e is Condition || e is U16 || e is Register || e is U32 || e is Offset
            || e is Number || e is OptionalNumber,
    ensures
        ({
            let (v, u) = read_element(style, s, op, e).unwrap();
            &&& element_writable(style, v)
            &&& encode_element(style, v) == s.take(u as int)
        }),
{
    lemma_byte_bound_small();
    match e {
        OperationElement::U8 | OperationElement::Operation | OperationElement::Condition => {
            assert(s.take(1) =~= seq![s[0]]);
        },
        OperationElement::U16 | OperationElement::Register => {
            lemma_le_bytes_of_value(s.take(2));
        },
        OperationElement::U32 | OperationElement::Offset => {
            lemma_le_bytes_of_value(s.take(4));
        },
        OperationElement::Number => {
            lemma_number_read_write(style, s);
            lemma_number_value_small(style, s);
        },
        _ => {
            if op >= 0x80 {
                lemma_number_read_write(style, s);
                lemma_number_value_small(style, s);
            } else {
                assert(s.take(0) =~= Seq::<u8>::empty());
            }
        },
    }
}

/// The roundtrip of one length-prefixed element.
proof fn lemma_roundtrip_prefixed(style: NumberStyle, s: Seq<u8>, op: u8, e: OperationElement, k: LengthKind)
    requires
        read_element(style, s, op, e) is Some,
        e == OperationElement::RegisterArray(k) || e == OperationElement::OffsetArray(k) || e
            == OperationElement::NumberArray(k) || e == OperationElement::PadNumberArray(k) || e
            == OperationElement::String(k) || e == OperationElement::StringArray(k),
    ensures
        ({
            let (v, u) = read_element(style, s, op, e).unwrap();
            &&& element_writable(style, v)
            &&& encode_element(style, v) == s.take(u as int)
        }),
{
    let l = length_len(k);
    let n = le_value(s.take(l as int));
    lemma_le_bytes_of_value(s.take(l as int));
    let r = s.skip(l as int);
    if e == OperationElement::RegisterArray(k) {
        lemma_read_fixed_encode(r, 2, n);
        lemma_read_fixed_len(r, 2, n);
        lemma_take_split(s, l as int, read_fixed(r, 2, n).unwrap().1 as int);
    } else if e == OperationElement::OffsetArray(k) {
        lemma_read_fixed_encode(r, 4, n);
        lemma_read_fixed_len(r, 4, n);
        lemma_take_split(s, l as int, read_fixed(r, 4, n).unwrap().1 as int);
    } else if e == OperationElement::NumberArray(k) {
        lemma_read_numbers_encode(style, NumberArrayKind::Dense, r, n);
        lemma_read_numbers_len(style, NumberArrayKind::Dense, r, n);
        lemma_take_split(s, l as int, read_numbers(style, NumberArrayKind::Dense, r, n).unwrap().1 as int);
    } else if e == OperationElement::PadNumberArray(k) {
        lemma_read_numbers_encode(style, NumberArrayKind::Padded, r, n);
        lemma_read_numbers_len(style, NumberArrayKind::Padded, r, n);
        lemma_take_split(s, l as int, read_numbers(style, NumberArrayKind::Padded, r, n).unwrap().1 as int);
    } else {
        lemma_take_split(s, l as int, n as int);
        assert(r.take(n as int) =~= s.subrange(l as int, (l + n) as int));
    }
}

/// The roundtrip of a bit mask with its numbers, and of the wipe argument of Higurashi Sui.
proof fn lemma_roundtrip_counted(style: NumberStyle, s: Seq<u8>, op: u8, e: OperationElement)
    requires
        read_element(style, s, op, e) is Some,
        e is BitmaskNumberArray || e is HiguSuiWipeArg,
    ensures
        ({
            let (v, u) = read_element(style, s, op, e).unwrap();
            &&& element_writable(style, v)
            &&& encode_element(style, v) == s.take(u as int)
        }),
{
    if e is BitmaskNumberArray {
        let r = s.skip(1);
        lemma_read_numbers_encode(style, NumberArrayKind::Dense, r, ones(s[0] as nat));
        let u2 = read_numbers(style, NumberArrayKind::Dense, r, ones(s[0] as nat)).unwrap().1;
        lemma_take_split(s, 1, u2 as int);
        assert(s.take(1) =~= seq![s[0]]);
    } else {
        let r = s.skip(2);
        lemma_read_numbers_encode(style, NumberArrayKind::Dense, r, wipe_count(s[0], s[1]));
        let u2 = read_numbers(style, NumberArrayKind::Dense, r, wipe_count(s[0], s[1])).unwrap().1;
        lemma_take_split(s, 2, u2 as int);
        assert(s.take(2) =~= seq![s[0], s[1]]);
    }
}

/// Reading an element and writing it back gives exactly the bytes that were read: the
/// element read from the start of `s` is writable, and its bytes are the bytes it took.
pub proof fn lemma_read_write_roundtrip(style: NumberStyle, s: Seq<u8>, op: u8, e: OperationElement)
    requires
        read_element(style, s, op, e) is Some,
    ensures
        ({
            let (v, u) = read_element(style, s, op, e).unwrap();
            &&& element_writable(style, v)
            &&& encode_element(style, v) == s.take(u as int)
        }),
{
    match e {
        OperationElement::Expression => lemma_read_expression_encode(style, s),
        OperationElement::RegisterArray(k) | OperationElement::OffsetArray(k) | OperationElement::NumberArray(k)
        | OperationElement::PadNumberArray(k) | OperationElement::String(k) | OperationElement::StringArray(
            k,
        ) => lemma_roundtrip_prefixed(style, s, op, e, k),
        OperationElement::BitmaskNumberArray | OperationElement::HiguSuiWipeArg => lemma_roundtrip_counted(
            style,
            s,
            op,
            e,
        ),
        _ => lemma_roundtrip_scalar(style, s, op, e),
    }
}

/// Reading the elements of an operation and writing them back gives exactly the bytes
/// that were read.
pub proof fn lemma_read_write_elements_roundtrip(style: NumberStyle, s: Seq<u8>, op: u8, es: Seq<OperationElement>)
    requires
        read_elements(style, s, op, es) is Some,
    ensures
        ({
            let (vs, u) = read_elements(style, s, op, es).unwrap();
            &&& forall|i: int| 0 <= i < vs.len() ==> element_writable(style, #[trigger] vs[i])
            &&& encode_elements(style, vs) == s.take(u as int)
            &&& vs.len() == es.len()
        }),
    decreases es.len(),
{
    if es.len() == 0 {
        assert(s.take(0) =~= Seq::<u8>::empty());
    } else {
        let (v, u) = read_element(style, s, op, es[0]).unwrap();
        let op2 = if es[0] is Operation {
            s[0]
        } else {
            op
        };
        lemma_read_write_roundtrip(style, s, op, es[0]);
        lemma_read_element_len(style, s, op, es[0]);
        let r = s.skip(u as int);
        lemma_read_write_elements_roundtrip(style, r, op2, es.drop_first());
        let (vs2, u2) = read_elements(style, r, op2, es.drop_first()).unwrap();
        let (vs, uu) = read_elements(style, s, op, es).unwrap();
        assert(vs =~= seq![v] + vs2);
        assert(vs.drop_first() =~= vs2);
        lemma_read_elements_len(style, r, op2, es.drop_first());
        lemma_take_split(s, u as int, u2 as int);
        assert forall|i: int| 0 <= i < vs.len() implies element_writable(style, #[trigger] vs[i]) by {
            if i > 0 {
                assert(vs[i] == vs2[i - 1]);
            }
        }
    }
}

/// The elements read from the start of `s` take no more bytes than `s` has.
pub proof fn lemma_read_elements_len(style: NumberStyle, s: Seq<u8>, op: u8, es: Seq<OperationElement>)
    requires
        read_elements(style, s, op, es) is Some,
    ensures
        read_elements(style, s, op, es).unwrap().1 <= s.len(),
    decreases es.len(),
{
    if es.len() > 0 {
        let (v, u) = read_element(style, s, op, es[0]).unwrap();
        let op2 = if es[0] is Operation {
            s[0]
        } else {
            op
        };
        lemma_read_element_len(style, s, op, es[0]);
        lemma_read_elements_len(style, s.skip(u as int), op2, es.drop_first());
    }
}

} // verus!
