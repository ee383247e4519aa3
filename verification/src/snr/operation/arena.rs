//! Columnar storage of the elements of one operation.
use vstd::prelude::*;

use crate::snr::operation::repr::{ElementValue, NumberArrayKind, OperationElementRepr};
use crate::snr::operation::schema::{OperationElement, OperationSchema};

verus! {

pub type Register = u16;

pub type Number = u32;

pub type Offset = u32;

/// Stores data for all elements of an instruction in a columnar format.
///
/// Using this columnar format allows quickly iterating over elements of certain types,
/// as well as omitting certain elements from parsing.
#[derive(Debug)]
pub struct OperationArena<'snr> {
    pub u8s: Vec<u8>,
    pub u16s: Vec<u16>,
    pub u32s: Vec<u32>,
    pub registers: Vec<Register>,
    pub offsets: Vec<Offset>,
    pub numbers: Vec<Number>,
    pub strings: Vec<&'snr [u8]>,
    pub string_arrays: Vec<&'snr [u8]>,
    pub lengths: Vec<u16>,
}

/// The contents of an arena.
pub struct ArenaView {
    pub u8s: Seq<u8>,
    pub u16s: Seq<u16>,
    pub u32s: Seq<u32>,
    pub registers: Seq<u16>,
    pub offsets: Seq<u32>,
    pub numbers: Seq<u32>,
    pub strings: Seq<Seq<u8>>,
    pub string_arrays: Seq<Seq<u8>>,
    pub lengths: Seq<u16>,
}

impl<'snr> View for OperationArena<'snr> {
    type V = ArenaView;

    open spec fn view(&self) -> ArenaView {
        ArenaView {
            u8s: self.u8s@,
            u16s: self.u16s@,
            u32s: self.u32s@,
            registers: self.registers@,
            offsets: self.offsets@,
            numbers: self.numbers@,
            strings: self.strings@.map_values(|s: &[u8]| s@),
            string_arrays: self.string_arrays@.map_values(|s: &[u8]| s@),
            lengths: self.lengths@,
        }
    }
}

impl<'snr> OperationArena<'snr> {
    /// Whether every column is empty.
    pub open spec fn is_empty(&self) -> bool {
        &&& self.u8s@.len() == 0
        &&& self.u16s@.len() == 0
        &&& self.u32s@.len() == 0
        &&& self.registers@.len() == 0
        &&& self.offsets@.len() == 0
        &&& self.numbers@.len() == 0
        &&& self.strings@.len() == 0
        &&& self.string_arrays@.len() == 0
        &&& self.lengths@.len() == 0
    }

    pub fn new() -> (r: Self)
        ensures
            r.is_empty(),
    {
        Self {
            u8s: Vec::with_capacity(16),
            u16s: Vec::with_capacity(2),
            u32s: Vec::with_capacity(2),
            registers: Vec::with_capacity(8),
            offsets: Vec::with_capacity(64),
            numbers: Vec::with_capacity(16),
            strings: Vec::with_capacity(2),
            string_arrays: Vec::with_capacity(1),
            lengths: Vec::with_capacity(2),
        }
    }

    pub fn clear(&mut self)
        ensures
            final(self).is_empty(),
    {
        self.u8s.clear();
        self.u16s.clear();
        self.u32s.clear();
        self.registers.clear();
        self.offsets.clear();
        self.numbers.clear();
        self.strings.clear();
        self.string_arrays.clear();
        self.lengths.clear();
    }
}

/// How far into each column of an arena the reading has got.
pub struct PositionView {
    pub u8s: int,
    pub u16s: int,
    pub u32s: int,
    pub registers: int,
    pub offsets: int,
    pub numbers: int,
    pub strings: int,
    pub string_arrays: int,
    pub lengths: int,
}

/// A position at the start of every column.
pub open spec fn position_start() -> PositionView {
    PositionView {
        u8s: 0,
        u16s: 0,
        u32s: 0,
        registers: 0,
        offsets: 0,
        numbers: 0,
        strings: 0,
        string_arrays: 0,
        lengths: 0,
    }
}

/// Whether every column of `a` has at most `u32::MAX` entries and `p` lies within every column.
pub open spec fn position_fits(a: ArenaView, p: PositionView) -> bool {
    &&& 0 <= p.u8s <= a.u8s.len() <= u32::MAX
    &&& 0 <= p.u16s <= a.u16s.len() <= u32::MAX
    &&& 0 <= p.u32s <= a.u32s.len() <= u32::MAX
    &&& 0 <= p.registers <= a.registers.len() <= u32::MAX
    &&& 0 <= p.offsets <= a.offsets.len() <= u32::MAX
    &&& 0 <= p.numbers <= a.numbers.len() <= u32::MAX
    &&& 0 <= p.strings <= a.strings.len() <= u32::MAX
    &&& 0 <= p.string_arrays <= a.string_arrays.len() <= u32::MAX
    &&& 0 <= p.lengths <= a.lengths.len() <= u32::MAX
}

/// Whether a multi-valued column can supply a length-prefixed run at the position.
pub open spec fn run_available(lengths: Seq<u16>, lp: int, column_len: int, cp: int) -> bool {
    &&& 0 <= lp < lengths.len()
    &&& 0 <= cp && cp + lengths[lp] <= column_len
}

/// Whether element `e` can be read from arena `a` at position `p`.
pub open spec fn element_available(a: ArenaView, p: PositionView, e: OperationElement) -> bool {
    match e {
        OperationElement::U8 => p.u8s < a.u8s.len(),
        OperationElement::U16 => p.u16s < a.u16s.len(),
        OperationElement::U32 => p.u32s < a.u32s.len(),
        OperationElement::Operation => p.u8s < a.u8s.len(),
        OperationElement::Condition => p.u8s < a.u8s.len(),
        OperationElement::Expression => {
            &&& run_available(a.lengths, p.lengths, a.u8s.len() as int, p.u8s)
            &&& run_available(a.lengths, p.lengths + 1, a.numbers.len() as int, p.numbers)
        },
        OperationElement::Register => p.registers < a.registers.len(),
        OperationElement::RegisterArray(_) => run_available(
            a.lengths,
            p.lengths,
            a.registers.len() as int,
            p.registers,
        ),
        OperationElement::Offset => p.offsets < a.offsets.len(),
        OperationElement::OffsetArray(_) => run_available(
            a.lengths,
            p.lengths,
            a.offsets.len() as int,
            p.offsets,
        ),
        OperationElement::Number => p.numbers < a.numbers.len(),
        OperationElement::OptionalNumber => p.numbers < a.numbers.len(),
        OperationElement::NumberArray(_) => run_available(
            a.lengths,
            p.lengths,
            a.numbers.len() as int,
            p.numbers,
        ),
        OperationElement::PadNumberArray(_) => run_available(
            a.lengths,
            p.lengths,
            a.numbers.len() as int,
            p.numbers,
        ),
        OperationElement::BitmaskNumberArray => {
            &&& p.u8s < a.u8s.len()
            &&& run_available(a.lengths, p.lengths, a.numbers.len() as int, p.numbers)
        },
        OperationElement::String(_) => p.strings < a.strings.len(),
        OperationElement::StringArray(_) => p.string_arrays < a.string_arrays.len(),
        OperationElement::HiguSuiWipeArg => {
            &&& p.u8s + 1 < a.u8s.len()
            &&& run_available(a.lengths, p.lengths, a.numbers.len() as int, p.numbers)
        },
    }
}

/// The value of element `e` read from arena `a` at position `p`, and the position after it.
pub open spec fn element_at(a: ArenaView, p: PositionView, e: OperationElement) -> (
    ElementValue,
    PositionView,
) {
    match e {
        OperationElement::U8 => (ElementValue::U8(a.u8s[p.u8s]), PositionView { u8s: p.u8s + 1, ..p }),
        OperationElement::U16 => (
            ElementValue::U16(a.u16s[p.u16s]),
            PositionView { u16s: p.u16s + 1, ..p },
        ),
        OperationElement::U32 => (
            ElementValue::U32(a.u32s[p.u32s]),
            PositionView { u32s: p.u32s + 1, ..p },
        ),
        OperationElement::Operation => (
            ElementValue::Operation(a.u8s[p.u8s]),
            PositionView { u8s: p.u8s + 1, ..p },
        ),
        OperationElement::Condition => (
            ElementValue::Condition(a.u8s[p.u8s]),
            PositionView { u8s: p.u8s + 1, ..p },
        ),
        OperationElement::Expression => {
            let n1 = a.lengths[p.lengths] as int;
            let n2 = a.lengths[p.lengths + 1] as int;
            (
                ElementValue::Expression(
                    a.u8s.subrange(p.u8s, p.u8s + n1),
                    a.numbers.subrange(p.numbers, p.numbers + n2),
                ),
                PositionView {
                    u8s: p.u8s + n1,
                    numbers: p.numbers + n2,
                    lengths: p.lengths + 2,
                    ..p
                },
            )
        },
        OperationElement::Register => (
            ElementValue::Register(a.registers[p.registers]),
            PositionView { registers: p.registers + 1, ..p },
        ),
        OperationElement::RegisterArray(k) => {
            let n = a.lengths[p.lengths] as int;
            (
                ElementValue::RegisterArray(k, a.registers.subrange(p.registers, p.registers + n)),
                PositionView { registers: p.registers + n, lengths: p.lengths + 1, ..p },
            )
        },
        OperationElement::Offset => (
            ElementValue::Offset(a.offsets[p.offsets]),
            PositionView { offsets: p.offsets + 1, ..p },
        ),
        OperationElement::OffsetArray(k) => {
            let n = a.lengths[p.lengths] as int;
            (
                ElementValue::OffsetArray(k, a.offsets.subrange(p.offsets, p.offsets + n)),
                PositionView { offsets: p.offsets + n, lengths: p.lengths + 1, ..p },
            )
        },
        OperationElement::Number => (
            ElementValue::Number(a.numbers[p.numbers]),
            PositionView { numbers: p.numbers + 1, ..p },
        ),
        OperationElement::OptionalNumber => (
            ElementValue::OptionalNumber(
                if a.numbers[p.numbers] == u32::MAX {
                    None
                } else {
                    Some(a.numbers[p.numbers])
                },
            ),
            PositionView { numbers: p.numbers + 1, ..p },
        ),
        OperationElement::NumberArray(k) => {
            let n = a.lengths[p.lengths] as int;
            (
                ElementValue::NumberArray(
                    k,
                    NumberArrayKind::Dense,
                    a.numbers.subrange(p.numbers, p.numbers + n),
                ),
                PositionView { numbers: p.numbers + n, lengths: p.lengths + 1, ..p },
            )
        },
        OperationElement::PadNumberArray(k) => {
            let n = a.lengths[p.lengths] as int;
            (
                ElementValue::NumberArray(
                    k,
                    NumberArrayKind::Padded,
                    a.numbers.subrange(p.numbers, p.numbers + n),
                ),
                PositionView { numbers: p.numbers + n, lengths: p.lengths + 1, ..p },
            )
        },
        OperationElement::BitmaskNumberArray => {
            let n = a.lengths[p.lengths] as int;
            (
                ElementValue::BitmaskNumberArray(
                    a.u8s[p.u8s],
                    a.numbers.subrange(p.numbers, p.numbers + n),
                ),
                PositionView {
                    u8s: p.u8s + 1,
                    numbers: p.numbers + n,
                    lengths: p.lengths + 1,
                    ..p
                },
            )
        },
        OperationElement::String(k) => (
            ElementValue::String(k, a.strings[p.strings]),
            PositionView { strings: p.strings + 1, ..p },
        ),
        OperationElement::StringArray(k) => (
            ElementValue::StringArray(k, a.string_arrays[p.string_arrays]),
            PositionView { string_arrays: p.string_arrays + 1, ..p },
        ),
        OperationElement::HiguSuiWipeArg => {
            let n = a.lengths[p.lengths] as int;
            (
                ElementValue::HiguSuiWipeArg(
                    a.u8s[p.u8s],
                    a.u8s[p.u8s + 1],
                    a.numbers.subrange(p.numbers, p.numbers + n),
                ),
                PositionView {
                    u8s: p.u8s + 2,
                    numbers: p.numbers + n,
                    lengths: p.lengths + 1,
                    ..p
                },
            )
        },
    }
}

/// Whether the elements `es` can be read one after the other from position `p`.
pub open spec fn elements_readable(a: ArenaView, p: PositionView, es: Seq<OperationElement>) -> bool
    decreases es.len(),
{
    es.len() == 0 || (position_fits(a, p) && element_available(a, p, es[0]) && elements_readable(
        a,
        element_at(a, p, es[0]).1,
        es.drop_first(),
    ))
}

/// The values of the elements `es` read one after the other from position `p`.
pub open spec fn element_values(a: ArenaView, p: PositionView, es: Seq<OperationElement>) -> Seq<
    ElementValue,
>
    decreases es.len(),
{
    if es.len() == 0 {
        Seq::empty()
    } else {
        seq![element_at(a, p, es[0]).0] + element_values(a, element_at(a, p, es[0]).1, es.drop_first())
    }
}

/// A cursor into each column of an [`OperationArena`].
pub struct OperationArenaPosition {
    u8s: u32,
    u16s: u32,
    u32s: u32,
    registers: u32,
    offsets: u32,
    numbers: u32,
    strings: u32,
    string_arrays: u32,
    lengths: u32,
}

impl View for OperationArenaPosition {
    type V = PositionView;

    closed spec fn view(&self) -> PositionView {
        PositionView {
            u8s: self.u8s as int,
            u16s: self.u16s as int,
            u32s: self.u32s as int,
            registers: self.registers as int,
            offsets: self.offsets as int,
            numbers: self.numbers as int,
            strings: self.strings as int,
            string_arrays: self.string_arrays as int,
            lengths: self.lengths as int,
        }
    }
}

impl OperationArenaPosition {
    pub fn new() -> (r: Self)
        ensures
            r@ == position_start(),
    {
        Self {
            u8s: 0,
            u16s: 0,
            u32s: 0,
            registers: 0,
            offsets: 0,
            numbers: 0,
            strings: 0,
            string_arrays: 0,
            lengths: 0,
        }
    }

    /// Reads the element `element` and moves past it.
    pub fn take_element<'a, 'snr>(
        &mut self,
        arena: &'a OperationArena<'snr>,
        element: OperationElement,
    ) -> (r: OperationElementRepr<'a, 'snr>)
        requires
            position_fits(arena@, old(self)@),
            element_available(arena@, old(self)@, element),
        ensures
            (r@, final(self)@) == element_at(arena@, old(self)@, element),
    {
        match element {
            OperationElement::U8 => OperationElementRepr::U8(self.take_u8(arena)),
            OperationElement::U16 => OperationElementRepr::U16(self.take_u16(arena)),
            OperationElement::U32 => OperationElementRepr::U32(self.take_u32(arena)),
            OperationElement::Operation => OperationElementRepr::Operation(self.take_u8(arena)),
            OperationElement::Condition => OperationElementRepr::Condition(self.take_u8(arena)),
            OperationElement::Expression => {
                let (expressions, numbers) = self.take_expression(arena);
                OperationElementRepr::Expression(expressions, numbers)
            },
            OperationElement::Register => OperationElementRepr::Register(
                self.take_register(arena),
            ),
            OperationElement::RegisterArray(kind) => OperationElementRepr::RegisterArray(
                kind,
                self.take_registers(arena),
            ),
            OperationElement::Offset => OperationElementRepr::Offset(self.take_offset(arena)),
            OperationElement::OffsetArray(kind) => OperationElementRepr::OffsetArray(
                kind,
                self.take_offsets(arena),
            ),
            OperationElement::Number => OperationElementRepr::Number(self.take_number(arena)),
            OperationElement::OptionalNumber => OperationElementRepr::OptionalNumber(
                self.take_optional_number(arena),
            ),
            OperationElement::NumberArray(kind) => OperationElementRepr::NumberArray(
                kind,
                NumberArrayKind::Dense,
                self.take_numbers(arena),
            ),
            OperationElement::PadNumberArray(kind) => OperationElementRepr::NumberArray(
                kind,
                NumberArrayKind::Padded,
                self.take_numbers(arena),
            ),
            OperationElement::BitmaskNumberArray => {
                let mask = self.take_u8(arena);
                let numbers = self.take_numbers(arena);
                OperationElementRepr::BitmaskNumberArray(mask, numbers)
            },
            OperationElement::String(kind) => OperationElementRepr::String(
                kind,
                self.take_string(arena),
            ),
            OperationElement::StringArray(kind) => OperationElementRepr::StringArray(
                kind,
                self.take_string_array(arena),
            ),
            OperationElement::HiguSuiWipeArg => {
                let b1 = self.take_u8(arena);
                let b2 = self.take_u8(arena);
                let numbers = self.take_numbers(arena);
                OperationElementRepr::HiguSuiWipeArg(b1, b2, numbers)
            },
        }
    }

    fn take_u8(&mut self, arena: &OperationArena) -> (r: u8)
        requires
            position_fits(arena@, old(self)@),
            old(self).u8s < arena.u8s@.len(),
        ensures
            r == arena.u8s@[old(self).u8s as int],
            final(self)@ == (PositionView { u8s: old(self)@.u8s + 1, ..old(self)@ }),
    {
        let res = arena.u8s[self.u8s as usize];
        self.u8s = self.u8s + 1;
        res
    }

    fn take_u16(&mut self, arena: &OperationArena) -> (r: u16)
        requires
            position_fits(arena@, old(self)@),
            old(self).u16s < arena.u16s@.len(),
        ensures
            r == arena.u16s@[old(self).u16s as int],
            final(self)@ == (PositionView { u16s: old(self)@.u16s + 1, ..old(self)@ }),
    {
        let res = arena.u16s[self.u16s as usize];
        self.u16s = self.u16s + 1;
        res
    }

    fn take_u32(&mut self, arena: &OperationArena) -> (r: u32)
        requires
            position_fits(arena@, old(self)@),
            old(self).u32s < arena.u32s@.len(),
        ensures
            r == arena.u32s@[old(self).u32s as int],
            final(self)@ == (PositionView { u32s: old(self)@.u32s + 1, ..old(self)@ }),
    {
        let res = arena.u32s[self.u32s as usize];
        self.u32s = self.u32s + 1;
        res
    }

    fn take_register(&mut self, arena: &OperationArena) -> (r: Register)
        requires
            position_fits(arena@, old(self)@),
            old(self).registers < arena.registers@.len(),
        ensures
            r == arena.registers@[old(self).registers as int],
            final(self)@ == (PositionView { registers: old(self)@.registers + 1, ..old(self)@ }),
    {
        let res = arena.registers[self.registers as usize];
        self.registers = self.registers + 1;
        res
    }

    fn take_registers<'a>(&mut self, arena: &'a OperationArena) -> (r: &'a [Register])
        requires
            position_fits(arena@, old(self)@),
            run_available(
                arena@.lengths,
                old(self)@.lengths,
                arena@.registers.len() as int,
                old(self)@.registers,
            ),
        ensures
            ({
                let p = old(self)@;
                let n = arena@.lengths[p.lengths] as int;
                &&& r@ == arena@.registers.subrange(p.registers, p.registers + n)
                &&& final(self)@ == (PositionView {
                    registers: p.registers + n,
                    lengths: p.lengths + 1,
                    ..p
                })
            }),
    {
        let count = self.take_length(arena);
        let res = vstd::slice::slice_subrange(arena.registers.as_slice(), self.registers as usize, self.registers as usize + count as usize);
        self.registers = self.registers + count as u32;
        res
    }

    fn take_offset(&mut self, arena: &OperationArena) -> (r: Offset)
        requires
            position_fits(arena@, old(self)@),
            old(self).offsets < arena.offsets@.len(),
        ensures
            r == arena.offsets@[old(self).offsets as int],
            final(self)@ == (PositionView { offsets: old(self)@.offsets + 1, ..old(self)@ }),
    {
        let res = arena.offsets[self.offsets as usize];
        self.offsets = self.offsets + 1;
        res
    }

    fn take_offsets<'a>(&mut self, arena: &'a OperationArena) -> (r: &'a [Offset])
        requires
            position_fits(arena@, old(self)@),
            run_available(
                arena@.lengths,
                old(self)@.lengths,
                arena@.offsets.len() as int,
                old(self)@.offsets,
            ),
        ensures
            ({
                let p = old(self)@;
                let n = arena@.lengths[p.lengths] as int;
                &&& r@ == arena@.offsets.subrange(p.offsets, p.offsets + n)
                &&& final(self)@ == (PositionView {
                    offsets: p.offsets + n,
                    lengths: p.lengths + 1,
                    ..p
                })
            }),
    {
        let count = self.take_length(arena);
        let res = vstd::slice::slice_subrange(arena.offsets.as_slice(), self.offsets as usize, self.offsets as usize + count as usize);
        self.offsets = self.offsets + count as u32;
        res
    }

    fn take_number(&mut self, arena: &OperationArena) -> (r: Number)
        requires
            position_fits(arena@, old(self)@),
            old(self).numbers < arena.numbers@.len(),
        ensures
            r == arena.numbers@[old(self).numbers as int],
            final(self)@ == (PositionView { numbers: old(self)@.numbers + 1, ..old(self)@ }),
    {
        let res = arena.numbers[self.numbers as usize];
        self.numbers = self.numbers + 1;
        res
    }

    fn take_numbers<'a>(&mut self, arena: &'a OperationArena) -> (r: &'a [Number])
        requires
            position_fits(arena@, old(self)@),
            run_available(
                arena@.lengths,
                old(self)@.lengths,
                arena@.numbers.len() as int,
                old(self)@.numbers,
            ),
        ensures
            ({
                let p = old(self)@;
                let n = arena@.lengths[p.lengths] as int;
                &&& r@ == arena@.numbers.subrange(p.numbers, p.numbers + n)
                &&& final(self)@ == (PositionView {
                    numbers: p.numbers + n,
                    lengths: p.lengths + 1,
                    ..p
                })
            }),
    {
        let count = self.take_length(arena);
        let res = vstd::slice::slice_subrange(arena.numbers.as_slice(), self.numbers as usize, self.numbers as usize + count as usize);
        self.numbers = self.numbers + count as u32;
        res
    }

    fn take_string<'snr>(&mut self, arena: &OperationArena<'snr>) -> (r: &'snr [u8])
        requires
            position_fits(arena@, old(self)@),
            old(self).strings < arena.strings@.len(),
        ensures
            r@ == arena@.strings[old(self).strings as int],
            final(self)@ == (PositionView { strings: old(self)@.strings + 1, ..old(self)@ }),
    {
        let res = arena.strings[self.strings as usize];
        self.strings = self.strings + 1;
        res
    }

    fn take_string_array<'snr>(&mut self, arena: &OperationArena<'snr>) -> (r: &'snr [u8])
        requires
            position_fits(arena@, old(self)@),
            old(self).string_arrays < arena.string_arrays@.len(),
        ensures
            r@ == arena@.string_arrays[old(self).string_arrays as int],
            final(self)@ == (PositionView {
                string_arrays: old(self)@.string_arrays + 1,
                ..old(self)@
            }),
    {
        let res = arena.string_arrays[self.string_arrays as usize];
        self.string_arrays = self.string_arrays + 1;
        res
    }

    fn take_length(&mut self, arena: &OperationArena) -> (r: u16)
        requires
            position_fits(arena@, old(self)@),
            old(self).lengths < arena.lengths@.len(),
        ensures
            r == arena.lengths@[old(self).lengths as int],
            final(self)@ == (PositionView { lengths: old(self)@.lengths + 1, ..old(self)@ }),
    {
        let res = arena.lengths[self.lengths as usize];
        self.lengths = self.lengths + 1;
        res
    }

    fn take_expression<'a>(&mut self, arena: &'a OperationArena) -> (r: (&'a [u8], &'a [Number]))
        requires
            position_fits(arena@, old(self)@),
            element_available(arena@, old(self)@, OperationElement::Expression),
        ensures
            ({
                let p = old(self)@;
                let n1 = arena@.lengths[p.lengths] as int;
                let n2 = arena@.lengths[p.lengths + 1] as int;
                &&& r.0@ == arena@.u8s.subrange(p.u8s, p.u8s + n1)
                &&& r.1@ == arena@.numbers.subrange(p.numbers, p.numbers + n2)
                &&& final(self)@ == (PositionView {
                    u8s: p.u8s + n1,
                    numbers: p.numbers + n2,
                    lengths: p.lengths + 2,
                    ..p
                })
            }),
    {
        let count = self.take_length(arena);
        let expressions = vstd::slice::slice_subrange(arena.u8s.as_slice(), self.u8s as usize, self.u8s as usize + count as usize);
        self.u8s = self.u8s + count as u32;
        let numbers = self.take_numbers(arena);
        (expressions, numbers)
    }

    fn take_optional_number(&mut self, arena: &OperationArena) -> (r: Option<Number>)
        requires
            position_fits(arena@, old(self)@),
            old(self).numbers < arena.numbers@.len(),
        ensures
            r == (if arena.numbers@[old(self).numbers as int] == u32::MAX {
                None
            } else {
                Some(arena.numbers@[old(self).numbers as int])
            }),
            final(self)@ == (PositionView { numbers: old(self)@.numbers + 1, ..old(self)@ }),
    {
        let number = self.take_number(arena);
        if number == u32::MAX {
            None
        } else {
            Some(number)
        }
    }
}


/// The elements of an operation read in schema order, one after the other.
pub struct OperationElementReprIter<'a, 'snr> {
    elements: &'a [OperationElement],
    index: usize,
    arena: &'a OperationArena<'snr>,
    position: OperationArenaPosition,
}

impl<'a, 'snr> OperationElementReprIter<'a, 'snr> {
    /// The elements still to be read.
    pub closed spec fn remaining(&self) -> Seq<OperationElement> {
        if self.index <= self.elements@.len() {
            self.elements@.skip(self.index as int)
        } else {
            Seq::empty()
        }
    }

    /// The arena read from.
    pub closed spec fn arena_view(&self) -> ArenaView {
        self.arena@
    }

    /// The current position in the arena.
    pub closed spec fn position_view(&self) -> PositionView {
        self.position@
    }

    pub fn new(elements: &'a [OperationElement], arena: &'a OperationArena<'snr>) -> (r: Self)
        ensures
            r.remaining() == elements@,
            r.arena_view() == arena@,
            r.position_view() == position_start(),
    {
        Self { elements, index: 0, arena, position: OperationArenaPosition::new() }
    }

    /// The next element, or `None` when all have been read.
    pub fn next(&mut self) -> (r: Option<OperationElementRepr<'a, 'snr>>)
        requires
            old(self).remaining().len() > 0 ==> position_fits(
                old(self).arena_view(),
                old(self).position_view(),
            ) && element_available(
                old(self).arena_view(),
                old(self).position_view(),
                old(self).remaining()[0],
            ),
        ensures
            final(self).arena_view() == old(self).arena_view(),
            old(self).remaining().len() == 0 ==> r is None && final(self).remaining()
                == old(self).remaining() && final(self).position_view()
                == old(self).position_view(),
            old(self).remaining().len() > 0 ==> ({
                let (v, p) = element_at(
                    old(self).arena_view(),
                    old(self).position_view(),
                    old(self).remaining()[0],
                );
                &&& r matches Some(e) && e@ == v
                &&& final(self).position_view() == p
                &&& final(self).remaining() == old(self).remaining().drop_first()
            }),
    {
        if self.index >= self.elements.len() {
            return None;
        }
        let element = self.elements[self.index];
        self.index = self.index + 1;
        let r = self.position.take_element(self.arena, element);
        assert(self.elements@.skip(self.index as int) =~= old(self).remaining().drop_first());
        Some(r)
    }
}

impl<'snr> OperationArena<'snr> {
    /// Iterates over the elements of `schema`, reading their values from this arena.
    pub fn iter<'a>(&'a self, schema: &OperationSchema<'a>) -> (r: OperationElementReprIter<
        'a,
        'snr,
    >)
        ensures
            r.remaining() == schema.elements@,
            r.arena_view() == self@,
            r.position_view() == position_start(),
    {
        OperationElementReprIter::new(schema.elements, self)
    }
}

} // verus!
