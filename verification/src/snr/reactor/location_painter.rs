//! A debugging aid that records, for each byte of a script, what kind of value it belongs to.
use vstd::prelude::*;

use std::collections::BTreeSet;

use crate::le::le_value;
use crate::snr::reactor::{StringArraySource, StringSource};
use crate::snr::reader::Reader;

verus! {

/// What kind of value a byte of the script was read as.
#[derive(Debug, Clone, Copy, PartialEq, Eq, Structural)]
pub enum LocationColor {
    Unmarked,
    Byte,
    Short,
    Uint,
    Reg,
    Offset,
    U8String,
    U16String,
    U8StringArray,
    U16StringArray,
}

impl Default for LocationColor {
    fn default() -> (r: Self)
        ensures
            r == LocationColor::Unmarked,
    {
        LocationColor::Unmarked
    }
}

/// `colors` with the bytes `start..end` given `color`.
pub open spec fn painted(colors: Seq<LocationColor>, start: int, end: int, color: LocationColor) -> Seq<
    LocationColor,
> {
    Seq::new(colors.len(), |i: int| if start <= i < end { color } else { colors[i] })
}

/// Where offsets were found in a script, and where the operations they point at start.
pub struct OffsetLocatorResults {
    pub offset_positions: BTreeSet<u32>,
    pub instruction_offsets: BTreeSet<u32>,
}

/// Reads a script and colors each byte it reads by the kind of value read.
pub struct LocationPainterReactor<'a> {
    reader: Reader<'a>,
    colors: Vec<LocationColor>,
}

impl<'a> LocationPainterReactor<'a> {
    /// The reader of the script.
    pub closed spec fn reader(&self) -> Reader<'a> {
        self.reader
    }

    /// The color of each byte of the script.
    pub closed spec fn colors(&self) -> Seq<LocationColor> {
        self.colors@
    }

    /// There is one color per byte, the script has 32-bit positions and the reader is
    /// inside it.
    pub open spec fn wf(&self) -> bool {
        &&& self.colors().len() == self.reader().bytes().len()
        &&& self.reader().bytes().len() <= u32::MAX
        &&& 0 <= self.reader().pos() <= self.reader().bytes().len()
    }

    /// Starts with every byte unmarked.
    pub fn new(reader: Reader<'a>) -> (r: Self)
        requires
            reader.bytes().len() <= u32::MAX,
            0 <= reader.pos() <= reader.bytes().len(),
        ensures
            r.wf(),
            r.reader() == reader,
            r.colors() == Seq::new(reader.bytes().len(), |_i: int| LocationColor::Unmarked),
    {
        let size = reader.size();
        let colors = vec![LocationColor::Unmarked; size];
        assert(colors@ =~= Seq::new(reader.bytes().len(), |_i: int| LocationColor::Unmarked));
        Self { reader, colors }
    }

    /// The color of each byte.
    pub fn finish(self) -> (r: Vec<LocationColor>)
        ensures
            r@ == self.colors(),
    {
        self.colors
    }

    /// Gives the bytes `start..end` the color `color`.
    fn mark(&mut self, color: LocationColor, start: u32, end: u32)
        requires
            start <= end <= old(self).colors().len(),
        ensures
            final(self).colors() == painted(old(self).colors(), start as int, end as int, color),
            final(self).reader() == old(self).reader(),
    {
        let ghost before = self.colors@;
        let ghost reader = self.reader;
        let mut i = start;
        while i < end
            invariant
                self.reader == reader,
                start <= i <= end,
                end <= before.len(),
                self.colors@ =~= painted(before, start as int, i as int, color),
            decreases end - i,
        {
            self.colors.set(i as usize, color);
            i = i + 1;
        }
    }

    /// Nothing is painted where an operation starts.
    pub fn instr_start(&mut self)
        ensures
            *final(self) == *old(self),
    {
    }

    /// Nothing is painted where an operation ends.
    pub fn instr_end(&mut self)
        ensures
            *final(self) == *old(self),
    {
    }

    /// Whether another operation follows.
    pub fn has_instr(&self) -> (r: bool)
        requires
            self.wf(),
        ensures
            r == (self.reader().pos() + 16 < self.reader().bytes().len() || exists|i: int|
                self.reader().pos() <= i < self.reader().bytes().len() && self.reader().bytes()[i] != 0),
    {
        self.reader.has_instr()
    }

    /// The position of the next byte.
    pub fn in_location(&self) -> (r: u32)
        requires
            self.wf(),
        ensures
            r == self.reader().pos(),
    {
        self.reader.position()
    }

    /// Reads a byte.
    pub fn byte(&mut self) -> (r: u8)
        requires
            old(self).wf(),
            old(self).reader().has(1),
        ensures
            final(self).wf(),
            r == old(self).reader().bytes()[old(self).reader().pos()],
            final(self).reader().advanced(old(self).reader(), 1),
            final(self).colors() == painted(
                old(self).colors(),
                old(self).reader().pos(),
                old(self).reader().pos() + 1,
                LocationColor::Byte,
            ),
    {
        let start = self.reader.position();
        let r = self.reader.take_u8();
        let end = self.reader.position();
        self.mark(LocationColor::Byte, start, end);
        r
    }

    /// Reads a 16-bit value.
    pub fn short(&mut self) -> (r: u16)
        requires
            old(self).wf(),
            old(self).reader().has(2),
        ensures
            final(self).wf(),
            r == le_value(
                old(self).reader().bytes().subrange(old(self).reader().pos(), old(self).reader().pos() + 2),
            ),
            final(self).reader().advanced(old(self).reader(), 2),
            final(self).colors() == painted(
                old(self).colors(),
                old(self).reader().pos(),
                old(self).reader().pos() + 2,
                LocationColor::Short,
            ),
    {
        let start = self.reader.position();
        let r = self.reader.take_u16();
        let end = self.reader.position();
        self.mark(LocationColor::Short, start, end);
        r
    }

    /// Reads a 32-bit value.
    pub fn uint(&mut self) -> (r: u32)
        requires
            old(self).wf(),
            old(self).reader().has(4),
        ensures
            final(self).wf(),
            r == le_value(
                old(self).reader().bytes().subrange(old(self).reader().pos(), old(self).reader().pos() + 4),
            ),
            final(self).reader().advanced(old(self).reader(), 4),
            final(self).colors() == painted(
                old(self).colors(),
                old(self).reader().pos(),
                old(self).reader().pos() + 4,
                LocationColor::Uint,
            ),
    {
        let start = self.reader.position();
        let r = self.reader.take_u32();
        let end = self.reader.position();
        self.mark(LocationColor::Uint, start, end);
        r
    }

    /// Reads a register.
    pub fn reg(&mut self)
        requires
            old(self).wf(),
            old(self).reader().has(2),
        ensures
            final(self).wf(),
            final(self).reader().advanced(old(self).reader(), 2),
            final(self).colors() == painted(
                old(self).colors(),
                old(self).reader().pos(),
                old(self).reader().pos() + 2,
                LocationColor::Reg,
            ),
    {
        let start = self.reader.position();
        let _r = self.reader.take_reg();
        let end = self.reader.position();
        self.mark(LocationColor::Reg, start, end);
    }

    /// Reads an offset.
    pub fn offset(&mut self)
        requires
            old(self).wf(),
            old(self).reader().has(4),
        ensures
            final(self).wf(),
            final(self).reader().advanced(old(self).reader(), 4),
            final(self).colors() == painted(
                old(self).colors(),
                old(self).reader().pos(),
                old(self).reader().pos() + 4,
                LocationColor::Offset,
            ),
    {
        let start = self.reader.position();
        let _r = self.reader.take_offset();
        let end = self.reader.position();
        self.mark(LocationColor::Offset, start, end);
    }

    /// Reads a string with a one-byte length.
    pub fn u8string(&mut self, _fixup: bool, _source: StringSource)
        requires
            old(self).wf(),
            old(self).reader().has(1),
            old(self).reader().has(1 + old(self).reader().bytes()[old(self).reader().pos()]),
        ensures
            final(self).wf(),
            final(self).reader().advanced(
                old(self).reader(),
                1 + old(self).reader().bytes()[old(self).reader().pos()],
            ),
            final(self).colors() == painted(
                old(self).colors(),
                old(self).reader().pos(),
                final(self).reader().pos(),
                LocationColor::U8String,
            ),
    {
        let start = self.reader.position();
        let _r = self.reader.take_u8string();
        let end = self.reader.position();
        self.mark(LocationColor::U8String, start, end);
    }

    /// Reads a string with a two-byte length.
    pub fn u16string(&mut self, _fixup: bool, _source: StringSource)
        requires
            old(self).wf(),
            old(self).reader().has(2),
            old(self).reader().has(
                (2 + le_value(
                    old(self).reader().bytes().subrange(old(self).reader().pos(), old(self).reader().pos() + 2),
                )) as int,
            ),
        ensures
            final(self).wf(),
            final(self).reader().advanced(
                old(self).reader(),
                (2 + le_value(
                    old(self).reader().bytes().subrange(old(self).reader().pos(), old(self).reader().pos() + 2),
                )) as int,
            ),
            final(self).colors() == painted(
                old(self).colors(),
                old(self).reader().pos(),
                final(self).reader().pos(),
                LocationColor::U16String,
            ),
    {
        let start = self.reader.position();
        let _r = self.reader.take_u16string();
        let end = self.reader.position();
        self.mark(LocationColor::U16String, start, end);
    }

    /// Reads a string array with a one-byte length.
    pub fn u8string_array(&mut self, _fixup: bool, _source: StringArraySource)
        requires
            old(self).wf(),
            old(self).reader().has(1),
            old(self).reader().has(1 + old(self).reader().bytes()[old(self).reader().pos()]),
        ensures
            final(self).wf(),
            final(self).reader().advanced(
                old(self).reader(),
                1 + old(self).reader().bytes()[old(self).reader().pos()],
            ),
            final(self).colors() == painted(
                old(self).colors(),
                old(self).reader().pos(),
                final(self).reader().pos(),
                LocationColor::U8StringArray,
            ),
    {
        let start = self.reader.position();
        let _r = self.reader.take_u8string_array();
        let end = self.reader.position();
        self.mark(LocationColor::U8StringArray, start, end);
    }

    /// Reads a string array with a two-byte length.
    pub fn u16string_array(&mut self, _fixup: bool, _source: StringArraySource)
        requires
            old(self).wf(),
            old(self).reader().has(2),
            old(self).reader().has(
                (2 + le_value(
                    old(self).reader().bytes().subrange(old(self).reader().pos(), old(self).reader().pos() + 2),
                )) as int,
            ),
        ensures
            final(self).wf(),
            final(self).reader().advanced(
                old(self).reader(),
                (2 + le_value(
                    old(self).reader().bytes().subrange(old(self).reader().pos(), old(self).reader().pos() + 2),
                )) as int,
            ),
            final(self).colors() == painted(
                old(self).colors(),
                old(self).reader().pos(),
                final(self).reader().pos(),
                LocationColor::U16StringArray,
            ),
    {
        let start = self.reader.position();
        let _r = self.reader.take_u16string_array();
        let end = self.reader.position();
        self.mark(LocationColor::U16StringArray, start, end);
    }
}

} // verus!
