//! Listening to the strings of a script, in the order they appear.
use vstd::prelude::*;

use crate::digits::{hex_fixed, push_hex8};
use crate::snr::reactor::{any_source_kind, any_source_subindex, AnyStringSource};
use crate::versions::AnyStringKind;

verus! {

/// Receives each string of a script with the offset of its operation and its source.
pub trait StringTraceListener: Sized {
    /// Whether another string can be received.
    spec fn can_listen(&self) -> bool;

    fn on_string(&mut self, instr_offset: u32, source: AnyStringSource, s: &str)
        requires
            old(self).can_listen(),
    ;
}

/// One row of a string table: its index, the offset of its operation (as `0x` and eight
/// hexadecimal digits), its source kind and subindex, the string, and no translation yet.
pub struct TraceRecord {
    pub index: u32,
    pub offset: String,
    pub source: AnyStringKind,
    pub source_subindex: u32,
    pub s: String,
    pub translated: Option<String>,
}

/// Builds the rows of a string table, numbering the strings in order.
pub struct CsvTraceListener {
    records: Vec<TraceRecord>,
    record_idx: u32,
}

/// Whether `r` is the row of string number `index`, found in the operation at `offset`.
pub open spec fn is_record(r: TraceRecord, index: u32, offset: u32, source: AnyStringSource, s: Seq<char>) -> bool {
    &&& r.index == index
    &&& r.offset@ == seq!['0', 'x'] + hex_fixed(offset as nat, 8)
    &&& r.source == any_source_kind(source)
    &&& r.source_subindex == any_source_subindex(source)
    &&& r.s@ == s
    &&& r.translated is None
}

impl CsvTraceListener {
    /// The number of strings seen.
    pub closed spec fn record_idx(&self) -> u32 {
        self.record_idx
    }

    /// The rows built so far.
    pub closed spec fn records(&self) -> Seq<TraceRecord> {
        self.records@
    }

    /// The rows built.
    pub fn into_records(self) -> (r: Vec<TraceRecord>)
        ensures
            r@ == self.records(),
    {
        self.records
    }

    pub fn new() -> (r: Self)
        ensures
            r.records().len() == 0,
            r.record_idx() == 0,
    {
        Self { records: Vec::new(), record_idx: 0 }
    }

    /// Adds the row of the next string.
    pub fn add(&mut self, instr_offset: u32, source: AnyStringSource, s: &str)
        requires
            old(self).record_idx() < u32::MAX,
        ensures
            final(self).record_idx() == old(self).record_idx() + 1,
            final(self).records().len() == old(self).records().len() + 1,
            forall|i: int| 0 <= i < old(self).records().len() ==> final(self).records()[i] == old(self).records()[i],
            is_record(final(self).records().last(), old(self).record_idx(), instr_offset, source, s@),
    {
        let mut offset = String::new();
        let prefix = "0x";
        proof {
            reveal_strlit("0x");
        }
        offset.append(prefix);
        assert(offset@ =~= seq!['0', 'x']);
        push_hex8(&mut offset, instr_offset);
        let record = TraceRecord {
            index: self.record_idx,
            offset,
            source: source.kind(),
            source_subindex: source.subindex(),
            s: s.to_owned(),
            translated: None,
        };
        self.records.push(record);
        self.record_idx = self.record_idx + 1;
    }
}

impl StringTraceListener for CsvTraceListener {
    open spec fn can_listen(&self) -> bool {
        self.record_idx() < u32::MAX
    }

    /// Adds the row of the next string.
    fn on_string(&mut self, instr_offset: u32, source: AnyStringSource, s: &str)
        ensures
            final(self).record_idx() == old(self).record_idx() + 1,
            final(self).records().len() == old(self).records().len() + 1,
            forall|i: int| 0 <= i < old(self).records().len() ==> final(self).records()[i] == old(self).records()[i],
            is_record(final(self).records().last(), old(self).record_idx(), instr_offset, source, s@),
    {
        self.add(instr_offset, source, s);
    }
}

} // verus!
