//! Rewriting a script in two passes: the first lays the rewritten operations out and
//! records where each one lands, the second writes them with their offsets moved.
use vstd::prelude::*;

use std::collections::HashMap;

use crate::le::le_bytes;
use crate::snr::operation::arena::Offset;
use crate::snr::operation::repr::{ElementValue, OperationElementRepr};
use crate::snr::operation::serialize::{
    encode_element, encode_length, encode_u32s, element_writable, length_fits, InstructionSerializeContext,
};
use crate::snr::reader::length_len;
use crate::snr::writer::{pad16, wrote, zeros, CountingWriter, RealWriter, Writer};
use crate::versions::NumberStyle;

pub mod csv_rewriter;
pub mod noop_rewriter;
pub mod passes;
pub mod rewrite_reactor;
pub mod stringer;
pub mod x_rewriter;

verus! {

broadcast use vstd::std_specs::hash::group_hash_axioms;

/// A pass of a rewrite that emits bytes; implementors say how bytes are written, where
/// offsets go and what happens at the start of an operation.
pub trait RewriteMode: Sized {
    /// The bytes emitted so far.
    spec fn emitted(&self) -> Seq<u8>;

    fn write(&mut self, data: &[u8])
        ensures
            final(self).emitted() == old(self).emitted() + data@,
    ;

    /// Emits one byte and gives it back.
    fn byte(&mut self, b: u8) -> (r: u8)
        ensures
            r == b,
            final(self).emitted() == old(self).emitted() + seq![b],
    {
        let a = [b];
        assert(a@ =~= seq![b]);
        self.write(&a);
        b
    }

    /// Emits a 16-bit value, little-endian, and gives it back.
    fn short(&mut self, s: u16) -> (r: u16)
        ensures
            r == s,
            final(self).emitted() == old(self).emitted() + le_bytes(s as nat, 2),
    {
        let a = [(s % 256) as u8, (s / 256) as u8];
        proof {
            reveal_with_fuel(le_bytes, 3);
        }
        assert(a@ =~= le_bytes(s as nat, 2));
        self.write(&a);
        s
    }

    /// Emits a 32-bit value, little-endian, and gives it back.
    fn uint(&mut self, s: u32) -> (r: u32)
        ensures
            r == s,
            final(self).emitted() == old(self).emitted() + le_bytes(s as nat, 4),
    {
        let a = [(s % 256) as u8, (s / 256 % 256) as u8, (s / 65536 % 256) as u8, (s / 16777216) as u8];
        proof {
            reveal_with_fuel(le_bytes, 5);
            assert(s / 256 / 256 == s / 65536);
            assert(s / 256 / 256 / 256 == s / 16777216);
        }
        assert(a@ =~= le_bytes(s as nat, 4));
        self.write(&a);
        s
    }

    /// Emits a register, as a 16-bit value.
    fn reg(&mut self, r: u16)
        ensures
            final(self).emitted() == old(self).emitted() + le_bytes(r as nat, 2),
    {
        self.short(r);
    }

    fn offset(&mut self, o: u32);

    fn instr_start(&mut self, in_offset: u32);
}

/// The map from each key of `first` to the value that `second` gives its value.
pub open spec fn compose(first: Map<u32, u32>, second: Map<u32, u32>) -> Map<u32, u32> {
    Map::new(|k: u32| first.contains_key(k), |k: u32| second[first[k]])
}

/// Collects, during the first pass, the index of the operation at each input offset and
/// the output position of each operation index.
pub struct OffsetMapBuilder {
    orig_to_idx: HashMap<u32, u32>,
    idx_to_out: HashMap<u32, u32>,
}

impl OffsetMapBuilder {
    /// The operation index at each input offset.
    pub closed spec fn orig_to_idx(&self) -> Map<u32, u32> {
        self.orig_to_idx@
    }

    /// The output position of each operation index.
    pub closed spec fn idx_to_out(&self) -> Map<u32, u32> {
        self.idx_to_out@
    }

    /// Every recorded operation index has an output position.
    pub open spec fn wf(&self) -> bool {
        forall|o: u32| #[trigger]
            self.orig_to_idx().contains_key(o) ==> self.idx_to_out().contains_key(self.orig_to_idx()[o])
    }

    pub fn new() -> (r: Self)
        ensures
            r.orig_to_idx() == Map::<u32, u32>::empty(),
            r.idx_to_out() == Map::<u32, u32>::empty(),
            r.wf(),
    {
        Self { orig_to_idx: HashMap::new(), idx_to_out: HashMap::new() }
    }

    /// The map from each input offset to the output position of its operation.
    pub fn build(self) -> (r: OffsetMap)
        requires
            self.wf(),
        ensures
            r@ == compose(self.orig_to_idx(), self.idx_to_out()),
    {
        let mut map = OffsetMap::new();
        for (orig, idx) in it: self.orig_to_idx.iter()
            invariant
                self.wf(),
                forall|k: u32| #[trigger]
                    map@.contains_key(k) ==> self.orig_to_idx@.contains_key(k) && map@[k]
                        == self.idx_to_out@[self.orig_to_idx@[k]],
                forall|j: int|
                    0 <= j < it.seq().len() ==> self.orig_to_idx@.contains_key(*(#[trigger] it.seq()[j]).0)
                        && self.orig_to_idx@[*it.seq()[j].0] == *it.seq()[j].1,
                forall|k: u32| #[trigger]
                    self.orig_to_idx@.contains_key(k) ==> map@.contains_key(k) || exists|j: int|
                        it.index() <= j < it.seq().len() && *(#[trigger] it.seq()[j]).0 == k,
        {
            let ghost old_map = map@;
            let ghost i = it.index();
            assert(*it.seq()[i].0 == *orig);
            assert(*it.seq()[i].1 == *idx);
            assert(self.orig_to_idx().contains_key(*orig));
            match self.idx_to_out.get(idx) {
                Some(out) => {
                    map.map.insert(*orig, *out);
                },
                None => {
                    assert(false);
                },
            }
            assert forall|k: u32| #[trigger] self.orig_to_idx@.contains_key(k) implies map@.contains_key(k)
                || exists|j: int| i + 1 <= j < it.seq().len() && *(#[trigger] it.seq()[j]).0 == k by {
                if !map@.contains_key(k) {
                    assert(!old_map.contains_key(k));
                    let j = choose|j: int| i <= j < it.seq().len() && *(#[trigger] it.seq()[j]).0 == k;
                    assert(j != i);
                }
            }
        }
        proof {
            assert(map@ =~= compose(self.orig_to_idx(), self.idx_to_out()));
        }
        map
    }
}

/// The output position of each input offset at which an operation starts.
pub struct OffsetMap {
    map: HashMap<u32, u32>,
}

impl View for OffsetMap {
    type V = Map<u32, u32>;

    closed spec fn view(&self) -> Map<u32, u32> {
        self.map@
    }
}

impl OffsetMap {
    pub fn new() -> (r: Self)
        ensures
            r@ == Map::<u32, u32>::empty(),
    {
        Self { map: HashMap::new() }
    }

    pub fn get(&self, in_offset: u32) -> (r: Option<u32>)
        ensures
            r == (if self@.contains_key(in_offset) {
                Some(self@[in_offset])
            } else {
                None
            }),
    {
        match self.map.get(&in_offset) {
            Some(v) => Some(*v),
            None => None,
        }
    }
}

/// An element with every offset replaced by its image under `m`.
pub open spec fn remap_offsets(v: ElementValue, m: Map<u32, u32>) -> ElementValue {
    match v {
        ElementValue::Offset(x) => ElementValue::Offset(m[x]),
        ElementValue::OffsetArray(k, xs) => ElementValue::OffsetArray(k, xs.map_values(|x: u32| m[x])),
        _ => v,
    }
}

/// Whether every offset of an element is a key of `m`.
pub open spec fn offsets_mapped(v: ElementValue, m: Map<u32, u32>) -> bool {
    match v {
        ElementValue::Offset(x) => m.contains_key(x),
        ElementValue::OffsetArray(_, xs) => forall|i: int| 0 <= i < xs.len() ==> m.contains_key(#[trigger] xs[i]),
        _ => true,
    }
}

/// Four bytes per value.
proof fn lemma_encode_u32s_len(values: Seq<u32>)
    ensures
        encode_u32s(values).len() == 4 * values.len(),
    decreases values.len(),
{
    if values.len() > 0 {
        lemma_encode_u32s_len(values.drop_last());
        crate::le::lemma_le_bytes_len(values.last() as nat, 4);
    }
}

/// Moving the offsets of an element changes neither its size nor whether it can be
/// written, which is what lets the first pass lay the second one out.
pub proof fn lemma_remap_offsets_same_size(style: NumberStyle, v: ElementValue, m: Map<u32, u32>)
    ensures
        encode_element(style, remap_offsets(v, m)).len() == encode_element(style, v).len(),
        element_writable(style, remap_offsets(v, m)) == element_writable(style, v),
{
    match v {
        ElementValue::Offset(x) => {
            crate::le::lemma_le_bytes_len(x as nat, 4);
            crate::le::lemma_le_bytes_len(m[x] as nat, 4);
        },
        ElementValue::OffsetArray(k, xs) => {
            lemma_encode_u32s_len(xs);
            lemma_encode_u32s_len(xs.map_values(|x: u32| m[x]));
        },
        _ => {},
    }
}

/// The first pass: counts the bytes of the rewritten operations and records where each
/// operation starts.
pub struct BuildOffsetMapMode {
    builder: OffsetMapBuilder,
    serializing: InstructionSerializeContext<CountingWriter>,
    instr_index: u32,
}

impl BuildOffsetMapMode {
    /// The offsets recorded so far.
    pub closed spec fn builder(&self) -> OffsetMapBuilder {
        self.builder
    }

    /// The serializer that counts the output.
    pub closed spec fn serializing(&self) -> InstructionSerializeContext<CountingWriter> {
        self.serializing
    }

    /// The index of the next operation.
    pub closed spec fn instr_index(&self) -> u32 {
        self.instr_index
    }

    /// The output position of the next byte.
    pub open spec fn out_position(&self) -> int {
        self.serializing().writer_view().spec_position()
    }

    /// Starts the first pass with the output at `initial_out_position`.
    pub fn new(number_style: NumberStyle, initial_out_position: u32) -> (r: Self)
        ensures
            r.builder().orig_to_idx() == Map::<u32, u32>::empty(),
            r.builder().idx_to_out() == Map::<u32, u32>::empty(),
            r.builder().wf(),
            r.serializing().style() == number_style,
            r.out_position() == initial_out_position,
            r.serializing().room() == u32::MAX - initial_out_position,
            r.instr_index() == 0,
    {
        Self {
            builder: OffsetMapBuilder::new(),
            serializing: InstructionSerializeContext::new(number_style, CountingWriter::new(initial_out_position)),
            instr_index: 0,
        }
    }

    /// Records that the operation at `in_offset` starts at the current output position and
    /// counts its opcode byte.
    pub fn instr_start(&mut self, in_offset: u32, raw_opcode: u8)
        requires
            1 <= old(self).serializing().room(),
            old(self).instr_index() < u32::MAX,
            old(self).builder().wf(),
        ensures
            final(self).builder().orig_to_idx() == old(self).builder().orig_to_idx().insert(
                in_offset,
                old(self).instr_index(),
            ),
            final(self).builder().idx_to_out() == old(self).builder().idx_to_out().insert(
                old(self).instr_index(),
                old(self).out_position() as u32,
            ),
            final(self).builder().wf(),
            final(self).instr_index() == old(self).instr_index() + 1,
            InstructionSerializeContext::did_write(
                final(self).serializing(),
                old(self).serializing(),
                seq![raw_opcode],
            ),
    {
        let idx = self.instr_index;
        proof {
            self.serializing.writer_view().lemma_position_fits();
        }
        self.builder.orig_to_idx.insert(in_offset, idx);
        let position = self.serializing.writer_mut().position();
        self.builder.idx_to_out.insert(idx, position);
        self.serializing.put_u8(raw_opcode);
        self.instr_index = self.instr_index + 1;
        proof {
            let b = self.builder();
            let ob = old(self).builder();
            assert forall|o: u32| #[trigger] b.orig_to_idx().contains_key(o) implies b.idx_to_out().contains_key(
                b.orig_to_idx()[o],
            ) by {
                if o != in_offset {
                    assert(ob.orig_to_idx().contains_key(o));
                }
            }
        }
    }

    /// Counts one element.
    pub fn put_element(&mut self, element: &OperationElementRepr)
        requires
            element_writable(old(self).serializing().style(), element@),
            encode_element(old(self).serializing().style(), element@).len() <= old(self).serializing().room(),
        ensures
            final(self).builder() == old(self).builder(),
            final(self).instr_index() == old(self).instr_index(),
            InstructionSerializeContext::did_write(
                final(self).serializing(),
                old(self).serializing(),
                encode_element(old(self).serializing().style(), element@),
            ),
    {
        self.serializing.put_element(element);
    }

    /// Counts the padding that ends the script.
    pub fn end_of_stream(&mut self)
        requires
            0 <= old(self).out_position(),
            old(self).out_position() + pad16(old(self).out_position()) <= u32::MAX,
            pad16(old(self).out_position()) <= old(self).serializing().room(),
        ensures
            final(self).builder() == old(self).builder(),
            final(self).instr_index() == old(self).instr_index(),
            InstructionSerializeContext::did_write(
                final(self).serializing(),
                old(self).serializing(),
                zeros(pad16(old(self).out_position()) as nat),
            ),
    {
        self.serializing.writer_mut().pad_16();
    }

    /// The size the output reaches.
    pub fn output_size(&self) -> (r: u32)
        requires
            0 <= self.out_position() <= u32::MAX,
        ensures
            r == self.out_position(),
    {
        self.serializing.writer_ref().position()
    }

    /// Ends the first pass: the second pass writes to `buffer` with the offsets recorded here.
    pub fn into_emit(self, buffer: Vec<u8>) -> (r: EmitMode)
        requires
            self.builder().wf(),
        ensures
            r.map()@ == compose(self.builder().orig_to_idx(), self.builder().idx_to_out()),
            r.serializing().style() == self.serializing().style(),
            r.serializing().writer_view().written() == buffer@,
            r.serializing().room() == usize::MAX - buffer@.len(),
            r.serializing().writer_view().spec_position() == buffer@.len(),
    {
        let (number_style, _) = self.serializing.into_parts();
        EmitMode {
            map: self.builder.build(),
            serializing: InstructionSerializeContext::new(number_style, RealWriter::new(buffer)),
        }
    }
}

/// The second pass: writes the rewritten operations, moving each offset to the output
/// position of the operation it points at.
pub struct EmitMode {
    map: OffsetMap,
    serializing: InstructionSerializeContext<RealWriter>,
}

impl EmitMode {
    /// The offsets to move.
    pub closed spec fn map(&self) -> OffsetMap {
        self.map
    }

    /// The serializer that writes the output.
    pub closed spec fn serializing(&self) -> InstructionSerializeContext<RealWriter> {
        self.serializing
    }

    /// Writes the opcode byte of an operation.
    pub fn instr_start(&mut self, _in_offset: u32, raw_opcode: u8)
        requires
            1 <= old(self).serializing().room(),
        ensures
            final(self).map() == old(self).map(),
            InstructionSerializeContext::did_write(
                final(self).serializing(),
                old(self).serializing(),
                seq![raw_opcode],
            ),
    {
        self.serializing.put_u8(raw_opcode);
    }

    /// The output position of the operation at input offset `value`.
    fn mapped_offset(map: &OffsetMap, value: u32) -> (r: u32)
        requires
            map@.contains_key(value),
        ensures
            r == map@[value],
    {
        match map.get(value) {
            Some(mapped) => mapped,
            None => 0,
        }
    }

    /// Writes one element with its offsets moved; every offset must start an operation.
    pub fn put_element(&mut self, element: &OperationElementRepr)
        requires
            offsets_mapped(element@, old(self).map()@),
            element_writable(old(self).serializing().style(), element@),
            encode_element(old(self).serializing().style(), element@).len() <= old(self).serializing().room(),
        ensures
            final(self).map() == old(self).map(),
            InstructionSerializeContext::did_write(
                final(self).serializing(),
                old(self).serializing(),
                encode_element(old(self).serializing().style(), remap_offsets(element@, old(self).map()@)),
            ),
    {
        let ghost m = self.map@;
        let ghost old_map = self.map;
        let ghost style = self.serializing.style();
        proof {
            lemma_remap_offsets_same_size(style, element@, m);
        }
        match *element {
            OperationElementRepr::Offset(value) => {
                let mapped = Self::mapped_offset(&self.map, value);
                proof {
                    crate::le::lemma_le_bytes_len(value as nat, 4);
                    crate::le::lemma_le_bytes_len(mapped as nat, 4);
                }
                self.serializing.put_offset(mapped);
            },
            OperationElementRepr::OffsetArray(kind, values) => {
                let ghost before = self.serializing;
                let ghost mapped_all = values@.map_values(|x: u32| m[x]);
                proof {
                    lemma_encode_u32s_len(mapped_all);
                    crate::le::lemma_le_bytes_len(values@.len() as nat, length_len(kind));
                }
                self.serializing.put_length(kind, values.len());
                let ghost after_len = self.serializing;
                let mut i: usize = 0;
                while i < values.len()
                    invariant
                        i <= values@.len(),
                        self.map == old_map,
                        self.map@ == m,
                        self.serializing.style() == style,
                        forall|j: int| 0 <= j < values@.len() ==> m.contains_key(#[trigger] values@[j]),
                        mapped_all == values@.map_values(|x: u32| m[x]),
                        encode_u32s(mapped_all).len() == 4 * mapped_all.len(),
                        InstructionSerializeContext::did_write(after_len, before, encode_length(kind, values@.len() as nat)),
                        InstructionSerializeContext::did_write(self.serializing, after_len, encode_u32s(mapped_all.take(i as int))),
                        4 * (values@.len() - i) <= self.serializing.room(),
                    decreases values@.len() - i,
                {
                    let value = values[i];
                    let mapped = Self::mapped_offset(&self.map, value);
                    let ghost mid = self.serializing;
                    proof {
                        crate::le::lemma_le_bytes_len(mapped as nat, 4);
                        lemma_encode_u32s_len(mapped_all.take(i as int));
                    }
                    self.serializing.put_offset(mapped);
                    proof {
                        assert(mapped_all.take(i + 1).drop_last() =~= mapped_all.take(i as int));
                        assert(mapped_all.take(i + 1).last() == mapped);
                        assert(encode_u32s(mapped_all.take(i + 1)) == encode_u32s(mapped_all.take(i as int))
                            + le_bytes(mapped as nat, 4));
                        assert(after_len.writer_view().written() + encode_u32s(mapped_all.take(i + 1))
                            =~= after_len.writer_view().written() + encode_u32s(mapped_all.take(i as int))
                            + le_bytes(mapped as nat, 4));
                    }
                    i = i + 1;
                }
                proof {
                    assert(mapped_all.take(i as int) =~= mapped_all);
                    let l = encode_length(kind, values@.len() as nat);
                    assert(before.writer_view().written() + (l + encode_u32s(mapped_all)) =~= before.writer_view().written()
                        + l + encode_u32s(mapped_all));
                    assert(encode_element(style, remap_offsets(element@, m)) == l + encode_u32s(mapped_all));
                }
            },
            _ => self.serializing.put_element(element),
        }
    }

    /// Writes the padding that ends the script.
    pub fn end_of_stream(&mut self)
        requires
            0 <= old(self).serializing().writer_view().spec_position(),
            old(self).serializing().writer_view().spec_position() + pad16(
                old(self).serializing().writer_view().spec_position(),
            ) <= u32::MAX,
            pad16(old(self).serializing().writer_view().spec_position()) <= old(self).serializing().room(),
        ensures
            final(self).map() == old(self).map(),
            InstructionSerializeContext::did_write(
                final(self).serializing(),
                old(self).serializing(),
                zeros(pad16(old(self).serializing().writer_view().spec_position()) as nat),
            ),
    {
        self.serializing.writer_mut().pad_16();
    }

    /// The bytes written.
    pub fn finish(self) -> (r: Vec<u8>)
        ensures
            r@ == self.serializing().writer_view().written(),
    {
        let (_, writer) = self.serializing.into_parts();
        writer.into_buffer()
    }
}

} // verus!
