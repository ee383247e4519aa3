//! The pass that rewrites the strings of a script: each operation goes to a mode with its
//! strings replaced.
use vstd::prelude::*;

use crate::snr::operation::arena::{element_at, element_values, elements_readable, position_start, OperationArena};
use crate::snr::operation::repr::{ElementValue, OperationElementRepr};
use crate::snr::operation::schema::{Command, Opcode, OperationSchema};
use crate::snr::operation::serialize::{element_writable, encode_element, InstructionSerializeContext};
use crate::snr::reactor::dump_bin::{operation_string_source, sources_known};
use crate::snr::reactor::rewrite::stringer::{
    array_strings, pieces_rewritable, rewritten_pieces, rewritten_string, string_rewritable, Position, StringRewriter,
    Stringer,
};
use crate::snr::reactor::rewrite::{
    compose, offsets_mapped, remap_offsets, BuildOffsetMapMode, EmitMode,
};
use crate::snr::reactor::{AnyStringSource, Reactor, StringArraySource, StringSource};
use crate::snr::writer::{pad16, zeros, Writer};
use crate::versions::{MessageCommandStyle, NumberStyle};

verus! {

/// What a mode of the rewrite receives: the start of an operation (its input offset and
/// opcode byte), one element, or the end of the script.
pub enum ModeEvent {
    Start(u32, u8),
    Element(ElementValue),
    End,
}

/// One of the two passes of a rewrite, receiving the rewritten operations.
pub trait RewriteMode2: Sized {
    /// Whether the mode, as it is, can receive `e`.
    spec fn can_take(&self, e: ModeEvent) -> bool;

    /// Whether `self` is what the mode became from `before` on receiving `e`.
    spec fn took(self, before: Self, e: ModeEvent) -> bool;

    fn instr_start(&mut self, in_offset: u32, raw_opcode: u8)
        requires
            old(self).can_take(ModeEvent::Start(in_offset, raw_opcode)),
        ensures
            final(self).took(*old(self), ModeEvent::Start(in_offset, raw_opcode)),
    ;

    fn put_element(&mut self, element: &OperationElementRepr)
        requires
            old(self).can_take(ModeEvent::Element(element@)),
        ensures
            final(self).took(*old(self), ModeEvent::Element(element@)),
    ;

    fn end_of_stream(&mut self)
        requires
            old(self).can_take(ModeEvent::End),
        ensures
            final(self).took(*old(self), ModeEvent::End),
    ;
}

/// Whether the mode, starting as `m`, can receive each of `es` in turn, whatever it becomes
/// after each.
pub open spec fn can_take_all<M: RewriteMode2>(m: M, es: Seq<ModeEvent>) -> bool
    decreases es.len(),
{
    es.len() == 0 || (m.can_take(es[0]) && forall|next: M|
        #[trigger] next.took(m, es[0]) ==> can_take_all(next, es.drop_first()))
}

/// Whether the mode went from `first` to `last` by receiving each of `es` in turn.
pub open spec fn took_all<M: RewriteMode2>(last: M, first: M, es: Seq<ModeEvent>) -> bool
    decreases es.len(),
{
    if es.len() == 0 {
        last == first
    } else {
        exists|next: M| #[trigger] next.took(first, es[0]) && took_all(last, next, es.drop_first())
    }
}

impl RewriteMode2 for BuildOffsetMapMode {
    open spec fn can_take(&self, e: ModeEvent) -> bool {
        match e {
            ModeEvent::Start(_, _) => 1 <= self.serializing().room() && self.instr_index() < u32::MAX
                && self.builder().wf(),
            ModeEvent::Element(v) => element_writable(self.serializing().style(), v) && encode_element(
                self.serializing().style(),
                v,
            ).len() <= self.serializing().room(),
            ModeEvent::End => 0 <= self.out_position() && self.out_position() + pad16(self.out_position())
                <= u32::MAX && pad16(self.out_position()) <= self.serializing().room(),
        }
    }

    open spec fn took(self, before: Self, e: ModeEvent) -> bool {
        match e {
            ModeEvent::Start(o, raw) => {
                &&& self.builder().orig_to_idx() == before.builder().orig_to_idx().insert(o, before.instr_index())
                &&& self.builder().idx_to_out() == before.builder().idx_to_out().insert(
                    before.instr_index(),
                    before.out_position() as u32,
                )
                &&& self.builder().wf()
                &&& self.instr_index() == before.instr_index() + 1
                &&& InstructionSerializeContext::did_write(self.serializing(), before.serializing(), seq![raw])
            },
            ModeEvent::Element(v) => {
                &&& self.builder() == before.builder()
                &&& self.instr_index() == before.instr_index()
                &&& InstructionSerializeContext::did_write(
                    self.serializing(),
                    before.serializing(),
                    encode_element(before.serializing().style(), v),
                )
            },
            ModeEvent::End => {
                &&& self.builder() == before.builder()
                &&& self.instr_index() == before.instr_index()
                &&& InstructionSerializeContext::did_write(
                    self.serializing(),
                    before.serializing(),
                    zeros(pad16(before.out_position()) as nat),
                )
            },
        }
    }

    fn instr_start(&mut self, in_offset: u32, raw_opcode: u8) {
        BuildOffsetMapMode::instr_start(self, in_offset, raw_opcode)
    }

    fn put_element(&mut self, element: &OperationElementRepr) {
        BuildOffsetMapMode::put_element(self, element)
    }

    fn end_of_stream(&mut self) {
        BuildOffsetMapMode::end_of_stream(self)
    }
}

impl RewriteMode2 for EmitMode {
    open spec fn can_take(&self, e: ModeEvent) -> bool {
        match e {
            ModeEvent::Start(_, _) => 1 <= self.serializing().room(),
            ModeEvent::Element(v) => offsets_mapped(v, self.map()@) && element_writable(self.serializing().style(), v)
                && encode_element(self.serializing().style(), v).len() <= self.serializing().room(),
            ModeEvent::End => {
                let p = self.serializing().writer_view().spec_position();
                0 <= p && p + pad16(p) <= u32::MAX && pad16(p) <= self.serializing().room()
            },
        }
    }

    open spec fn took(self, before: Self, e: ModeEvent) -> bool {
        match e {
            ModeEvent::Start(_, raw) => {
                &&& self.map() == before.map()
                &&& InstructionSerializeContext::did_write(self.serializing(), before.serializing(), seq![raw])
            },
            ModeEvent::Element(v) => {
                &&& self.map() == before.map()
                &&& InstructionSerializeContext::did_write(
                    self.serializing(),
                    before.serializing(),
                    encode_element(before.serializing().style(), remap_offsets(v, before.map()@)),
                )
            },
            ModeEvent::End => {
                &&& self.map() == before.map()
                &&& InstructionSerializeContext::did_write(
                    self.serializing(),
                    before.serializing(),
                    zeros(pad16(before.serializing().writer_view().spec_position()) as nat),
                )
            },
        }
    }

    fn instr_start(&mut self, in_offset: u32, raw_opcode: u8) {
        EmitMode::instr_start(self, in_offset, raw_opcode)
    }

    fn put_element(&mut self, element: &OperationElementRepr) {
        EmitMode::put_element(self, element)
    }

    fn end_of_stream(&mut self) {
        EmitMode::end_of_stream(self)
    }
}

/// An element with its strings rewritten, strings being numbered from `index` in the
/// operation `opcode` at `offset` whose first element is `first`, and the number of strings
/// it holds.
pub open spec fn rewrite_element<R: StringRewriter>(
    st: Stringer<R>,
    index: nat,
    offset: u32,
    opcode: Opcode,
    first: ElementValue,
    v: ElementValue,
) -> (ElementValue, nat) {
    match v {
        ElementValue::String(k, s) => (
            ElementValue::String(
                k,
                rewritten_string(
                    st,
                    s,
                    index as u32,
                    offset,
                    AnyStringSource::Singular(operation_string_source(opcode, first).unwrap()),
                ),
            ),
            1,
        ),
        ElementValue::StringArray(k, s) => (
            ElementValue::StringArray(k, rewritten_pieces(st, array_strings(s), index, offset, 0).push(0)),
            array_strings(s).len(),
        ),
        _ => (v, 0),
    }
}

/// Whether the strings of an element can be rewritten, numbered from `index`.
pub open spec fn element_rewritable<R: StringRewriter>(
    st: Stringer<R>,
    index: nat,
    offset: u32,
    opcode: Opcode,
    first: ElementValue,
    v: ElementValue,
) -> bool {
    match v {
        ElementValue::String(_, s) => index < u32::MAX && string_rewritable(
            st,
            s,
            index as u32,
            offset,
            AnyStringSource::Singular(operation_string_source(opcode, first).unwrap()),
        ),
        ElementValue::StringArray(_, s) => index + array_strings(s).len() <= u32::MAX && pieces_rewritable(
            st,
            array_strings(s),
            index,
            offset,
            0,
        ),
        _ => true,
    }
}

/// The elements `vs` with their strings rewritten, numbered from `index`, and the number of
/// strings they hold.
pub open spec fn rewrite_values<R: StringRewriter>(
    st: Stringer<R>,
    index: nat,
    offset: u32,
    opcode: Opcode,
    first: ElementValue,
    vs: Seq<ElementValue>,
) -> (Seq<ElementValue>, nat)
    decreases vs.len(),
{
    if vs.len() == 0 {
        (Seq::empty(), 0)
    } else {
        let (v, n) = rewrite_element(st, index, offset, opcode, first, vs[0]);
        let (rest, m) = rewrite_values(st, index + n, offset, opcode, first, vs.drop_first());
        (seq![v] + rest, n + m)
    }
}

/// Whether the strings of the elements `vs` can be rewritten, numbered from `index`.
pub open spec fn values_rewritable<R: StringRewriter>(
    st: Stringer<R>,
    index: nat,
    offset: u32,
    opcode: Opcode,
    first: ElementValue,
    vs: Seq<ElementValue>,
) -> bool
    decreases vs.len(),
{
    vs.len() == 0 || (element_rewritable(st, index, offset, opcode, first, vs[0]) && values_rewritable(
        st,
        index + rewrite_element(st, index, offset, opcode, first, vs[0]).1,
        offset,
        opcode,
        first,
        vs.drop_first(),
    ))
}

/// The elements as the mode receives them.
pub open spec fn element_events(vs: Seq<ElementValue>) -> Seq<ModeEvent> {
    vs.map_values(|v: ElementValue| ModeEvent::Element(v))
}

/// What the mode receives for the operation `opcode` (byte `raw`) at `position` whose
/// elements hold `values`, strings being numbered from `index`: the start, then each element
/// with its strings rewritten.
pub open spec fn operation_events<R: StringRewriter>(
    st: Stringer<R>,
    index: nat,
    position: u32,
    raw: u8,
    opcode: Opcode,
    values: Seq<ElementValue>,
) -> Seq<ModeEvent> {
    seq![ModeEvent::Start(position, raw)] + element_events(
        rewrite_values(st, index, position, opcode, values[0], values).0,
    )
}

/// Rewrites the strings of a script: each operation goes to the mode with its strings
/// replaced by what the rewriter gives.
pub struct RewriteReactor<R, M> {
    position: Position,
    stringer: Stringer<R>,
    mode: M,
}

impl<R, M> RewriteReactor<R, M> {
    /// Where the rewriting is.
    pub closed spec fn position(&self) -> Position {
        self.position
    }

    pub closed spec fn stringer(&self) -> Stringer<R> {
        self.stringer
    }

    pub closed spec fn mode(&self) -> M {
        self.mode
    }
}

impl<R> RewriteReactor<R, BuildOffsetMapMode> {
    /// Starts the first pass, with the output at `initial_out_position`.
    pub fn new(
        number_style: NumberStyle,
        snr_style: MessageCommandStyle,
        user_style: MessageCommandStyle,
        has_useless_escapes: bool,
        rewriter: R,
        initial_out_position: u32,
    ) -> (r: Self)
        ensures
            r.position() == (Position { current_instr_index: 0, current_str_index: 0, current_instr_offset: 0 }),
            r.stringer().snr_style() == snr_style,
            r.stringer().user_style() == user_style,
            r.stringer().rewriter() == rewriter,
            r.mode().builder().orig_to_idx() == Map::<u32, u32>::empty(),
            r.mode().builder().idx_to_out() == Map::<u32, u32>::empty(),
            r.mode().builder().wf(),
            r.mode().serializing().style() == number_style,
            r.mode().out_position() == initial_out_position,
            r.mode().serializing().room() == u32::MAX - initial_out_position,
            r.mode().instr_index() == 0,
    {
        RewriteReactor {
            position: Position::default(),
            stringer: Stringer::new(snr_style, user_style, has_useless_escapes, rewriter),
            mode: BuildOffsetMapMode::new(number_style, initial_out_position),
        }
    }

    /// The size the output reaches.
    pub fn output_size(&self) -> (r: u32)
        requires
            0 <= self.mode().out_position() <= u32::MAX,
        ensures
            r == self.mode().out_position(),
    {
        self.mode.output_size()
    }

    /// Ends the first pass: the second pass rewrites the script again into `buffer`, with
    /// each offset moved to where the first pass placed its operation.
    pub fn into_emit(self, buffer: Vec<u8>) -> (r: RewriteReactor<R, EmitMode>)
        requires
            self.mode().builder().wf(),
        ensures
            r.position() == (Position { current_instr_index: 0, current_str_index: 0, current_instr_offset: 0 }),
            r.stringer() == self.stringer(),
            r.mode().map()@ == compose(self.mode().builder().orig_to_idx(), self.mode().builder().idx_to_out()),
            r.mode().serializing().style() == self.mode().serializing().style(),
            r.mode().serializing().writer_view().written() == buffer@,
            r.mode().serializing().room() == usize::MAX - buffer@.len(),
            r.mode().serializing().writer_view().spec_position() == buffer@.len(),
    {
        RewriteReactor { position: Position::default(), stringer: self.stringer, mode: self.mode.into_emit(buffer) }
    }
}

impl<R> RewriteReactor<R, EmitMode> {
    /// The rewritten script.
    pub fn finish(self) -> (r: Vec<u8>)
        ensures
            r@ == self.mode().serializing().writer_view().written(),
    {
        self.mode.finish()
    }
}

impl<R: StringRewriter, M: RewriteMode2> Reactor for RewriteReactor<R, M> {
    /// Every string must have a source and be rewritable, and the mode must be able to take
    /// the rewritten operation.
    open spec fn accepts(&self, position: u32, raw_opcode: u8, opcode: Opcode, values: Seq<ElementValue>) -> bool {
        &&& values.len() > 0 ==> {
            &&& sources_known(opcode, values[0], values)
            &&& opcode == Opcode::Command(Command::MSGSET) ==> values[0] is U32
        }
        &&& values_rewritable(
            self.stringer(),
            self.position().current_str_index as nat,
            position,
            opcode,
            values[0],
            values,
        )
        &&& self.position().current_instr_index < u32::MAX
        &&& can_take_all(
            self.mode(),
            operation_events(self.stringer(), self.position().current_str_index as nat, position, raw_opcode, opcode, values),
        )
    }

    /// The mode received the operation's start and then each of its elements in order,
    /// unchanged but for strings and string arrays, which the rewriter's results replace; the
    /// operation number moves on by one and the string number by the strings it holds.
    open spec fn reacted(
        self,
        before: Self,
        position: u32,
        raw_opcode: u8,
        opcode: Opcode,
        values: Seq<ElementValue>,
    ) -> bool {
        let index = before.position().current_str_index as nat;
        &&& self.stringer() == before.stringer()
        &&& self.position() == (Position {
            current_instr_index: (before.position().current_instr_index + 1) as u32,
            current_str_index: (index + rewrite_values(before.stringer(), index, position, opcode, values[0], values).1) as u32,
            current_instr_offset: position,
        })
        &&& took_all(
            self.mode(),
            before.mode(),
            operation_events(before.stringer(), index, position, raw_opcode, opcode, values),
        )
    }

    open spec fn can_end(&self) -> bool {
        self.mode().can_take(ModeEvent::End)
    }

    open spec fn ended(self, before: Self) -> bool {
        &&& self.stringer() == before.stringer()
        &&& self.position() == before.position()
        &&& self.mode().took(before.mode(), ModeEvent::End)
    }

    fn react(
        &mut self,
        operation_position: u32,
        raw_opcode: u8,
        opcode: Opcode,
        op_schema: &OperationSchema,
        arena: &OperationArena,
    ) {
        let ghost all = element_values(arena@, position_start(), op_schema.elements@);
        let ghost first = all[0];
        let ghost st = self.stringer;
        let ghost idx0 = self.position.current_str_index as nat;
        let ghost mode0 = self.mode;
        let ghost events = operation_events(st, idx0, operation_position, raw_opcode, opcode, all);
        let ghost instr0 = self.position.current_instr_index;
        proof {
            if op_schema.elements@.len() > 0 {
                assert(all[0] == element_at(arena@, position_start(), op_schema.elements@[0]).0);
            }
            assert(events[0] == ModeEvent::Start(operation_position, raw_opcode));
            assert(events.drop_first() =~= element_events(
                rewrite_values(st, idx0, operation_position, opcode, first, all).0,
            ));
        }
        self.position.current_instr_offset = operation_position;
        self.mode.instr_start(operation_position, raw_opcode);
        proof {
            let m1 = self.mode;
            assert(m1.took(mode0, events[0]));
            assert forall|fin: M| took_all(
                fin,
                m1,
                #[trigger] element_events(rewrite_values(st, idx0, operation_position, opcode, first, all).0),
            ) implies took_all(fin, mode0, events) by {
                assert(m1.took(mode0, events[0]));
            }
        }
        let ghost mut seen: Seq<ElementValue> = Seq::empty();
        let mut iter = arena.iter(op_schema);
        proof {
            assert(seen + all =~= all);
        }
        loop
            invariant
                iter.arena_view() == arena@,
                elements_readable(arena@, iter.position_view(), iter.remaining()),
                all == seen + element_values(arena@, iter.position_view(), iter.remaining()),
                all == element_values(arena@, position_start(), op_schema.elements@),
                elements_readable(arena@, position_start(), op_schema.elements@),
                first == all[0],
                op_schema.elements@.len() > 0 ==> first == element_at(
                    arena@,
                    position_start(),
                    op_schema.elements@[0],
                ).0,
                all.len() > 0 ==> sources_known(opcode, first, all),
                all.len() > 0 && opcode == Opcode::Command(Command::MSGSET) ==> first is U32,
                self.stringer == st,
                self.position.current_instr_offset == operation_position,
                self.position.current_instr_index == instr0,
                values_rewritable(
                    st,
                    self.position.current_str_index as nat,
                    operation_position,
                    opcode,
                    first,
                    element_values(arena@, iter.position_view(), iter.remaining()),
                ),
                self.position.current_str_index + rewrite_values(
                    st,
                    self.position.current_str_index as nat,
                    operation_position,
                    opcode,
                    first,
                    element_values(arena@, iter.position_view(), iter.remaining()),
                ).1 == idx0 + rewrite_values(st, idx0, operation_position, opcode, first, all).1,
                can_take_all(
                    self.mode,
                    element_events(
                        rewrite_values(
                            st,
                            self.position.current_str_index as nat,
                            operation_position,
                            opcode,
                            first,
                            element_values(arena@, iter.position_view(), iter.remaining()),
                        ).0,
                    ),
                ),
                forall|fin: M|
                    took_all(
                        fin,
                        self.mode,
                        #[trigger] element_events(
                            rewrite_values(
                                st,
                                self.position.current_str_index as nat,
                                operation_position,
                                opcode,
                                first,
                                element_values(arena@, iter.position_view(), iter.remaining()),
                            ).0,
                        ),
                    ) ==> took_all(fin, mode0, events),
            ensures
                self.stringer == st,
                self.position.current_instr_offset == operation_position,
                self.position.current_instr_index == instr0,
                self.position.current_str_index == idx0 + rewrite_values(
                    st,
                    idx0,
                    operation_position,
                    opcode,
                    first,
                    all,
                ).1,
                took_all(self.mode, mode0, events),
            decreases iter.remaining().len(),
        {
            let ghost rem = element_values(arena@, iter.position_view(), iter.remaining());
            let ghost idx = self.position.current_str_index as nat;
            let ghost cur = self.mode;
            let element = match iter.next() {
                Some(e) => e,
                None => {
                    proof {
                        assert(rem =~= Seq::<ElementValue>::empty());
                        assert(element_events(
                            rewrite_values(st, idx, operation_position, opcode, first, rem).0,
                        ) =~= Seq::<ModeEvent>::empty());
                        assert(took_all(
                            cur,
                            cur,
                            element_events(rewrite_values(st, idx, operation_position, opcode, first, rem).0),
                        ));
                    }
                    break;
                },
            };
            let ghost v = element@;
            let ghost rem2 = element_values(arena@, iter.position_view(), iter.remaining());
            let ghost (v2, n) = rewrite_element(st, idx, operation_position, opcode, first, v);
            let ghost rest_events = element_events(
                rewrite_values(st, idx + n, operation_position, opcode, first, rem2).0,
            );
            proof {
                assert(rem[0] == v);
                assert(rem.drop_first() =~= rem2);
                assert(all[seen.len() as int] == v);
                assert(element_events(rewrite_values(st, idx, operation_position, opcode, first, rem).0) =~= seq![
                    ModeEvent::Element(v2),
                ] + rest_events);
            }
            match element {
                OperationElementRepr::String(kind, string) => {
                    assert(crate::snr::operation::arena::position_fits(arena@, position_start()));
                    let source = match StringSource::for_operation(opcode, op_schema, arena) {
                        Some(source) => source,
                        None => {
                            assert(false);
                            StringSource::Saveinfo
                        },
                    };
                    let rewritten = self.stringer.rewrite_string(
                        &mut self.position,
                        string,
                        AnyStringSource::Singular(source),
                    );
                    self.mode.put_element(&OperationElementRepr::String(kind, rewritten.as_slice()));
                },
                OperationElementRepr::StringArray(kind, string_array) => {
                    let source = StringArraySource::for_operation(opcode, op_schema, arena);
                    assert(source is Some);
                    let rewritten = self.stringer.rewrite_array(&mut self.position, string_array);
                    self.mode.put_element(&OperationElementRepr::StringArray(kind, rewritten.as_slice()));
                },
                _ => {
                    self.mode.put_element(&element);
                },
            }
            proof {
                let next = self.mode;
                assert(next.took(cur, ModeEvent::Element(v2)));
                assert forall|fin: M| took_all(fin, next, #[trigger] element_events(
                    rewrite_values(
                        st,
                        self.position.current_str_index as nat,
                        operation_position,
                        opcode,
                        first,
                        rem2,
                    ).0,
                )) implies took_all(fin, mode0, events) by {
                    assert(next.took(cur, (seq![ModeEvent::Element(v2)] + rest_events)[0]));
                    assert((seq![ModeEvent::Element(v2)] + rest_events).drop_first() =~= rest_events);
                }
                assert((seq![ModeEvent::Element(v2)] + rest_events).drop_first() =~= rest_events);
                seen = seen.push(v);
                assert(all =~= seen + element_values(arena@, iter.position_view(), iter.remaining()));
            }
        }
        self.position.current_instr_index = self.position.current_instr_index + 1;
    }

    fn end_of_stream(&mut self) {
        self.mode.end_of_stream()
    }
}

} // verus!
