//! The two passes of a rewrite agree: the first lays out exactly what the second writes.
use vstd::prelude::*;

use crate::snr::operation::serialize::{encode_element, InstructionSerializeContext};
use crate::snr::operation::repr::ElementValue;
use crate::snr::operation::schema::Opcode;
use crate::snr::reactor::rewrite::rewrite_reactor::{
    operation_events, rewrite_values, took_all, ModeEvent, RewriteMode2, RewriteReactor,
};
use crate::snr::reactor::rewrite::stringer::{StringRewriter, Stringer};
use crate::snr::operation::parse::{lemma_read_elements_len, read_elements};
use crate::snr::operation::schema::EngineSchema;
use crate::snr::reactor::{reacted_all, script_ops, Reactor};
use crate::snr::reactor::rewrite::{compose, lemma_remap_offsets_same_size, remap_offsets, BuildOffsetMapMode, EmitMode};
use crate::snr::writer::{pad16, zeros, Writer};
use crate::versions::NumberStyle;

verus! {

/// The bytes that the event `e` puts out at position `pos`, offsets moved by `m`.
pub open spec fn event_bytes(style: NumberStyle, e: ModeEvent, m: Map<u32, u32>, pos: int) -> Seq<u8> {
    match e {
        ModeEvent::Start(_, raw) => seq![raw],
        ModeEvent::Element(v) => encode_element(style, remap_offsets(v, m)),
        ModeEvent::End => zeros(pad16(pos) as nat),
    }
}

/// The bytes that the events `es` put out from position `pos` on, offsets moved by `m`.
pub open spec fn events_bytes(style: NumberStyle, es: Seq<ModeEvent>, m: Map<u32, u32>, pos: int) -> Seq<u8>
    decreases es.len(),
{
    if es.len() == 0 {
        Seq::empty()
    } else {
        let b = event_bytes(style, es[0], m, pos);
        b + events_bytes(style, es.drop_first(), m, pos + b.len())
    }
}

/// `m` with each operation start of `es` recorded at its output position, the events
/// being put out from `pos` on; a later start at the same input offset wins.
pub open spec fn starts_map(style: NumberStyle, es: Seq<ModeEvent>, pos: int, m: Map<u32, u32>) -> Map<u32, u32>
    decreases es.len(),
{
    if es.len() == 0 {
        m
    } else {
        let m2 = match es[0] {
            ModeEvent::Start(o, _) => m.insert(o, pos as u32),
            _ => m,
        };
        starts_map(
            style,
            es.drop_first(),
            pos + event_bytes(style, es[0], Map::empty(), pos).len(),
            m2,
        )
    }
}

/// How many bytes an event puts out does not depend on where its offsets are moved.
proof fn lemma_event_len(style: NumberStyle, e: ModeEvent, m1: Map<u32, u32>, m2: Map<u32, u32>, pos: int)
    ensures
        event_bytes(style, e, m1, pos).len() == event_bytes(style, e, m2, pos).len(),
{
    if let ModeEvent::Element(v) = e {
        lemma_remap_offsets_same_size(style, v, m1);
        lemma_remap_offsets_same_size(style, v, m2);
    }
}

/// How many bytes events put out does not depend on where their offsets are moved.
pub proof fn lemma_events_len(style: NumberStyle, es: Seq<ModeEvent>, m1: Map<u32, u32>, m2: Map<u32, u32>, pos: int)
    ensures
        events_bytes(style, es, m1, pos).len() == events_bytes(style, es, m2, pos).len(),
    decreases es.len(),
{
    if es.len() > 0 {
        lemma_event_len(style, es[0], m1, m2, pos);
        lemma_events_len(
            style,
            es.drop_first(),
            m1,
            m2,
            pos + event_bytes(style, es[0], m1, pos).len(),
        );
    }
}

/// The bytes of events are those of a first part of them followed by those of the rest.
proof fn lemma_events_split(style: NumberStyle, es: Seq<ModeEvent>, m: Map<u32, u32>, pos: int, k: int)
    requires
        0 <= k <= es.len(),
    ensures
        events_bytes(style, es, m, pos) == events_bytes(style, es.take(k), m, pos) + events_bytes(
            style,
            es.skip(k),
            m,
            pos + events_bytes(style, es.take(k), m, pos).len(),
        ),
    decreases k,
{
    if k == 0 {
        assert(es.take(0) =~= Seq::<ModeEvent>::empty());
        assert(es.skip(0) =~= es);
        assert(events_bytes(style, es.take(0), m, pos) =~= Seq::<u8>::empty());
        assert(Seq::<u8>::empty() + events_bytes(style, es, m, pos) =~= events_bytes(style, es, m, pos));
    } else {
        let b = event_bytes(style, es[0], m, pos);
        lemma_events_split(style, es.drop_first(), m, pos + b.len(), k - 1);
        assert(es.take(k)[0] == es[0]);
        assert(es.take(k).drop_first() =~= es.drop_first().take(k - 1));
        assert(es.drop_first().skip(k - 1) =~= es.skip(k));
        assert(events_bytes(style, es.take(k), m, pos) == b + events_bytes(style, es.drop_first().take(k - 1), m, pos + b.len()));
        assert(events_bytes(style, es, m, pos) =~= events_bytes(style, es.take(k), m, pos) + events_bytes(
            style,
            es.skip(k),
            m,
            pos + events_bytes(style, es.take(k), m, pos).len(),
        ));
    }
}

/// Events that end with the end of the script put out bytes up to a multiple of 16.
proof fn lemma_events_end_aligned(style: NumberStyle, es: Seq<ModeEvent>, m: Map<u32, u32>, pos: int)
    requires
        es.len() > 0,
        es.last() == ModeEvent::End,
    ensures
        (pos + events_bytes(style, es, m, pos).len()) % 16 == 0,
    decreases es.len(),
{
    let b = event_bytes(style, es[0], m, pos);
    if es.len() == 1 {
        assert(es.drop_first() =~= Seq::<ModeEvent>::empty());
        assert(es[0] == ModeEvent::End);
        assert(events_bytes(style, es.drop_first(), m, pos + b.len()) =~= Seq::<u8>::empty());
        assert(0 <= pad16(pos) < 16 && (pos + pad16(pos)) % 16 == 0) by (nonlinear_arith);
        assert(b.len() == pad16(pos));
    } else {
        assert(es.drop_first().last() == es.last());
        lemma_events_end_aligned(style, es.drop_first(), m, pos + b.len());
    }
}

/// A start of `es` at an input offset that no later start of `es` has: the recorded map
/// sends that offset to the output position where the start is put out.
proof fn lemma_starts_map_at(style: NumberStyle, es: Seq<ModeEvent>, pos: int, m: Map<u32, u32>, k: int, o: u32, raw: u8)
    requires
        0 <= k < es.len(),
        es[k] == ModeEvent::Start(o, raw),
        forall|j: int| k < j < es.len() ==> !(#[trigger] es[j] matches ModeEvent::Start(o2, _) && o2 == o),
    ensures
        starts_map(style, es, pos, m).contains_key(o),
        starts_map(style, es, pos, m)[o] == (pos + events_bytes(style, es.take(k), Map::empty(), pos).len()) as u32,
    decreases k,
{
    let m2 = match es[0] {
        ModeEvent::Start(o1, _) => m.insert(o1, pos as u32),
        _ => m,
    };
    let b = event_bytes(style, es[0], Map::empty(), pos);
    if k == 0 {
        assert(es.take(0) =~= Seq::<ModeEvent>::empty());
        lemma_starts_map_keeps(style, es.drop_first(), pos + b.len(), m2, o);
    } else {
        assert forall|j: int| k - 1 < j < es.drop_first().len() implies !(#[trigger] es.drop_first()[j] matches ModeEvent::Start(
            o2,
            _,
        ) && o2 == o) by {
            assert(es.drop_first()[j] == es[j + 1]);
        }
        lemma_starts_map_at(style, es.drop_first(), pos + b.len(), m2, k - 1, o, raw);
        assert(es.take(k)[0] == es[0]);
        assert(es.take(k).drop_first() =~= es.drop_first().take(k - 1));
    }
}

/// An input offset at which no event of `es` starts keeps what the map had for it.
proof fn lemma_starts_map_keeps(style: NumberStyle, es: Seq<ModeEvent>, pos: int, m: Map<u32, u32>, o: u32)
    requires
        forall|j: int| 0 <= j < es.len() ==> !(#[trigger] es[j] matches ModeEvent::Start(o2, _) && o2 == o),
    ensures
        starts_map(style, es, pos, m).contains_key(o) == m.contains_key(o),
        m.contains_key(o) ==> starts_map(style, es, pos, m)[o] == m[o],
    decreases es.len(),
{
    if es.len() > 0 {
        let m2 = match es[0] {
            ModeEvent::Start(o1, _) => m.insert(o1, pos as u32),
            _ => m,
        };
        assert(!(es[0] matches ModeEvent::Start(o2, _) && o2 == o));
        assert forall|j: int| 0 <= j < es.drop_first().len() implies !(#[trigger] es.drop_first()[j] matches ModeEvent::Start(
            o2,
            _,
        ) && o2 == o) by {
            assert(es.drop_first()[j] == es[j + 1]);
        }
        lemma_starts_map_keeps(
            style,
            es.drop_first(),
            pos + event_bytes(style, es[0], Map::empty(), pos).len(),
            m2,
            o,
        );
    }
}

/// What the first pass keeps true: its records are consistent, and the operation numbers
/// it recorded are all below the next one.
pub open spec fn build_consistent(b: BuildOffsetMapMode) -> bool {
    &&& b.builder().wf()
    &&& forall|o: u32| #[trigger]
        b.builder().orig_to_idx().contains_key(o) ==> b.builder().orig_to_idx()[o] < b.instr_index()
    &&& forall|i: u32| #[trigger] b.builder().idx_to_out().contains_key(i) ==> i < b.instr_index()
}

/// The map that the first pass has recorded.
pub open spec fn recorded(b: BuildOffsetMapMode) -> Map<u32, u32> {
    compose(b.builder().orig_to_idx(), b.builder().idx_to_out())
}

/// The first pass, receiving `es`, records their starts and counts their bytes.
pub proof fn lemma_build_took_all(b1: BuildOffsetMapMode, b0: BuildOffsetMapMode, es: Seq<ModeEvent>)
    requires
        took_all(b1, b0, es),
        build_consistent(b0),
    ensures
        build_consistent(b1),
        recorded(b1) == starts_map(b0.serializing().style(), es, b0.out_position(), recorded(b0)),
        b1.out_position() == b0.out_position() + events_bytes(
            b0.serializing().style(),
            es,
            Map::empty(),
            b0.out_position(),
        ).len(),
        b1.serializing().style() == b0.serializing().style(),
    decreases es.len(),
{
    if es.len() == 0 {
        return;
    }
    let style = b0.serializing().style();
    let next = choose|next: BuildOffsetMapMode| #[trigger] next.took(b0, es[0]) && took_all(b1, next, es.drop_first());
    let p0 = b0.out_position();
    match es[0] {
        ModeEvent::Start(o, raw) => {
            let i = b0.instr_index();
            let oi = b0.builder().orig_to_idx();
            let io = b0.builder().idx_to_out();
            assert(!io.contains_key(i));
            assert(recorded(next) =~= recorded(b0).insert(o, p0 as u32)) by {
                assert forall|k: u32| #[trigger] recorded(next).contains_key(k) implies recorded(next)[k]
                    == recorded(b0).insert(o, p0 as u32)[k] by {
                    if k != o {
                        assert(oi[k] < i);
                    }
                }
            }
            assert(build_consistent(next)) by {
                assert forall|k: u32| #[trigger] next.builder().orig_to_idx().contains_key(k) implies next.builder().orig_to_idx()[k]
                    < next.instr_index() by {
                    if k != o {
                        assert(oi.contains_key(k));
                    }
                }
                assert forall|j: u32| #[trigger] next.builder().idx_to_out().contains_key(j) implies j < next.instr_index() by {
                    if j != i {
                        assert(io.contains_key(j));
                    }
                }
            }
        },
        ModeEvent::Element(v) => {
            lemma_remap_offsets_same_size(style, v, Map::empty());
        },
        ModeEvent::End => {},
    }
    lemma_build_took_all(b1, next, es.drop_first());
}

/// The second pass, receiving `es`, writes their bytes with its offsets moved.
pub proof fn lemma_emit_took_all(e1: EmitMode, e0: EmitMode, es: Seq<ModeEvent>)
    requires
        took_all(e1, e0, es),
    ensures
        e1.map() == e0.map(),
        e1.serializing().style() == e0.serializing().style(),
        e1.serializing().writer_view().written() == e0.serializing().writer_view().written() + events_bytes(
            e0.serializing().style(),
            es,
            e0.map()@,
            e0.serializing().writer_view().spec_position(),
        ),
        e1.serializing().writer_view().spec_position() == e0.serializing().writer_view().spec_position()
            + events_bytes(
            e0.serializing().style(),
            es,
            e0.map()@,
            e0.serializing().writer_view().spec_position(),
        ).len(),
    decreases es.len(),
{
    if es.len() == 0 {
        assert(e0.serializing().writer_view().written() + Seq::<u8>::empty() =~= e0.serializing().writer_view().written());
        return;
    }
    let next = choose|next: EmitMode| #[trigger] next.took(e0, es[0]) && took_all(e1, next, es.drop_first());
    lemma_emit_took_all(e1, next, es.drop_first());
    let style = e0.serializing().style();
    let p0 = e0.serializing().writer_view().spec_position();
    let b = event_bytes(style, es[0], e0.map()@, p0);
    assert(e1.serializing().writer_view().written() =~= e0.serializing().writer_view().written() + events_bytes(
        style,
        es,
        e0.map()@,
        p0,
    ));
}

/// Whether event `k` of `es` starts an operation at an input offset at which no later
/// event starts one.
pub open spec fn last_start(es: Seq<ModeEvent>, k: int) -> bool {
    &&& es[k] is Start
    &&& forall|j: int| k < j < es.len() ==> !(#[trigger] es[j] matches ModeEvent::Start(o2, _) && o2 == es[k]->Start_0)
}

/// What a mode of the rewrite receives over the whole script `ops`, strings numbered from
/// `index`: each operation's start and rewritten elements in turn, then the end.
pub open spec fn script_events<R: StringRewriter>(
    st: Stringer<R>,
    index: u32,
    ops: Seq<(u32, u8, Opcode, Seq<ElementValue>)>,
) -> Seq<ModeEvent>
    decreases ops.len(),
{
    if ops.len() == 0 {
        seq![ModeEvent::End]
    } else {
        let op = ops[0];
        let n = rewrite_values(st, index as nat, op.0, op.2, op.3[0], op.3).1;
        operation_events(st, index as nat, op.0, op.1, op.2, op.3) + script_events(
            st,
            (index + n) as u32,
            ops.drop_first(),
        )
    }
}

/// A mode that received `a` and then `b` received `a + b`.
proof fn lemma_took_all_concat<M: RewriteMode2>(m3: M, m2: M, m1: M, a: Seq<ModeEvent>, b: Seq<ModeEvent>)
    requires
        took_all(m2, m1, a),
        took_all(m3, m2, b),
    ensures
        took_all(m3, m1, a + b),
    decreases a.len(),
{
    if a.len() == 0 {
        assert(a + b =~= b);
    } else {
        let next = choose|next: M| #[trigger] next.took(m1, a[0]) && took_all(m2, next, a.drop_first());
        lemma_took_all_concat(m3, m2, next, a.drop_first(), b);
        assert((a + b)[0] == a[0]);
        assert((a + b).drop_first() =~= a.drop_first() + b);
        assert(next.took(m1, (a + b)[0]) && took_all(m3, next, (a + b).drop_first()));
    }
}

/// A rewrite that went through the script `ops` handed its mode the script's events.
pub proof fn lemma_rewrite_script_events<R: StringRewriter, M: RewriteMode2>(
    last: RewriteReactor<R, M>,
    first: RewriteReactor<R, M>,
    ops: Seq<(u32, u8, Opcode, Seq<ElementValue>)>,
)
    requires
        reacted_all(last, first, ops),
    ensures
        last.stringer() == first.stringer(),
        took_all(last.mode(), first.mode(), script_events(first.stringer(), first.position().current_str_index, ops)),
    decreases ops.len(),
{
    let st = first.stringer();
    let idx = first.position().current_str_index;
    if ops.len() == 0 {
        let es = script_events(st, idx, ops);
        assert(es.drop_first() =~= Seq::<ModeEvent>::empty());
        assert(last.mode().took(first.mode(), es[0]) && took_all(last.mode(), last.mode(), es.drop_first()));
    } else {
        let op = ops[0];
        let next = choose|next: RewriteReactor<R, M>| #[trigger] next.reacted(first, op.0, op.1, op.2, op.3) && reacted_all(
            last,
            next,
            ops.drop_first(),
        );
        lemma_rewrite_script_events(last, next, ops.drop_first());
        lemma_took_all_concat(
            last.mode(),
            next.mode(),
            first.mode(),
            operation_events(st, idx as nat, op.0, op.1, op.2, op.3),
            script_events(st, next.position().current_str_index, ops.drop_first()),
        );
    }
}

/// The two passes of a rewrite agree. Where the first pass starts with nothing recorded at
/// the length of the buffer that the second pass writes after, and both go through the same
/// script (its operations at increasing offsets, as `lemma_script_ops_increasing` gives
/// for a read script) with the same rewriter from the first string on, the second pass
/// writes the buffer and then exactly the bytes the first pass counted: as many as its
/// output size, up to a multiple of 16. The map of offsets sends the input offset of each
/// operation to where its opcode byte is written, and every offset written is moved by
/// that map.
pub proof fn lemma_rewrite_passes_agree<R: StringRewriter>(
    first: RewriteReactor<R, BuildOffsetMapMode>,
    counted: RewriteReactor<R, BuildOffsetMapMode>,
    second: RewriteReactor<R, EmitMode>,
    emitted: RewriteReactor<R, EmitMode>,
    ops: Seq<(u32, u8, Opcode, Seq<ElementValue>)>,
    buffer: Seq<u8>,
)
    requires
        first.position().current_str_index == 0,
        first.mode().builder().orig_to_idx() == Map::<u32, u32>::empty(),
        first.mode().builder().idx_to_out() == Map::<u32, u32>::empty(),
        first.mode().out_position() == buffer.len(),
        reacted_all(counted, first, ops),
        second.position().current_str_index == 0,
        second.stringer() == counted.stringer(),
        second.mode().map()@ == recorded(counted.mode()),
        second.mode().serializing().style() == counted.mode().serializing().style(),
        second.mode().serializing().writer_view().written() == buffer,
        second.mode().serializing().writer_view().spec_position() == buffer.len(),
        reacted_all(emitted, second, ops),
        forall|i: int, j: int| 0 <= i < j < ops.len() ==> (#[trigger] ops[i]).0 < (#[trigger] ops[j]).0,
    ensures
        ({
            let es = script_events(first.stringer(), 0, ops);
            let style = first.mode().serializing().style();
            let p = buffer.len() as int;
            let m = emitted.mode().map()@;
            let out = emitted.mode().serializing().writer_view().written();
            &&& m == starts_map(style, es, p, Map::empty())
            &&& out == buffer + events_bytes(style, es, m, p)
            &&& out.len() == counted.mode().out_position()
            &&& out.len() % 16 == 0
            &&& forall|k: int|
                0 <= k < es.len() && (#[trigger] es[k]) is Start ==> {
                    let (o, raw) = (es[k]->Start_0, es[k]->Start_1);
                    &&& m.contains_key(o)
                    &&& m[o] == p + events_bytes(style, es.take(k), m, p).len()
                    &&& out[m[o] as int] == raw
                }
        }),
{
    let st = first.stringer();
    let es = script_events(st, 0, ops);
    let style = first.mode().serializing().style();
    let p = buffer.len() as int;
    lemma_rewrite_script_events(counted, first, ops);
    lemma_rewrite_script_events(emitted, second, ops);
    assert(build_consistent(first.mode()));
    assert(recorded(first.mode()) =~= Map::<u32, u32>::empty());
    lemma_build_took_all(counted.mode(), first.mode(), es);
    lemma_emit_took_all(emitted.mode(), second.mode(), es);
    let m = emitted.mode().map()@;
    let out = emitted.mode().serializing().writer_view().written();
    lemma_events_len(style, es, m, Map::empty(), p);
    counted.mode().serializing().writer_view().lemma_position_fits();
    assert(es.len() > 0 && es.last() == ModeEvent::End) by {
        lemma_script_events_end(st, 0, ops);
    }
    lemma_events_end_aligned(style, es, m, p);
    assert forall|k: int| 0 <= k < es.len() && (#[trigger] es[k]) is Start implies {
        let (o, raw) = (es[k]->Start_0, es[k]->Start_1);
        &&& m.contains_key(o)
        &&& m[o] == p + events_bytes(style, es.take(k), m, p).len()
        &&& out[m[o] as int] == raw
    } by {
        let o = es[k]->Start_0;
        let raw = es[k]->Start_1;
        lemma_script_starts_last(st, 0, ops, k);
        lemma_starts_map_at(style, es, p, Map::empty(), k, o, raw);
        lemma_events_len(style, es.take(k), m, Map::empty(), p);
        lemma_events_split(style, es, m, p, k);
        let pre = events_bytes(style, es.take(k), m, p);
        let post = events_bytes(style, es.skip(k), m, p + pre.len());
        assert(es.skip(k)[0] == es[k]);
        assert(post[0] == raw);
        assert(out[p + pre.len()] == raw);
    }
}

/// The events of a script end with its end.
proof fn lemma_script_events_end<R: StringRewriter>(
    st: Stringer<R>,
    index: u32,
    ops: Seq<(u32, u8, Opcode, Seq<ElementValue>)>,
)
    ensures
        script_events(st, index, ops).len() > 0,
        script_events(st, index, ops).last() == ModeEvent::End,
    decreases ops.len(),
{
    if ops.len() > 0 {
        let op = ops[0];
        let n = rewrite_values(st, index as nat, op.0, op.2, op.3[0], op.3).1;
        lemma_script_events_end(st, (index + n) as u32, ops.drop_first());
    }
}

/// The operations of a script that fits 32-bit offsets start at its position or later,
/// each after the one before.
pub proof fn lemma_script_ops_increasing(schema: EngineSchema, bytes: Seq<u8>, pos: int)
    requires
        bytes.len() <= u32::MAX,
        script_ops(schema, bytes, pos) is Some,
    ensures
        ({
            let ops = script_ops(schema, bytes, pos).unwrap();
            &&& forall|i: int| 0 <= i < ops.len() ==> pos <= (#[trigger] ops[i]).0
            &&& forall|i: int, j: int| 0 <= i < j < ops.len() ==> (#[trigger] ops[i]).0 < (#[trigger] ops[j]).0
        }),
    decreases bytes.len() - pos,
{
    let ops = script_ops(schema, bytes, pos).unwrap();
    if ops.len() > 0 {
        let raw = bytes[pos];
        let opcode = schema.opcodes()[raw as int].unwrap();
        let es = schema.operation_elements(opcode).unwrap();
        let (vs, u) = read_elements(schema.style(), bytes.skip(pos + 1), 0, es).unwrap();
        lemma_read_elements_len(schema.style(), bytes.skip(pos + 1), 0, es);
        let next = pos + 1 + u;
        lemma_script_ops_increasing(schema, bytes, next);
        let rest = script_ops(schema, bytes, next).unwrap();
        assert(ops == seq![(pos as u32, raw, opcode, vs)] + rest);
        assert forall|i: int| 0 <= i < ops.len() implies pos <= (#[trigger] ops[i]).0 by {
            if i > 0 {
                assert(ops[i] == rest[i - 1]);
            }
        }
        assert forall|i: int, j: int| 0 <= i < j < ops.len() implies (#[trigger] ops[i]).0 < (#[trigger] ops[j]).0 by {
            assert(ops[j] == rest[j - 1]);
            if i > 0 {
                assert(ops[i] == rest[i - 1]);
            }
        }
    }
}

/// Every operation start among the events of `ops` is at the offset of one of `ops`.
proof fn lemma_script_events_starts<R: StringRewriter>(
    st: Stringer<R>,
    index: u32,
    ops: Seq<(u32, u8, Opcode, Seq<ElementValue>)>,
    k: int,
)
    requires
        0 <= k < script_events(st, index, ops).len(),
        script_events(st, index, ops)[k] is Start,
    ensures
        exists|i: int| 0 <= i < ops.len() && (#[trigger] ops[i]).0 == script_events(st, index, ops)[k]->Start_0,
        ops.len() > 0 && k > 0 ==> exists|i: int|
            1 <= i < ops.len() && (#[trigger] ops[i]).0 == script_events(st, index, ops)[k]->Start_0,
    decreases ops.len(),
{
    let es = script_events(st, index, ops);
    if ops.len() > 0 {
        let op = ops[0];
        let n = rewrite_values(st, index as nat, op.0, op.2, op.3[0], op.3).1;
        let here = operation_events(st, index as nat, op.0, op.1, op.2, op.3);
        let rest = script_events(st, (index + n) as u32, ops.drop_first());
        assert(es == here + rest);
        if k < here.len() {
            if k > 0 {
                assert(here[k] == ModeEvent::Element(
                    rewrite_values(st, index as nat, op.0, op.2, op.3[0], op.3).0[k - 1],
                ));
            }
            assert(ops[0].0 == es[k]->Start_0);
        } else {
            assert(es[k] == rest[k - here.len()]);
            lemma_script_events_starts(st, (index + n) as u32, ops.drop_first(), k - here.len());
            let i = choose|i: int| 0 <= i < ops.drop_first().len() && (#[trigger] ops.drop_first()[i]).0 == rest[k
                - here.len()]->Start_0;
            assert(ops[i + 1] == ops.drop_first()[i]);
        }
    } else {
        assert(es == seq![ModeEvent::End]);
    }
}

/// In a script whose operations start at offsets each after the one before, every
/// operation start among its events is the last one at its offset.
pub proof fn lemma_script_starts_last<R: StringRewriter>(
    st: Stringer<R>,
    index: u32,
    ops: Seq<(u32, u8, Opcode, Seq<ElementValue>)>,
    k: int,
)
    requires
        forall|i: int, j: int| 0 <= i < j < ops.len() ==> (#[trigger] ops[i]).0 < (#[trigger] ops[j]).0,
        0 <= k < script_events(st, index, ops).len(),
        script_events(st, index, ops)[k] is Start,
    ensures
        last_start(script_events(st, index, ops), k),
    decreases ops.len(),
{
    let es = script_events(st, index, ops);
    if ops.len() == 0 {
        assert(es == seq![ModeEvent::End]);
        return;
    }
    let op = ops[0];
    let n = rewrite_values(st, index as nat, op.0, op.2, op.3[0], op.3).1;
    let here = operation_events(st, index as nat, op.0, op.1, op.2, op.3);
    let rest = script_events(st, (index + n) as u32, ops.drop_first());
    assert(es == here + rest);
    assert forall|i: int, j: int| 0 <= i < j < ops.drop_first().len() implies (#[trigger] ops.drop_first()[i]).0
        < (#[trigger] ops.drop_first()[j]).0 by {
        assert(ops.drop_first()[i] == ops[i + 1]);
        assert(ops.drop_first()[j] == ops[j + 1]);
    }
    if k < here.len() {
        if k > 0 {
            assert(here[k] == ModeEvent::Element(
                rewrite_values(st, index as nat, op.0, op.2, op.3[0], op.3).0[k - 1],
            ));
        }
        assert forall|j: int| k < j < es.len() implies !(#[trigger] es[j] matches ModeEvent::Start(o2, _) && o2
            == es[k]->Start_0) by {
            if j < here.len() {
                assert(here[j] == ModeEvent::Element(
                    rewrite_values(st, index as nat, op.0, op.2, op.3[0], op.3).0[j - 1],
                ));
            } else if es[j] is Start {
                assert(es[j] == rest[j - here.len()]);
                lemma_script_events_starts(st, (index + n) as u32, ops.drop_first(), j - here.len());
                let i = choose|i: int| 0 <= i < ops.drop_first().len() && (#[trigger] ops.drop_first()[i]).0
                    == rest[j - here.len()]->Start_0;
                assert(ops.drop_first()[i] == ops[i + 1]);
            }
        }
    } else {
        let k2 = k - here.len();
        assert(es[k] == rest[k2]);
        lemma_script_starts_last(st, (index + n) as u32, ops.drop_first(), k2);
        assert forall|j: int| k < j < es.len() implies !(#[trigger] es[j] matches ModeEvent::Start(o2, _) && o2
            == es[k]->Start_0) by {
            assert(es[j] == rest[j - here.len()]);
        }
    }
}

} // verus!
