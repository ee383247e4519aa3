//! Collects the raw bytes of every string shown in the message box.
use vstd::prelude::*;

use crate::snr::operation::arena::{element_at, element_values, elements_readable, position_start, OperationArena};
use crate::snr::operation::repr::{ElementValue, OperationElementRepr};
use crate::snr::operation::schema::{Command, Opcode, OperationSchema};
use crate::snr::reactor::{
    command_string_source, reacted_all, source_is_for_messagebox, Reactor, StringArraySource, StringSource,
};

verus! {

/// The string source of an operation, given the value of its first element.
pub open spec fn operation_string_source(opcode: Opcode, first: ElementValue) -> Option<StringSource> {
    match opcode {
        Opcode::Instruction(_) => None,
        Opcode::Command(cmd) => command_string_source(cmd, first),
    }
}

/// Whether a string or string array among `vs` would have no known source.
pub open spec fn sources_known(opcode: Opcode, first: ElementValue, vs: Seq<ElementValue>) -> bool {
    forall|i: int|
        0 <= i < vs.len() ==> match #[trigger] vs[i] {
            ElementValue::String(_, _) => operation_string_source(opcode, first) is Some,
            ElementValue::StringArray(_, _) => opcode == Opcode::Command(Command::SELECT),
            _ => true,
        }
}

/// The bytes of the message-box strings among `vs`.
pub open spec fn dumped(opcode: Opcode, first: ElementValue, vs: Seq<ElementValue>) -> Seq<u8>
    decreases vs.len(),
{
    if vs.len() == 0 {
        Seq::empty()
    } else {
        dumped(opcode, first, vs.drop_last()) + match vs.last() {
            ElementValue::String(_, s) => if operation_string_source(opcode, first) matches Some(src)
                && source_is_for_messagebox(src) {
                s
            } else {
                Seq::empty()
            },
            _ => Seq::empty(),
        }
    }
}

/// Appends the bytes of every string shown in the message box to its writer.
pub struct DumpBinReactor {
    writer: Vec<u8>,
}

impl DumpBinReactor {
    /// The bytes written so far.
    pub closed spec fn written(&self) -> Seq<u8> {
        self.writer@
    }

    pub fn new(writer: Vec<u8>) -> (r: Self)
        ensures
            r.written() == writer@,
    {
        Self { writer }
    }

    /// The bytes written.
    pub fn into_writer(self) -> (r: Vec<u8>)
        ensures
            r@ == self.written(),
    {
        self.writer
    }
}

/// The message-box bytes of one operation whose elements hold `values`.
pub open spec fn dumped_operation(opcode: Opcode, values: Seq<ElementValue>) -> Seq<u8> {
    if values.len() > 0 {
        dumped(opcode, values[0], values)
    } else {
        Seq::empty()
    }
}

/// The message-box bytes of the operations `ops`, one after the other.
pub open spec fn dumped_script(ops: Seq<(u32, u8, Opcode, Seq<ElementValue>)>) -> Seq<u8>
    decreases ops.len(),
{
    if ops.len() == 0 {
        Seq::empty()
    } else {
        dumped_operation(ops[0].2, ops[0].3) + dumped_script(ops.drop_first())
    }
}

impl Reactor for DumpBinReactor {
    /// Every string must have a source: a string belongs to a command with a string
    /// operand (a message's first element being a 32-bit value), a string array to a
    /// selection.
    open spec fn accepts(&self, position: u32, raw_opcode: u8, opcode: Opcode, values: Seq<ElementValue>) -> bool {
        values.len() > 0 ==> {
            &&& sources_known(opcode, values[0], values)
            &&& opcode == Opcode::Command(Command::MSGSET) ==> values[0] is U32
        }
    }

    open spec fn reacted(
        self,
        before: Self,
        position: u32,
        raw_opcode: u8,
        opcode: Opcode,
        values: Seq<ElementValue>,
    ) -> bool {
        self.written() == before.written() + dumped_operation(opcode, values)
    }

    open spec fn can_end(&self) -> bool {
        true
    }

    open spec fn ended(self, before: Self) -> bool {
        self.written() == before.written()
    }

    /// Writes the message-box strings of one operation.
    fn react(
        &mut self,
        _operation_position: u32,
        _raw_opcode: u8,
        opcode: Opcode,
        op_schema: &OperationSchema,
        arena: &OperationArena,
    )
    {
        if op_schema.elements.len() == 0 {
            return;
        }
        let ghost first = element_at(arena@, position_start(), op_schema.elements@[0]).0;
        let ghost all = element_values(arena@, position_start(), op_schema.elements@);
        assert(all[0] == first);
        let ghost start = self.writer@;
        let ghost mut seen: Seq<ElementValue> = Seq::empty();
        let mut iter = arena.iter(op_schema);
        proof {
            assert(seen + all =~= all);
            assert(start + dumped(opcode, first, seen) =~= start);
        }
        loop
            invariant
                iter.arena_view() == arena@,
                elements_readable(arena@, iter.position_view(), iter.remaining()),
                all == seen + element_values(arena@, iter.position_view(), iter.remaining()),
                all == element_values(arena@, position_start(), op_schema.elements@),
                op_schema.elements@.len() > 0,
                elements_readable(arena@, position_start(), op_schema.elements@),
                first == element_at(arena@, position_start(), op_schema.elements@[0]).0,
                sources_known(opcode, first, all),
                opcode == Opcode::Command(Command::MSGSET) ==> first is U32,
                self.writer@ == start + dumped(opcode, first, seen),
            ensures
                self.writer@ == start + dumped(opcode, first, all),
            decreases iter.remaining().len(),
        {
            let element = match iter.next() {
                Some(e) => e,
                None => {
                    assert(all =~= seen);
                    break;
                },
            };
            let ghost v = element@;
            let ghost k = seen.len() as int;
            assert(all[k] == v);
            match element {
                OperationElementRepr::String(_, string) => {
                    assert(crate::snr::operation::arena::position_fits(arena@, position_start()));
                    let source = match StringSource::for_operation(opcode, op_schema, arena) {
                        Some(source) => source,
                        None => {
                            assert(false);
                            StringSource::Saveinfo
                        },
                    };
                    if source.is_for_messagebox() {
                        let ghost before = self.writer@;
                        self.writer.extend_from_slice(string);
                    }
                },
                OperationElementRepr::StringArray(_, _string_array) => {
                    let source = StringArraySource::for_operation(opcode, op_schema, arena);
                    assert(source is Some);
                },
                _ => {},
            }
            proof {
                assert(seen.push(v).drop_last() =~= seen);
                seen = seen.push(v);
                assert(all =~= seen + element_values(arena@, iter.position_view(), iter.remaining()));
                assert(self.writer@ =~= start + dumped(opcode, first, seen));
            }
        }
    }

    fn end_of_stream(&mut self) {
    }
}

/// Running the pass over a whole script writes the message-box bytes of its operations,
/// one after the other.
pub proof fn lemma_dump_script(last: DumpBinReactor, first: DumpBinReactor, ops: Seq<(u32, u8, Opcode, Seq<ElementValue>)>)
    requires
        reacted_all(last, first, ops),
    ensures
        last.written() == first.written() + dumped_script(ops),
    decreases ops.len(),
{
    if ops.len() == 0 {
        assert(first.written() + Seq::<u8>::empty() =~= first.written());
    } else {
        let next = choose|next: DumpBinReactor|
            #[trigger] next.reacted(first, ops[0].0, ops[0].1, ops[0].2, ops[0].3) && reacted_all(last, next, ops.drop_first());
        lemma_dump_script(last, next, ops.drop_first());
        assert(first.written() + dumped_operation(ops[0].2, ops[0].3) + dumped_script(ops.drop_first()) =~= first.written()
            + dumped_script(ops));
    }
}

} // verus!
