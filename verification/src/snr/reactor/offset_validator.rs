//! Checks that every offset used by a script points at the start of an operation.
use vstd::prelude::*;

use std::collections::HashSet;
use vstd::std_specs::iter::IteratorSpec;

use crate::digits::{decimal, hex_fixed, push_decimal, push_hex8};
use crate::snr::layout::message_parser::sink::string_push;
use crate::snr::operation::arena::{element_values, elements_readable, position_start, OperationArena};
use crate::snr::operation::repr::{ElementValue, OperationElementRepr};
use crate::snr::operation::schema::{Opcode, OperationSchema};
use crate::snr::reactor::{reacted_all, Reactor};

verus! {

broadcast use vstd::std_specs::hash::group_hash_axioms;

/// The offsets an element refers to.
pub open spec fn value_offsets(v: ElementValue) -> Set<u32> {
    match v {
        ElementValue::Offset(o) => set![o],
        ElementValue::OffsetArray(_, os) => os.to_set(),
        _ => Set::empty(),
    }
}

/// The offsets a sequence of elements refers to.
pub open spec fn offsets_in(vs: Seq<ElementValue>) -> Set<u32>
    decreases vs.len(),
{
    if vs.len() == 0 {
        Set::empty()
    } else {
        offsets_in(vs.drop_last()) + value_offsets(vs.last())
    }
}

/// The line that lists one invalid offset.
pub open spec fn offset_line(o: u32) -> Seq<char> {
    seq!['-', ' ', '0', 'x'] + hex_fixed(o as nat, 8) + seq!['\n']
}

/// The lines that list invalid offsets.
pub open spec fn offset_lines(os: Seq<u32>) -> Seq<char>
    decreases os.len(),
{
    if os.len() == 0 {
        Seq::empty()
    } else {
        offset_lines(os.drop_last()) + offset_line(os.last())
    }
}

/// The report on invalid offsets: their number, the first 32 of them, an ellipsis where
/// there are more, without the last newline.
pub open spec fn invalid_offsets_message(os: Seq<u32>) -> Seq<char> {
    let shown = if os.len() < 32 {
        os.len() as int
    } else {
        32
    };
    let text = decimal(os.len()) + " invalid offsets\n"@ + offset_lines(os.take(shown)) + (if os.len() > 32 {
        "...\n"@
    } else {
        Seq::empty()
    });
    text.drop_last()
}

/// Collects the start of each operation and each offset used by an operation.
pub struct OffsetValidatorReactor {
    referred_offsets: HashSet<u32>,
    operation_offsets: HashSet<u32>,
}

impl OffsetValidatorReactor {
    /// The offsets used by the operations seen.
    pub closed spec fn referred(&self) -> Set<u32> {
        self.referred_offsets@
    }

    /// The starts of the operations seen.
    pub closed spec fn operations(&self) -> Set<u32> {
        self.operation_offsets@
    }

    pub fn new() -> (r: Self)
        ensures
            r.referred() == Set::<u32>::empty(),
            r.operations() == Set::<u32>::empty(),
    {
        Self { referred_offsets: HashSet::new(), operation_offsets: HashSet::new() }
    }

    /// `Ok` where every used offset starts an operation; otherwise a report that counts the
    /// offsets that do not and lists the first 32 of them, in no particular order.
    pub fn validate(self) -> (r: Result<(), String>)
        ensures
            r is Ok <==> self.referred().subset_of(self.operations()),
            r matches Err(m) ==> exists|os: Seq<u32>|
                #![auto]
                os.no_duplicates() && os.to_set() == self.referred().difference(self.operations())
                    && m@ == invalid_offsets_message(os),
    {
        let mut invalid_offsets: Vec<u32> = Vec::new();
        proof {
            let rem = vstd::std_specs::hash::spec_hash_keys_iter(&self.referred_offsets).remaining();
            assert forall|j: int| 0 <= j < rem.len() implies self.referred_offsets@.contains(*(#[trigger] rem[j])) by {
                assert(rem.unref()[j] == *rem[j]);
                assert(rem.unref().to_set().contains(rem.unref()[j]));
            }
            assert forall|x: u32| #[trigger] self.referred_offsets@.contains(x) implies exists|j: int|
                0 <= j < rem.len() && *(#[trigger] rem[j]) == x by {
                assert(rem.unref().to_set().contains(x));
                let i = rem.unref().index_of(x);
                assert(*rem[i] == x);
            }
        }
        for offset in it: self.referred_offsets.iter()
            invariant
                forall|i: int| 0 <= i < invalid_offsets@.len() ==> self.referred_offsets@.contains(
                    #[trigger] invalid_offsets@[i],
                ) && !self.operation_offsets@.contains(invalid_offsets@[i]),
                forall|x: u32| #[trigger]
                    self.referred_offsets@.contains(x) && !self.operation_offsets@.contains(x)
                        ==> invalid_offsets@.contains(x) || exists|j: int|
                        it.index() <= j < it.seq().len() && *(#[trigger] it.seq()[j]) == x,
                forall|j: int| 0 <= j < it.seq().len() ==> self.referred_offsets@.contains(*(#[trigger] it.seq()[j])),
                it.seq().no_duplicates(),
                invalid_offsets@.no_duplicates(),
                forall|i: int, j: int|
                    0 <= i < invalid_offsets@.len() && it.index() <= j < it.seq().len() ==> *(#[trigger] it.seq()[j])
                        != #[trigger] invalid_offsets@[i],
        {
            let ghost i0 = it.index();
            let ghost old_inv = invalid_offsets@;
            assert(*it.seq()[i0] == *offset);
            if !self.operation_offsets.contains(offset) {
                invalid_offsets.push(*offset);
                proof {
                    assert forall|i: int, k: int| 0 <= i < k < invalid_offsets@.len() implies invalid_offsets@[i]
                        != invalid_offsets@[k] by {
                        if k == old_inv.len() {
                            assert(*it.seq()[i0] != old_inv[i]);
                        } else {
                            assert(old_inv[i] != old_inv[k]);
                        }
                    }
                }
            }
            proof {
                assert forall|i: int, j: int|
                    0 <= i < invalid_offsets@.len() && i0 + 1 <= j < it.seq().len() implies *(#[trigger] it.seq()[j])
                        != #[trigger] invalid_offsets@[i] by {
                    if i == old_inv.len() {
                        assert(it.seq()[j] != it.seq()[i0]);
                    } else {
                        assert(invalid_offsets@[i] == old_inv[i]);
                    }
                }
            }
            proof {
                assert forall|x: u32| #[trigger]
                    self.referred_offsets@.contains(x) && !self.operation_offsets@.contains(x) implies invalid_offsets@.contains(x)
                    || exists|j: int| i0 + 1 <= j < it.seq().len() && *(#[trigger] it.seq()[j]) == x by {
                    if !invalid_offsets@.contains(x) {
                        assert(!old_inv.contains(x)) by {
                            if old_inv.contains(x) {
                                let i = old_inv.index_of(x);
                                assert(invalid_offsets@[i] == x);
                            }
                        }
                        let j = choose|j: int| i0 <= j < it.seq().len() && *(#[trigger] it.seq()[j]) == x;
                        if j == i0 {
                            assert(invalid_offsets@.last() == x);
                        }
                    }
                }
            }
        }
        if invalid_offsets.len() == 0 {
            proof {
                assert forall|x: u32| self.referred_offsets@.contains(x) implies self.operation_offsets@.contains(x) by {
                    if !self.operation_offsets@.contains(x) {
                        assert(invalid_offsets@.contains(x));
                    }
                }
            }
            return Ok(());
        }
        let ghost os = invalid_offsets@;
        proof {
            assert(os.to_set() =~= self.referred().difference(self.operations())) by {
                assert forall|x: u32| os.to_set().contains(x) implies self.referred().difference(self.operations()).contains(x) by {
                    let i = os.index_of(x);
                }
            }
            assert(os.to_set().contains(os[0]));
        }
        let count = invalid_offsets.len();
        let mut err = String::new();
        push_decimal(&mut err, count as u64);
        let header = " invalid offsets";
        proof {
            reveal_strlit(" invalid offsets");
            reveal_strlit(" invalid offsets\n");
            assert(Seq::<char>::empty() + decimal(count as nat) + header@ + seq!['\n'] =~= decimal(count as nat)
                + " invalid offsets\n"@ + offset_lines(os.take(0)));
        }
        err.append(header);
        let mut k: usize = 0;
        while k < count && k < 32
            invariant
                count == os.len(),
                os == invalid_offsets@,
                k <= count,
                k <= 32,
                err@ + seq!['\n'] == decimal(os.len() as nat) + " invalid offsets\n"@ + offset_lines(
                    os.take(k as int),
                ),
            decreases 32 - k,
        {
            let ghost before = err@;
            string_push(&mut err, '\n');
            let dash = "- 0x";
            proof {
                reveal_strlit("- 0x");
            }
            err.append(dash);
            push_hex8(&mut err, invalid_offsets[k]);
            proof {
                assert(os.take(k + 1).drop_last() =~= os.take(k as int));
                assert(os.take(k + 1).last() == os[k as int]);
                assert(err@ + seq!['\n'] =~= before + seq!['\n'] + offset_line(os[k as int]));
            }
            k = k + 1;
        }
        let ghost lines_part = err@;
        if count > 32 {
            let dots = "\n...";
            proof {
                reveal_strlit("\n...");
                reveal_strlit("...\n");
                assert(err@ + dots@ + seq!['\n'] =~= err@ + seq!['\n'] + "...\n"@);
            }
            err.append(dots);
        }
        proof {
            let shown = if os.len() < 32 {
                os.len() as int
            } else {
                32
            };
            assert(k == shown);
            let text = decimal(os.len()) + " invalid offsets\n"@ + offset_lines(os.take(shown)) + (if os.len() > 32 {
                "...\n"@
            } else {
                Seq::empty()
            });
            assert(text =~= err@ + seq!['\n']);
            assert(text.drop_last() =~= err@);
        }
        Err(err)
    }
}


/// The starts of the operations `ops`.
pub open spec fn op_positions(ops: Seq<(u32, u8, Opcode, Seq<ElementValue>)>) -> Set<u32>
    decreases ops.len(),
{
    if ops.len() == 0 {
        Set::empty()
    } else {
        op_positions(ops.drop_first()).insert(ops[0].0)
    }
}

/// The offsets used by the operations `ops`.
pub open spec fn op_offsets(ops: Seq<(u32, u8, Opcode, Seq<ElementValue>)>) -> Set<u32>
    decreases ops.len(),
{
    if ops.len() == 0 {
        Set::empty()
    } else {
        offsets_in(ops[0].3) + op_offsets(ops.drop_first())
    }
}

impl Reactor for OffsetValidatorReactor {
    open spec fn accepts(&self, position: u32, raw_opcode: u8, opcode: Opcode, values: Seq<ElementValue>) -> bool {
        true
    }

    open spec fn can_end(&self) -> bool {
        true
    }

    open spec fn reacted(
        self,
        before: Self,
        position: u32,
        raw_opcode: u8,
        opcode: Opcode,
        values: Seq<ElementValue>,
    ) -> bool {
        &&& self.operations() == before.operations().insert(position)
        &&& self.referred() == before.referred() + offsets_in(values)
    }

    open spec fn ended(self, before: Self) -> bool {
        self.operations() == before.operations() && self.referred() == before.referred()
    }

    /// Records the operation at `operation_position` and the offsets among its elements.
    fn react(
        &mut self,
        operation_position: u32,
        _raw_opcode: u8,
        _opcode: Opcode,
        op_schema: &OperationSchema,
        arena: &OperationArena,
    )
    {
        self.operation_offsets.insert(operation_position);
        let ghost all = element_values(arena@, position_start(), op_schema.elements@);
        let ghost start = self.referred_offsets@;
        let ghost mut seen: Seq<ElementValue> = Seq::empty();
        let mut iter = arena.iter(op_schema);
        proof {
            assert(seen + all =~= all);
            assert(start + offsets_in(seen) =~= start);
        }
        loop
            invariant
                iter.arena_view() == arena@,
                elements_readable(arena@, iter.position_view(), iter.remaining()),
                all == seen + element_values(arena@, iter.position_view(), iter.remaining()),
                self.referred_offsets@ == start + offsets_in(seen),
                self.operation_offsets@ == old(self).operations().insert(operation_position),
            ensures
                self.referred_offsets@ == start + offsets_in(all),
                self.operation_offsets@ == old(self).operations().insert(operation_position),
            decreases iter.remaining().len(),
        {
            let ghost before = iter;
            let element = match iter.next() {
                Some(e) => e,
                None => {
                    assert(all =~= seen);
                    break;
                },
            };
            let ghost v = element@;
            match element {
                OperationElementRepr::Offset(offset) => {
                    self.referred_offsets.insert(offset);
                },
                OperationElementRepr::OffsetArray(_, offsets) => {
                    let mut k: usize = 0;
                    let ghost base = self.referred_offsets@;
                    let ghost ops = self.operation_offsets@;
                    while k < offsets.len()
                        invariant
                            k <= offsets@.len(),
                            self.operation_offsets@ == ops,
                            self.referred_offsets@ == base + offsets@.take(k as int).to_set(),
                        decreases offsets@.len() - k,
                    {
                        self.referred_offsets.insert(offsets[k]);
                        proof {
                            assert(offsets@.take(k + 1) =~= offsets@.take(k as int).push(offsets@[k as int]));
                            offsets@.take(k as int).lemma_push_to_set_commute(offsets@[k as int]);
                        }
                        k = k + 1;
                    }
                    proof {
                        assert(offsets@.take(k as int) =~= offsets@);
                    }
                },
                _ => {},
            }
            proof {
                assert(seen.push(v).drop_last() =~= seen);
                seen = seen.push(v);
                assert(all =~= seen + element_values(arena@, iter.position_view(), iter.remaining()));
                assert(self.referred_offsets@ =~= start + offsets_in(seen));
            }
        }
    }

    fn end_of_stream(&mut self) {
    }
}

/// Running the validator over a whole script records the start of every operation and
/// every offset that an operation uses.
pub proof fn lemma_validate_script(
    last: OffsetValidatorReactor,
    first: OffsetValidatorReactor,
    ops: Seq<(u32, u8, Opcode, Seq<ElementValue>)>,
)
    requires
        reacted_all(last, first, ops),
    ensures
        last.operations() == first.operations() + op_positions(ops),
        last.referred() == first.referred() + op_offsets(ops),
    decreases ops.len(),
{
    if ops.len() == 0 {
        assert(first.operations() + Set::<u32>::empty() =~= first.operations());
        assert(first.referred() + Set::<u32>::empty() =~= first.referred());
    } else {
        let next = choose|next: OffsetValidatorReactor|
            #[trigger] next.reacted(first, ops[0].0, ops[0].1, ops[0].2, ops[0].3) && reacted_all(last, next, ops.drop_first());
        lemma_validate_script(last, next, ops.drop_first());
        assert(first.operations().insert(ops[0].0) + op_positions(ops.drop_first()) =~= first.operations() + op_positions(ops));
        assert(first.referred() + offsets_in(ops[0].3) + op_offsets(ops.drop_first()) =~= first.referred() + op_offsets(ops));
    }
}

} // verus!
