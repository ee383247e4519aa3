//! The decoded value of one operation element.
use vstd::prelude::*;

use crate::digits::{
    decimal, hex_lower, hex_upper_prefixed, joined, push_decimal_u8, push_hex_upper_prefixed,
};
use crate::snr::layout::message_parser::sink::string_push;
use crate::snr::operation::arena::{Number, Offset, Register};
use crate::versions::LengthKind;

use hex_slice::AsHex;

verus! {

/// How the numbers of a number array are stored.
#[derive(Debug, Copy, Clone, PartialEq, Eq, Structural)]
pub enum NumberArrayKind {
    /// Each number in its compact encoding.
    Dense,
    /// Each number padded to a fixed width.
    Padded,
}

/// The value of one element of an operation, borrowing from the arena and the script.
pub enum OperationElementRepr<'a, 'snr> {
    U8(u8),
    U16(u16),
    U32(u32),
    Operation(u8),
    Condition(u8),
    Expression(&'a [u8], &'a [Number]),
    Register(Register),
    RegisterArray(LengthKind, &'a [Register]),
    Offset(Offset),
    OffsetArray(LengthKind, &'a [Offset]),
    Number(Number),
    OptionalNumber(Option<Number>),
    NumberArray(LengthKind, NumberArrayKind, &'a [Number]),
    BitmaskNumberArray(u8, &'a [Number]),
    String(LengthKind, &'snr [u8]),
    StringArray(LengthKind, &'snr [u8]),
    HiguSuiWipeArg(u8, u8, &'a [Number]),
}

/// The mathematical value of an operation element.
pub enum ElementValue {
    U8(u8),
    U16(u16),
    U32(u32),
    Operation(u8),
    Condition(u8),
    Expression(Seq<u8>, Seq<u32>),
    Register(u16),
    RegisterArray(LengthKind, Seq<u16>),
    Offset(u32),
    OffsetArray(LengthKind, Seq<u32>),
    Number(u32),
    OptionalNumber(Option<u32>),
    NumberArray(LengthKind, NumberArrayKind, Seq<u32>),
    BitmaskNumberArray(u8, Seq<u32>),
    String(LengthKind, Seq<u8>),
    StringArray(LengthKind, Seq<u8>),
    HiguSuiWipeArg(u8, u8, Seq<u32>),
}

impl<'a, 'snr> View for OperationElementRepr<'a, 'snr> {
    type V = ElementValue;

    open spec fn view(&self) -> ElementValue {
        match *self {
            OperationElementRepr::U8(v) => ElementValue::U8(v),
            OperationElementRepr::U16(v) => ElementValue::U16(v),
            OperationElementRepr::U32(v) => ElementValue::U32(v),
            OperationElementRepr::Operation(v) => ElementValue::Operation(v),
            OperationElementRepr::Condition(v) => ElementValue::Condition(v),
            OperationElementRepr::Expression(t, n) => ElementValue::Expression(t@, n@),
            OperationElementRepr::Register(v) => ElementValue::Register(v),
            OperationElementRepr::RegisterArray(k, r) => ElementValue::RegisterArray(k, r@),
            OperationElementRepr::Offset(v) => ElementValue::Offset(v),
            OperationElementRepr::OffsetArray(k, o) => ElementValue::OffsetArray(k, o@),
            OperationElementRepr::Number(v) => ElementValue::Number(v),
            OperationElementRepr::OptionalNumber(v) => ElementValue::OptionalNumber(v),
            OperationElementRepr::NumberArray(k, a, n) => ElementValue::NumberArray(k, a, n@),
            OperationElementRepr::BitmaskNumberArray(m, n) => ElementValue::BitmaskNumberArray(
                m,
                n@,
            ),
            OperationElementRepr::String(k, s) => ElementValue::String(k, s@),
            OperationElementRepr::StringArray(k, s) => ElementValue::StringArray(k, s@),
            OperationElementRepr::HiguSuiWipeArg(b1, b2, n) => ElementValue::HiguSuiWipeArg(
                b1,
                b2,
                n@,
            ),
        }
    }
}

/// A number as `0x` and eight upper-case hexadecimal digits.
pub open spec fn number_text(n: u32) -> Seq<char> {
    hex_upper_prefixed(n as nat, 10)
}

/// A register as `0x` and four upper-case hexadecimal digits.
pub open spec fn register_text(r: u16) -> Seq<char> {
    hex_upper_prefixed(r as nat, 6)
}

/// An offset as `0x` and at least six upper-case hexadecimal digits.
pub open spec fn offset_text(o: u32) -> Seq<char> {
    hex_upper_prefixed(o as nat, 8)
}

/// An expression code as `0x` and its upper-case hexadecimal digits.
pub open spec fn code_text(c: u8) -> Seq<char> {
    hex_upper_prefixed(c as nat, 2)
}

/// Bytes in brackets, each as lower-case hexadecimal digits, separated by spaces.
pub open spec fn hex_list(bytes: Seq<u8>) -> Seq<char> {
    seq!['['] + hex_list_inner(bytes) + seq![']']
}

/// Bytes as lower-case hexadecimal digits separated by spaces.
pub open spec fn hex_list_inner(bytes: Seq<u8>) -> Seq<char>
    decreases bytes.len(),
{
    if bytes.len() == 0 {
        Seq::empty()
    } else if bytes.len() == 1 {
        hex_lower(bytes[0] as nat)
    } else {
        hex_list_inner(bytes.drop_last()) + seq![' '] + hex_lower(bytes.last() as nat)
    }
}

/// The debugging text of an element value.
pub open spec fn element_text(v: ElementValue) -> Seq<char> {
    match v {
        ElementValue::U8(x) => hex_upper_prefixed(x as nat, 4) + seq!['u', '8'],
        ElementValue::U16(x) => hex_upper_prefixed(x as nat, 6) + seq!['u', '1', '6'],
        ElementValue::U32(x) => hex_upper_prefixed(x as nat, 10) + seq!['u', '3', '2'],
        ElementValue::Operation(x) => decimal(x as nat) + seq!['o', 'p'],
        ElementValue::Condition(x) => decimal(x as nat) + seq!['c', 'd'],
        ElementValue::Expression(codes, numbers) => seq!['e', 'x', 'p', '{', '['] + joined(
            codes.map_values(|c: u8| code_text(c)),
        ) + seq![']', '/', '['] + joined(numbers.map_values(|n: u32| number_text(n))) + seq![']', '}'],
        ElementValue::Register(r) => register_text(r) + seq!['r'],
        ElementValue::RegisterArray(_, rs) => seq!['r', '['] + joined(rs.map_values(|r: u16| register_text(r)))
            + seq![']'],
        ElementValue::Offset(o) => offset_text(o) + seq!['j'],
        ElementValue::OffsetArray(_, os) => seq!['j', '['] + joined(os.map_values(|o: u32| offset_text(o)))
            + seq![']'],
        ElementValue::Number(n) => number_text(n) + seq!['r', 'n'],
        ElementValue::OptionalNumber(on) => match on {
            Some(n) => number_text(n) + seq!['r', 'o', 'n'],
            None => seq!['<', '>', 'r', 'o', 'n'],
        },
        ElementValue::NumberArray(_, _, ns) => seq!['r', 'n', '['] + joined(ns.map_values(|n: u32| number_text(n)))
            + seq![']'],
        ElementValue::BitmaskNumberArray(mask, ns) => seq!['b', 'm', '{'] + hex_upper_prefixed(mask as nat, 1)
            + seq!['/', '['] + joined(ns.map_values(|n: u32| number_text(n))) + seq![']', '}'],
        ElementValue::String(_, s) => seq!['s'] + hex_list(s),
        ElementValue::StringArray(_, s) => seq!['s', 'a'] + hex_list(s),
        ElementValue::HiguSuiWipeArg(b1, b2, ns) => "higu_sui_wipe{b1: "@ + hex_upper_prefixed(b1 as nat, 4)
            + ", b2: "@ + hex_upper_prefixed(b2 as nat, 4) + ", numbers: ["@ + joined(
            ns.map_values(|n: u32| number_text(n)),
        ) + seq![']', '}'],
    }
}

/// `format!("{:x}", bytes.as_hex())` of the `hex_slice` crate: the bytes in brackets, each in
/// lower-case hexadecimal digits without padding, separated by spaces.
#[verifier::external_body]
fn hex_slice_text(bytes: &[u8]) -> (r: String)
    ensures
        r@ == hex_list(bytes@),
{
    format!("{:x}", bytes.as_hex())
}

/// Items written one after the other, separated by `, `.
pub struct SeqFmt {
    items: Vec<String>,
}

impl SeqFmt {
    /// The texts of the items.
    pub closed spec fn items(&self) -> Seq<Seq<char>> {
        self.items@.map_values(|s: String| s@)
    }

    pub fn new(items: Vec<String>) -> (r: Self)
        ensures
            r.items() == items@.map_values(|s: String| s@),
    {
        SeqFmt { items }
    }

    /// Appends the items separated by `, `.
    pub fn write_to(&self, out: &mut String)
        ensures
            final(out)@ == old(out)@ + joined(self.items()),
    {
        let mut i: usize = 0;
        let ghost start = out@;
        while i < self.items.len()
            invariant
                i <= self.items@.len(),
                out@ == start + joined(self.items().take(i as int)),
            decreases self.items@.len() - i,
        {
            let ghost before = out@;
            if i != 0 {
                string_push(out, ',');
                string_push(out, ' ');
            }
            out.append(self.items[i].as_str());
            proof {
                let t = self.items().take(i + 1);
                assert(t.drop_last() =~= self.items().take(i as int));
                assert(t.last() == self.items[i as int]@);
                if i == 0 {
                    assert(self.items().take(0) =~= Seq::<Seq<char>>::empty());
                    assert(out@ =~= start + joined(t));
                } else {
                    assert(out@ =~= start + joined(t));
                }
            }
            i = i + 1;
        }
        proof {
            assert(self.items().take(i as int) =~= self.items());
        }
    }
}

/// The texts of numbers.
fn number_texts(values: &[Number]) -> (r: Vec<String>)
    ensures
        r@.map_values(|s: String| s@) == values@.map_values(|n: u32| number_text(n)),
{
    let mut out: Vec<String> = Vec::new();
    let mut i: usize = 0;
    while i < values.len()
        invariant
            i <= values@.len(),
            out@.map_values(|s: String| s@) == values@.take(i as int).map_values(|n: u32| number_text(n)),
        decreases values@.len() - i,
    {
        let mut t = String::new();
        push_hex_upper_prefixed(&mut t, values[i], 10);
        let ghost prev = out@;
        assert(t@ =~= number_text(values@[i as int]));
        out.push(t);
        proof {
            assert(values@.take(i + 1) =~= values@.take(i as int).push(values@[i as int]));
            assert(out@.map_values(|s: String| s@) =~= prev.map_values(|s: String| s@).push(
                number_text(values@[i as int]),
            ));
            assert(values@.take(i + 1).map_values(|n: u32| number_text(n)) =~= values@.take(i as int).map_values(
                |n: u32| number_text(n),
            ).push(number_text(values@[i as int])));
        }
        i = i + 1;
    }
    assert(values@.take(i as int) =~= values@);
    out
}

/// The texts of registers.
fn register_texts(values: &[Register]) -> (r: Vec<String>)
    ensures
        r@.map_values(|s: String| s@) == values@.map_values(|x: u16| register_text(x)),
{
    let mut out: Vec<String> = Vec::new();
    let mut i: usize = 0;
    while i < values.len()
        invariant
            i <= values@.len(),
            out@.map_values(|s: String| s@) == values@.take(i as int).map_values(|x: u16| register_text(x)),
        decreases values@.len() - i,
    {
        let mut t = String::new();
        push_hex_upper_prefixed(&mut t, values[i] as u32, 6);
        let ghost prev = out@;
        assert(t@ =~= register_text(values@[i as int]));
        out.push(t);
        proof {
            assert(values@.take(i + 1) =~= values@.take(i as int).push(values@[i as int]));
            assert(out@.map_values(|s: String| s@) =~= prev.map_values(|s: String| s@).push(
                register_text(values@[i as int]),
            ));
            assert(values@.take(i + 1).map_values(|x: u16| register_text(x)) =~= values@.take(i as int).map_values(
                |x: u16| register_text(x),
            ).push(register_text(values@[i as int])));
        }
        i = i + 1;
    }
    assert(values@.take(i as int) =~= values@);
    out
}

/// The texts of offsets.
fn offset_texts(values: &[Offset]) -> (r: Vec<String>)
    ensures
        r@.map_values(|s: String| s@) == values@.map_values(|o: u32| offset_text(o)),
{
    let mut out: Vec<String> = Vec::new();
    let mut i: usize = 0;
    while i < values.len()
        invariant
            i <= values@.len(),
            out@.map_values(|s: String| s@) == values@.take(i as int).map_values(|o: u32| offset_text(o)),
        decreases values@.len() - i,
    {
        let mut t = String::new();
        push_hex_upper_prefixed(&mut t, values[i], 8);
        let ghost prev = out@;
        assert(t@ =~= offset_text(values@[i as int]));
        out.push(t);
        proof {
            assert(values@.take(i + 1) =~= values@.take(i as int).push(values@[i as int]));
            assert(out@.map_values(|s: String| s@) =~= prev.map_values(|s: String| s@).push(
                offset_text(values@[i as int]),
            ));
            assert(values@.take(i + 1).map_values(|o: u32| offset_text(o)) =~= values@.take(i as int).map_values(
                |o: u32| offset_text(o),
            ).push(offset_text(values@[i as int])));
        }
        i = i + 1;
    }
    assert(values@.take(i as int) =~= values@);
    out
}

/// The texts of expression codes.
fn code_texts(values: &[u8]) -> (r: Vec<String>)
    ensures
        r@.map_values(|s: String| s@) == values@.map_values(|c: u8| code_text(c)),
{
    let mut out: Vec<String> = Vec::new();
    let mut i: usize = 0;
    while i < values.len()
        invariant
            i <= values@.len(),
            out@.map_values(|s: String| s@) == values@.take(i as int).map_values(|c: u8| code_text(c)),
        decreases values@.len() - i,
    {
        let mut t = String::new();
        push_hex_upper_prefixed(&mut t, values[i] as u32, 2);
        let ghost prev = out@;
        assert(t@ =~= code_text(values@[i as int]));
        out.push(t);
        proof {
            assert(values@.take(i + 1) =~= values@.take(i as int).push(values@[i as int]));
            assert(out@.map_values(|s: String| s@) =~= prev.map_values(|s: String| s@).push(
                code_text(values@[i as int]),
            ));
            assert(values@.take(i + 1).map_values(|c: u8| code_text(c)) =~= values@.take(i as int).map_values(
                |c: u8| code_text(c),
            ).push(code_text(values@[i as int])));
        }
        i = i + 1;
    }
    assert(values@.take(i as int) =~= values@);
    out
}

/// Appends a list of texts separated by `, `.
fn push_list(out: &mut String, items: Vec<String>)
    ensures
        final(out)@ == old(out)@ + joined(items@.map_values(|s: String| s@)),
{
    let f = SeqFmt::new(items);
    f.write_to(out);
}

/// Appends the characters of a literal.
fn push_text(out: &mut String, text: &str)
    ensures
        final(out)@ == old(out)@ + text@,
{
    out.append(text);
}

impl<'a, 'snr> OperationElementRepr<'a, 'snr> {
    /// The debugging text of this element: its value in the notation of the element kind.
    pub fn debug_string(&self) -> (r: String)
        ensures
            r@ == element_text(self@),
    {
        let mut f = String::new();
        match *self {
            OperationElementRepr::U8(v) => {
                push_hex_upper_prefixed(&mut f, v as u32, 4);
                string_push(&mut f, 'u');
                string_push(&mut f, '8');
            },
            OperationElementRepr::U16(v) => {
                push_hex_upper_prefixed(&mut f, v as u32, 6);
                string_push(&mut f, 'u');
                string_push(&mut f, '1');
                string_push(&mut f, '6');
            },
            OperationElementRepr::U32(v) => {
                push_hex_upper_prefixed(&mut f, v, 10);
                string_push(&mut f, 'u');
                string_push(&mut f, '3');
                string_push(&mut f, '2');
            },
            OperationElementRepr::Operation(op) => {
                push_decimal_u8(&mut f, op);
                string_push(&mut f, 'o');
                string_push(&mut f, 'p');
            },
            OperationElementRepr::Condition(cond) => {
                push_decimal_u8(&mut f, cond);
                string_push(&mut f, 'c');
                string_push(&mut f, 'd');
            },
            OperationElementRepr::Expression(tokens, numbers) => {
                string_push(&mut f, 'e');
                string_push(&mut f, 'x');
                string_push(&mut f, 'p');
                string_push(&mut f, '{');
                string_push(&mut f, '[');
                push_list(&mut f, code_texts(tokens));
                string_push(&mut f, ']');
                string_push(&mut f, '/');
                string_push(&mut f, '[');
                push_list(&mut f, number_texts(numbers));
                string_push(&mut f, ']');
                string_push(&mut f, '}');
            },
            OperationElementRepr::Register(reg) => {
                push_hex_upper_prefixed(&mut f, reg as u32, 6);
                string_push(&mut f, 'r');
            },
            OperationElementRepr::RegisterArray(_, regs) => {
                string_push(&mut f, 'r');
                string_push(&mut f, '[');
                push_list(&mut f, register_texts(regs));
                string_push(&mut f, ']');
            },
            OperationElementRepr::Offset(offset) => {
                push_hex_upper_prefixed(&mut f, offset, 8);
                string_push(&mut f, 'j');
            },
            OperationElementRepr::OffsetArray(_, offsets) => {
                string_push(&mut f, 'j');
                string_push(&mut f, '[');
                push_list(&mut f, offset_texts(offsets));
                string_push(&mut f, ']');
            },
            OperationElementRepr::Number(number) => {
                push_hex_upper_prefixed(&mut f, number, 10);
                string_push(&mut f, 'r');
                string_push(&mut f, 'n');
            },
            OperationElementRepr::OptionalNumber(opt_number) => match opt_number {
                Some(number) => {
                    push_hex_upper_prefixed(&mut f, number, 10);
                    string_push(&mut f, 'r');
                    string_push(&mut f, 'o');
                    string_push(&mut f, 'n');
                },
                None => {
                    string_push(&mut f, '<');
                    string_push(&mut f, '>');
                    string_push(&mut f, 'r');
                    string_push(&mut f, 'o');
                    string_push(&mut f, 'n');
                },
            },
            OperationElementRepr::NumberArray(_, _, numbers) => {
                string_push(&mut f, 'r');
                string_push(&mut f, 'n');
                string_push(&mut f, '[');
                push_list(&mut f, number_texts(numbers));
                string_push(&mut f, ']');
            },
            OperationElementRepr::BitmaskNumberArray(mask, numbers) => {
                string_push(&mut f, 'b');
                string_push(&mut f, 'm');
                string_push(&mut f, '{');
                push_hex_upper_prefixed(&mut f, mask as u32, 1);
                string_push(&mut f, '/');
                string_push(&mut f, '[');
                push_list(&mut f, number_texts(numbers));
                string_push(&mut f, ']');
                string_push(&mut f, '}');
            },
            OperationElementRepr::String(_, s) => {
                string_push(&mut f, 's');
                f.append(hex_slice_text(s).as_str());
            },
            OperationElementRepr::StringArray(_, sa) => {
                string_push(&mut f, 's');
                string_push(&mut f, 'a');
                f.append(hex_slice_text(sa).as_str());
            },
            OperationElementRepr::HiguSuiWipeArg(b1, b2, numbers) => {
                let head = "higu_sui_wipe{b1: ";
                let mid = ", b2: ";
                let tail = ", numbers: [";
                push_text(&mut f, head);
                push_hex_upper_prefixed(&mut f, b1 as u32, 4);
                push_text(&mut f, mid);
                push_hex_upper_prefixed(&mut f, b2 as u32, 4);
                push_text(&mut f, tail);
                push_list(&mut f, number_texts(numbers));
                string_push(&mut f, ']');
                string_push(&mut f, '}');
            },
        }
        assert(f@ =~= element_text(self@));
        f
    }
}

} // verus!
