//! A debugging aid that determines the element kind of each byte of a script.
use vstd::prelude::*;

use crate::snr::operation::arena::OperationArena;
use crate::snr::operation::parse::{
    lemma_read_element_len, lemma_read_elements_len, read_element, read_elements, InstructionParseContext,
};
use crate::snr::operation::schema::{EngineSchema, OperationElement};
use crate::snr::reactor::{has_instr_at, script_ops};
use crate::snr::reader::Reader;
use crate::versions::NumberStyle;

verus! {

/// What kind of element a byte of the script belongs to.
#[derive(Debug, Clone, Copy, PartialEq, Eq, Structural)]
pub enum LocationColor {
    Unmarked,
    Opcode,
    U8,
    U16,
    U32,
    Operation,
    Condition,
    Expression,
    Register,
    RegisterArray,
    Offset,
    OffsetArray,
    Number,
    OptionalNumber,
    NumberArray,
    PadNumberArray,
    BitmaskNumberArray,
    String,
    StringArray,
    HiguSuiWipeArg,
}

impl Default for LocationColor {
    fn default() -> (r: Self)
        ensures
            r == LocationColor::Unmarked,
    {
        LocationColor::Unmarked
    }
}

/// The color of the bytes of an element of kind `element`.
pub open spec fn color_of(element: OperationElement) -> LocationColor {
    match element {
        OperationElement::U8 => LocationColor::U8,
        OperationElement::U16 => LocationColor::U16,
        OperationElement::U32 => LocationColor::U32,
        OperationElement::Operation => LocationColor::Operation,
        OperationElement::Condition => LocationColor::Condition,
        OperationElement::Expression => LocationColor::Expression,
        OperationElement::Register => LocationColor::Register,
        OperationElement::RegisterArray(_) => LocationColor::RegisterArray,
        OperationElement::Offset => LocationColor::Offset,
        OperationElement::OffsetArray(_) => LocationColor::OffsetArray,
        OperationElement::Number => LocationColor::Number,
        OperationElement::OptionalNumber => LocationColor::OptionalNumber,
        OperationElement::NumberArray(_) => LocationColor::NumberArray,
        OperationElement::PadNumberArray(_) => LocationColor::PadNumberArray,
        OperationElement::BitmaskNumberArray => LocationColor::BitmaskNumberArray,
        OperationElement::String(_) => LocationColor::String,
        OperationElement::StringArray(_) => LocationColor::StringArray,
        OperationElement::HiguSuiWipeArg => LocationColor::HiguSuiWipeArg,
    }
}

/// The color of the bytes of an element of kind `element`.
pub fn element_color(element: OperationElement) -> (r: LocationColor)
    ensures
        r == color_of(element),
{
    match element {
        OperationElement::U8 => LocationColor::U8,
        OperationElement::U16 => LocationColor::U16,
        OperationElement::U32 => LocationColor::U32,
        OperationElement::Operation => LocationColor::Operation,
        OperationElement::Condition => LocationColor::Condition,
        OperationElement::Expression => LocationColor::Expression,
        OperationElement::Register => LocationColor::Register,
        OperationElement::RegisterArray(_) => LocationColor::RegisterArray,
        OperationElement::Offset => LocationColor::Offset,
        OperationElement::OffsetArray(_) => LocationColor::OffsetArray,
        OperationElement::Number => LocationColor::Number,
        OperationElement::OptionalNumber => LocationColor::OptionalNumber,
        OperationElement::NumberArray(_) => LocationColor::NumberArray,
        OperationElement::PadNumberArray(_) => LocationColor::PadNumberArray,
        OperationElement::BitmaskNumberArray => LocationColor::BitmaskNumberArray,
        OperationElement::String(_) => LocationColor::String,
        OperationElement::StringArray(_) => LocationColor::StringArray,
        OperationElement::HiguSuiWipeArg => LocationColor::HiguSuiWipeArg,
    }
}

/// `colors` with the positions from `start` up to `end` set to `color`.
pub open spec fn fill(colors: Seq<LocationColor>, start: int, end: int, color: LocationColor) -> Seq<LocationColor> {
    Seq::new(colors.len(), |i: int| if start <= i < end { color } else { colors[i] })
}

/// `colors` with the bytes of each of the elements `es`, read one after the other from
/// `pos` of `bytes`, set to the color of its kind; `op` is the last operation byte read.
pub open spec fn paint_elements(
    colors: Seq<LocationColor>,
    style: NumberStyle,
    bytes: Seq<u8>,
    pos: int,
    op: u8,
    es: Seq<OperationElement>,
) -> Seq<LocationColor>
    decreases es.len(),
{
    if es.len() == 0 {
        colors
    } else {
        match read_element(style, bytes.skip(pos), op, es[0]) {
            None => colors,
            Some((_, u)) => {
                let op2 = if es[0] is Operation {
                    bytes[pos]
                } else {
                    op
                };
                paint_elements(fill(colors, pos, pos + u, color_of(es[0])), style, bytes, pos + u, op2, es.drop_first())
            },
        }
    }
}

/// `colors` with the opcode byte and the element bytes of every operation of `bytes`
/// from `pos` on painted, as read with `schema`.
pub open spec fn paint_script(schema: EngineSchema, bytes: Seq<u8>, pos: int, colors: Seq<LocationColor>) -> Seq<
    LocationColor,
>
    decreases bytes.len() - pos,
{
    if pos < 0 || pos >= bytes.len() || !has_instr_at(bytes, pos) {
        colors
    } else {
        match schema.opcodes()[bytes[pos] as int] {
            None => colors,
            Some(opcode) => match schema.operation_elements(opcode) {
                None => colors,
                Some(es) => match read_elements(schema.style(), bytes.skip(pos + 1), 0, es) {
                    None => colors,
                    Some((_, u)) => {
                        proof {
                            lemma_read_elements_len(schema.style(), bytes.skip(pos + 1), 0, es);
                        }
                        paint_script(
                            schema,
                            bytes,
                            pos + 1 + u,
                            paint_elements(
                                colors.update(pos, LocationColor::Opcode),
                                schema.style(),
                                bytes,
                                pos + 1,
                                0,
                                es,
                            ),
                        )
                    },
                },
            },
        }
    }
}

/// Sets the colors from `start` up to `end` to `color`.
fn fill_colors(colors: &mut Vec<LocationColor>, start: usize, end: usize, color: LocationColor)
    requires
        start <= end <= old(colors)@.len(),
    ensures
        final(colors)@ == fill(old(colors)@, start as int, end as int, color),
{
    let ghost c0 = colors@;
    let mut k = start;
    while k < end
        invariant
            start <= k <= end <= c0.len(),
            colors@ == fill(c0, start as int, k as int, color),
        decreases end - k,
    {
        colors.set(k, color);
        proof {
            assert(colors@ =~= fill(c0, start as int, k + 1, color));
        }
        k = k + 1;
    }
}

/// The kind of element each byte of the script belongs to, reading operations from the
/// reader's position to the end of the script: `Opcode` for opcode bytes, the element's
/// kind for element bytes, `Unmarked` for the rest. The script has to be readable to its
/// end with `schema`.
pub fn paint_locations(reader: Reader, schema: &EngineSchema) -> (r: Vec<LocationColor>)
    requires
        0 <= reader.pos() <= reader.bytes().len() <= u32::MAX,
        script_ops(*schema, reader.bytes(), reader.pos()) is Some,
    ensures
        r@ == paint_script(
            *schema,
            reader.bytes(),
            reader.pos(),
            Seq::new(reader.bytes().len(), |i: int| LocationColor::Unmarked),
        ),
{
    let mut reader = reader;
    let ghost bytes = reader.bytes();
    let ghost p0 = reader.pos();
    let size = reader.size();
    let mut colors: Vec<LocationColor> = Vec::new();
    while colors.len() < size
        invariant
            colors@.len() <= size,
            forall|i: int| 0 <= i < colors@.len() ==> colors@[i] == LocationColor::Unmarked,
        decreases size - colors@.len(),
    {
        colors.push(LocationColor::Unmarked);
    }
    let ghost goal = paint_script(*schema, bytes, p0, colors@);
    proof {
        assert(colors@ =~= Seq::new(bytes.len(), |i: int| LocationColor::Unmarked));
    }
    let mut arena = OperationArena::new();
    while reader.has_instr()
        invariant
            reader.bytes() == bytes,
            0 <= reader.pos() <= bytes.len() <= u32::MAX,
            colors@.len() == bytes.len(),
            script_ops(*schema, bytes, reader.pos()) is Some,
            paint_script(*schema, bytes, reader.pos(), colors@) == goal,
        decreases bytes.len() - reader.pos(),
    {
        let ghost pos = reader.pos();
        let operation_position = reader.position();
        colors.set(operation_position as usize, LocationColor::Opcode);
        let raw_opcode = reader.take_u8();
        let opcode = match schema.lookup_opcode(raw_opcode) {
            Some(o) => o,
            None => {
                assert(false);
                return colors;
            },
        };
        let op_schema = match schema.lookup_operation(opcode) {
            Some(s) => s,
            None => {
                assert(false);
                return colors;
            },
        };
        let ghost es = op_schema.elements@;
        let ghost style = schema.style();
        let ghost (vs, u) = read_elements(style, bytes.skip(pos + 1), 0, es).unwrap();
        let ghost painted = paint_elements(colors@, style, bytes, pos + 1, 0, es);
        proof {
            assert(reader.rest() =~= bytes.skip(pos + 1));
            assert(es.skip(0) =~= es);
        }
        arena.clear();
        let mut context = InstructionParseContext::new(schema.number_style());
        let n = op_schema.elements.len();
        let mut i: usize = 0;
        while i < n
            invariant
                i <= n,
                n == es.len(),
                es == op_schema.elements@,
                reader.bytes() == bytes,
                0 <= pos,
                pos + 1 <= reader.pos() <= bytes.len() <= u32::MAX,
                colors@.len() == bytes.len(),
                context.style() == style,
                read_elements(style, reader.rest(), context.last_operation(), es.skip(i as int)) matches Some((_, u2))
                    && reader.pos() + u2 == pos + 1 + u,
                paint_elements(colors@, style, bytes, reader.pos(), context.last_operation(), es.skip(i as int))
                    == painted,
            decreases n - i,
        {
            let ghost tail = es.skip(i as int);
            let ghost r1 = reader;
            let ghost op1 = context.last_operation();
            proof {
                assert(tail[0] == es[i as int]);
                assert(tail.drop_first() =~= es.skip(i + 1));
                assert(r1.rest() == bytes.skip(r1.pos()));
                lemma_read_element_len(style, r1.rest(), op1, es[i as int]);
            }
            let element = op_schema.elements[i];
            let start_position = reader.position();
            context.take_element(&mut reader, &mut arena, element);
            let end_position = reader.position();
            proof {
                assert(r1.rest().skip(end_position - start_position) =~= reader.rest());
                if element is Operation {
                    assert(r1.rest()[0] == bytes[r1.pos()]);
                }
            }
            fill_colors(&mut colors, start_position as usize, end_position as usize, element_color(element));
            i = i + 1;
        }
        proof {
            assert(es.skip(n as int) =~= Seq::<OperationElement>::empty());
        }
    }
    proof {
        assert(paint_script(*schema, bytes, reader.pos(), colors@) == colors@);
    }
    colors
}

} // verus!
