//! Rewriting the zero-terminated UTF-8 strings of a script with a rewriter.
use vstd::prelude::*;
use vstd::string::StringSliceAdditionalSpecFns;
use vstd::utf8::{decode_utf8, encode_utf8, valid_utf8};

use crate::chars::utf8_len;
use crate::snr::layout::message_parser::grammar::{message_text, parse_message};
use crate::snr::layout::message_parser::{message_tokens, transform_reflow};
use crate::snr::reactor::rewrite::csv_rewriter::{effective_string, opt_view, CsvRewriter};
use crate::snr::reactor::rewrite::noop_rewriter::NoopRewriter;
use crate::snr::reactor::rewrite::x_rewriter::XRewriter;
use crate::snr::reactor::{any_source_contains_commands, AnyStringSource, StringArraySource};
use crate::snr::text::{decode_utf8_zstring, encode_utf8_zstring, strip_trailing_zeros};
use crate::versions::MessageCommandStyle;

verus! {

broadcast use vstd::utf8::group_utf8_lib;

/// Gives a replacement for the strings of a script.
pub trait StringRewriter: Sized {
    /// Whether the rewriter can be asked about the decoded string `decoded`, the string
    /// with number `instr_index` of the script, found in the operation at `instr_offset`.
    spec fn can_rewrite(&self, decoded: Seq<char>, instr_index: u32, instr_offset: u32, source: AnyStringSource) -> bool;

    /// The replacement for that string, or `None` to keep it.
    spec fn replacement(
        &self,
        decoded: Seq<char>,
        instr_index: u32,
        instr_offset: u32,
        source: AnyStringSource,
    ) -> Option<Seq<char>>;

    fn rewrite_string(&self, raw_decoded: &str, instr_index: u32, instr_offset: u32, source: AnyStringSource) -> (r:
        Option<String>)
        requires
            self.can_rewrite(raw_decoded@, instr_index, instr_offset, source),
        ensures
            match r {
                Some(s) => self.replacement(raw_decoded@, instr_index, instr_offset, source) == Some(s@),
                None => self.replacement(raw_decoded@, instr_index, instr_offset, source) is None,
            },
    ;
}

impl StringRewriter for CsvRewriter {
    /// The string's entry, if any, has to belong to that operation and source.
    open spec fn can_rewrite(&self, decoded: Seq<char>, instr_index: u32, instr_offset: u32, source: AnyStringSource) -> bool {
        &&& (instr_index as int) < self.entries().len()
        &&& self.entries()[instr_index as int] matches Some(e) ==> e.offset == instr_offset && e.source == source
    }

    open spec fn replacement(
        &self,
        decoded: Seq<char>,
        instr_index: u32,
        instr_offset: u32,
        source: AnyStringSource,
    ) -> Option<Seq<char>> {
        match self.entries()[instr_index as int] {
            None => None,
            Some(e) => effective_string(e.s@, opt_view(e.translated), self.mode()),
        }
    }

    fn rewrite_string(&self, raw_decoded: &str, instr_index: u32, instr_offset: u32, source: AnyStringSource) -> (r:
        Option<String>) {
        match CsvRewriter::rewrite_string(self, instr_index, instr_offset, source) {
            Some(t) => Some(t.to_owned()),
            None => None,
        }
    }
}

impl StringRewriter for NoopRewriter {
    open spec fn can_rewrite(&self, decoded: Seq<char>, instr_index: u32, instr_offset: u32, source: AnyStringSource) -> bool {
        &&& utf8_len(decoded) <= usize::MAX
        &&& any_source_contains_commands(source) ==> {
            &&& parse_message(self.snr_style(), decoded) is Some
            &&& utf8_len(message_text(self.user_style(), message_tokens(self.snr_style(), decoded))) <= usize::MAX
            &&& self.snr_style() == self.user_style() ==> message_text(
                self.snr_style(),
                message_tokens(self.snr_style(), decoded),
            ) == decoded
        }
    }

    open spec fn replacement(
        &self,
        decoded: Seq<char>,
        instr_index: u32,
        instr_offset: u32,
        source: AnyStringSource,
    ) -> Option<Seq<char>> {
        Some(reflowed(decoded, self.snr_style(), self.user_style(), source))
    }

    fn rewrite_string(&self, raw_decoded: &str, instr_index: u32, instr_offset: u32, source: AnyStringSource) -> (r:
        Option<String>) {
        NoopRewriter::rewrite_string(self, raw_decoded, instr_index, instr_offset, source)
    }
}

impl StringRewriter for XRewriter {
    open spec fn can_rewrite(&self, decoded: Seq<char>, instr_index: u32, instr_offset: u32, source: AnyStringSource) -> bool {
        true
    }

    open spec fn replacement(
        &self,
        decoded: Seq<char>,
        instr_index: u32,
        instr_offset: u32,
        source: AnyStringSource,
    ) -> Option<Seq<char>> {
        Some(seq!['X'])
    }

    fn rewrite_string(&self, raw_decoded: &str, instr_index: u32, instr_offset: u32, source: AnyStringSource) -> (r:
        Option<String>) {
        let x = "X";
        proof {
            reveal_strlit("X");
        }
        Some(x.to_owned())
    }
}

/// `text` with its commands written from `in_style` into `out_style` where it can hold
/// commands and the styles differ; otherwise unchanged.
pub open spec fn reflowed(
    text: Seq<char>,
    in_style: MessageCommandStyle,
    out_style: MessageCommandStyle,
    source: AnyStringSource,
) -> Seq<char> {
    if any_source_contains_commands(source) && in_style != out_style {
        message_text(out_style, message_tokens(in_style, text))
    } else {
        text
    }
}

/// The string stored in the zero-terminated bytes `original`.
pub open spec fn decoded_of(original: Seq<u8>) -> Seq<char> {
    decode_utf8(strip_trailing_zeros(original))
}

/// Where the rewriting of one string is: the operation's number, the number of the next
/// string and the offset of the operation.
#[derive(Debug, Clone, Copy, PartialEq, Eq, Structural)]
pub struct Position {
    pub current_instr_index: u32,
    pub current_str_index: u32,
    pub current_instr_offset: u32,
}

impl Default for Position {
    fn default() -> (r: Self)
        ensures
            r == (Position { current_instr_index: 0, current_str_index: 0, current_instr_offset: 0 }),
    {
        Position { current_instr_index: 0, current_str_index: 0, current_instr_offset: 0 }
    }
}

/// Rewrites strings stored in UTF-8 with a rewriter, writing the replacement's commands in
/// the script's style.
pub struct Stringer<R> {
    snr_style: MessageCommandStyle,
    user_style: MessageCommandStyle,
    has_useless_escapes: bool,
    rewriter: R,
}

/// Whether `st` can rewrite the zero-terminated string `original` (number `index`, in the
/// operation at `offset`): it ends with a zero byte, is UTF-8 without its trailing zeros,
/// the rewriter can be asked about it, and a replacement can be written in the script's
/// style.
pub open spec fn string_rewritable<R: StringRewriter>(
    st: Stringer<R>,
    original: Seq<u8>,
    index: u32,
    offset: u32,
    source: AnyStringSource,
) -> bool {
    &&& original.len() > 0 && original.last() == 0
    &&& valid_utf8(strip_trailing_zeros(original))
    &&& st.rewriter().can_rewrite(decoded_of(original), index, offset, source)
    &&& st.rewriter().replacement(decoded_of(original), index, offset, source) matches Some(rep) ==> {
        &&& utf8_len(rep) <= usize::MAX
        &&& any_source_contains_commands(source) ==> {
            &&& parse_message(st.user_style(), rep) is Some
            &&& utf8_len(message_text(st.snr_style(), message_tokens(st.user_style(), rep))) <= usize::MAX
        }
    }
}

/// The bytes that replace the zero-terminated string `original`: the string itself where
/// the rewriter keeps it, otherwise the replacement with its commands in the script's style,
/// in UTF-8 and followed by a zero byte.
pub open spec fn rewritten_string<R: StringRewriter>(
    st: Stringer<R>,
    original: Seq<u8>,
    index: u32,
    offset: u32,
    source: AnyStringSource,
) -> Seq<u8> {
    match st.rewriter().replacement(decoded_of(original), index, offset, source) {
        None => original,
        Some(rep) => encode_utf8(reflowed(rep, st.user_style(), st.snr_style(), source)).push(0),
    }
}

/// The index of the first zero byte of `s`, or its length where it has none.
pub open spec fn first_zero(s: Seq<u8>) -> nat
    decreases s.len(),
{
    if s.len() == 0 || s[0] == 0 {
        0
    } else {
        1 + first_zero(s.drop_first())
    }
}

/// The strings of a string array, each with its zero byte, up to the zero byte that ends the
/// array.
pub open spec fn array_strings(s: Seq<u8>) -> Seq<Seq<u8>>
    decreases s.len(),
{
    if s.len() == 0 || s[0] == 0 {
        Seq::empty()
    } else if first_zero(s) >= s.len() {
        seq![s]
    } else {
        seq![s.take(first_zero(s) + 1 as int)] + array_strings(s.skip(first_zero(s) + 1 as int))
    }
}

/// Whether `st` can rewrite each of the strings `pieces` of a selection's choices, numbered
/// from `index` and indexed in the array from `j`.
pub open spec fn pieces_rewritable<R: StringRewriter>(
    st: Stringer<R>,
    pieces: Seq<Seq<u8>>,
    index: nat,
    offset: u32,
    j: nat,
) -> bool
    decreases pieces.len(),
{
    pieces.len() == 0 || (string_rewritable(
        st,
        pieces[0],
        index as u32,
        offset,
        AnyStringSource::Array(StringArraySource::Select, j as u32),
    ) && pieces_rewritable(st, pieces.drop_first(), index + 1, offset, j + 1))
}

/// The rewritten strings `pieces`, one after the other.
pub open spec fn rewritten_pieces<R: StringRewriter>(
    st: Stringer<R>,
    pieces: Seq<Seq<u8>>,
    index: nat,
    offset: u32,
    j: nat,
) -> Seq<u8>
    decreases pieces.len(),
{
    if pieces.len() == 0 {
        Seq::empty()
    } else {
        rewritten_string(
            st,
            pieces[0],
            index as u32,
            offset,
            AnyStringSource::Array(StringArraySource::Select, j as u32),
        ) + rewritten_pieces(st, pieces.drop_first(), index + 1, offset, j + 1)
    }
}

impl<R> Stringer<R> {
    /// The style of commands in the script.
    pub closed spec fn snr_style(&self) -> MessageCommandStyle {
        self.snr_style
    }

    /// The style of commands in the replacements.
    pub closed spec fn user_style(&self) -> MessageCommandStyle {
        self.user_style
    }

    pub closed spec fn rewriter(&self) -> R {
        self.rewriter
    }

    pub fn new(
        snr_style: MessageCommandStyle,
        user_style: MessageCommandStyle,
        has_useless_escapes: bool,
        rewriter: R,
    ) -> (r: Self)
        ensures
            r.snr_style() == snr_style,
            r.user_style() == user_style,
            r.rewriter() == rewriter,
    {
        Stringer { snr_style, user_style, has_useless_escapes, rewriter }
    }
}

/// The index of the first zero byte of `s` from `from` on, or its length.
fn find_zero(s: &[u8], from: usize) -> (r: usize)
    requires
        from <= s@.len(),
    ensures
        r == from + first_zero(s@.skip(from as int)),
        r <= s@.len(),
{
    let mut i = from;
    while i < s.len() && s[i] != 0
        invariant
            from <= i <= s@.len(),
            first_zero(s@.skip(from as int)) == (i - from) + first_zero(s@.skip(i as int)),
        decreases s@.len() - i,
    {
        assert(s@.skip(i as int).drop_first() =~= s@.skip(i + 1));
        i = i + 1;
    }
    proof {
        lemma_first_zero_le(s@.skip(i as int));
    }
    i
}

proof fn lemma_first_zero_le(s: Seq<u8>)
    ensures
        first_zero(s) <= s.len(),
        first_zero(s) < s.len() ==> s[first_zero(s) as int] == 0,
        forall|k: int| 0 <= k < first_zero(s) ==> s[k] != 0,
    decreases s.len(),
{
    if s.len() > 0 && s[0] != 0 {
        lemma_first_zero_le(s.drop_first());
        assert forall|k: int| 0 <= k < first_zero(s) implies s[k] != 0 by {
            if k > 0 {
                assert(s[k] == s.drop_first()[k - 1]);
            }
        }
    }
}

impl<R: StringRewriter> Stringer<R> {
    /// Rewrites a zero-terminated UTF-8 string with the rewriter, and moves on to the next
    /// string number.
    pub fn rewrite_string(&self, position: &mut Position, original: &[u8], source: AnyStringSource) -> (r: Vec<u8>)
        requires
            string_rewritable(
                *self,
                original@,
                old(position).current_str_index,
                old(position).current_instr_offset,
                source,
            ),
            old(position).current_str_index < u32::MAX,
        ensures
            r@ == rewritten_string(
                *self,
                original@,
                old(position).current_str_index,
                old(position).current_instr_offset,
                source,
            ),
            *final(position) == (Position {
                current_instr_index: old(position).current_instr_index,
                current_str_index: (old(position).current_str_index + 1) as u32,
                current_instr_offset: old(position).current_instr_offset,
            }),
    {
        let decoded = match decode_utf8_zstring(original) {
            Ok(t) => t,
            Err(_) => {
                assert(false);
                return Vec::new();
            },
        };
        proof {
            vstd::utf8::encode_utf8_decode_utf8(decoded@);
            assert(decoded@ == decoded_of(original@));
        }
        let result = match self.rewriter.rewrite_string(
            decoded,
            position.current_str_index,
            position.current_instr_offset,
            source,
        ) {
            Some(replacement) => {
                let transformed = transform_reflow(replacement.as_str(), self.user_style, self.snr_style, true, source);
                encode_utf8_zstring(transformed.as_str())
            },
            None => {
                let mut copy: Vec<u8> = Vec::new();
                copy.extend_from_slice(original);
                copy
            },
        };
        position.current_str_index = position.current_str_index + 1;
        result
    }

    /// Rewrites each string of a selection's string array with the rewriter, numbering
    /// them on, and ends the array with a zero byte.
    pub fn rewrite_array(&self, position: &mut Position, array: &[u8]) -> (r: Vec<u8>)
        requires
            pieces_rewritable(
                *self,
                array_strings(array@),
                old(position).current_str_index as nat,
                old(position).current_instr_offset,
                0,
            ),
            old(position).current_str_index + array_strings(array@).len() <= u32::MAX,
        ensures
            r@ == rewritten_pieces(
                *self,
                array_strings(array@),
                old(position).current_str_index as nat,
                old(position).current_instr_offset,
                0,
            ).push(0),
            *final(position) == (Position {
                current_instr_index: old(position).current_instr_index,
                current_str_index: (old(position).current_str_index + array_strings(array@).len()) as u32,
                current_instr_offset: old(position).current_instr_offset,
            }),
    {
        let ghost p0 = *position;
        let ghost all = array_strings(array@);
        let ghost goal = rewritten_pieces(*self, all, p0.current_str_index as nat, p0.current_instr_offset, 0);
        let mut out: Vec<u8> = Vec::new();
        let mut c: usize = 0;
        let mut j: u32 = 0;
        proof {
            assert(array@.skip(0) =~= array@);
        }
        while c < array.len() && array[c] != 0
            invariant
                c <= array@.len(),
                j as nat + array_strings(array@.skip(c as int)).len() == all.len(),
                position.current_str_index == p0.current_str_index + j,
                position.current_instr_index == p0.current_instr_index,
                position.current_instr_offset == p0.current_instr_offset,
                p0.current_str_index + all.len() <= u32::MAX,
                pieces_rewritable(
                    *self,
                    array_strings(array@.skip(c as int)),
                    position.current_str_index as nat,
                    position.current_instr_offset,
                    j as nat,
                ),
                out@ + rewritten_pieces(
                    *self,
                    array_strings(array@.skip(c as int)),
                    position.current_str_index as nat,
                    position.current_instr_offset,
                    j as nat,
                ) == goal,
            decreases array@.len() - c,
        {
            let ghost rest = array@.skip(c as int);
            let z = find_zero(array, c);
            let end = if z < array.len() {
                z + 1
            } else {
                z
            };
            let piece = vstd::slice::slice_subrange(array, c, end);
            proof {
                assert(rest[0] == array@[c as int]);
                lemma_first_zero_le(rest);
                if z < array.len() {
                    assert(piece@ =~= rest.take(first_zero(rest) + 1 as int));
                    assert(rest.skip(first_zero(rest) + 1 as int) =~= array@.skip(end as int));
                } else {
                    assert(piece@ =~= rest);
                    assert(array@.skip(end as int) =~= Seq::<u8>::empty());
                }
                assert(array_strings(rest)[0] == piece@);
                assert(array_strings(rest).drop_first() =~= array_strings(array@.skip(end as int)));
            }
            let rewritten = self.rewrite_string(
                position,
                piece,
                AnyStringSource::Array(StringArraySource::Select, j),
            );
            let ghost before = out@;
            out.extend_from_slice(rewritten.as_slice());
            proof {
                assert(out@ + rewritten_pieces(
                    *self,
                    array_strings(array@.skip(end as int)),
                    position.current_str_index as nat,
                    position.current_instr_offset,
                    (j + 1) as nat,
                ) =~= before + rewritten_pieces(
                    *self,
                    array_strings(rest),
                    (position.current_str_index - 1) as nat,
                    position.current_instr_offset,
                    j as nat,
                ));
            }
            c = end;
            j = j + 1;
        }
        proof {
            assert(array_strings(array@.skip(c as int)) =~= Seq::<Seq<u8>>::empty());
            assert(out@ =~= goal);
        }
        out.push(0);
        out
    }
}

} // verus!
