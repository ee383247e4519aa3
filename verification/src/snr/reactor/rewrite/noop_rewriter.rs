//! A rewriter that changes no string, to exercise the decoding and encoding of strings.
use vstd::prelude::*;

use crate::chars::utf8_len;
use crate::snr::layout::message_parser::grammar::{message_text, parse_message};
use crate::snr::layout::message_parser::{message_tokens, transform_reflow};
use crate::snr::reactor::{any_source_contains_commands, AnyStringSource};
use crate::versions::MessageCommandStyle;

verus! {

/// Exercises the string encoder and decoder, but does not actually rewrite strings.
pub struct NoopRewriter {
    snr_style: MessageCommandStyle,
    user_style: MessageCommandStyle,
}

impl NoopRewriter {
    /// The style commands have in the script.
    pub closed spec fn snr_style(&self) -> MessageCommandStyle {
        self.snr_style
    }

    /// The style commands have for the user.
    pub closed spec fn user_style(&self) -> MessageCommandStyle {
        self.user_style
    }

    pub fn new(snr_style: MessageCommandStyle, user_style: MessageCommandStyle) -> (r: Self)
        ensures
            r.snr_style() == snr_style,
            r.user_style() == user_style,
    {
        Self { snr_style, user_style }
    }

    /// The string as the user sees it: with its commands written in the user's style where it
    /// can hold commands, otherwise unchanged.
    pub fn rewrite_string(
        &self,
        raw_decoded: &str,
        _instr_index: u32,
        _instr_offset: u32,
        source: AnyStringSource,
    ) -> (r: Option<String>)
        requires
            utf8_len(raw_decoded@) <= usize::MAX,
            any_source_contains_commands(source) ==> {
                &&& parse_message(self.snr_style(), raw_decoded@) is Some
                &&& utf8_len(message_text(self.user_style(), message_tokens(self.snr_style(), raw_decoded@)))
                    <= usize::MAX
                &&& self.snr_style() == self.user_style() ==> message_text(
                    self.snr_style(),
                    message_tokens(self.snr_style(), raw_decoded@),
                ) == raw_decoded@
            },
        ensures
            r matches Some(s) && s@ == (if any_source_contains_commands(source) && self.snr_style()
                != self.user_style() {
                message_text(self.user_style(), message_tokens(self.snr_style(), raw_decoded@))
            } else {
                raw_decoded@
            }),
    {
        let transformed = transform_reflow(raw_decoded, self.snr_style, self.user_style, false, source);
        Some(transformed)
    }
}

} // verus!
