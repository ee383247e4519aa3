//! Finding unknown commands and commands missing their argument in a message.
use vstd::prelude::*;

use crate::chars::utf8_len;
use crate::snr::layout::message_parser::grammar::{lemma_parse_from_spans, parse_message, span_tokens, TokenSpan};
use crate::snr::layout::message_parser::sink::TokenSink;
use crate::snr::layout::message_parser::{
    byte_spans, command_has_arg, command_of_char, parse, MessageCommand, MessageToken, SpannedMessageToken,
    TokenView,
};
use crate::snr::reactor::{any_source_contains_commands, AnyStringSource};
use crate::versions::MessageCommandStyle;

verus! {

/// A problem found in a message, with the byte span of the offending token.
#[derive(Debug, Clone, Copy, PartialEq, Eq, Structural)]
pub enum AnyDiagnostic {
    /// A command that is not recognized; an `@` command hints at the wrong message style.
    UnknownCommand { offset: usize, len: usize, advice_style: bool },
    /// A command that needs a `.`-terminated argument and has none.
    MissingCommandArgument { offset: usize, len: usize },
}

/// The problems found in one line of a string table.
pub struct LineReport {
    pub src: String,
    pub index: u32,
    pub diagnostics: Vec<AnyDiagnostic>,
}

/// The problem with a token whose text spans the bytes `start..end`, if any.
pub open spec fn diagnose(t: TokenView, start: int, end: int) -> Option<AnyDiagnostic> {
    match t {
        TokenView::Literal(_) => None,
        TokenView::Command(c, arg) => match command_of_char(c) {
            None => Some(
                AnyDiagnostic::UnknownCommand {
                    offset: start as usize,
                    len: (end - start) as usize,
                    advice_style: c == '@',
                },
            ),
            Some(m) => if command_has_arg(m) && arg is None {
                Some(AnyDiagnostic::MissingCommandArgument { offset: start as usize, len: (end - start) as usize })
            } else {
                None
            },
        },
    }
}

/// The problems of the tokens of a message, in order.
pub open spec fn diagnostics_of(s: Seq<char>, ts: Seq<TokenSpan>) -> Seq<AnyDiagnostic>
    decreases ts.len(),
{
    if ts.len() == 0 {
        Seq::empty()
    } else {
        let t = ts.last();
        let rest = diagnostics_of(s, ts.drop_last());
        match diagnose(t.token, utf8_len(s.take(t.start)) as int, utf8_len(s.take(t.end)) as int) {
            Some(d) => rest.push(d),
            None => rest,
        }
    }
}

/// The advice given for an `@` command that is not recognized.
pub fn unknown_command_advice(d: &AnyDiagnostic) -> (r: Option<&'static str>)
    ensures
        r is Some <==> d matches AnyDiagnostic::UnknownCommand { advice_style: true, .. },
{
    match d {
        AnyDiagnostic::UnknownCommand { advice_style: true, .. } => Some(
            "did you forget to pass --message-style modernize?",
        ),
        _ => None,
    }
}

/// The problem with one token whose text spans the bytes `start..end`.
fn diagnose_token(token: MessageToken, start: usize, end: usize) -> (r: Option<AnyDiagnostic>)
    requires
        start <= end,
    ensures
        r == diagnose(token@, start as int, end as int),
{
    let command_token = match token {
        MessageToken::Command(c) => c,
        MessageToken::Literal(_) => return None,
    };
    let command = match MessageCommand::parse(command_token.command) {
        Some(command) => command,
        None => {
            return Some(
                AnyDiagnostic::UnknownCommand {
                    offset: start,
                    len: end - start,
                    advice_style: command_token.command == '@',
                },
            );
        },
    };
    if command.has_arg() && command_token.argument.is_none() {
        return Some(AnyDiagnostic::MissingCommandArgument { offset: start, len: end - start });
    }
    None
}

/// Checks a decoded string: a string that may hold commands is parsed, and every unknown
/// command and every command missing its argument is reported with its byte span.
pub fn lint_string(decoded: &str, style: MessageCommandStyle, source: AnyStringSource, index: u32) -> (r:
    Result<(), LineReport>)
    requires
        any_source_contains_commands(source) ==> parse_message(style, decoded@) is Some,
        utf8_len(decoded@) <= usize::MAX,
    ensures
        !any_source_contains_commands(source) ==> r is Ok,
        any_source_contains_commands(source) ==> {
            let ds = diagnostics_of(decoded@, parse_message(style, decoded@).unwrap());
            &&& r is Ok <==> ds.len() == 0
            &&& r matches Err(report) ==> report.src@ == decoded@ && report.index == index
                && report.diagnostics@ == ds
        },
{
    if !source.contains_commands() {
        return Ok(());
    }
    let mut spanned_tokens: Vec<SpannedMessageToken> = Vec::new();
    proof {
        assert(spanned_tokens.tokens() =~= Seq::<TokenView>::empty());
        assert(spanned_tokens.spans() =~= Seq::<(int, int)>::empty());
    }
    parse(style, decoded, &mut spanned_tokens);
    let ghost ts = parse_message(style, decoded@).unwrap();
    let ghost spans = byte_spans(decoded@, ts);
    proof {
        assert(spanned_tokens.tokens() =~= span_tokens(ts));
        assert(spanned_tokens.spans() =~= spans);
        lemma_parse_from_spans(style, decoded@, 0);
        assert forall|k: int| 0 <= k < ts.len() implies (#[trigger] spanned_tokens@[k]).token@ == ts[k].token
            && spanned_tokens@[k].start == utf8_len(decoded@.take(ts[k].start))
            && spanned_tokens@[k].end == utf8_len(decoded@.take(ts[k].end)) by {
            assert(spanned_tokens.tokens()[k] == span_tokens(ts)[k]);
            assert(spanned_tokens.spans()[k] == spans[k]);
        }
        assert forall|k: int| 0 <= k < ts.len() implies (#[trigger] spanned_tokens@[k]).start
            <= spanned_tokens@[k].end by {
            let st = ts[k].start;
            let en = ts[k].end;
            crate::chars::lemma_utf8_len_prefix(decoded@.take(en), st);
            assert(decoded@.take(en).take(st) =~= decoded@.take(st));
        }
    }
    let mut diagnostics: Vec<AnyDiagnostic> = Vec::new();
    let mut i: usize = 0;
    while i < spanned_tokens.len()
        invariant
            i <= spanned_tokens@.len(),
            spanned_tokens@.len() == ts.len(),
            forall|k: int| 0 <= k < ts.len() ==> (#[trigger] spanned_tokens@[k]).token@ == ts[k].token,
            forall|k: int| 0 <= k < ts.len() ==> (#[trigger] spanned_tokens@[k]).start == utf8_len(decoded@.take(ts[k].start))
                && spanned_tokens@[k].end == utf8_len(decoded@.take(ts[k].end)),
            forall|k: int| 0 <= k < ts.len() ==> (#[trigger] spanned_tokens@[k]).start <= spanned_tokens@[k].end,
            diagnostics@ == diagnostics_of(decoded@, ts.take(i as int)),
        decreases spanned_tokens@.len() - i,
    {
        let t = &spanned_tokens[i];
        let d = diagnose_token(t.token, t.start, t.end);
        if let Some(d) = d {
            diagnostics.push(d);
        }
        proof {
            assert(ts.take(i + 1).drop_last() =~= ts.take(i as int));
        }
        i = i + 1;
    }
    proof {
        assert(ts.take(i as int) =~= ts);
    }
    if diagnostics.len() == 0 {
        return Ok(());
    }
    Err(LineReport { src: decoded.to_owned(), index, diagnostics })
}

} // verus!
