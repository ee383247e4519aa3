//! The message grammar as mathematical functions over the characters of a message.
use vstd::prelude::*;

use crate::snr::layout::message_parser::{command_has_arg, command_of_char, MessageCommand, TokenView};
use crate::versions::MessageCommandStyle;

verus! {

/// A parsed token with the character indices of the text it was read from.
pub struct TokenSpan {
    pub start: int,
    pub end: int,
    pub token: TokenView,
}

/// The index of the first `.` at or after `i`, if any.
pub open spec fn find_dot(s: Seq<char>, i: int) -> Option<int>
    decreases s.len() - i,
{
    if i < 0 || i >= s.len() {
        None
    } else if s[i] == '.' {
        Some(i)
    } else {
        find_dot(s, i + 1)
    }
}

/// Whether the command written with `c` takes a `.`-terminated argument.
pub open spec fn command_takes_argument(c: char) -> bool {
    match command_of_char(c) {
        Some(m) => command_has_arg(m),
        None => false,
    }
}

/// Whether `c` starts a command in the unescaped style: its code point, truncated to
/// 16 bits, is below 128.
pub open spec fn is_command_lead(c: char) -> bool {
    (c as u32) % 65536 < 128
}

/// The command token for command character `c` whose text continues at index `a`, and
/// the index after it.
pub open spec fn command_token_at(s: Seq<char>, c: char, a: int) -> (TokenView, int) {
    if command_takes_argument(c) {
        match find_dot(s, a) {
            Some(d) => (TokenView::Command(c, Some(s.subrange(a, d))), d + 1),
            None => (TokenView::Command(c, None), a),
        }
    } else {
        (TokenView::Command(c, None), a)
    }
}

/// The token that starts at index `i` and the index after it, or `None` where the text
/// ends in the middle of an escape.
pub open spec fn token_at(style: MessageCommandStyle, s: Seq<char>, i: int) -> Option<(TokenView, int)> {
    match style {
        MessageCommandStyle::Escaped => {
            if s[i] == '@' {
                if i + 1 >= s.len() {
                    None
                } else if s[i + 1] == '@' {
                    Some((TokenView::Literal('@'), i + 2))
                } else {
                    Some(command_token_at(s, s[i + 1], i + 2))
                }
            } else {
                Some((TokenView::Literal(s[i]), i + 1))
            }
        },
        MessageCommandStyle::Unescaped => {
            if is_command_lead(s[i]) {
                if s[i] == '!' {
                    if i + 1 >= s.len() {
                        None
                    } else {
                        Some((TokenView::Literal(s[i + 1]), i + 2))
                    }
                } else {
                    Some(command_token_at(s, s[i], i + 1))
                }
            } else {
                Some((TokenView::Literal(s[i]), i + 1))
            }
        },
    }
}

/// The tokens of the text from index `i` on, or `None` where the text is malformed.
pub open spec fn parse_from(style: MessageCommandStyle, s: Seq<char>, i: int) -> Option<Seq<TokenSpan>>
    decreases s.len() - i,
{
    if i < 0 || i >= s.len() {
        Some(Seq::empty())
    } else {
        match token_at(style, s, i) {
            None => None,
            Some((t, e)) => {
                if e <= i || e > s.len() {
                    None
                } else {
                    match parse_from(style, s, e) {
                        None => None,
                        Some(rest) => Some(seq![TokenSpan { start: i, end: e, token: t }] + rest),
                    }
                }
            },
        }
    }
}

/// The tokens of a whole message, or `None` where it ends in the middle of an escape.
pub open spec fn parse_message(style: MessageCommandStyle, s: Seq<char>) -> Option<Seq<TokenSpan>> {
    parse_from(style, s, 0)
}

/// The token values of spans.
pub open spec fn span_tokens(ts: Seq<TokenSpan>) -> Seq<TokenView> {
    ts.map_values(|t: TokenSpan| t.token)
}

/// Whether a literal is written with an escape in `style`.
pub open spec fn literal_needs_escape(style: MessageCommandStyle, c: char) -> bool {
    match style {
        MessageCommandStyle::Escaped => c == '@',
        MessageCommandStyle::Unescaped => (c as u32) < 128,
    }
}

/// Whether every escaped literal of the parsed text is one that needs its escape.
pub open spec fn escapes_are_needed(style: MessageCommandStyle, ts: Seq<TokenSpan>) -> bool {
    forall|k: int|
        0 <= k < ts.len() ==> (#[trigger] ts[k]).end == ts[k].start + 2 ==> match ts[k].token {
            TokenView::Literal(c) => literal_needs_escape(style, c),
            TokenView::Command(_, _) => true,
        }
}

/// The text that writes a token in `style`.
pub open spec fn token_text(style: MessageCommandStyle, t: TokenView) -> Seq<char> {
    match t {
        TokenView::Literal(c) => {
            if literal_needs_escape(style, c) {
                match style {
                    MessageCommandStyle::Escaped => seq!['@', '@'],
                    MessageCommandStyle::Unescaped => seq!['!', c],
                }
            } else {
                seq![c]
            }
        },
        TokenView::Command(c, arg) => {
            let head = match style {
                MessageCommandStyle::Escaped => seq!['@', c],
                MessageCommandStyle::Unescaped => seq![c],
            };
            match arg {
                Some(a) => head + a + seq!['.'],
                None => head,
            }
        },
    }
}

/// The text that writes a sequence of tokens in `style`.
pub open spec fn message_text(style: MessageCommandStyle, ts: Seq<TokenView>) -> Seq<char>
    decreases ts.len(),
{
    if ts.len() == 0 {
        Seq::empty()
    } else {
        message_text(style, ts.drop_last()) + token_text(style, ts.last())
    }
}

/// Whether a token is the newline command.
pub open spec fn is_newline(t: TokenView) -> bool {
    match t {
        TokenView::Command(c, _) => command_of_char(c) == Some(MessageCommand::Newline),
        TokenView::Literal(_) => false,
    }
}

/// Whether a newline command occurs among the tokens.
pub open spec fn saw_newline(ts: Seq<TokenView>) -> bool
    decreases ts.len(),
{
    ts.len() > 0 && (saw_newline(ts.drop_last()) || is_newline(ts.last()))
}

/// What `find_dot` finds: the first `.` at or after `i`.
pub proof fn lemma_find_dot(s: Seq<char>, i: int)
    requires
        0 <= i,
    ensures
        match find_dot(s, i) {
            Some(d) => i <= d < s.len() && s[d] == '.' && forall|k: int| i <= k < d ==> s[k] != '.',
            None => forall|k: int| i <= k < s.len() ==> s[k] != '.',
        },
    decreases s.len() - i,
{
    if i < s.len() && s[i] != '.' {
        lemma_find_dot(s, i + 1);
    }
}

/// Where no `.` follows `i`, none follows any later index either.
pub proof fn lemma_find_dot_none_later(s: Seq<char>, i: int, j: int)
    requires
        0 <= i <= j,
        find_dot(s, i) is None,
    ensures
        find_dot(s, j) is None,
{
    lemma_find_dot(s, i);
    lemma_find_dot(s, j);
}

/// A token ends after it starts and within the text.
pub proof fn lemma_token_at_bounds(style: MessageCommandStyle, s: Seq<char>, i: int)
    requires
        0 <= i < s.len(),
    ensures
        token_at(style, s, i) matches Some((t, e)) ==> i < e <= s.len(),
{
    let a = match style {
        MessageCommandStyle::Escaped => i + 2,
        MessageCommandStyle::Unescaped => i + 1,
    };
    if 0 <= a {
        lemma_find_dot(s, a);
    }
}

/// Text from `i` on parses as one token and the parse of the rest.
pub proof fn lemma_parse_from_step(style: MessageCommandStyle, s: Seq<char>, i: int)
    requires
        0 <= i < s.len(),
        parse_from(style, s, i) is Some,
    ensures
        token_at(style, s, i) is Some,
        ({
            let (t, e) = token_at(style, s, i).unwrap();
            &&& i < e <= s.len()
            &&& parse_from(style, s, e) is Some
            &&& parse_from(style, s, i).unwrap() == seq![TokenSpan { start: i, end: e, token: t }]
                + parse_from(style, s, e).unwrap()
        }),
{
    lemma_token_at_bounds(style, s, i);
}

/// The spans of the tokens parsed from index `i` on are ordered inside the text.
pub proof fn lemma_parse_from_spans(style: MessageCommandStyle, s: Seq<char>, i: int)
    requires
        0 <= i <= s.len(),
        parse_from(style, s, i) is Some,
    ensures
        forall|k: int|
            0 <= k < parse_from(style, s, i).unwrap().len() ==> i <= (#[trigger] parse_from(
                style,
                s,
                i,
            ).unwrap()[k]).start < parse_from(style, s, i).unwrap()[k].end <= s.len(),
    decreases s.len() - i,
{
    if i < s.len() {
        lemma_parse_from_step(style, s, i);
        let (t, e) = token_at(style, s, i).unwrap();
        lemma_parse_from_spans(style, s, e);
        let ts = parse_from(style, s, i).unwrap();
        let rest = parse_from(style, s, e).unwrap();
        assert forall|k: int| 0 <= k < ts.len() implies i <= (#[trigger] ts[k]).start < ts[k].end <= s.len() by {
            if k > 0 {
                assert(ts[k] == rest[k - 1]);
            }
        }
    }
}

/// The text of concatenated tokens.
pub proof fn lemma_message_text_concat(style: MessageCommandStyle, a: Seq<TokenView>, b: Seq<TokenView>)
    ensures
        message_text(style, a + b) == message_text(style, a) + message_text(style, b),
    decreases b.len(),
{
    if b.len() == 0 {
        assert(a + b =~= a);
        assert(message_text(style, a) + message_text(style, b) =~= message_text(style, a));
    } else {
        lemma_message_text_concat(style, a, b.drop_last());
        assert((a + b).drop_last() =~= a + b.drop_last());
        assert(message_text(style, a + b) =~= message_text(style, a) + message_text(style, b));
    }
}

/// A token's text is the text it was parsed from, unless it is a literal escaped
/// without need.
proof fn lemma_token_text_matches(style: MessageCommandStyle, s: Seq<char>, i: int)
    requires
        0 <= i < s.len(),
        token_at(style, s, i) is Some,
        ({
            let (t, e) = token_at(style, s, i).unwrap();
            e == i + 2 ==> match t {
                TokenView::Literal(c) => literal_needs_escape(style, c),
                TokenView::Command(_, _) => true,
            }
        }),
    ensures
        ({
            let (t, e) = token_at(style, s, i).unwrap();
            token_text(style, t) == s.subrange(i, e)
        }),
{
    let (t, e) = token_at(style, s, i).unwrap();
    lemma_token_at_bounds(style, s, i);
    let a = match style {
        MessageCommandStyle::Escaped => i + 2,
        MessageCommandStyle::Unescaped => i + 1,
    };
    lemma_find_dot(s, a);
    match style {
        MessageCommandStyle::Escaped => {
            if s[i] == '@' {
                if s[i + 1] == '@' {
                    assert(token_text(style, t) =~= s.subrange(i, e));
                } else {
                    let c = s[i + 1];
                    if command_takes_argument(c) {
                        match find_dot(s, a) {
                            Some(d) => {
                                assert(token_text(style, t) =~= s.subrange(i, e));
                            },
                            None => {
                                assert(token_text(style, t) =~= s.subrange(i, e));
                            },
                        }
                    } else {
                        assert(token_text(style, t) =~= s.subrange(i, e));
                    }
                }
            } else {
                assert(token_text(style, t) =~= s.subrange(i, e));
            }
        },
        MessageCommandStyle::Unescaped => {
            if is_command_lead(s[i]) {
                if s[i] == '!' {
                    assert(token_text(style, t) =~= s.subrange(i, e));
                } else {
                    let c = s[i];
                    if command_takes_argument(c) {
                        match find_dot(s, a) {
                            Some(d) => {
                                assert(token_text(style, t) =~= s.subrange(i, e));
                            },
                            None => {
                                assert(token_text(style, t) =~= s.subrange(i, e));
                            },
                        }
                    } else {
                        assert(token_text(style, t) =~= s.subrange(i, e));
                    }
                }
            } else {
                assert(((s[i] as u32) as int) % 65536 == (s[i] as u32) as int || (s[i] as u32) >= 65536);
                assert(token_text(style, t) =~= s.subrange(i, e));
            }
        },
    }
}

/// Writing the tokens parsed from the text at `i` gives that text back, where every
/// escape was needed.
proof fn lemma_parse_from_roundtrip(style: MessageCommandStyle, s: Seq<char>, i: int)
    requires
        0 <= i <= s.len(),
        parse_from(style, s, i) is Some,
        escapes_are_needed(style, parse_from(style, s, i).unwrap()),
    ensures
        message_text(style, span_tokens(parse_from(style, s, i).unwrap())) == s.subrange(i, s.len() as int),
    decreases s.len() - i,
{
    let ts = parse_from(style, s, i).unwrap();
    if i == s.len() {
        assert(span_tokens(ts) =~= Seq::<TokenView>::empty());
        assert(s.subrange(i, s.len() as int) =~= Seq::<char>::empty());
    } else {
        lemma_parse_from_step(style, s, i);
        let (t, e) = token_at(style, s, i).unwrap();
        let rest = parse_from(style, s, e).unwrap();
        assert(ts[0] == TokenSpan { start: i, end: e, token: t });
        assert(escapes_are_needed(style, rest)) by {
            assert forall|k: int| 0 <= k < rest.len() && (#[trigger] rest[k]).end == rest[k].start
                + 2 implies match rest[k].token {
                TokenView::Literal(c) => literal_needs_escape(style, c),
                TokenView::Command(_, _) => true,
            } by {
                assert(rest[k] == ts[k + 1]);
            }
        }
        lemma_parse_from_roundtrip(style, s, e);
        lemma_token_text_matches(style, s, i);
        assert(span_tokens(ts) =~= seq![t] + span_tokens(rest));
        lemma_message_text_concat(style, seq![t], span_tokens(rest));
        assert(seq![t].drop_last() =~= Seq::<TokenView>::empty());
        assert(message_text(style, Seq::<TokenView>::empty()) =~= Seq::<char>::empty());
        assert(message_text(style, seq![t]) =~= token_text(style, t));
        assert(s.subrange(i, s.len() as int) =~= s.subrange(i, e) + s.subrange(e, s.len() as int));
    }
}

/// Parsing a message and writing its tokens in the same style gives the message back,
/// where every escape in it was needed.
pub proof fn lemma_parse_serialize_roundtrip(style: MessageCommandStyle, s: Seq<char>)
    requires
        parse_message(style, s) is Some,
        escapes_are_needed(style, parse_message(style, s).unwrap()),
    ensures
        message_text(style, span_tokens(parse_message(style, s).unwrap())) == s,
{
    lemma_parse_from_roundtrip(style, s, 0);
    assert(s.subrange(0, s.len() as int) =~= s);
}

} // verus!
