//! Parsing message text into tokens and serializing tokens back into text.
//!
//! In the escaped style commands are written `@c` and a literal `@` is `@@`; in the unescaped
//! style every ASCII character is a command and a literal ASCII character is written `!c`.
//! Commands that take an argument are followed by the argument text and a terminating `.`.
use vstd::prelude::*;

use crate::chars::{char_width, lemma_utf8_len_concat, lemma_utf8_len_push, str_chars, utf8_len, utf8_width};
use crate::snr::reactor::{any_source_contains_commands, any_source_is_for_messagebox, AnyStringSource};
use crate::text::FixupDetectResult;
use crate::versions::{MessageCommandStyle, SjisMessageFixupPolicy};

pub mod grammar;
pub mod lint;
pub mod sink;

use grammar::{
    is_newline, lemma_message_text_concat, literal_needs_escape, message_text, saw_newline,
    token_text, command_takes_argument, find_dot, is_command_lead, lemma_find_dot_none_later,
    lemma_token_at_bounds, lemma_parse_from_step, parse_from, parse_message, span_tokens, token_at,
    TokenSpan,
};
use sink::{
    absorb_pushes, can_absorb_pushes, lemma_absorb_pushes_concat, lemma_counting_absorb,
    lemma_full_absorb, lemma_pushes_fixups_len, lemma_pushes_text_concat, lemma_string_absorb,
    push_char_then, push_str_then, pushes_fixups, pushes_text, string_with_capacity,
    CountingStringSink, FullStringSink, Push, StringSink, TokenSink,
};

verus! {

/// Why a command argument is not a number.
#[derive(Copy, Clone, Debug, PartialEq, Eq, Structural)]
pub enum ParseIntArgError {
    NoArgument,
    InvalidArgument,
}

/// A command character with its optional argument.
#[derive(Copy, Clone, Debug)]
pub struct CommandToken<'b> {
    pub command: char,
    pub argument: Option<&'b str>,
}

/// One token of a message: a literal character or a command.
#[derive(Copy, Clone, Debug)]
pub enum MessageToken<'b> {
    Literal(char),
    Command(CommandToken<'b>),
}

/// A token with the byte offsets of its source text.
pub struct SpannedMessageToken<'b> {
    pub start: usize,
    pub end: usize,
    pub token: MessageToken<'b>,
}

/// Whether `c` is an ASCII decimal digit.
pub open spec fn is_digit(c: char) -> bool {
    48 <= (c as u32) <= 57
}

/// The value of decimal digits.
pub open spec fn decimal_value(ds: Seq<char>) -> nat
    decreases ds.len(),
{
    if ds.len() == 0 {
        0
    } else {
        decimal_value(ds.drop_last()) * 10 + ((ds.last() as u32) - 48) as nat
    }
}

/// The digits of a decimal number: the text without one leading `+`.
pub open spec fn decimal_digits(s: Seq<char>) -> Seq<char> {
    if s.len() > 0 && s[0] == '+' {
        s.skip(1)
    } else {
        s
    }
}

/// The `u32` written in decimal by `s`, with an optional leading `+`; `None` where `s` is
/// no such number or the number does not fit in 32 bits.
pub open spec fn parse_u32_decimal(s: Seq<char>) -> Option<nat> {
    let ds = decimal_digits(s);
    if ds.len() > 0 && (forall|i: int| 0 <= i < ds.len() ==> is_digit(#[trigger] ds[i])) && decimal_value(ds)
        <= u32::MAX {
        Some(decimal_value(ds))
    } else {
        None
    }
}

/// A prefix of digits has no greater value than the whole.
pub proof fn lemma_decimal_value_prefix(ds: Seq<char>, k: int)
    requires
        0 <= k <= ds.len(),
        forall|i: int| 0 <= i < ds.len() ==> is_digit(#[trigger] ds[i]),
    ensures
        decimal_value(ds.take(k)) <= decimal_value(ds),
    decreases ds.len(),
{
    if k < ds.len() {
        let init = ds.drop_last();
        assert(forall|i: int| 0 <= i < init.len() ==> is_digit(#[trigger] init[i]) <== is_digit(ds[i]));
        lemma_decimal_value_prefix(init, k);
        assert(init.take(k) =~= ds.take(k));
    } else {
        assert(ds.take(k) =~= ds);
    }
}

impl<'b> CommandToken<'b> {
    /// The argument read as a decimal `u32`.
    pub fn parse_int_arg(self) -> (r: Result<u32, ParseIntArgError>)
        ensures
            match self.argument {
                None => r == Err::<u32, ParseIntArgError>(ParseIntArgError::NoArgument),
                Some(a) => match parse_u32_decimal(a@) {
                    Some(v) => r == Ok::<u32, ParseIntArgError>(v as u32),
                    None => r == Err::<u32, ParseIntArgError>(ParseIntArgError::InvalidArgument),
                },
            },
    {
        let arg = match self.argument {
            Some(arg) => arg,
            None => return Err(ParseIntArgError::NoArgument),
        };
        let chars = str_chars(arg);
        let n = chars.len();
        let start: usize = if n > 0 && chars[0] == '+' {
            1
        } else {
            0
        };
        let ghost ds = decimal_digits(arg@);
        proof {
            if start == 1 {
                assert(ds =~= chars@.skip(1));
            } else {
                assert(ds =~= chars@);
            }
        }
        if start == n {
            return Err(ParseIntArgError::InvalidArgument);
        }
        let mut k = start;
        let mut acc: u64 = 0;
        proof {
            assert(ds.take(0) =~= Seq::<char>::empty());
        }
        while k < n
            invariant
                start <= k <= n,
                n == chars@.len(),
                ds =~= chars@.skip(start as int),
                ds == decimal_digits(arg@),
                chars@ == arg@,
                self.argument == Some(arg),
                acc == decimal_value(ds.take(k - start)),
                acc <= u32::MAX,
                forall|i: int| 0 <= i < k - start ==> is_digit(#[trigger] ds[i]),
            decreases n - k,
        {
            let c = chars[k];
            let ghost j = k - start;
            assert(ds[j] == c);
            let cv = c as u32;
            if !(48 <= cv && cv <= 57) {
                assert(!is_digit(ds[j]));
                return Err(ParseIntArgError::InvalidArgument);
            }
            let d = (cv - 48) as u64;
            assert(ds.take(j + 1).drop_last() =~= ds.take(j));
            assert(ds.take(j + 1).last() == c);
            assert(decimal_value(ds.take(j + 1)) == decimal_value(ds.take(j)) * 10 + d);
            acc = acc * 10 + d;
            if acc > 0xffff_ffff {
                proof {
                    if forall|i: int| 0 <= i < ds.len() ==> is_digit(#[trigger] ds[i]) {
                        lemma_decimal_value_prefix(ds, j + 1);
                    }
                }
                return Err(ParseIntArgError::InvalidArgument);
            }
            k = k + 1;
        }
        proof {
            assert(ds.take(k - start) =~= ds);
        }
        Ok(acc as u32)
    }
}

/// The value of a token.
pub enum TokenView {
    Literal(char),
    Command(char, Option<Seq<char>>),
}

impl<'b> View for MessageToken<'b> {
    type V = TokenView;

    open spec fn view(&self) -> TokenView {
        match *self {
            MessageToken::Literal(c) => TokenView::Literal(c),
            MessageToken::Command(t) => TokenView::Command(
                t.command,
                match t.argument {
                    Some(a) => Some(a@),
                    None => None,
                },
            ),
        }
    }
}

/// The known message commands.
#[derive(Debug, Clone, Copy, PartialEq, Eq, Structural)]
pub enum MessageCommand {
    /// @+
    EnableLipsync,
    /// @-
    DisableLipsync,
    /// @/
    VoiceWait,
    /// @<
    RubiBaseStart,
    /// @>
    RubiBaseEnd,
    /// @a
    SetFade,
    /// @b
    RubiContent,
    /// @c
    SetColor,
    /// @e
    NoFinalClickWait,
    /// @k
    ClickWait,
    /// @o
    VoiceVolume,
    /// @r
    Newline,
    /// @s
    TextSpeed,
    /// @t
    StartParallel,
    /// @u
    Unicode,
    /// @v
    Voice,
    /// @w
    Wait,
    /// @x
    VoiceSync,
    /// @y
    Sync,
    /// @z
    FontScale,
    /// @|
    CompleteSection,
    /// @[
    InstantTextStart,
    /// @]
    InstantTextEnd,
    /// @{
    BoldTextStart,
    /// @}
    BoldTextEnd,
}

/// The command written with character `c`, if any.
pub open spec fn command_of_char(c: char) -> Option<MessageCommand> {
    match c {
        '+' => Some(MessageCommand::EnableLipsync),
        '-' => Some(MessageCommand::DisableLipsync),
        '/' => Some(MessageCommand::VoiceWait),
        '<' => Some(MessageCommand::RubiBaseStart),
        '>' => Some(MessageCommand::RubiBaseEnd),
        'a' => Some(MessageCommand::SetFade),
        'b' => Some(MessageCommand::RubiContent),
        'c' => Some(MessageCommand::SetColor),
        'e' => Some(MessageCommand::NoFinalClickWait),
        'k' => Some(MessageCommand::ClickWait),
        'o' => Some(MessageCommand::VoiceVolume),
        'r' => Some(MessageCommand::Newline),
        's' => Some(MessageCommand::TextSpeed),
        't' => Some(MessageCommand::StartParallel),
        'u' => Some(MessageCommand::Unicode),
        'v' => Some(MessageCommand::Voice),
        'w' => Some(MessageCommand::Wait),
        'x' => Some(MessageCommand::VoiceSync),
        'y' => Some(MessageCommand::Sync),
        'z' => Some(MessageCommand::FontScale),
        '|' => Some(MessageCommand::CompleteSection),
        '[' => Some(MessageCommand::InstantTextStart),
        ']' => Some(MessageCommand::InstantTextEnd),
        '{' => Some(MessageCommand::BoldTextStart),
        '}' => Some(MessageCommand::BoldTextEnd),
        _ => None,
    }
}

/// The character a command is written with.
pub open spec fn char_of_command(m: MessageCommand) -> char {
    match m {
        MessageCommand::EnableLipsync => '+',
        MessageCommand::DisableLipsync => '-',
        MessageCommand::VoiceWait => '/',
        MessageCommand::RubiBaseStart => '<',
        MessageCommand::RubiBaseEnd => '>',
        MessageCommand::SetFade => 'a',
        MessageCommand::RubiContent => 'b',
        MessageCommand::SetColor => 'c',
        MessageCommand::NoFinalClickWait => 'e',
        MessageCommand::ClickWait => 'k',
        MessageCommand::VoiceVolume => 'o',
        MessageCommand::Newline => 'r',
        MessageCommand::TextSpeed => 's',
        MessageCommand::StartParallel => 't',
        MessageCommand::Unicode => 'u',
        MessageCommand::Voice => 'v',
        MessageCommand::Wait => 'w',
        MessageCommand::VoiceSync => 'x',
        MessageCommand::Sync => 'y',
        MessageCommand::FontScale => 'z',
        MessageCommand::CompleteSection => '|',
        MessageCommand::InstantTextStart => '[',
        MessageCommand::InstantTextEnd => ']',
        MessageCommand::BoldTextStart => '{',
        MessageCommand::BoldTextEnd => '}',
    }
}

/// Whether a command takes an argument.
pub open spec fn command_has_arg(m: MessageCommand) -> bool {
    match m {
        MessageCommand::EnableLipsync => false,
        MessageCommand::DisableLipsync => false,
        MessageCommand::VoiceWait => false,
        MessageCommand::RubiBaseStart => false,
        MessageCommand::RubiBaseEnd => false,
        MessageCommand::SetFade => true,
        MessageCommand::RubiContent => true,
        MessageCommand::SetColor => true,
        MessageCommand::NoFinalClickWait => false,
        MessageCommand::ClickWait => false,
        MessageCommand::VoiceVolume => true,
        MessageCommand::Newline => false,
        MessageCommand::TextSpeed => true,
        MessageCommand::StartParallel => false,
        MessageCommand::Unicode => true,
        MessageCommand::Voice => true,
        MessageCommand::Wait => true,
        MessageCommand::VoiceSync => false,
        MessageCommand::Sync => false,
        MessageCommand::FontScale => true,
        MessageCommand::CompleteSection => false,
        MessageCommand::InstantTextStart => false,
        MessageCommand::InstantTextEnd => false,
        MessageCommand::BoldTextStart => false,
        MessageCommand::BoldTextEnd => false,
    }
}

impl MessageCommand {
    pub fn parse(c: char) -> (r: Option<Self>)
        ensures
            r == command_of_char(c),
    {
        match c {
            '+' => Some(Self::EnableLipsync),
            '-' => Some(Self::DisableLipsync),
            '/' => Some(Self::VoiceWait),
            '<' => Some(Self::RubiBaseStart),
            '>' => Some(Self::RubiBaseEnd),
            'a' => Some(Self::SetFade),
            'b' => Some(Self::RubiContent),
            'c' => Some(Self::SetColor),
            'e' => Some(Self::NoFinalClickWait),
            'k' => Some(Self::ClickWait),
            'o' => Some(Self::VoiceVolume),
            'r' => Some(Self::Newline),
            's' => Some(Self::TextSpeed),
            't' => Some(Self::StartParallel),
            'u' => Some(Self::Unicode),
            'v' => Some(Self::Voice),
            'w' => Some(Self::Wait),
            'x' => Some(Self::VoiceSync),
            'y' => Some(Self::Sync),
            'z' => Some(Self::FontScale),
            '|' => Some(Self::CompleteSection),
            '[' => Some(Self::InstantTextStart),
            ']' => Some(Self::InstantTextEnd),
            '{' => Some(Self::BoldTextStart),
            '}' => Some(Self::BoldTextEnd),
            _ => None,
        }
    }

    pub fn into_char(self) -> (r: char)
        ensures
            r == char_of_command(self),
    {
        match self {
            Self::EnableLipsync => '+',
            Self::DisableLipsync => '-',
            Self::VoiceWait => '/',
            Self::RubiBaseStart => '<',
            Self::RubiBaseEnd => '>',
            Self::SetFade => 'a',
            Self::RubiContent => 'b',
            Self::SetColor => 'c',
            Self::NoFinalClickWait => 'e',
            Self::ClickWait => 'k',
            Self::VoiceVolume => 'o',
            Self::Newline => 'r',
            Self::TextSpeed => 's',
            Self::StartParallel => 't',
            Self::Unicode => 'u',
            Self::Voice => 'v',
            Self::Wait => 'w',
            Self::VoiceSync => 'x',
            Self::Sync => 'y',
            Self::FontScale => 'z',
            Self::CompleteSection => '|',
            Self::InstantTextStart => '[',
            Self::InstantTextEnd => ']',
            Self::BoldTextStart => '{',
            Self::BoldTextEnd => '}',
        }
    }

    pub fn has_arg(self) -> (r: bool)
        ensures
            r == command_has_arg(self),
    {
        match self {
            Self::EnableLipsync => false,
            Self::DisableLipsync => false,
            Self::VoiceWait => false,
            Self::RubiBaseStart => false,
            Self::RubiBaseEnd => false,
            Self::SetFade => true,
            Self::RubiContent => true,
            Self::SetColor => true,
            Self::NoFinalClickWait => false,
            Self::ClickWait => false,
            Self::VoiceVolume => true,
            Self::Newline => false,
            Self::TextSpeed => true,
            Self::StartParallel => false,
            Self::Unicode => true,
            Self::Voice => true,
            Self::Wait => true,
            Self::VoiceSync => false,
            Self::Sync => false,
            Self::FontScale => true,
            Self::CompleteSection => false,
            Self::InstantTextStart => false,
            Self::InstantTextEnd => false,
            Self::BoldTextStart => false,
            Self::BoldTextEnd => false,
        }
    }
}

/// Each command is written with a character that denotes it, and no other command.
pub proof fn lemma_command_char_roundtrip(m: MessageCommand, c: char)
    ensures
        command_of_char(char_of_command(m)) == Some(m),
        command_of_char(c) == Some(m) ==> char_of_command(m) == c,
{
}

/// The byte offsets, in the UTF-8 encoding of `s`, of the character spans `ts`.
pub open spec fn byte_spans(s: Seq<char>, ts: Seq<TokenSpan>) -> Seq<(int, int)> {
    ts.map_values(|t: TokenSpan| (utf8_len(s.take(t.start)) as int, utf8_len(s.take(t.end)) as int))
}

/// Whether the command written with `c` takes an argument.
fn takes_argument(c: char) -> (r: bool)
    ensures
        r == command_takes_argument(c),
{
    match MessageCommand::parse(c) {
        Some(m) => m.has_arg(),
        None => false,
    }
}

/// The index of the first `.` at or after `from`.
fn find_dot_in(chars: &Vec<char>, from: usize) -> (r: Option<usize>)
    ensures
        match r {
            Some(d) => find_dot(chars@, from as int) == Some(d as int),
            None => find_dot(chars@, from as int) is None,
        },
{
    let mut j = from;
    while j < chars.len()
        invariant
            from <= j,
            find_dot(chars@, from as int) == find_dot(chars@, j as int),
        decreases chars.len() - j,
    {
        if chars[j] == '.' {
            return Some(j);
        }
        j = j + 1;
    }
    None
}

/// Reads the `.`-terminated argument that starts at index `a`. Once no `.` is left in the
/// message, `can_have_dot` is cleared and later arguments are not searched for.
fn read_argument<'b>(message: &'b str, chars: &Vec<char>, a: usize, can_have_dot: &mut bool) -> (r: (
    Option<&'b str>,
    usize,
))
    requires
        chars@ == message@,
        a <= chars.len(),
        !*old(can_have_dot) ==> find_dot(chars@, a as int) is None,
    ensures
        match find_dot(chars@, a as int) {
            Some(d) => r.0 is Some && r.0.unwrap()@ == chars@.subrange(a as int, d) && r.1 == d + 1,
            None => r.0 is None && r.1 == a,
        },
        !*final(can_have_dot) ==> find_dot(chars@, r.1 as int) is None,
{
    if !*can_have_dot {
        return (None, a);
    }
    match find_dot_in(chars, a) {
        Some(d) => {
            proof {
                grammar::lemma_find_dot(chars@, a as int);
            }
            (Some(message.substring_char(a, d)), d + 1)
        },
        None => {
            *can_have_dot = false;
            (None, a)
        },
    }
}

/// The command token for command character `c` whose text continues at index `a`.
fn command_token<'b>(message: &'b str, chars: &Vec<char>, c: char, a: usize, can_have_dot: &mut bool) -> (r: (
    MessageToken<'b>,
    usize,
))
    requires
        chars@ == message@,
        a <= chars.len(),
        !*old(can_have_dot) ==> find_dot(chars@, a as int) is None,
    ensures
        grammar::command_token_at(chars@, c, a as int) == (r.0@, r.1 as int),
        !*final(can_have_dot) ==> find_dot(chars@, r.1 as int) is None,
{
    let argument = if takes_argument(c) {
        let (arg, next) = read_argument(message, chars, a, can_have_dot);
        return (MessageToken::Command(CommandToken { command: c, argument: arg }), next);
    } else {
        None
    };
    (MessageToken::Command(CommandToken { command: c, argument }), a)
}

/// The token that starts at character index `i` and the index after it.
fn next_token<'b>(
    style: MessageCommandStyle,
    message: &'b str,
    chars: &Vec<char>,
    i: usize,
    can_have_dot: &mut bool,
) -> (r: (MessageToken<'b>, usize))
    requires
        chars@ == message@,
        i < chars.len(),
        token_at(style, chars@, i as int) is Some,
        !*old(can_have_dot) ==> find_dot(chars@, i as int) is None,
    ensures
        token_at(style, chars@, i as int) == Some((r.0@, r.1 as int)),
        !*final(can_have_dot) ==> find_dot(chars@, r.1 as int) is None,
{
    let c = chars[i];
    proof {
        lemma_token_at_bounds(style, chars@, i as int);
        if !*can_have_dot {
            lemma_find_dot_none_later(chars@, i as int, i as int + 1);
            if i + 2 <= chars.len() {
                lemma_find_dot_none_later(chars@, i as int, i as int + 2);
            }
        }
    }
    match style {
        MessageCommandStyle::Escaped => {
            if c == '@' {
                let next = chars[i + 1];
                if next == '@' {
                    (MessageToken::Literal('@'), i + 2)
                } else {
                    command_token(message, chars, next, i + 2, can_have_dot)
                }
            } else {
                (MessageToken::Literal(c), i + 1)
            }
        },
        MessageCommandStyle::Unescaped => {
            if (c as u32) % 65536 < 128 {
                if c == '!' {
                    (MessageToken::Literal(chars[i + 1]), i + 2)
                } else {
                    command_token(message, chars, c, i + 1, can_have_dot)
                }
            } else {
                (MessageToken::Literal(c), i + 1)
            }
        },
    }
}

/// The byte offset of character index `to`, given that of index `from`.
fn advance_bytes(chars: &Vec<char>, from: usize, to: usize, b: usize) -> (r: usize)
    requires
        from <= to <= chars.len(),
        b == utf8_len(chars@.take(from as int)),
        utf8_len(chars@) <= usize::MAX,
    ensures
        r == utf8_len(chars@.take(to as int)),
{
    let mut k = from;
    let mut acc = b;
    while k < to
        invariant
            from <= k <= to,
            to <= chars.len(),
            acc == utf8_len(chars@.take(k as int)),
            utf8_len(chars@) <= usize::MAX,
        decreases to - k,
    {
        proof {
            lemma_utf8_len_push(chars@.take(k as int), chars@[k as int]);
            assert(chars@.take(k + 1) =~= chars@.take(k as int).push(chars@[k as int]));
            crate::chars::lemma_utf8_len_prefix(chars@, k + 1);
        }
        acc = acc + utf8_width(chars[k]);
        k = k + 1;
    }
    acc
}

/// Whether `message` parses in `style`: it does not end in the middle of an escape.
pub fn is_well_formed(style: MessageCommandStyle, message: &str) -> (r: bool)
    ensures
        r == parse_message(style, message@) is Some,
{
    let chars = str_chars(message);
    let n = chars.len();
    let mut i: usize = 0;
    let mut can_have_dot = true;
    while i < n
        invariant
            chars@ == message@,
            n == chars.len(),
            i <= n,
            parse_message(style, message@) is Some <==> parse_from(style, chars@, i as int) is Some,
            !can_have_dot ==> find_dot(chars@, i as int) is None,
        decreases n - i,
    {
        let c = chars[i];
        let unfinished = match style {
            MessageCommandStyle::Escaped => c == '@' && i + 1 >= n,
            MessageCommandStyle::Unescaped => (c as u32) % 65536 < 128 && c == '!' && i + 1 >= n,
        };
        if unfinished {
            return false;
        }
        proof {
            lemma_token_at_bounds(style, chars@, i as int);
        }
        let (_token, e) = next_token(style, message, &chars, i, &mut can_have_dot);
        i = e;
    }
    true
}

/// Parses `message` into tokens, handing each to `sink` with its byte span.
pub fn parse<'bump, S: TokenSink<'bump>>(style: MessageCommandStyle, message: &'bump str, sink: &mut S)
    requires
        parse_message(style, message@) is Some,
        utf8_len(message@) <= usize::MAX,
    ensures
        final(sink).tokens() == old(sink).tokens() + span_tokens(parse_message(style, message@).unwrap()),
        S::keeps_spans() ==> final(sink).spans() == old(sink).spans() + byte_spans(
            message@,
            parse_message(style, message@).unwrap(),
        ),
{
    let chars = str_chars(message);
    let n = chars.len();
    let mut i: usize = 0;
    let mut b: usize = 0;
    let mut can_have_dot = true;
    let ghost all = parse_message(style, message@).unwrap();
    let ghost mut done: Seq<TokenSpan> = Seq::empty();
    proof {
        assert(done + all =~= all);
        assert(chars@.take(0) =~= Seq::<char>::empty());
        assert(old(sink).tokens() + span_tokens(done) =~= old(sink).tokens());
        assert(old(sink).spans() + byte_spans(chars@, done) =~= old(sink).spans());
    }
    while i < n
        invariant
            chars@ == message@,
            n == chars.len(),
            i <= n,
            b == utf8_len(chars@.take(i as int)),
            utf8_len(message@) <= usize::MAX,
            parse_from(style, chars@, i as int) is Some,
            all == done + parse_from(style, chars@, i as int).unwrap(),
            !can_have_dot ==> find_dot(chars@, i as int) is None,
            sink.tokens() == old(sink).tokens() + span_tokens(done),
            S::keeps_spans() ==> sink.spans() == old(sink).spans() + byte_spans(chars@, done),
        decreases n - i,
    {
        proof {
            lemma_parse_from_step(style, chars@, i as int);
        }
        let (token, e) = next_token(style, message, &chars, i, &mut can_have_dot);
        let end_b = advance_bytes(&chars, i, e, b);
        sink.push(b, end_b, token);
        proof {
            let span = TokenSpan { start: i as int, end: e as int, token: token@ };
            let rest = parse_from(style, chars@, e as int).unwrap();
            assert(all =~= done.push(span) + rest);
            assert(span_tokens(done.push(span)) =~= span_tokens(done).push(token@));
            assert(byte_spans(chars@, done.push(span)) =~= byte_spans(chars@, done).push(
                (b as int, end_b as int),
            ));
            done = done.push(span);
        }
        i = e;
        b = end_b;
    }
    proof {
        assert(all =~= done);
    }
}

/// The token values of tokens.
pub open spec fn token_views<'b>(ts: Seq<MessageToken<'b>>) -> Seq<TokenView> {
    ts.map_values(|t: MessageToken<'b>| t@)
}

/// The pushes that write one token, given whether a newline command came before it.
pub open spec fn token_pushes(
    style: MessageCommandStyle,
    policy: SjisMessageFixupPolicy,
    is_in_messagebox: bool,
    finished_first_line: bool,
    t: TokenView,
) -> Seq<Push> {
    match t {
        TokenView::Literal(c) => {
            if literal_needs_escape(style, c) {
                match style {
                    MessageCommandStyle::Escaped => seq![Push::Char('@', false), Push::Char('@', false)],
                    MessageCommandStyle::Unescaped => seq![Push::Char('!', false), Push::Char(c, false)],
                }
            } else {
                seq![
                    Push::Char(
                        c,
                        !is_in_messagebox || policy.fixup_character_names || finished_first_line,
                    ),
                ]
            }
        },
        TokenView::Command(c, arg) => {
            let head = match style {
                MessageCommandStyle::Escaped => seq![Push::Char('@', false), Push::Char(c, false)],
                MessageCommandStyle::Unescaped => seq![Push::Char(c, false)],
            };
            match arg {
                Some(a) => head + seq![Push::Str(a, policy.fixup_command_arguments), Push::Char('.', false)],
                None => head,
            }
        },
    }
}

/// The pushes that write a sequence of tokens. A literal inside a message box is subject
/// to the fixup once a newline command has ended the first (character name) line.
pub open spec fn serialize_pushes(
    style: MessageCommandStyle,
    policy: SjisMessageFixupPolicy,
    is_in_messagebox: bool,
    ts: Seq<TokenView>,
) -> Seq<Push>
    decreases ts.len(),
{
    if ts.len() == 0 {
        Seq::empty()
    } else {
        serialize_pushes(style, policy, is_in_messagebox, ts.drop_last()) + token_pushes(
            style,
            policy,
            is_in_messagebox,
            saw_newline(ts.drop_last()),
            ts.last(),
        )
    }
}

/// The fixup flag of each character written for a sequence of tokens.
pub open spec fn message_fixups(
    style: MessageCommandStyle,
    policy: SjisMessageFixupPolicy,
    is_in_messagebox: bool,
    ts: Seq<TokenView>,
) -> Seq<bool> {
    pushes_fixups(serialize_pushes(style, policy, is_in_messagebox, ts))
}

/// The pushes for a prefix of the tokens are a prefix of the pushes for all of them.
pub proof fn lemma_serialize_pushes_prefix(
    style: MessageCommandStyle,
    policy: SjisMessageFixupPolicy,
    m: bool,
    ts: Seq<TokenView>,
    k: int,
)
    requires
        0 <= k <= ts.len(),
    ensures
        serialize_pushes(style, policy, m, ts) == serialize_pushes(style, policy, m, ts.take(k))
            + serialize_pushes(style, policy, m, ts).skip(
            serialize_pushes(style, policy, m, ts.take(k)).len() as int,
        ),
    decreases ts.len(),
{
    if k == ts.len() {
        assert(ts.take(k) =~= ts);
        assert(serialize_pushes(style, policy, m, ts).skip(serialize_pushes(style, policy, m, ts).len() as int)
            =~= Seq::<Push>::empty());
        assert(serialize_pushes(style, policy, m, ts) + Seq::<Push>::empty() =~= serialize_pushes(
            style,
            policy,
            m,
            ts,
        ));
    } else {
        let dl = ts.drop_last();
        lemma_serialize_pushes_prefix(style, policy, m, dl, k);
        assert(dl.take(k) =~= ts.take(k));
        assert(serialize_pushes(style, policy, m, ts) =~= serialize_pushes(style, policy, m, ts.take(k))
            + serialize_pushes(style, policy, m, ts).skip(
            serialize_pushes(style, policy, m, ts.take(k)).len() as int,
        ));
    }
}

/// The text written for a token, whatever the fixup flags.
proof fn lemma_token_pushes_text(
    style: MessageCommandStyle,
    policy: SjisMessageFixupPolicy,
    m: bool,
    f: bool,
    t: TokenView,
)
    ensures
        pushes_text(token_pushes(style, policy, m, f, t)) == token_text(style, t),
{
    let ps = token_pushes(style, policy, m, f, t);
    reveal_with_fuel(pushes_text, 5);
    assert(ps.len() <= 4);
    if ps.len() == 1 {
        assert(ps.drop_last() =~= Seq::<Push>::empty());
    } else if ps.len() == 2 {
        assert(ps.drop_last().drop_last() =~= Seq::<Push>::empty());
    } else if ps.len() == 3 {
        assert(ps.drop_last().drop_last().drop_last() =~= Seq::<Push>::empty());
    } else {
        assert(ps.drop_last().drop_last().drop_last().drop_last() =~= Seq::<Push>::empty());
    }
    assert(pushes_text(ps) =~= token_text(style, t));
}

/// The text written for tokens does not depend on the fixup policy or the message box:
/// it is the message text of the tokens.
pub proof fn lemma_serialize_text(
    style: MessageCommandStyle,
    policy: SjisMessageFixupPolicy,
    is_in_messagebox: bool,
    ts: Seq<TokenView>,
)
    ensures
        pushes_text(serialize_pushes(style, policy, is_in_messagebox, ts)) == message_text(style, ts),
    decreases ts.len(),
{
    if ts.len() > 0 {
        let dl = ts.drop_last();
        lemma_serialize_text(style, policy, is_in_messagebox, dl);
        let tp = token_pushes(style, policy, is_in_messagebox, saw_newline(dl), ts.last());
        lemma_pushes_text_concat(serialize_pushes(style, policy, is_in_messagebox, dl), tp);
        lemma_token_pushes_text(style, policy, is_in_messagebox, saw_newline(dl), ts.last());
    }
}

/// One fixup flag is written per character of the message text.
pub proof fn lemma_message_fixups_len(
    style: MessageCommandStyle,
    policy: SjisMessageFixupPolicy,
    is_in_messagebox: bool,
    ts: Seq<TokenView>,
)
    ensures
        message_fixups(style, policy, is_in_messagebox, ts).len() == message_text(style, ts).len(),
{
    lemma_pushes_fixups_len(serialize_pushes(style, policy, is_in_messagebox, ts));
    lemma_serialize_text(style, policy, is_in_messagebox, ts);
}

/// Writes one token to `sink`, where the record has room for it and then for `rest`.
fn serialize_token<S: StringSink>(
    style: MessageCommandStyle,
    policy: SjisMessageFixupPolicy,
    is_in_messagebox: bool,
    finished_first_line: bool,
    token: &MessageToken,
    sink: &mut S,
    Ghost(rest): Ghost<Seq<Push>>,
)
    requires
        can_absorb_pushes::<S>(
            old(sink).sink_view(),
            token_pushes(style, policy, is_in_messagebox, finished_first_line, token@) + rest,
        ),
    ensures
        final(sink).sink_view() == absorb_pushes::<S>(
            old(sink).sink_view(),
            token_pushes(style, policy, is_in_messagebox, finished_first_line, token@),
        ),
        can_absorb_pushes::<S>(final(sink).sink_view(), rest),
{
    let ghost v = sink.sink_view();
    let ghost tp = token_pushes(style, policy, is_in_messagebox, finished_first_line, token@);
    let ghost e = Seq::<Push>::empty();
    proof {
        assert(absorb_pushes::<S>(v, e) == v);
    }
    match *token {
        MessageToken::Literal(lit) => {
            let p0;
            let p1;
            match style {
                MessageCommandStyle::Escaped if lit == '@' => {
                    p0 = '@';
                    p1 = '@';
                },
                MessageCommandStyle::Unescaped if (lit as u32) < 128 => {
                    p0 = '!';
                    p1 = lit;
                },
                _ => {
                    let fixup = if !is_in_messagebox || policy.fixup_character_names {
                        true
                    } else {
                        finished_first_line
                    };
                    assert(tp + rest =~= seq![Push::Char(lit, fixup)] + rest);
                    push_char_then(sink, lit, fixup, Ghost(v), Ghost(e), Ghost(rest));
                    assert(e.push(Push::Char(lit, fixup)) =~= tp);
                    return;
                },
            }
            let ghost q0 = Push::Char(p0, false);
            let ghost q1 = Push::Char(p1, false);
            assert(tp =~= seq![q0, q1]);
            assert(tp + rest =~= seq![q0] + (seq![q1] + rest));
            push_char_then(sink, p0, false, Ghost(v), Ghost(e), Ghost(seq![q1] + rest));
            push_char_then(sink, p1, false, Ghost(v), Ghost(e.push(q0)), Ghost(rest));
            assert(e.push(q0).push(q1) =~= tp);
        },
        MessageToken::Command(CommandToken { command, argument }) => {
            let ghost tail: Seq<Push> = match argument {
                Some(a) => seq![Push::Str(a@, policy.fixup_command_arguments), Push::Char('.', false)],
                None => Seq::empty(),
            };
            let ghost mut done = e;
            match style {
                MessageCommandStyle::Escaped => {
                    let ghost q0 = Push::Char('@', false);
                    let ghost q1 = Push::Char(command, false);
                    assert(tp =~= seq![q0, q1] + tail);
                    assert(tp + rest =~= seq![q0] + (seq![q1] + (tail + rest)));
                    push_char_then(sink, '@', false, Ghost(v), Ghost(e), Ghost(seq![q1] + (tail + rest)));
                    push_char_then(sink, command, false, Ghost(v), Ghost(e.push(q0)), Ghost(tail + rest));
                    proof {
                        done = e.push(q0).push(q1);
                    }
                },
                MessageCommandStyle::Unescaped => {
                    let ghost q0 = Push::Char(command, false);
                    assert(tp =~= seq![q0] + tail);
                    assert(tp + rest =~= seq![q0] + (tail + rest));
                    push_char_then(sink, command, false, Ghost(v), Ghost(e), Ghost(tail + rest));
                    proof {
                        done = e.push(q0);
                    }
                },
            }
            assert(tp =~= done + tail);
            if let Some(argument) = argument {
                let ghost q2 = Push::Str(argument@, policy.fixup_command_arguments);
                let ghost q3 = Push::Char('.', false);
                assert(tail + rest =~= seq![q2] + (seq![q3] + rest));
                push_str_then(sink, argument, policy.fixup_command_arguments, Ghost(v), Ghost(done), Ghost(seq![q3] + rest));
                push_char_then(sink, '.', false, Ghost(v), Ghost(done.push(q2)), Ghost(rest));
                assert(done.push(q2).push(q3) =~= tp);
            } else {
                assert(tail + rest =~= rest);
                assert(done =~= tp);
            }
        },
    }
}

/// Writes the tokens to `sink` in `style`, each character with its fixup flag.
pub fn serialize<S: StringSink>(
    style: MessageCommandStyle,
    policy: SjisMessageFixupPolicy,
    is_in_messagebox: bool,
    tokens: &[MessageToken],
    sink: &mut S,
)
    requires
        can_absorb_pushes::<S>(
            old(sink).sink_view(),
            serialize_pushes(style, policy, is_in_messagebox, token_views(tokens@)),
        ),
    ensures
        final(sink).sink_view() == absorb_pushes::<S>(
            old(sink).sink_view(),
            serialize_pushes(style, policy, is_in_messagebox, token_views(tokens@)),
        ),
{
    let ghost tv = token_views(tokens@);
    let ghost v = sink.sink_view();
    let ghost all = serialize_pushes(style, policy, is_in_messagebox, tv);
    let mut finished_first_line = false;
    let mut k: usize = 0;
    proof {
        assert(tv.take(0) =~= Seq::<TokenView>::empty());
        assert(all.skip(0) =~= all);
    }
    while k < tokens.len()
        invariant
            k <= tokens.len(),
            tv == token_views(tokens@),
            all == serialize_pushes(style, policy, is_in_messagebox, tv),
            finished_first_line == saw_newline(tv.take(k as int)),
            sink.sink_view() == absorb_pushes::<S>(
                v,
                serialize_pushes(style, policy, is_in_messagebox, tv.take(k as int)),
            ),
            can_absorb_pushes::<S>(
                sink.sink_view(),
                all.skip(serialize_pushes(style, policy, is_in_messagebox, tv.take(k as int)).len() as int),
            ),
        decreases tokens.len() - k,
    {
        let ghost done = serialize_pushes(style, policy, is_in_messagebox, tv.take(k as int));
        let ghost next = serialize_pushes(style, policy, is_in_messagebox, tv.take(k + 1));
        let ghost tp = token_pushes(style, policy, is_in_messagebox, finished_first_line, tv[k as int]);
        proof {
            assert(tv.take(k + 1).drop_last() =~= tv.take(k as int));
            assert(next == done + tp);
            lemma_serialize_pushes_prefix(style, policy, is_in_messagebox, tv, k + 1);
            lemma_serialize_pushes_prefix(style, policy, is_in_messagebox, tv, k as int);
            assert(all.skip(done.len() as int) =~= tp + all.skip(next.len() as int));
        }
        let token = &tokens[k];
        serialize_token(
            style,
            policy,
            is_in_messagebox,
            finished_first_line,
            token,
            sink,
            Ghost(all.skip(next.len() as int)),
        );
        proof {
            lemma_absorb_pushes_concat::<S>(v, done, tp);
        }
        if let MessageToken::Command(CommandToken { command, argument: _ }) = *token {
            if let Some(MessageCommand::Newline) = MessageCommand::parse(command) {
                finished_first_line = true;
            }
        }
        k = k + 1;
    }
    proof {
        assert(tv.take(k as int) =~= tv);
    }
}

/// The message text that writes `tokens` in `style`.
pub fn serialize_string(style: MessageCommandStyle, tokens: &[MessageToken]) -> (r: String)
    requires
        utf8_len(message_text(style, token_views(tokens@))) <= usize::MAX,
    ensures
        r@ == message_text(style, token_views(tokens@)),
{
    let policy = SjisMessageFixupPolicy { fixup_command_arguments: false, fixup_character_names: false };
    let ghost ps = serialize_pushes(style, policy, false, token_views(tokens@));
    proof {
        lemma_serialize_text(style, policy, false, token_views(tokens@));
        crate::chars::lemma_utf8_len_at_least_len(pushes_text(ps));
        lemma_counting_absorb((0, 0), ps);
    }
    let mut counting_sink = CountingStringSink::new();
    serialize(style, policy, false, tokens, &mut counting_sink);
    let mut string_sink = string_with_capacity(counting_sink.utf8_byte_count);
    proof {
        lemma_string_absorb(Seq::empty(), ps);
        assert(Seq::<char>::empty() + pushes_text(ps) =~= pushes_text(ps));
    }
    serialize(style, policy, false, tokens, &mut string_sink);
    string_sink
}

/// The message text that writes `tokens` in `style`, and the fixup flag of each of its
/// characters.
pub fn serialize_full(
    style: MessageCommandStyle,
    policy: SjisMessageFixupPolicy,
    is_in_messagebox: bool,
    tokens: &[MessageToken],
) -> (r: (String, Vec<bool>))
    requires
        utf8_len(message_text(style, token_views(tokens@))) <= usize::MAX,
    ensures
        r.0@ == message_text(style, token_views(tokens@)),
        r.1@ == message_fixups(style, policy, is_in_messagebox, token_views(tokens@)),
        r.1@.len() == r.0@.len(),
{
    let ghost ps = serialize_pushes(style, policy, is_in_messagebox, token_views(tokens@));
    proof {
        lemma_serialize_text(style, policy, is_in_messagebox, token_views(tokens@));
        lemma_message_fixups_len(style, policy, is_in_messagebox, token_views(tokens@));
        crate::chars::lemma_utf8_len_at_least_len(pushes_text(ps));
        lemma_counting_absorb((0, 0), ps);
    }
    let mut counting_sink = CountingStringSink::new();
    serialize(style, policy, is_in_messagebox, tokens, &mut counting_sink);
    let mut full_sink = FullStringSink::new(counting_sink.char_count, counting_sink.utf8_byte_count);
    proof {
        lemma_full_absorb((Seq::empty(), Seq::empty()), ps);
        assert(Seq::<char>::empty() + pushes_text(ps) =~= pushes_text(ps));
        assert(Seq::<bool>::empty() + pushes_fixups(ps) =~= pushes_fixups(ps));
    }
    serialize(style, policy, is_in_messagebox, tokens, &mut full_sink);
    (full_sink.string, full_sink.fixup)
}

/// The token values of a well-formed message.
pub open spec fn message_tokens(style: MessageCommandStyle, s: Seq<char>) -> Seq<TokenView> {
    span_tokens(parse_message(style, s).unwrap())
}

/// `n` flags that are all `false`.
pub open spec fn no_fixups(n: nat) -> Seq<bool> {
    Seq::new(n, |_i: int| false)
}

/// The fixup flags of a decoded string: for a string with commands whose fixup was not
/// detected as absent, those that serializing its tokens writes; otherwise none.
pub open spec fn inferred_fixups(
    decoded: Seq<char>,
    style: MessageCommandStyle,
    message_policy: SjisMessageFixupPolicy,
    detected: FixupDetectResult,
    source: AnyStringSource,
) -> Seq<bool> {
    if detected == FixupDetectResult::UnfixedUp || !any_source_contains_commands(source) {
        no_fixups(decoded.len())
    } else {
        message_fixups(
            style,
            message_policy,
            any_source_is_for_messagebox(source),
            message_tokens(style, decoded),
        )
    }
}

/// `n` copies of `false`.
fn falses(n: usize) -> (r: Vec<bool>)
    ensures
        r@ == no_fixups(n as nat),
{
    let v = vec![false; n];
    assert(v@ =~= no_fixups(n as nat));
    v
}

/// The tokens of a well-formed message.
fn parse_tokens<'b>(style: MessageCommandStyle, message: &'b str) -> (r: Vec<MessageToken<'b>>)
    requires
        parse_message(style, message@) is Some,
        utf8_len(message@) <= usize::MAX,
    ensures
        token_views(r@) == message_tokens(style, message@),
{
    let mut tokens: Vec<MessageToken<'b>> = Vec::new();
    proof {
        assert(tokens.tokens() =~= Seq::<TokenView>::empty());
    }
    parse(style, message, &mut tokens);
    proof {
        assert(Seq::<TokenView>::empty() + message_tokens(style, message@) =~= message_tokens(style, message@));
        assert(token_views(tokens@) =~= tokens.tokens());
    }
    tokens
}

/// The fixup flag of each character of a decoded string. Where the string was not fixed up
/// at all, or holds no commands, no character is; otherwise the flags are those written when
/// its tokens are serialized again (which must give the string back).
pub fn infer_string_fixup_policy(
    decoded: &str,
    style: MessageCommandStyle,
    message_policy: SjisMessageFixupPolicy,
    detected: FixupDetectResult,
    source: AnyStringSource,
) -> (r: Vec<bool>)
    requires
        utf8_len(decoded@) <= usize::MAX,
        detected != FixupDetectResult::UnfixedUp && any_source_contains_commands(source) ==> {
            &&& parse_message(style, decoded@) is Some
            &&& message_text(style, message_tokens(style, decoded@)) == decoded@
        },
    ensures
        r@ == inferred_fixups(decoded@, style, message_policy, detected, source),
        r@.len() == decoded@.len(),
{
    if detected == FixupDetectResult::UnfixedUp {
        return falses(decoded.unicode_len());
    }
    if source.contains_commands() {
        let tokens = parse_tokens(style, decoded);
        let (_serialized, fixup_policy) = serialize_full(
            style,
            message_policy,
            source.is_for_messagebox(),
            tokens.as_slice(),
        );
        fixup_policy
    } else {
        falses(decoded.unicode_len())
    }
}

/// A decoded string rewritten from `in_style` to `out_style`: a string with commands is
/// parsed and serialized again, unless both styles are the same; other strings are kept.
pub fn transform_reflow(
    decoded: &str,
    in_style: MessageCommandStyle,
    out_style: MessageCommandStyle,
    has_useless_escapes: bool,
    source: AnyStringSource,
) -> (r: String)
    requires
        utf8_len(decoded@) <= usize::MAX,
        any_source_contains_commands(source) ==> {
            &&& parse_message(in_style, decoded@) is Some
            &&& utf8_len(message_text(out_style, message_tokens(in_style, decoded@))) <= usize::MAX
            &&& in_style == out_style && !has_useless_escapes ==> message_text(
                in_style,
                message_tokens(in_style, decoded@),
            ) == decoded@
        },
    ensures
        r@ == (if any_source_contains_commands(source) && in_style != out_style {
            message_text(out_style, message_tokens(in_style, decoded@))
        } else {
            decoded@
        }),
{
    if source.contains_commands() {
        let tokens = parse_tokens(in_style, decoded);
        let serialized_string = serialize_string(out_style, tokens.as_slice());
        if in_style == out_style {
            return decoded.to_owned();
        }
        serialized_string
    } else {
        decoded.to_owned()
    }
}

/// [`transform_reflow`] and [`infer_string_fixup_policy`] in one pass: the rewritten string
/// and the fixup flag of each of its characters (none where the string was not fixed up).
pub fn transform_reflow_and_infer_fixup_policy(
    decoded: &str,
    in_style: MessageCommandStyle,
    out_style: MessageCommandStyle,
    has_useless_escapes: bool,
    message_policy: SjisMessageFixupPolicy,
    detected: FixupDetectResult,
    source: AnyStringSource,
) -> (r: (String, Vec<bool>))
    requires
        utf8_len(decoded@) <= usize::MAX,
        any_source_contains_commands(source) ==> {
            &&& parse_message(in_style, decoded@) is Some
            &&& utf8_len(message_text(out_style, message_tokens(in_style, decoded@))) <= usize::MAX
            &&& in_style == out_style && !has_useless_escapes ==> message_text(
                in_style,
                message_tokens(in_style, decoded@),
            ) == decoded@
        },
    ensures
        any_source_contains_commands(source) ==> {
            &&& r.0@ == message_text(out_style, message_tokens(in_style, decoded@))
            &&& r.1@ == (if detected == FixupDetectResult::UnfixedUp {
                no_fixups(r.0@.len())
            } else {
                message_fixups(
                    out_style,
                    message_policy,
                    any_source_is_for_messagebox(source),
                    message_tokens(in_style, decoded@),
                )
            })
        },
        !any_source_contains_commands(source) ==> r.0@ == decoded@ && r.1@ == no_fixups(decoded@.len()),
        r.1@.len() == r.0@.len(),
{
    if source.contains_commands() {
        let tokens = parse_tokens(in_style, decoded);
        if detected == FixupDetectResult::UnfixedUp {
            let serialized = serialize_string(out_style, tokens.as_slice());
            let count = serialized.as_str().unicode_len();
            let fixups = falses(count);
            (serialized, fixups)
        } else {
            serialize_full(out_style, message_policy, source.is_for_messagebox(), tokens.as_slice())
        }
    } else {
        (decoded.to_owned(), falses(decoded.unicode_len()))
    }
}

} // verus!
