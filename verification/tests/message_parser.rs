use shin_tl::snr::layout::message_parser::lint::{lint_string, unknown_command_advice, AnyDiagnostic};
use shin_tl::snr::layout::message_parser::{
    infer_string_fixup_policy, is_well_formed, parse, serialize_full, serialize_string, transform_reflow,
    transform_reflow_and_infer_fixup_policy, CommandToken, MessageCommand, MessageToken, ParseIntArgError,
    SpannedMessageToken,
};
use shin_tl::snr::reactor::{AnyStringSource, StringArraySource, StringSource};
use shin_tl::text::FixupDetectResult;
use shin_tl::versions::{MessageCommandStyle, SjisMessageFixupPolicy};

const MSG: AnyStringSource = AnyStringSource::Singular(StringSource::Msgset(7));
const NAMELESS: SjisMessageFixupPolicy =
    SjisMessageFixupPolicy { fixup_command_arguments: false, fixup_character_names: false };

fn show(tokens: &[MessageToken]) -> String {
    let mut out = String::new();
    for t in tokens {
        match t {
            MessageToken::Literal(c) => out.push(*c),
            MessageToken::Command(CommandToken { command, argument: None }) => {
                out.push('[');
                out.push(*command);
                out.push(']');
            }
            MessageToken::Command(CommandToken { command, argument: Some(a) }) => {
                out.push('[');
                out.push(*command);
                out.push(':');
                out.push_str(a);
                out.push(']');
            }
        }
    }
    out
}

fn tokens<'a>(style: MessageCommandStyle, s: &'a str) -> Vec<MessageToken<'a>> {
    let mut v: Vec<MessageToken<'a>> = Vec::new();
    parse(style, s, &mut v);
    v
}

#[test]
fn command_char_roundtrip() {
    let m = MessageCommand::parse('r').unwrap();
    assert_eq!(m.into_char(), 'r');
    assert!(!m.has_arg());
    assert!(MessageCommand::parse('q').is_none());
    for c in ['+', '-', '/', '<', '>', 'a', 'b', 'c', 'e', 'k', 'o', 'r', 's', 't', 'u', 'v', 'w', 'x', 'y', 'z', '|', '[', ']', '{', '}'] {
        assert_eq!(MessageCommand::parse(c).unwrap().into_char(), c);
    }
}

#[test]
fn commands_with_arguments() {
    for c in ['a', 'b', 'c', 'o', 's', 'u', 'v', 'w', 'z'] {
        assert!(MessageCommand::parse(c).unwrap().has_arg(), "{}", c);
    }
    for c in ['+', '-', '/', '<', '>', 'e', 'k', 'r', 't', 'x', 'y', '|', '[', ']', '{', '}'] {
        assert!(!MessageCommand::parse(c).unwrap().has_arg(), "{}", c);
    }
}

#[test]
fn parse_int_arg_decimal() {
    let t = CommandToken { command: 'w', argument: Some("120") };
    assert_eq!(t.parse_int_arg().unwrap(), 120);
    let t = CommandToken { command: 'w', argument: None };
    assert!(matches!(t.parse_int_arg(), Err(ParseIntArgError::NoArgument)));
}

#[test]
fn parse_int_arg_edges() {
    let arg = |s: &'static str| CommandToken { command: 'w', argument: Some(s) }.parse_int_arg();
    assert_eq!(arg("+5").unwrap(), 5);
    assert_eq!(arg("0").unwrap(), 0);
    assert_eq!(arg("4294967295").unwrap(), u32::MAX);
    assert_eq!(arg("4294967296"), Err(ParseIntArgError::InvalidArgument));
    assert_eq!(arg(""), Err(ParseIntArgError::InvalidArgument));
    assert_eq!(arg("+"), Err(ParseIntArgError::InvalidArgument));
    assert_eq!(arg("-1"), Err(ParseIntArgError::InvalidArgument));
    assert_eq!(arg("1a"), Err(ParseIntArgError::InvalidArgument));
}

#[test]
fn parse_escaped() {
    let ts = tokens(MessageCommandStyle::Escaped, "@rHi@@@w120.!");
    assert_eq!(show(&ts), "[r]Hi@[w:120]!");
}

#[test]
fn parse_argument_without_dot() {
    // once no dot follows, no later command gets an argument either
    let ts = tokens(MessageCommandStyle::Escaped, "@w12@v3");
    assert_eq!(show(&ts), "[w]12[v]3");
    // an argument runs to the next dot, wherever it is
    let ts = tokens(MessageCommandStyle::Escaped, "@w12@v3.");
    assert_eq!(show(&ts), "[w:12@v3]");
}

#[test]
fn parse_unescaped() {
    let ts = tokens(MessageCommandStyle::Unescaped, "!Ar…w5.");
    assert_eq!(show(&ts), "A[r]…[w:5]");
}

#[test]
fn parse_spans() {
    let mut v: Vec<SpannedMessageToken> = Vec::new();
    parse(MessageCommandStyle::Escaped, "aあ@r", &mut v);
    let spans: Vec<(usize, usize)> = v.iter().map(|t| (t.start, t.end)).collect();
    assert_eq!(spans, vec![(0, 1), (1, 4), (4, 6)]);
}

#[test]
fn well_formed() {
    assert!(is_well_formed(MessageCommandStyle::Escaped, "@@@r"));
    assert!(!is_well_formed(MessageCommandStyle::Escaped, "abc@"));
    assert!(is_well_formed(MessageCommandStyle::Unescaped, "!a"));
    assert!(!is_well_formed(MessageCommandStyle::Unescaped, "a!"));
    assert!(is_well_formed(MessageCommandStyle::Unescaped, ""));
}

#[test]
fn serialize_roundtrip() {
    for s in ["@rHi@@@w120.", "plain text", "@k@|@{bold@}", "あ@bかな.@<漢字@>"] {
        let ts = tokens(MessageCommandStyle::Escaped, s);
        assert_eq!(serialize_string(MessageCommandStyle::Escaped, &ts), s);
    }
    for s in ["!A!Br", "…w5.あ"] {
        let ts = tokens(MessageCommandStyle::Unescaped, s);
        assert_eq!(serialize_string(MessageCommandStyle::Unescaped, &ts), s);
    }
}

#[test]
fn serialize_in_other_style() {
    let ts = tokens(MessageCommandStyle::Escaped, "@rab@w3.あ");
    assert_eq!(serialize_string(MessageCommandStyle::Unescaped, &ts), "r!a!bw3.あ");
    let ts = tokens(MessageCommandStyle::Unescaped, "r!@");
    assert_eq!(serialize_string(MessageCommandStyle::Escaped, &ts), "@r@@");
}

#[test]
fn serialize_full_fixups() {
    let ts = tokens(MessageCommandStyle::Escaped, "あ@rい@w5.う");
    let (s, fixups) = serialize_full(MessageCommandStyle::Escaped, NAMELESS, true, &ts);
    assert_eq!(s, "あ@rい@w5.う");
    // the first line of a message box is the character name: not fixed up under this policy
    assert_eq!(fixups, vec![false, false, false, true, false, false, false, false, true]);

    let args = SjisMessageFixupPolicy { fixup_command_arguments: true, fixup_character_names: true };
    let (_, fixups) = serialize_full(MessageCommandStyle::Escaped, args, true, &ts);
    assert_eq!(fixups, vec![true, false, false, true, false, false, true, false, true]);

    let (_, fixups) = serialize_full(MessageCommandStyle::Escaped, NAMELESS, false, &ts);
    assert_eq!(fixups, vec![true, false, false, true, false, false, false, false, true]);
}

#[test]
fn infer_policy() {
    let s = "あ@rい";
    let p = infer_string_fixup_policy(s, MessageCommandStyle::Escaped, NAMELESS, FixupDetectResult::FixedUp, MSG);
    assert_eq!(p, vec![false, false, false, true]);
    let p = infer_string_fixup_policy(s, MessageCommandStyle::Escaped, NAMELESS, FixupDetectResult::UnfixedUp, MSG);
    assert_eq!(p, vec![false; 4]);
    let other = AnyStringSource::Singular(StringSource::Saveinfo);
    let p = infer_string_fixup_policy(s, MessageCommandStyle::Escaped, NAMELESS, FixupDetectResult::FixedUp, other);
    assert_eq!(p, vec![false; 4]);
}

#[test]
fn transform_between_styles() {
    let s = transform_reflow("@rab", MessageCommandStyle::Escaped, MessageCommandStyle::Unescaped, false, MSG);
    assert_eq!(s, "r!a!b");
    let same = transform_reflow("@rab", MessageCommandStyle::Escaped, MessageCommandStyle::Escaped, false, MSG);
    assert_eq!(same, "@rab");
    // choices hold commands; save names do not, and are kept as they are
    let choice = AnyStringSource::Array(StringArraySource::Select, 1);
    let s = transform_reflow("@rab", MessageCommandStyle::Escaped, MessageCommandStyle::Unescaped, false, choice);
    assert_eq!(s, "r!a!b");
    let saveinfo = AnyStringSource::Singular(StringSource::Saveinfo);
    let kept = transform_reflow("@rab", MessageCommandStyle::Escaped, MessageCommandStyle::Unescaped, false, saveinfo);
    assert_eq!(kept, "@rab");
}

#[test]
fn transform_and_infer() {
    let (s, p) = transform_reflow_and_infer_fixup_policy(
        "rあ",
        MessageCommandStyle::Unescaped,
        MessageCommandStyle::Escaped,
        false,
        NAMELESS,
        FixupDetectResult::FixedUp,
        MSG,
    );
    assert_eq!(s, "@rあ");
    assert_eq!(p, vec![false, false, true]);
}

#[test]
fn lint_reports_problems() {
    assert!(lint_string("@rok", MessageCommandStyle::Escaped, MSG, 0).is_ok());
    let report = match lint_string("a@qb@w", MessageCommandStyle::Escaped, MSG, 3) {
        Ok(()) => panic!("expected diagnostics"),
        Err(r) => r,
    };
    assert_eq!(report.index, 3);
    assert_eq!(report.src, "a@qb@w");
    assert_eq!(
        report.diagnostics,
        vec![
            AnyDiagnostic::UnknownCommand { offset: 1, len: 2, advice_style: false },
            AnyDiagnostic::MissingCommandArgument { offset: 4, len: 2 },
        ]
    );
    // strings that hold no commands are not checked
    let saveinfo = AnyStringSource::Singular(StringSource::Saveinfo);
    assert!(lint_string("@q", MessageCommandStyle::Escaped, saveinfo, 0).is_ok());
}

#[test]
fn lint_advice_for_at_sign() {
    let report = match lint_string("@r", MessageCommandStyle::Unescaped, MSG, 0) {
        Ok(()) => panic!("expected diagnostics"),
        Err(r) => r,
    };
    assert_eq!(report.diagnostics, vec![AnyDiagnostic::UnknownCommand { offset: 0, len: 1, advice_style: true }]);
    assert!(unknown_command_advice(&report.diagnostics[0]).is_some());
    assert!(unknown_command_advice(&AnyDiagnostic::MissingCommandArgument { offset: 0, len: 1 }).is_none());
}
