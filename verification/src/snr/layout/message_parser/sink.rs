//! Destinations for serialized message text and for parsed message tokens.
use vstd::prelude::*;

use crate::chars::{char_width, lemma_utf8_len_concat, lemma_utf8_len_push, utf8_len};
use crate::snr::layout::message_parser::{MessageToken, SpannedMessageToken, TokenView};

verus! {

/// One step of writing message text: a character, or a string, each with its fixup flag.
pub enum Push {
    Char(char, bool),
    Str(Seq<char>, bool),
}

/// Receives the characters of a serialized message, each with its fixup flag.
pub trait StringSink: Sized {
    /// What the sink has recorded.
    type V;

    spec fn sink_view(&self) -> Self::V;

    /// The record after receiving character `c`.
    spec fn absorb_char(v: Self::V, c: char, fixup: bool) -> Self::V;

    /// The record after receiving the characters `s`.
    spec fn absorb_str(v: Self::V, s: Seq<char>, fixup: bool) -> Self::V;

    /// Whether the record has room for `c`.
    spec fn can_absorb_char(v: Self::V, c: char) -> bool;

    /// Whether the record has room for `s`.
    spec fn can_absorb_str(v: Self::V, s: Seq<char>) -> bool;

    fn push(&mut self, c: char, fixup: bool)
        requires
            Self::can_absorb_char(old(self).sink_view(), c),
        ensures
            final(self).sink_view() == Self::absorb_char(old(self).sink_view(), c, fixup),
    ;

    fn push_str(&mut self, s: &str, fixup: bool)
        requires
            Self::can_absorb_str(old(self).sink_view(), s@),
        ensures
            final(self).sink_view() == Self::absorb_str(old(self).sink_view(), s@, fixup),
    ;
}

/// The record after one push.
pub open spec fn absorb_push<S: StringSink>(v: S::V, p: Push) -> S::V {
    match p {
        Push::Char(c, f) => S::absorb_char(v, c, f),
        Push::Str(s, f) => S::absorb_str(v, s, f),
    }
}

/// Whether the record has room for one push.
pub open spec fn can_absorb_push<S: StringSink>(v: S::V, p: Push) -> bool {
    match p {
        Push::Char(c, _) => S::can_absorb_char(v, c),
        Push::Str(s, _) => S::can_absorb_str(v, s),
    }
}

/// The record after a sequence of pushes.
pub open spec fn absorb_pushes<S: StringSink>(v: S::V, ps: Seq<Push>) -> S::V
    decreases ps.len(),
{
    if ps.len() == 0 {
        v
    } else {
        absorb_push::<S>(absorb_pushes::<S>(v, ps.drop_last()), ps.last())
    }
}

/// Whether the record has room for a sequence of pushes.
pub open spec fn can_absorb_pushes<S: StringSink>(v: S::V, ps: Seq<Push>) -> bool
    decreases ps.len(),
{
    ps.len() == 0 || (can_absorb_pushes::<S>(v, ps.drop_last()) && can_absorb_push::<S>(
        absorb_pushes::<S>(v, ps.drop_last()),
        ps.last(),
    ))
}

/// The characters written by a sequence of pushes.
pub open spec fn pushes_text(ps: Seq<Push>) -> Seq<char>
    decreases ps.len(),
{
    if ps.len() == 0 {
        Seq::empty()
    } else {
        pushes_text(ps.drop_last()) + match ps.last() {
            Push::Char(c, _) => seq![c],
            Push::Str(s, _) => s,
        }
    }
}

/// The fixup flags written by a sequence of pushes, one per character.
pub open spec fn pushes_fixups(ps: Seq<Push>) -> Seq<bool>
    decreases ps.len(),
{
    if ps.len() == 0 {
        Seq::empty()
    } else {
        pushes_fixups(ps.drop_last()) + match ps.last() {
            Push::Char(_, f) => seq![f],
            Push::Str(s, f) => Seq::new(s.len(), |_i: int| f),
        }
    }
}

/// Pushing two sequences one after the other is pushing their concatenation.
pub proof fn lemma_absorb_pushes_concat<S: StringSink>(v: S::V, a: Seq<Push>, b: Seq<Push>)
    ensures
        absorb_pushes::<S>(v, a + b) == absorb_pushes::<S>(absorb_pushes::<S>(v, a), b),
        can_absorb_pushes::<S>(v, a + b) == (can_absorb_pushes::<S>(v, a) && can_absorb_pushes::<S>(
            absorb_pushes::<S>(v, a),
            b,
        )),
    decreases b.len(),
{
    if b.len() == 0 {
        assert(a + b =~= a);
    } else {
        lemma_absorb_pushes_concat::<S>(v, a, b.drop_last());
        assert((a + b).drop_last() =~= a + b.drop_last());
    }
}

/// The text of concatenated pushes.
pub proof fn lemma_pushes_text_concat(a: Seq<Push>, b: Seq<Push>)
    ensures
        pushes_text(a + b) == pushes_text(a) + pushes_text(b),
        pushes_fixups(a + b) == pushes_fixups(a) + pushes_fixups(b),
    decreases b.len(),
{
    if b.len() == 0 {
        assert(a + b =~= a);
        assert(pushes_text(a) + pushes_text(b) =~= pushes_text(a));
        assert(pushes_fixups(a) + pushes_fixups(b) =~= pushes_fixups(a));
    } else {
        lemma_pushes_text_concat(a, b.drop_last());
        assert((a + b).drop_last() =~= a + b.drop_last());
        assert(pushes_text(a + b) =~= pushes_text(a) + pushes_text(b));
        assert(pushes_fixups(a + b) =~= pushes_fixups(a) + pushes_fixups(b));
    }
}

/// There is one fixup flag per character.
pub proof fn lemma_pushes_fixups_len(ps: Seq<Push>)
    ensures
        pushes_fixups(ps).len() == pushes_text(ps).len(),
    decreases ps.len(),
{
    if ps.len() > 0 {
        lemma_pushes_fixups_len(ps.drop_last());
    }
}

/// The record after `done` and then `p` were pushed.
proof fn lemma_absorb_pushes_push<S: StringSink>(v: S::V, done: Seq<Push>, p: Push)
    ensures
        absorb_pushes::<S>(v, done.push(p)) == absorb_push::<S>(absorb_pushes::<S>(v, done), p),
{
    assert(done.push(p).drop_last() =~= done);
}

/// Pushes `c` after the pushes `done`, where the record has room for `c` and then `rest`.
pub(crate) fn push_char_then<S: StringSink>(
    sink: &mut S,
    c: char,
    fixup: bool,
    Ghost(v): Ghost<S::V>,
    Ghost(done): Ghost<Seq<Push>>,
    Ghost(rest): Ghost<Seq<Push>>,
)
    requires
        old(sink).sink_view() == absorb_pushes::<S>(v, done),
        can_absorb_pushes::<S>(old(sink).sink_view(), seq![Push::Char(c, fixup)] + rest),
    ensures
        final(sink).sink_view() == absorb_pushes::<S>(v, done.push(Push::Char(c, fixup))),
        can_absorb_pushes::<S>(final(sink).sink_view(), rest),
{
    let ghost one = seq![Push::Char(c, fixup)];
    proof {
        lemma_absorb_pushes_concat::<S>(sink.sink_view(), one, rest);
        assert(one.drop_last() =~= Seq::<Push>::empty());
        lemma_absorb_pushes_push::<S>(v, done, Push::Char(c, fixup));
    }
    sink.push(c, fixup);
}

/// Pushes `s` after the pushes `done`, where the record has room for `s` and then `rest`.
pub(crate) fn push_str_then<S: StringSink>(
    sink: &mut S,
    s: &str,
    fixup: bool,
    Ghost(v): Ghost<S::V>,
    Ghost(done): Ghost<Seq<Push>>,
    Ghost(rest): Ghost<Seq<Push>>,
)
    requires
        old(sink).sink_view() == absorb_pushes::<S>(v, done),
        can_absorb_pushes::<S>(old(sink).sink_view(), seq![Push::Str(s@, fixup)] + rest),
    ensures
        final(sink).sink_view() == absorb_pushes::<S>(v, done.push(Push::Str(s@, fixup))),
        can_absorb_pushes::<S>(final(sink).sink_view(), rest),
{
    let ghost one = seq![Push::Str(s@, fixup)];
    proof {
        lemma_absorb_pushes_concat::<S>(sink.sink_view(), one, rest);
        assert(one.drop_last() =~= Seq::<Push>::empty());
        lemma_absorb_pushes_push::<S>(v, done, Push::Str(s@, fixup));
    }
    sink.push_str(s, fixup);
}

/// Appends `c` to `s`.
#[verifier::external_body]
pub(crate) fn string_push(s: &mut String, c: char)
    ensures
        final(s)@ == old(s)@.push(c),
{
    s.push(c)
}

/// An empty string with room reserved for `capacity` bytes.
#[verifier::external_body]
pub fn string_with_capacity(capacity: usize) -> (r: String)
    ensures
        r@ == Seq::<char>::empty(),
{
    String::with_capacity(capacity)
}

impl StringSink for String {
    type V = Seq<char>;

    open spec fn sink_view(&self) -> Seq<char> {
        self@
    }

    open spec fn absorb_char(v: Seq<char>, c: char, fixup: bool) -> Seq<char> {
        v.push(c)
    }

    open spec fn absorb_str(v: Seq<char>, s: Seq<char>, fixup: bool) -> Seq<char> {
        v + s
    }

    open spec fn can_absorb_char(v: Seq<char>, c: char) -> bool {
        true
    }

    open spec fn can_absorb_str(v: Seq<char>, s: Seq<char>) -> bool {
        true
    }

    fn push(&mut self, c: char, _fixup: bool) {
        string_push(self, c);
    }

    fn push_str(&mut self, s: &str, _fixup: bool) {
        self.append(s);
    }
}

/// A string sink records the pushed text.
pub proof fn lemma_string_absorb(v: Seq<char>, ps: Seq<Push>)
    ensures
        absorb_pushes::<String>(v, ps) == v + pushes_text(ps),
        can_absorb_pushes::<String>(v, ps),
    decreases ps.len(),
{
    if ps.len() > 0 {
        lemma_string_absorb(v, ps.drop_last());
        match ps.last() {
            Push::Char(c, _) => {
                assert(absorb_pushes::<String>(v, ps) =~= v + pushes_text(ps));
            },
            Push::Str(s, _) => {
                assert(absorb_pushes::<String>(v, ps) =~= v + pushes_text(ps));
            },
        }
    } else {
        assert(v + pushes_text(ps) =~= v);
    }
}

/// Counts the characters and UTF-8 bytes pushed to it.
pub struct CountingStringSink {
    pub char_count: usize,
    pub utf8_byte_count: usize,
}

impl CountingStringSink {
    pub fn new() -> (r: Self)
        ensures
            r.char_count == 0,
            r.utf8_byte_count == 0,
    {
        Self { char_count: 0, utf8_byte_count: 0 }
    }
}

impl StringSink for CountingStringSink {
    type V = (int, int);

    open spec fn sink_view(&self) -> (int, int) {
        (self.char_count as int, self.utf8_byte_count as int)
    }

    open spec fn absorb_char(v: (int, int), c: char, fixup: bool) -> (int, int) {
        (v.0 + 1, v.1 + char_width(c))
    }

    open spec fn absorb_str(v: (int, int), s: Seq<char>, fixup: bool) -> (int, int) {
        (v.0 + s.len(), v.1 + utf8_len(s))
    }

    open spec fn can_absorb_char(v: (int, int), c: char) -> bool {
        v.0 + 1 <= usize::MAX && v.1 + char_width(c) <= usize::MAX
    }

    open spec fn can_absorb_str(v: (int, int), s: Seq<char>) -> bool {
        v.0 + s.len() <= usize::MAX && v.1 + utf8_len(s) <= usize::MAX
    }

    fn push(&mut self, c: char, _fixup: bool) {
        self.char_count = self.char_count + 1;
        self.utf8_byte_count = self.utf8_byte_count + crate::chars::utf8_width(c);
    }

    fn push_str(&mut self, s: &str, _fixup: bool) {
        self.char_count = self.char_count + s.unicode_len();
        self.utf8_byte_count = self.utf8_byte_count + s.len();
    }
}

/// A counting sink records the number of characters and bytes of the pushed text.
pub proof fn lemma_counting_absorb(v: (int, int), ps: Seq<Push>)
    ensures
        absorb_pushes::<CountingStringSink>(v, ps) == (
            v.0 + pushes_text(ps).len(),
            v.1 + utf8_len(pushes_text(ps)),
        ),
        v.0 + pushes_text(ps).len() <= usize::MAX && v.1 + utf8_len(pushes_text(ps))
            <= usize::MAX ==> can_absorb_pushes::<CountingStringSink>(v, ps),
    decreases ps.len(),
{
    if ps.len() > 0 {
        let before = ps.drop_last();
        lemma_counting_absorb(v, before);
        lemma_pushes_text_concat(before, seq![ps.last()]);
        assert(before + seq![ps.last()] =~= ps);
        match ps.last() {
            Push::Char(c, _) => {
                lemma_utf8_len_push(pushes_text(before), c);
                assert(pushes_text(before).push(c) =~= pushes_text(ps));
            },
            Push::Str(s, _) => {
                lemma_utf8_len_concat(pushes_text(before), s);
            },
        }
    } else {
        assert(utf8_len(Seq::<char>::empty()) == 0);
    }
}

/// Records both the pushed text and the fixup flag of each character.
pub struct FullStringSink {
    pub string: String,
    pub fixup: Vec<bool>,
}

impl FullStringSink {
    pub fn new(capacity_chars: usize, capacity_bytes: usize) -> (r: Self)
        ensures
            r.string@ == Seq::<char>::empty(),
            r.fixup@ == Seq::<bool>::empty(),
    {
        Self { string: string_with_capacity(capacity_bytes), fixup: Vec::with_capacity(capacity_chars) }
    }
}

impl StringSink for FullStringSink {
    type V = (Seq<char>, Seq<bool>);

    open spec fn sink_view(&self) -> (Seq<char>, Seq<bool>) {
        (self.string@, self.fixup@)
    }

    open spec fn absorb_char(v: (Seq<char>, Seq<bool>), c: char, fixup: bool) -> (
        Seq<char>,
        Seq<bool>,
    ) {
        (v.0.push(c), v.1.push(fixup))
    }

    open spec fn absorb_str(v: (Seq<char>, Seq<bool>), s: Seq<char>, fixup: bool) -> (
        Seq<char>,
        Seq<bool>,
    ) {
        (v.0 + s, v.1 + Seq::new(s.len(), |_i: int| fixup))
    }

    open spec fn can_absorb_char(v: (Seq<char>, Seq<bool>), c: char) -> bool {
        true
    }

    open spec fn can_absorb_str(v: (Seq<char>, Seq<bool>), s: Seq<char>) -> bool {
        true
    }

    fn push(&mut self, c: char, fixup: bool) {
        string_push(&mut self.string, c);
        self.fixup.push(fixup);
    }

    fn push_str(&mut self, s: &str, fixup: bool) {
        let ghost text = self.string@;
        self.string.append(s);
        let n = s.unicode_len();
        let ghost start = self.fixup@;
        let mut i: usize = 0;
        while i < n
            invariant
                i <= n,
                n == s@.len(),
                self.string@ == text + s@,
                self.fixup@ == start + Seq::new(i as nat, |_j: int| fixup),
            decreases n - i,
        {
            self.fixup.push(fixup);
            i = i + 1;
            assert(self.fixup@ =~= start + Seq::new(i as nat, |_j: int| fixup));
        }
    }
}

/// A full sink records the pushed text and the fixup flags.
pub proof fn lemma_full_absorb(v: (Seq<char>, Seq<bool>), ps: Seq<Push>)
    ensures
        absorb_pushes::<FullStringSink>(v, ps) == (v.0 + pushes_text(ps), v.1 + pushes_fixups(ps)),
        can_absorb_pushes::<FullStringSink>(v, ps),
    decreases ps.len(),
{
    if ps.len() > 0 {
        lemma_full_absorb(v, ps.drop_last());
        assert(absorb_pushes::<FullStringSink>(v, ps).0 =~= v.0 + pushes_text(ps));
        assert(absorb_pushes::<FullStringSink>(v, ps).1 =~= v.1 + pushes_fixups(ps));
    } else {
        assert(v.0 + pushes_text(ps) =~= v.0);
        assert(v.1 + pushes_fixups(ps) =~= v.1);
    }
}

/// Receives the tokens of a parsed message with their byte spans.
pub trait TokenSink<'bump>: Sized {
    /// The tokens received.
    spec fn tokens(&self) -> Seq<TokenView>;

    /// The byte spans received, when the sink keeps them.
    spec fn spans(&self) -> Seq<(int, int)>;

    /// Whether the sink keeps spans.
    spec fn keeps_spans() -> bool;

    fn push(&mut self, start: usize, end: usize, token: MessageToken<'bump>)
        ensures
            final(self).tokens() == old(self).tokens().push(token@),
            Self::keeps_spans() ==> final(self).spans() == old(self).spans().push(
                (start as int, end as int),
            ),
    ;
}

impl<'bump> TokenSink<'bump> for Vec<MessageToken<'bump>> {
    open spec fn tokens(&self) -> Seq<TokenView> {
        self@.map_values(|t: MessageToken<'bump>| t@)
    }

    open spec fn spans(&self) -> Seq<(int, int)> {
        Seq::empty()
    }

    open spec fn keeps_spans() -> bool {
        false
    }

    fn push(&mut self, _start: usize, _end: usize, token: MessageToken<'bump>) {
        let ghost before = self@;
        Vec::push(self, token);
        assert(self@.map_values(|t: MessageToken<'bump>| t@) =~= before.map_values(
            |t: MessageToken<'bump>| t@,
        ).push(token@));
    }
}

impl<'bump> TokenSink<'bump> for Vec<SpannedMessageToken<'bump>> {
    open spec fn tokens(&self) -> Seq<TokenView> {
        self@.map_values(|t: SpannedMessageToken<'bump>| t.token@)
    }

    open spec fn spans(&self) -> Seq<(int, int)> {
        self@.map_values(|t: SpannedMessageToken<'bump>| (t.start as int, t.end as int))
    }

    open spec fn keeps_spans() -> bool {
        true
    }

    fn push(&mut self, start: usize, end: usize, token: MessageToken<'bump>) {
        let ghost before = self@;
        Vec::push(self, SpannedMessageToken { start, end, token });
        assert(self@.map_values(|t: SpannedMessageToken<'bump>| t.token@) =~= before.map_values(
            |t: SpannedMessageToken<'bump>| t.token@,
        ).push(token@));
        assert(self@.map_values(|t: SpannedMessageToken<'bump>| (t.start as int, t.end as int))
            =~= before.map_values(
            |t: SpannedMessageToken<'bump>| (t.start as int, t.end as int),
        ).push((start as int, end as int)));
    }
}

} // verus!
