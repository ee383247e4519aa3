//! Replacing strings with those of a translation table, one row per string of the script.
use vstd::prelude::*;

use crate::chars::{str_chars, utf8_len};
use crate::snr::layout::message_parser::grammar::parse_message;
use crate::snr::layout::message_parser::lint::{diagnostics_of, lint_string, AnyDiagnostic, LineReport};
use crate::snr::layout::message_parser::{decimal_value, is_digit};
use crate::snr::reactor::{
    any_source_contains_commands, source_from_kind, AnyStringSource, StringArraySource, StringSource,
};
use crate::versions::{AnyStringKind, MessageCommandStyle};

verus! {

/// Which column a string is replaced with.
#[derive(Debug, Clone, Copy, PartialEq, Eq, Structural)]
pub enum StringReplacementMode {
    /// Replace strings with the value from `translated` column, leaving those that don't
    /// have a translation as-is. The `s` column will be ignored.
    TranslatedOnly,
    /// Replace strings with the value from `translated` column, falling back to `s` column
    /// if `translated` is not present.
    TranslatedOrOriginal,
}

impl Default for StringReplacementMode {
    fn default() -> (r: Self)
        ensures
            r == StringReplacementMode::TranslatedOnly,
    {
        StringReplacementMode::TranslatedOnly
    }
}

/// One row of the table as it is read: the string index, the offset of its operation,
/// its source, the original string and its translation.
pub struct RawEntry {
    pub index: u32,
    pub offset: u32,
    pub source: AnyStringKind,
    pub source_subindex: u32,
    pub s: String,
    pub translated: Option<String>,
}

/// One string of the table.
pub struct Entry {
    pub offset: u32,
    pub source: AnyStringSource,
    pub s: String,
    pub translated: Option<String>,
}

/// The source named by a kind and a subindex.
pub open spec fn source_of_kind(kind: AnyStringKind, subindex: u32) -> AnyStringSource {
    match kind {
        AnyStringKind::Singular(k) => AnyStringSource::Singular(source_from_kind(k, subindex)),
        AnyStringKind::Array(_) => AnyStringSource::Array(StringArraySource::Select, subindex),
    }
}

/// Whether `e` is the entry of row `r`.
pub open spec fn is_entry_of(e: Entry, r: RawEntry) -> bool {
    &&& e.offset == r.offset
    &&& e.source == source_of_kind(r.source, r.source_subindex)
    &&& e.s@ == r.s@
    &&& match (e.translated, r.translated) {
        (Some(a), Some(b)) => a@ == b@,
        (None, None) => true,
        _ => false,
    }
}

/// The string an entry replaces its string with, if any.
pub open spec fn effective_string(
    s: Seq<char>,
    translated: Option<Seq<char>>,
    mode: StringReplacementMode,
) -> Option<Seq<char>> {
    match (translated, mode) {
        (Some(t), _) => Some(t),
        (None, StringReplacementMode::TranslatedOnly) => None,
        (None, StringReplacementMode::TranslatedOrOriginal) => Some(s),
    }
}

/// The view of an optional string.
pub open spec fn opt_view(s: Option<String>) -> Option<Seq<char>> {
    match s {
        Some(t) => Some(t@),
        None => None,
    }
}

impl RawEntry {
    /// The entry of this row.
    pub fn into_entry(self) -> (r: Entry)
        ensures
            is_entry_of(r, self),
    {
        let source = match self.source {
            AnyStringKind::Singular(singular) => AnyStringSource::Singular(
                StringSource::from_kind(singular, self.source_subindex),
            ),
            AnyStringKind::Array(array) => AnyStringSource::Array(
                StringArraySource::from_kind(array),
                self.source_subindex,
            ),
        };
        Entry { offset: self.offset, source, s: self.s, translated: self.translated }
    }
}

impl Entry {
    pub fn get_effective_string(&self, mode: StringReplacementMode) -> (r: Option<&str>)
        ensures
            match r {
                Some(t) => effective_string(self.s@, opt_view(self.translated), mode) == Some(t@),
                None => effective_string(self.s@, opt_view(self.translated), mode) is None,
            },
    {
        match (&self.translated, mode) {
            (Some(translated), _) => Some(translated.as_str()),
            (None, StringReplacementMode::TranslatedOnly) => None,
            (None, StringReplacementMode::TranslatedOrOriginal) => Some(self.s.as_str()),
        }
    }
}

/// The value of a hexadecimal digit.
pub open spec fn hex_digit_value(c: char) -> Option<nat> {
    let v = c as u32;
    if 48 <= v <= 57 {
        Some((v - 48) as nat)
    } else if 97 <= v <= 102 {
        Some((v - 87) as nat)
    } else if 65 <= v <= 70 {
        Some((v - 55) as nat)
    } else {
        None
    }
}

/// The value of hexadecimal digits.
pub open spec fn hex_value(ds: Seq<char>) -> nat
    decreases ds.len(),
{
    if ds.len() == 0 {
        0
    } else {
        hex_value(ds.drop_last()) * 16 + hex_digit_value(ds.last()).unwrap_or(0)
    }
}

/// The digits of a hexadecimal offset: the text without a leading `0x`, then without one
/// leading `+`.
pub open spec fn hex_digits(s: Seq<char>) -> Seq<char> {
    let t = if s.len() >= 2 && s[0] == '0' && s[1] == 'x' {
        s.skip(2)
    } else {
        s
    };
    if t.len() > 0 && t[0] == '+' {
        t.skip(1)
    } else {
        t
    }
}

/// The `u32` written in hexadecimal by `s`, with an optional `0x` prefix; `None` where `s`
/// is no such number or the number does not fit in 32 bits.
pub open spec fn parse_hex_u32(s: Seq<char>) -> Option<nat> {
    let ds = hex_digits(s);
    if ds.len() > 0 && (forall|i: int| 0 <= i < ds.len() ==> (#[trigger] hex_digit_value(ds[i])) is Some)
        && hex_value(ds) <= u32::MAX {
        Some(hex_value(ds))
    } else {
        None
    }
}

/// A prefix of hexadecimal digits has no greater value than the whole.
proof fn lemma_hex_value_prefix(ds: Seq<char>, k: int)
    requires
        0 <= k <= ds.len(),
    ensures
        hex_value(ds.take(k)) <= hex_value(ds),
    decreases ds.len(),
{
    if k < ds.len() {
        let init = ds.drop_last();
        lemma_hex_value_prefix(init, k);
        assert(init.take(k) =~= ds.take(k));
    } else {
        assert(ds.take(k) =~= ds);
    }
}

/// Reads the offset column: a hexadecimal `u32`, optionally prefixed by `0x`.
pub fn parse_hex_offset(s: &str) -> (r: Option<u32>)
    ensures
        match parse_hex_u32(s@) {
            Some(v) => r == Some(v as u32),
            None => r is None,
        },
{
    let chars = str_chars(s);
    let n = chars.len();
    let mut start: usize = if n >= 2 && chars[0] == '0' && chars[1] == 'x' {
        2
    } else {
        0
    };
    if start < n && chars[start] == '+' {
        start = start + 1;
    }
    let ghost ds = hex_digits(s@);
    proof {
        assert(ds =~= chars@.skip(start as int));
    }
    if start == n {
        return None;
    }
    let mut k = start;
    let mut acc: u64 = 0;
    proof {
        assert(ds.take(0) =~= Seq::<char>::empty());
    }
    while k < n
        invariant
            start <= k <= n,
            n == chars@.len(),
            chars@ == s@,
            ds == hex_digits(s@),
            ds =~= chars@.skip(start as int),
            acc == hex_value(ds.take(k - start)),
            acc <= u32::MAX,
            forall|i: int| 0 <= i < k - start ==> (#[trigger] hex_digit_value(ds[i])) is Some,
        decreases n - k,
    {
        let c = chars[k];
        let ghost j = k - start;
        assert(ds[j] == c);
        let cv = c as u32;
        let d: u64 = if 48 <= cv && cv <= 57 {
            (cv - 48) as u64
        } else if 97 <= cv && cv <= 102 {
            (cv - 87) as u64
        } else if 65 <= cv && cv <= 70 {
            (cv - 55) as u64
        } else {
            assert(hex_digit_value(ds[j]) is None);
            return None;
        };
        assert(ds.take(j + 1).drop_last() =~= ds.take(j));
        assert(ds.take(j + 1).last() == c);
        assert(hex_value(ds.take(j + 1)) == hex_value(ds.take(j)) * 16 + d);
        acc = acc * 16 + d;
        if acc > 0xffff_ffff {
            proof {
                lemma_hex_value_prefix(ds, j + 1);
            }
            return None;
        }
        k = k + 1;
    }
    proof {
        assert(ds.take(k - start) =~= ds);
    }
    Some(acc as u32)
}

/// The length the table is grown to before a row with index `idx` is stored: doubled once
/// where it is too short.
pub open spec fn grown_len(len: nat, idx: nat) -> nat {
    if len <= idx {
        2 * len
    } else {
        len
    }
}

/// The length of the table after the rows.
pub open spec fn table_len(rows: Seq<RawEntry>) -> nat
    decreases rows.len(),
{
    if rows.len() == 0 {
        64
    } else {
        grown_len(table_len(rows.drop_last()), rows.last().index as nat)
    }
}

/// Whether the table can hold every row: after growing, each row's index is inside it.
#[verifier::opaque]
pub open spec fn rows_fit(rows: Seq<RawEntry>) -> bool {
    forall|k: int|
        0 <= k < rows.len() ==> {
            let g = grown_len(table_len(rows.take(k)), (#[trigger] rows[k]).index as nat);
            &&& (rows[k].index as nat) < g
            &&& g <= usize::MAX
        }
}

/// The table built from rows: at each index the last row with that index, if any.
pub open spec fn table_entry(rows: Seq<RawEntry>, i: int) -> Option<RawEntry>
    decreases rows.len(),
{
    if rows.len() == 0 {
        None
    } else if rows.last().index == i {
        Some(rows.last())
    } else {
        table_entry(rows.drop_last(), i)
    }
}

/// Whether `t` is the table built from `rows`.
#[verifier::opaque]
pub open spec fn is_table_of(t: Seq<Option<Entry>>, rows: Seq<RawEntry>) -> bool {
    &&& t.len() == table_len(rows)
    &&& forall|i: int|
        0 <= i < t.len() ==> match (#[trigger] t[i], table_entry(rows, i)) {
            (Some(e), Some(r)) => is_entry_of(e, r),
            (None, None) => true,
            _ => false,
        }
}

/// The table grows with the rows.
proof fn lemma_table_len_grows(rows: Seq<RawEntry>)
    ensures
        64 <= table_len(rows),
    decreases rows.len(),
{
    if rows.len() > 0 {
        lemma_table_len_grows(rows.drop_last());
    }
}

/// The rows before `k` fit where all rows fit.
proof fn lemma_rows_fit_take(rows: Seq<RawEntry>, k: int)
    requires
        rows_fit(rows),
        0 <= k <= rows.len(),
    ensures
        rows_fit(rows.take(k)),
{
    reveal(rows_fit);
    assert forall|j: int| 0 <= j < rows.take(k).len() implies {
        let g = grown_len(table_len(rows.take(k).take(j)), (#[trigger] rows.take(k)[j]).index as nat);
        &&& (rows.take(k)[j].index as nat) < g
        &&& g <= usize::MAX
    } by {
        assert(rows.take(k).take(j) =~= rows.take(j));
        assert(rows.take(k)[j] == rows[j]);
    }
}

/// Only indices inside the table have an entry, where every row fits.
proof fn lemma_table_entry_inside(rows: Seq<RawEntry>, i: int)
    requires
        rows_fit(rows),
        table_entry(rows, i) is Some,
    ensures
        0 <= i < table_len(rows),
    decreases rows.len(),
{
    let k = rows.len() - 1;
    assert(rows.take(k) =~= rows.drop_last());
    lemma_rows_fit_take(rows, k);
    if rows.last().index != i {
        lemma_table_entry_inside(rows.drop_last(), i);
        lemma_table_len_grows_mono(rows);
    } else {
        assert(rows[k] == rows.last());
        lemma_rows_fit_at(rows, k);
    }
}

/// Storing a row into the grown table gives the table of the rows so far.
proof fn lemma_table_store(
    t: Seq<Option<Entry>>,
    g: Seq<Option<Entry>>,
    rows: Seq<RawEntry>,
    row: RawEntry,
    e: Entry,
)
    requires
        is_table_of(t, rows),
        rows_fit(rows),
        g.len() == grown_len(t.len(), row.index as nat),
        (row.index as int) < g.len(),
        forall|j: int| 0 <= j < t.len() ==> #[trigger] g[j] == t[j],
        forall|j: int| t.len() <= j < g.len() ==> (#[trigger] g[j]) is None,
        is_entry_of(e, row),
    ensures
        is_table_of(g.update(row.index as int, Some(e)), rows.push(row)),
{
    reveal(is_table_of);
    let now = rows.push(row);
    let r = g.update(row.index as int, Some(e));
    assert(now.drop_last() =~= rows);
    assert forall|i: int| 0 <= i < r.len() implies match (#[trigger] r[i], table_entry(now, i)) {
        (Some(e), Some(r)) => is_entry_of(e, r),
        (None, None) => true,
        _ => false,
    } by {
        if i != row.index {
            assert(table_entry(now, i) == table_entry(rows, i));
            if i >= t.len() && table_entry(rows, i) is Some {
                lemma_table_entry_inside(rows, i);
            }
        }
    }
}

/// The length of a table.
proof fn lemma_table_len(t: Seq<Option<Entry>>, rows: Seq<RawEntry>)
    requires
        is_table_of(t, rows),
    ensures
        t.len() == table_len(rows),
{
    reveal(is_table_of);
}

/// The table never shrinks.
proof fn lemma_table_len_grows_mono(rows: Seq<RawEntry>)
    requires
        rows.len() > 0,
    ensures
        table_len(rows.drop_last()) <= table_len(rows),
{
}

/// What fitting means for the row at `k`.
proof fn lemma_rows_fit_at(rows: Seq<RawEntry>, k: int)
    requires
        rows_fit(rows),
        0 <= k < rows.len(),
    ensures
        (rows[k].index as nat) < grown_len(table_len(rows.take(k)), rows[k].index as nat),
        grown_len(table_len(rows.take(k)), rows[k].index as nat) <= usize::MAX,
{
    reveal(rows_fit);
}

/// Appends `None` until the table has `target` entries.
fn grow_with_none(result: &mut Vec<Option<Entry>>, target: usize)
    requires
        old(result)@.len() <= target,
    ensures
        final(result)@.len() == target,
        forall|j: int| 0 <= j < old(result)@.len() ==> #[trigger] final(result)@[j] == old(result)@[j],
        forall|j: int| old(result)@.len() <= j < target ==> (#[trigger] final(result)@[j]) is None,
{
    let ghost before = result@;
    while result.len() < target
        invariant
            before.len() <= result@.len() <= target,
            forall|j: int| 0 <= j < before.len() ==> #[trigger] result@[j] == before[j],
            forall|j: int| before.len() <= j < result@.len() ==> (#[trigger] result@[j]) is None,
        decreases target - result@.len(),
    {
        result.push(None);
    }
}

/// Builds the table of entries from its rows, in order.
fn read_csv(rows: Vec<RawEntry>) -> (r: Vec<Option<Entry>>)
    requires
        rows_fit(rows@),
    ensures
        is_table_of(r@, rows@),
{
    let ghost all = rows@;
    let _total = rows.len();
    let mut result: Vec<Option<Entry>> = Vec::new();
    let mut i: usize = 0;
    while i < 64
        invariant
            i <= 64,
            result@.len() == i,
            forall|j: int| 0 <= j < i ==> (#[trigger] result@[j]) is None,
        decreases 64 - i,
    {
        result.push(None);
        i = i + 1;
    }
    let mut pending = rows;
    let mut rows: Vec<RawEntry> = Vec::new();
    while pending.len() > 0
        invariant
            pending@ + rows@.reverse() == all,
        decreases pending@.len(),
    {
        let ghost before = pending@;
        let row = pending.pop().unwrap();
        rows.push(row);
        proof {
            assert(pending@ + rows@.reverse() =~= all) by {
                assert(before =~= pending@.push(row));
                assert(rows@.reverse() =~= seq![row] + rows@.drop_last().reverse());
            }
        }
    }
    proof {
        assert(rows@ =~= all.skip(0).reverse()) by {
            assert(pending@ =~= Seq::<RawEntry>::empty());
            assert(rows@.reverse() =~= all);
            assert(rows@.reverse().reverse() =~= rows@);
        }
        assert(all.take(0) =~= Seq::<RawEntry>::empty());
        reveal(is_table_of);
    }
    let mut k: usize = 0;
    while rows.len() > 0
        invariant
            k + rows@.len() == all.len(),
            all.len() <= usize::MAX,
            rows@ == all.skip(k as int).reverse(),
            rows_fit(all),
            is_table_of(result@, all.take(k as int)),
        decreases rows@.len(),
    {
        let row = rows.pop().unwrap();
        proof {
            assert(row == all[k as int]);
            assert(all.take(k + 1).drop_last() =~= all.take(k as int));
            assert(all.take(k + 1).last() == row);
            lemma_table_len_grows(all.take(k as int));
        }
        let index = row.index as usize;
        let ghost before = result@;
        let ghost prefix = all.take(k as int);
        proof {
            lemma_rows_fit_at(all, k as int);
            lemma_table_len(result@, prefix);
        }
        if result.len() <= index {
            let target = result.len() * 2;
            grow_with_none(&mut result, target);
        }
        let ghost grown = result@;
        let entry = row.into_entry();
        proof {
            lemma_rows_fit_take(all, k as int);
            lemma_table_store(before, grown, prefix, row, entry);
            assert(prefix.push(row) =~= all.take(k + 1));
        }
        result.set(index, Some(entry));
        k = k + 1;
        proof {
            assert(rows@ =~= all.skip(k as int).reverse());
        }
    }
    proof {
        assert(all.take(k as int) =~= all);
    }
    result
}

/// The translation table.
pub struct CsvData {
    entries: Vec<Option<Entry>>,
}

impl CsvData {
    /// The entry at each string index.
    pub closed spec fn entries(&self) -> Seq<Option<Entry>> {
        self.entries@
    }

    /// The table of `rows`, read in order.
    pub fn new(rows: Vec<RawEntry>) -> (r: Self)
        requires
            rows_fit(rows@),
        ensures
            is_table_of(r.entries(), rows@),
    {
        Self { entries: read_csv(rows) }
    }
}

/// The string a table line puts in place of its string, if any.
pub open spec fn line_string(line: Option<Entry>, mode: StringReplacementMode) -> Option<Seq<char>> {
    match line {
        Some(e) => effective_string(e.s@, opt_view(e.translated), mode),
        None => None,
    }
}

/// Whether a line's string can be checked: where it may hold commands it parses in
/// `style`, and its UTF-8 length fits in memory.
pub open spec fn line_checkable(line: Option<Entry>, mode: StringReplacementMode, style: MessageCommandStyle) -> bool {
    match (line, line_string(line, mode)) {
        (Some(e), Some(s)) => {
            &&& utf8_len(s) <= usize::MAX
            &&& any_source_contains_commands(e.source) ==> parse_message(style, s) is Some
        },
        _ => true,
    }
}

/// The problems of a line's string: none where the line or its string is missing or the
/// string holds no commands.
pub open spec fn line_diagnostics(line: Option<Entry>, mode: StringReplacementMode, style: MessageCommandStyle) -> Seq<
    AnyDiagnostic,
> {
    match (line, line_string(line, mode)) {
        (Some(e), Some(s)) => if any_source_contains_commands(e.source) {
            diagnostics_of(s, parse_message(style, s).unwrap())
        } else {
            Seq::empty()
        },
        _ => Seq::empty(),
    }
}

/// The indices of the lines among the first `n` that have problems, in order.
pub open spec fn failing_lines(
    lines: Seq<Option<Entry>>,
    mode: StringReplacementMode,
    style: MessageCommandStyle,
    n: int,
) -> Seq<int>
    decreases n,
{
    if n <= 0 {
        Seq::empty()
    } else {
        let rest = failing_lines(lines, mode, style, n - 1);
        if line_diagnostics(lines[n - 1], mode, style).len() > 0 {
            rest.push(n - 1)
        } else {
            rest
        }
    }
}

impl CsvData {
    /// Checks the string that each line puts in place: `Ok` where no line has a problem,
    /// otherwise the reports of the first 64 lines that have one, in order.
    pub fn lint(&self, mode: StringReplacementMode, style: MessageCommandStyle) -> (r: Result<(), Vec<LineReport>>)
        requires
            self.entries().len() <= u32::MAX,
            forall|i: int| 0 <= i < self.entries().len() ==> line_checkable(#[trigger] self.entries()[i], mode, style),
        ensures
            ({
                let failing = failing_lines(self.entries(), mode, style, self.entries().len() as int);
                &&& r is Ok <==> failing.len() == 0
                &&& r matches Err(reports) ==> {
                    &&& reports@.len() == if failing.len() < 64 {
                        failing.len()
                    } else {
                        64
                    }
                    &&& forall|j: int|
                        0 <= j < reports@.len() ==> {
                            let i = failing[j];
                            &&& (#[trigger] reports@[j]).index == i
                            &&& Some(reports@[j].src@) == line_string(self.entries()[i], mode)
                            &&& reports@[j].diagnostics@ == line_diagnostics(self.entries()[i], mode, style)
                        }
                }
            }),
    {
        let mut reports: Vec<LineReport> = Vec::new();
        let n = self.entries.len();
        let mut index: usize = 0;
        while index < n
            invariant_except_break
                index <= n,
                n == self.entries@.len(),
                n <= u32::MAX,
                forall|i: int| 0 <= i < n ==> line_checkable(#[trigger] self.entries@[i], mode, style),
                reports@.len() < 64,
                reports@.len() == failing_lines(self.entries@, mode, style, index as int).len(),
                forall|j: int|
                    0 <= j < reports@.len() ==> {
                        let i = failing_lines(self.entries@, mode, style, index as int)[j];
                        &&& (#[trigger] reports@[j]).index == i
                        &&& Some(reports@[j].src@) == line_string(self.entries@[i], mode)
                        &&& reports@[j].diagnostics@ == line_diagnostics(self.entries@[i], mode, style)
                    },
            ensures
                reports@.len() == if failing_lines(self.entries@, mode, style, n as int).len() < 64 {
                    failing_lines(self.entries@, mode, style, n as int).len()
                } else {
                    64
                },
                forall|j: int|
                    0 <= j < reports@.len() ==> {
                        let i = failing_lines(self.entries@, mode, style, n as int)[j];
                        &&& (#[trigger] reports@[j]).index == i
                        &&& Some(reports@[j].src@) == line_string(self.entries@[i], mode)
                        &&& reports@[j].diagnostics@ == line_diagnostics(self.entries@[i], mode, style)
                    },
            decreases n - index,
        {
            proof {
                lemma_failing_lines_prefix(self.entries@, mode, style, index as int + 1, n as int);
                assert(line_checkable(self.entries@[index as int], mode, style));
            }
            let ghost before = failing_lines(self.entries@, mode, style, index as int);
            let ghost after = failing_lines(self.entries@, mode, style, index + 1);
            let line = &self.entries[index];
            let mut full = false;
            match line {
                Some(line) => {
                    match line.get_effective_string(mode) {
                        Some(s) => {
                            match lint_string(s, style, line.source, index as u32) {
                                Ok(()) => {
                                    assert(after == before);
                                },
                                Err(report) => {
                                    reports.push(report);
                                    assert(after == before.push(index as int));
                                    if reports.len() >= 64 {
                                        full = true;
                                    }
                                },
                            }
                        },
                        None => {
                            assert(after == before);
                        },
                    }
                },
                None => {
                    assert(after == before);
                },
            }
            if full {
                proof {
                    lemma_failing_lines_prefix(self.entries@, mode, style, index + 1, n as int);
                    let all = failing_lines(self.entries@, mode, style, n as int);
                    assert forall|j: int| 0 <= j < reports@.len() implies all[j] == after[j] by {
                        assert(all.take(after.len() as int)[j] == all[j]);
                    }
                }
                break;
            }
            index = index + 1;
        }
        proof {
            lemma_failing_lines_prefix(self.entries@, mode, style, n as int, n as int);
        }
        if reports.len() == 0 {
            Ok(())
        } else {
            Err(reports)
        }
    }
}

/// The problem lines among the first `k` lines are the first ones among the first `n`.
proof fn lemma_failing_lines_prefix(lines: Seq<Option<Entry>>, mode: StringReplacementMode, style: MessageCommandStyle, k: int, n: int)
    requires
        0 <= k <= n,
    ensures
        failing_lines(lines, mode, style, k).len() <= failing_lines(lines, mode, style, n).len(),
        failing_lines(lines, mode, style, k) == failing_lines(lines, mode, style, n).take(
            failing_lines(lines, mode, style, k).len() as int,
        ),
        forall|j: int| 0 <= j < failing_lines(lines, mode, style, n).len() ==> 0 <= #[trigger] failing_lines(lines, mode, style, n)[j] < n,
        forall|j: int|
            failing_lines(lines, mode, style, k).len() <= j < failing_lines(lines, mode, style, n).len() ==> k
                <= #[trigger] failing_lines(lines, mode, style, n)[j],
    decreases n - k,
{
    if k < n {
        lemma_failing_lines_prefix(lines, mode, style, k, n - 1);
        let a = failing_lines(lines, mode, style, n - 1);
        let b = failing_lines(lines, mode, style, n);
        if line_diagnostics(lines[n - 1], mode, style).len() > 0 {
            assert(b == a.push(n - 1));
            assert(b.take(a.len() as int) =~= a);
            assert(a.take(failing_lines(lines, mode, style, k).len() as int) =~= b.take(
                failing_lines(lines, mode, style, k).len() as int,
            ));
        }
    } else {
        let b = failing_lines(lines, mode, style, n);
        assert(b.take(b.len() as int) =~= b);
        lemma_failing_lines_bounded(lines, mode, style, n);
    }
}

/// Every problem line among the first `n` lies below `n`.
proof fn lemma_failing_lines_bounded(lines: Seq<Option<Entry>>, mode: StringReplacementMode, style: MessageCommandStyle, n: int)
    ensures
        forall|j: int| 0 <= j < failing_lines(lines, mode, style, n).len() ==> 0 <= #[trigger] failing_lines(lines, mode, style, n)[j] < n,
    decreases n,
{
    if n > 0 {
        lemma_failing_lines_bounded(lines, mode, style, n - 1);
        let rest = failing_lines(lines, mode, style, n - 1);
        if line_diagnostics(lines[n - 1], mode, style).len() > 0 {
            assert(failing_lines(lines, mode, style, n) == rest.push(n - 1));
        } else {
            assert(failing_lines(lines, mode, style, n) == rest);
        }
    }
}

/// Replaces the strings of a script with those of a table.
pub struct CsvRewriter {
    entries: Vec<Option<Entry>>,
    mode: StringReplacementMode,
}

impl CsvRewriter {
    /// The entry at each string index.
    pub closed spec fn entries(&self) -> Seq<Option<Entry>> {
        self.entries@
    }

    /// How strings are replaced.
    pub closed spec fn mode(&self) -> StringReplacementMode {
        self.mode
    }

    pub fn new(data: CsvData, mode: StringReplacementMode) -> (r: Self)
        ensures
            r.entries() == data.entries(),
            r.mode() == mode,
    {
        Self { entries: data.entries, mode }
    }

    /// The replacement of the string with index `instr_index`, found in the operation at
    /// `instr_offset`: that of its entry, if it has one. The entry must belong to that
    /// operation and source.
    pub fn rewrite_string(&self, instr_index: u32, instr_offset: u32, source: AnyStringSource) -> (r:
        Option<&str>)
        requires
            (instr_index as int) < self.entries().len(),
            self.entries()[instr_index as int] matches Some(e) ==> e.offset == instr_offset && e.source
                == source,
        ensures
            match self.entries()[instr_index as int] {
                None => r is None,
                Some(e) => match r {
                    Some(t) => effective_string(e.s@, opt_view(e.translated), self.mode()) == Some(t@),
                    None => effective_string(e.s@, opt_view(e.translated), self.mode()) is None,
                },
            },
    {
        match &self.entries[instr_index as usize] {
            None => None,
            Some(entry) => entry.get_effective_string(self.mode),
        }
    }
}

} // verus!
