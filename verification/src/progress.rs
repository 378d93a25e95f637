//! Following a transfer: its progress, the changes that it reports, and its statistics.

use vstd::prelude::*;
use vstd::slice::slice_subrange;

use crate::duration;
use crate::error::{Failure, SyncError};
use crate::number;
use crate::text;
use crate::tree;

verus! {

/// The percentage that a word writes: a number of at most 255 before a percent sign.
pub open spec fn percent_of(word: Seq<char>) -> Option<nat> {
    if word.len() > 0 && word.last() == '%' {
        number::parsed(word.drop_last(), u8::MAX as nat)
    } else {
        None
    }
}

/// The first percentage that the words, from `from` on, write.
pub open spec fn first_percent(words: Seq<Seq<char>>, from: int) -> Option<nat>
    decreases words.len() - from,
{
    if from >= words.len() {
        None
    } else {
        match percent_of(words[from]) {
            Some(p) => Some(p),
            None => first_percent(words, from + 1),
        }
    }
}

/// The percentage that a line of progress reports.
pub open spec fn progress_of(line: Seq<char>) -> Option<nat> {
    first_percent(text::words_of(line), 0)
}

/// Finds the percentage that a line of progress reports.
pub fn parse_progress_percent(line: &str) -> (r: Option<u8>)
    ensures
        match r {
            Some(p) => progress_of(line@) == Some(p as nat),
            None => progress_of(line@) is None,
        },
{
    let chars = text::chars_of(line);
    let words = text::words(chars.as_slice());
    let ghost all = text::views(words@);
    let mut i: usize = 0;
    while i < words.len()
        invariant
            i <= words.len(),
            all == text::views(words@),
            all == text::words_of(line@),
            first_percent(all, 0) == first_percent(all, i as int),
        decreases words.len() - i,
    {
        let word = words[i];
        assert(all[i as int] == word@);
        let n: usize = word.len();
        if n > 0 && word[n - 1] == '%' {
            let digits = slice_subrange(word, 0, n - 1);
            assert(digits@ =~= word@.drop_last());
            if let Some(p) = number::parse_unsigned(digits, 255) {
                return Some(p as u8);
            }
        }
        i += 1;
    }
    None
}

/// Whether a line of output itemizes a change.
pub open spec fn is_item(line: Seq<char>) -> bool {
    text::trimmed(line).len() > 0 && line.contains('|')
}

/// What a line of output says of the current file.
pub open spec fn current_of(line: Seq<char>) -> Option<Seq<char>> {
    if text::trimmed(line).len() == 0 {
        None
    } else if line.contains('|') {
        Some(text::pieces(line, set!['|'])[1])
    } else {
        Some(line)
    }
}

/// Whether a line belongs to the statistics at the end of a transfer.
pub open spec fn is_stat(line: Seq<char>) -> bool {
    "sent "@.is_prefix_of(line) || "total size is "@.is_prefix_of(line)
}

/// The lines kept so far, and `line` if it is one to keep.
pub open spec fn kept_with(kept: Seq<Seq<char>>, line: Seq<char>, keep: bool) -> Seq<Seq<char>> {
    if keep {
        kept.push(line)
    } else {
        kept
    }
}

/// The changes that a log holds after the lines of output, taken in one by one.
pub open spec fn items_after(lines: Seq<Seq<char>>) -> Seq<Seq<char>>
    decreases lines.len(),
{
    if lines.len() == 0 {
        Seq::empty()
    } else {
        kept_with(items_after(lines.drop_last()), lines.last(), is_item(lines.last()))
    }
}

/// The statistics that a log holds after the lines of diagnostics, taken in one by one.
pub open spec fn stats_after(lines: Seq<Seq<char>>) -> Seq<Seq<char>>
    decreases lines.len(),
{
    if lines.len() == 0 {
        Seq::empty()
    } else {
        kept_with(stats_after(lines.drop_last()), lines.last(), is_stat(lines.last()))
    }
}

/// A log holds each itemized change and each line of statistics, in the order in which they came,
/// and nothing else.
pub proof fn law_log_keeps_items_and_stats(output: Seq<Seq<char>>, diagnostics: Seq<Seq<char>>)
    ensures
        items_after(output) == output.filter(|l: Seq<char>| is_item(l)),
        stats_after(diagnostics) == diagnostics.filter(|l: Seq<char>| is_stat(l)),
    decreases output.len() + diagnostics.len(),
{
    reveal(Seq::filter);
    if output.len() > 0 {
        law_log_keeps_items_and_stats(output.drop_last(), diagnostics);
    }
    if diagnostics.len() > 0 {
        law_log_keeps_items_and_stats(output, diagnostics.drop_last());
    }
}

/// A text that holds the separator has at least two pieces.
proof fn lemma_two_pieces(s: Seq<char>, c: char)
    requires
        s.contains(c),
    ensures
        text::pieces(s, set![c]).len() >= 2,
    decreases s.len(),
{
    text::lemma_pieces_nonempty(s.drop_last(), set![c]);
    if s.last() != c {
        let i = choose|i: int| 0 <= i < s.len() && s[i] == c;
        assert(s.drop_last()[i] == c);
        lemma_two_pieces(s.drop_last(), c);
    }
}

/// What has been reported of a transfer so far.
#[derive(Debug)]
pub struct TransferLog {
    /// The lines that itemize changes.
    pub itemized: Vec<String>,
    /// The lines of statistics.
    pub stats: Vec<String>,
}

impl TransferLog {
    /// A log in which nothing has been reported.
    pub fn new() -> (r: TransferLog)
        ensures
            text::texts(r.itemized@) == Seq::<Seq<char>>::empty(),
            text::texts(r.stats@) == Seq::<Seq<char>>::empty(),
    {
        let r = TransferLog { itemized: Vec::new(), stats: Vec::new() };
        assert(text::texts(r.itemized@) =~= Seq::<Seq<char>>::empty());
        assert(text::texts(r.stats@) =~= Seq::<Seq<char>>::empty());
        r
    }

    /// Takes in a line of output. Returns what to show for the current file, if it says so.
    pub fn on_stdout(&mut self, line: &str) -> (r: Option<String>)
        ensures
            text::texts(final(self).itemized@) == kept_with(
                text::texts(old(self).itemized@),
                line@,
                is_item(line@),
            ),
            final(self).stats@ == old(self).stats@,
            match r {
                Some(message) => current_of(line@) == Some(message@),
                None => current_of(line@) is None,
            },
    {
        let chars = text::chars_of(line);
        if text::trim(chars.as_slice()).len() == 0 {
            return None;
        }
        if text::contains(chars.as_slice(), '|') {
            text::push_text(&mut self.itemized, line);
            let fields = text::split(chars.as_slice(), text::Separator::Symbol('|'));
            proof {
                lemma_two_pieces(line@, '|');
                assert(text::views(fields@).len() == fields@.len());
                assert(text::views(fields@)[1] == fields@[1]@);
            }
            Some(text::string_of(fields[1]))
        } else {
            Some(line.to_string())
        }
    }

    /// Takes in a line of diagnostics. Returns the progress of the whole transfer, if it says so.
    pub fn on_stderr(&mut self, line: &str) -> (r: Option<u8>)
        ensures
            text::texts(final(self).stats@) == kept_with(
                text::texts(old(self).stats@),
                line@,
                is_stat(line@),
            ),
            final(self).itemized@ == old(self).itemized@,
            match r {
                Some(p) => progress_of(line@) == Some(p as nat),
                None => progress_of(line@) is None,
            },
    {
        let chars = text::chars_of(line);
        if text::starts_with(chars.as_slice(), "sent ") || text::starts_with(
            chars.as_slice(),
            "total size is ",
        ) {
            text::push_text(&mut self.stats, line);
        }
        parse_progress_percent(line)
    }
}

/// The byte count that `s` writes, perhaps with commas.
pub open spec fn byte_count(s: Seq<char>) -> Option<nat> {
    number::parsed(number::without_commas(s), u64::MAX as nat)
}

/// What a line of statistics says of the bytes that were sent; nothing where it does not speak of
/// them.
pub open spec fn sent_in(line: Seq<char>) -> Option<Option<nat>> {
    let s = text::trimmed(line);
    let rest = s.skip("sent "@.len() as int);
    if "sent "@.is_prefix_of(s) {
        match text::first_occurrence(rest, " bytes"@, 0) {
            Some(end) => Some(byte_count(rest.take(end))),
            None => None,
        }
    } else {
        None
    }
}

/// What a line of statistics says of the total size; nothing where it does not speak of it.
pub open spec fn total_in(line: Seq<char>) -> Option<Option<nat>> {
    let s = text::trimmed(line);
    let rest = s.skip("total size is "@.len() as int);
    if "total size is "@.is_prefix_of(s) {
        match text::first_occurrence(rest, "  "@, 0) {
            Some(end) => Some(byte_count(rest.take(end))),
            None => Some(byte_count(rest)),
        }
    } else {
        None
    }
}

/// The bytes sent, as the last line that speaks of them says.
pub open spec fn sent_bytes(lines: Seq<Seq<char>>) -> Option<nat>
    decreases lines.len(),
{
    if lines.len() == 0 {
        None
    } else {
        match sent_in(lines.last()) {
            Some(said) => said,
            None => sent_bytes(lines.drop_last()),
        }
    }
}

/// The total size, as the last line that speaks of it says.
pub open spec fn total_bytes(lines: Seq<Seq<char>>) -> Option<nat>
    decreases lines.len(),
{
    if lines.len() == 0 {
        None
    } else {
        match total_in(lines.last()) {
            Some(said) => said,
            None => total_bytes(lines.drop_last()),
        }
    }
}

/// Whether an exact count is the one that was stated.
pub open spec fn is_count(stated: Option<nat>, exact: Option<u64>) -> bool {
    match exact {
        Some(n) => stated == Some(n as nat),
        None => stated is None,
    }
}

fn read_sent(line: &[char]) -> (r: Option<Option<u64>>)
    ensures
        match r {
            Some(count) => sent_in(line@) is Some && is_count(sent_in(line@)->0, count),
            None => sent_in(line@) is None,
        },
{
    let s = text::trim(line);
    if !text::starts_with(s, "sent ") {
        return None;
    }
    proof {
        reveal_strlit("sent ");
    }
    let rest = slice_subrange(s, 5, s.len());
    assert(rest@ =~= s@.skip(5));
    match text::find(rest, " bytes") {
        Some(end) => {
            let digits = slice_subrange(rest, 0, end);
            assert(digits@ =~= rest@.take(end as int));
            Some(number::parse_byte_count(digits))
        },
        None => None,
    }
}

fn read_total(line: &[char]) -> (r: Option<Option<u64>>)
    ensures
        match r {
            Some(count) => total_in(line@) is Some && is_count(total_in(line@)->0, count),
            None => total_in(line@) is None,
        },
{
    let s = text::trim(line);
    if !text::starts_with(s, "total size is ") {
        return None;
    }
    proof {
        reveal_strlit("total size is ");
    }
    let rest = slice_subrange(s, 14, s.len());
    assert(rest@ =~= s@.skip(14));
    match text::find(rest, "  ") {
        Some(end) => {
            let digits = slice_subrange(rest, 0, end);
            assert(digits@ =~= rest@.take(end as int));
            Some(number::parse_byte_count(digits))
        },
        None => Some(number::parse_byte_count(rest)),
    }
}

/// How much a transfer moved.
#[derive(Clone, Copy, Debug, PartialEq, Eq, Structural)]
pub struct Summary {
    /// The bytes that were sent.
    pub sent: Option<u64>,
    /// The total size of the files.
    pub total: Option<u64>,
}

/// Sums up the statistics of a transfer.
pub fn summarize(stats: &[String]) -> (r: Summary)
    ensures
        is_count(sent_bytes(text::texts(stats@)), r.sent),
        is_count(total_bytes(text::texts(stats@)), r.total),
{
    let ghost all = text::texts(stats@);
    let mut sent: Option<u64> = None;
    let mut total: Option<u64> = None;
    let mut i: usize = 0;
    while i < stats.len()
        invariant
            i <= stats.len(),
            all == text::texts(stats@),
            is_count(sent_bytes(all.take(i as int)), sent),
            is_count(total_bytes(all.take(i as int)), total),
        decreases stats.len() - i,
    {
        let line = text::chars_of(stats[i].as_str());
        assert(all.take(i + 1).drop_last() =~= all.take(i as int));
        assert(all.take(i + 1).last() == line@);
        if let Some(said) = read_sent(line.as_slice()) {
            sent = said;
        }
        if let Some(said) = read_total(line.as_slice()) {
            total = said;
        }
        i += 1;
    }
    assert(all.take(i as int) =~= all);
    Summary { sent, total }
}

/// The line for a byte count, if it is known.
pub open spec fn count_lines(label: Seq<char>, count: Option<nat>) -> Seq<Seq<char>> {
    match count {
        Some(n) => seq![label + number::size_text(n)],
        None => Seq::empty(),
    }
}

/// The lines that sum up a transfer with the given statistics, which took as long as `duration`
/// says.
pub open spec fn summary_texts(stats: Seq<Seq<char>>, duration: Seq<char>) -> Seq<Seq<char>> {
    seq!["Summary:"@] + count_lines("  sent: "@, sent_bytes(stats)) + count_lines(
        "  total size: "@,
        total_bytes(stats),
    ) + seq!["  duration: "@ + duration]
}

/// The line that says how long a transfer took.
pub fn duration_line(duration: &str) -> (r: String)
    ensures
        r@ == "  duration: "@ + duration@,
{
    text::concat("  duration: ", duration)
}

/// The lines that show the changes, if there were any.
pub open spec fn change_texts(itemized: Seq<Seq<char>>) -> Seq<Seq<char>> {
    if itemized.len() == 0 {
        Seq::empty()
    } else {
        seq!["Changes:"@, tree::tree_text(text::joined(itemized, "\n"@))]
    }
}

fn push_count(lines: &mut Vec<String>, label: &str, count: Option<u64>, stated: Ghost<Option<nat>>)
    requires
        is_count(stated@, count),
    ensures
        text::texts(final(lines)@) == text::texts(old(lines)@) + count_lines(label@, stated@),
{
    let ghost before = text::texts(lines@);
    if let Some(n) = count {
        let size = number::format_size(n);
        text::push_text(lines, text::concat(label, size.as_str()).as_str());
    }
    assert(text::texts(lines@) =~= before + count_lines(label@, stated@));
}

fn push_summary(lines: &mut Vec<String>, stats: &[String], duration: &str)
    ensures
        text::texts(final(lines)@) == text::texts(old(lines)@) + summary_texts(
            text::texts(stats@),
            duration@,
        ),
{
    let ghost before = text::texts(lines@);
    let ghost all = text::texts(stats@);
    let summary = summarize(stats);
    text::push_text(lines, "Summary:");
    push_count(lines, "  sent: ", summary.sent, Ghost(sent_bytes(all)));
    push_count(lines, "  total size: ", summary.total, Ghost(total_bytes(all)));
    text::push_text(lines, duration_line(duration).as_str());
    assert(text::texts(lines@) =~= before + summary_texts(all, duration@));
}

/// The lines that sum up a transfer with the given statistics, which took as long as `duration`
/// says.
pub fn summary_with(stats: &[String], duration: &str) -> (r: Vec<String>)
    ensures
        text::texts(r@) == summary_texts(text::texts(stats@), duration@),
{
    let mut lines: Vec<String> = Vec::new();
    push_summary(&mut lines, stats, duration);
    assert(text::texts(lines@) =~= summary_texts(text::texts(stats@), duration@));
    lines
}

/// How many digits of a duration are shown behind the point.
pub const DURATION_DECIMALS: u8 = 2;

/// The lines that sum up a transfer with the given statistics, which took `secs` seconds and
/// `nanos` nanoseconds.
pub fn summary_lines(stats: &[String], secs: u64, nanos: u32) -> (r: Vec<String>)
    requires
        nanos < 1000000000,
    ensures
        text::texts(r@) == summary_texts(
            text::texts(stats@),
            duration::duration_text(secs, nanos, 2),
        ),
{
    summary_with(stats, duration::write_duration(secs, nanos, DURATION_DECIMALS).as_str())
}

impl TransferLog {
    /// The lines to show when the transfer has ended, after as long as `duration` says.
    pub fn report_with(&self, success: bool, duration: &str) -> (r: Result<Vec<String>, SyncError>)
        ensures
            !success ==> r is Err && r->Err_0@ == Failure::TransferFailed,
            success ==> r is Ok && text::texts(r->Ok_0@) == change_texts(
                text::texts(self.itemized@),
            ) + summary_texts(text::texts(self.stats@), duration@),
    {
        if !success {
            return Err(SyncError::TransferFailed);
        }
        let mut lines: Vec<String> = Vec::new();
        assert(text::texts(self.itemized@).len() == self.itemized@.len());
        if self.itemized.len() > 0 {
            let listing = text::join(self.itemized.as_slice(), "\n");
            text::push_text(&mut lines, "Changes:");
            text::push_text(&mut lines, tree::render_tree(listing.as_str()).as_str());
        }
        assert(text::texts(lines@) =~= change_texts(text::texts(self.itemized@)));
        push_summary(&mut lines, self.stats.as_slice(), duration);
        Ok(lines)
    }

    /// The lines to show when the transfer has ended, after `secs` seconds and `nanos` nanoseconds.
    pub fn report(&self, success: bool, secs: u64, nanos: u32) -> (r: Result<
        Vec<String>,
        SyncError,
    >)
        requires
            nanos < 1000000000,
        ensures
            !success ==> r is Err && r->Err_0@ == Failure::TransferFailed,
            success ==> r is Ok && text::texts(r->Ok_0@) == change_texts(
                text::texts(self.itemized@),
            ) + summary_texts(
                text::texts(self.stats@),
                duration::duration_text(secs, nanos, 2),
            ),
    {
        let took = duration::write_duration(secs, nanos, DURATION_DECIMALS);
        self.report_with(success, took.as_str())
    }
}

} // verus!
