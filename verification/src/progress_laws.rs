//! What is read of a transfer's output, and what is shown of it.

use vstd::prelude::*;

use crate::number;
use crate::number_laws;
use crate::progress;
use crate::text;
use crate::text_laws;
use crate::tree;

verus! {

/// A percentage is a number of at most 255 with a percent sign behind it.
pub proof fn law_percentages(digits: Seq<char>, word: Seq<char>)
    ensures
        progress::percent_of(digits + seq!['%']) == number::parsed(digits, 255),
        word.len() == 0 || word.last() != '%' ==> progress::percent_of(word) is None,
{
    assert((digits + seq!['%']).drop_last() =~= digits);
}

proof fn lemma_first_percent(words: Seq<Seq<char>>, from: int)
    requires
        0 <= from,
    ensures
        match progress::first_percent(words, from) {
            Some(p) => exists|i: int|
                from <= i < words.len() && progress::percent_of(#[trigger] words[i]) == Some(p)
                    && forall|j: int|
                    from <= j < i ==> progress::percent_of(#[trigger] words[j]) is None,
            None => forall|j: int|
                from <= j < words.len() ==> progress::percent_of(#[trigger] words[j]) is None,
        },
    decreases words.len() - from,
{
    if from < words.len() {
        match progress::percent_of(words[from]) {
            Some(p) => {
                assert(progress::percent_of(words[from]) == Some(p));
            },
            None => {
                lemma_first_percent(words, from + 1);
                if let Some(p) = progress::first_percent(words, from + 1) {
                    let i = choose|i: int|
                        from + 1 <= i < words.len() && progress::percent_of(#[trigger] words[i])
                            == Some(p) && forall|j: int|
                            from + 1 <= j < i ==> progress::percent_of(#[trigger] words[j]) is None;
                    assert(progress::percent_of(words[i]) == Some(p));
                }
            },
        }
    }
}

/// A line reports the first percentage among its words, and none if no word is one.
pub proof fn law_first_percentage_counts(line: Seq<char>)
    ensures
        ({
            let words = text::words_of(line);
            match progress::progress_of(line) {
                Some(p) => exists|i: int|
                    0 <= i < words.len() && progress::percent_of(#[trigger] words[i]) == Some(p)
                        && forall|j: int|
                        0 <= j < i ==> progress::percent_of(#[trigger] words[j]) is None,
                None => forall|j: int|
                    0 <= j < words.len() ==> progress::percent_of(#[trigger] words[j]) is None,
            }
        }),
{
    lemma_first_percent(text::words_of(line), 0);
}

proof fn lemma_percent_skips(words: Seq<Seq<char>>, from: int, to: int)
    requires
        0 <= from <= to <= words.len(),
        forall|j: int| from <= j < to ==> progress::percent_of(#[trigger] words[j]) is None,
    ensures
        progress::first_percent(words, from) == progress::first_percent(words, to),
    decreases to - from,
{
    if from < to {
        assert(progress::percent_of(words[from]) is None);
        lemma_percent_skips(words, from + 1, to);
    }
}

/// A percentage that stands as a word in a line is reported, wherever it stands, if none stands
/// before it.
pub proof fn law_percentage_is_found(a: Seq<char>, n: nat, b: Seq<char>)
    requires
        n <= 255,
        progress::progress_of(a) is None,
    ensures
        progress::progress_of(a + seq![' '] + (number::decimal(n) + seq!['%']) + seq![' '] + b)
            == Some(n),
{
    let word = number::decimal(n) + seq!['%'];
    let line = a + seq![' '] + word + seq![' '] + b;
    let before = text::words_of(a);
    let behind = text::words_of(b);
    number_laws::law_digits_of_decimal(n);
    assert forall|i: int| 0 <= i < word.len() implies !text::is_space(#[trigger] word[i]) by {
        if i < number::decimal(n).len() {
            assert(number::is_digit(number::decimal(n)[i]));
        }
    }
    text_laws::law_word_alone(word);
    text_laws::law_space_parts_words(a, ' ', word);
    text_laws::law_space_parts_words(a + seq![' '] + word, ' ', b);
    let words = text::words_of(line);
    assert(words =~= before + seq![word] + behind);
    law_first_percentage_counts(a);
    assert forall|j: int| 0 <= j < before.len() implies progress::percent_of(
        #[trigger] words[j],
    ) is None by {
        assert(words[j] == before[j]);
    }
    lemma_percent_skips(words, 0, before.len() as int);
    assert(words[before.len() as int] == word);
    law_percentages(number::decimal(n), word);
    number_laws::law_reading_undoes_writing(n, 255);
}

/// A line itemizes a change exactly if it holds a bar, and what is shown of it is what stands between
/// the first bar and the second, or the end. Of other lines, all that are not blank are shown whole.
pub proof fn law_lines_with_a_bar(a: Seq<char>, file: Seq<char>, b: Seq<char>)
    requires
        !a.contains('|'),
        !file.contains('|'),
    ensures
        !progress::is_item(a),
        progress::is_item(a + seq!['|'] + b),
        text_laws::blank(a) ==> progress::current_of(a) is None,
        !text_laws::blank(a) ==> progress::current_of(a) == Some(a),
        progress::current_of(a + seq!['|'] + file) == Some(file),
        progress::current_of(a + seq!['|'] + file + seq!['|'] + b) == Some(file),
{
    let cuts = set!['|'];
    let one = a + seq!['|'] + file;
    let two = one + seq!['|'] + b;
    let item = a + seq!['|'] + b;
    assert forall|i: int| 0 <= i < a.len() implies !cuts.contains(#[trigger] a[i]) by {
        assert(a.contains(a[i]));
    }
    assert forall|i: int| 0 <= i < file.len() implies !cuts.contains(#[trigger] file[i]) by {
        assert(file.contains(file[i]));
    }
    text_laws::lemma_pieces_of_free(a, cuts);
    text_laws::lemma_pieces_of_free(file, cuts);
    text_laws::lemma_pieces_around(a, '|', file, cuts);
    text_laws::lemma_pieces_around(one, '|', b, cuts);
    assert(text::pieces(one, cuts)[1] == file);
    assert(text::pieces(two, cuts)[1] == file);
    text_laws::law_only_blank_text_is_trimmed_away(a);
    text_laws::law_only_blank_text_is_trimmed_away(one);
    text_laws::law_only_blank_text_is_trimmed_away(two);
    text_laws::law_only_blank_text_is_trimmed_away(item);
    let at = a.len() as int;
    assert(one[at] == '|' && !text::is_space(one[at]));
    assert(two[at] == '|' && !text::is_space(two[at]));
    assert(item[at] == '|' && !text::is_space(item[at]));
}

/// The lines of statistics are those that begin with the words for them.
pub proof fn law_lines_of_statistics(line: Seq<char>, rest: Seq<char>)
    ensures
        progress::is_stat("sent "@ + rest),
        progress::is_stat("total size is "@ + rest),
        progress::is_stat(line) ==> "sent "@.is_prefix_of(line) || "total size is "@.is_prefix_of(
            line,
        ),
{
    let sent = "sent "@ + rest;
    let total = "total size is "@ + rest;
    assert("sent "@ =~= sent.subrange(0, "sent "@.len() as int));
    assert("total size is "@ =~= total.subrange(0, "total size is "@.len() as int));
}

/// A log takes in a line that is to be kept behind the others, and leaves any other line out.
pub proof fn law_log_takes_in_one_line(kept: Seq<Seq<char>>, line: Seq<char>)
    ensures
        progress::kept_with(kept, line, true) == kept.push(line),
        progress::kept_with(kept, line, false) == kept,
{
}

/// Trimming does not reach into a text without outer white space.
proof fn lemma_trimmed_core(a: Seq<char>, core: Seq<char>, b: Seq<char>)
    requires
        text_laws::blank(a),
        text_laws::blank(b),
        core.len() > 0,
        !text::is_space(core[0]),
        !text::is_space(core.last()),
    ensures
        text::trimmed(a + core + b) == core,
{
    text_laws::law_trimming_takes_space_only(a, core, b);
}

/// A pattern is found where it stands, if its first character does not stand before that.
proof fn lemma_found_at(s: Seq<char>, pat: Seq<char>, from: int, at: int)
    requires
        0 <= from <= at,
        at + pat.len() <= s.len(),
        pat.len() > 0,
        s.subrange(at, at + pat.len()) == pat,
        forall|j: int| 0 <= j < at ==> #[trigger] s[j] != pat[0],
    ensures
        text::first_occurrence(s, pat, from) == Some(at),
    decreases at - from,
{
    if from < at {
        assert(s.subrange(from, from + pat.len())[0] == s[from]);
        lemma_found_at(s, pat, from + 1, at);
    }
}

/// A pattern is not found where its first character does not stand.
proof fn lemma_not_found(s: Seq<char>, pat: Seq<char>, from: int)
    requires
        0 <= from,
        pat.len() > 0,
        forall|j: int| 0 <= j < s.len() ==> #[trigger] s[j] != pat[0],
    ensures
        text::first_occurrence(s, pat, from) is None,
    decreases s.len() - from + 1,
{
    if from + pat.len() <= s.len() {
        assert(s.subrange(from, from + pat.len())[0] == s[from]);
        lemma_not_found(s, pat, from + 1);
    }
}

/// What is found stands there.
proof fn lemma_found_stands(s: Seq<char>, pat: Seq<char>, from: int)
    requires
        0 <= from,
    ensures
        text::first_occurrence(s, pat, from) matches Some(i) ==> from <= i && i + pat.len()
            <= s.len() && s.subrange(i, i + pat.len()) == pat,
    decreases s.len() - from + 1,
{
    if from + pat.len() <= s.len() && !text::occurs_at(s, pat, from) {
        lemma_found_stands(s, pat, from + 1);
    }
}

/// A pattern that begins with a blank is found behind text that holds none.
proof fn lemma_found_behind(d: Seq<char>, pat: Seq<char>, rest: Seq<char>)
    requires
        !d.contains(' '),
        pat.len() > 0,
        pat[0] == ' ',
    ensures
        text::first_occurrence(d + pat + rest, pat, 0) == Some(d.len() as int),
{
    let s = d + pat + rest;
    let n = d.len() as int;
    assert(s.subrange(n, n + pat.len()) =~= pat);
    assert forall|j: int| 0 <= j < n implies #[trigger] s[j] != pat[0] by {
        assert(s[j] == d[j]);
        assert(d.contains(d[j]));
    }
    lemma_found_at(s, pat, 0, n);
}

/// The bytes sent are what stands between the words for them, whatever was said before, and however
/// the line is set off by white space.
pub proof fn law_bytes_sent_are_read(
    lines: Seq<Seq<char>>,
    a: Seq<char>,
    count: Seq<char>,
    rest: Seq<char>,
    b: Seq<char>,
)
    requires
        text_laws::blank(a),
        text_laws::blank(b),
        !count.contains(' '),
        rest.len() > 0 ==> !text::is_space(rest.last()),
    ensures
        ({
            let line = a + ("sent "@ + count + " bytes"@ + rest) + b;
            &&& progress::sent_bytes(lines.push(line)) == number::parsed(
                number::without_commas(count),
                u64::MAX as nat,
            )
            &&& progress::total_bytes(lines.push(line)) == progress::total_bytes(lines)
        }),
{
    let start = "sent "@;
    let pat = " bytes"@;
    let core = start + count + pat + rest;
    let line = a + core + b;
    reveal_strlit("sent ");
    reveal_strlit(" bytes");
    reveal_strlit("total size is ");
    assert(core[0] == 's');
    if rest.len() == 0 {
        assert(core.last() == 's');
    } else {
        assert(core.last() == rest.last());
    }
    lemma_trimmed_core(a, core, b);
    assert(start =~= core.subrange(0, 5));
    assert(core.skip(5) =~= count + pat + rest);
    lemma_found_behind(count, pat, rest);
    assert((count + pat + rest).take(count.len() as int) =~= count);
    assert(lines.push(line).drop_last() =~= lines);
    assert(!"total size is "@.is_prefix_of(core)) by {
        if "total size is "@.is_prefix_of(core) {
            assert(core.subrange(0, 14)[0] == 't');
        }
    }
}

/// The total size is what stands behind the words for it, up to two blanks if there are any.
pub proof fn law_total_size_is_read(
    lines: Seq<Seq<char>>,
    a: Seq<char>,
    count: Seq<char>,
    rest: Seq<char>,
    b: Seq<char>,
)
    requires
        text_laws::blank(a),
        text_laws::blank(b),
        count.len() > 0,
        forall|i: int| 0 <= i < count.len() ==> !text::is_space(#[trigger] count[i]),
        rest.len() > 0,
        !text::is_space(rest.last()),
    ensures
        ({
            let alone = a + ("total size is "@ + count) + b;
            let followed = a + ("total size is "@ + count + "  "@ + rest) + b;
            let read = number::parsed(number::without_commas(count), u64::MAX as nat);
            &&& progress::total_bytes(lines.push(alone)) == read
            &&& progress::total_bytes(lines.push(followed)) == read
            &&& progress::sent_bytes(lines.push(alone)) == progress::sent_bytes(lines)
            &&& progress::sent_bytes(lines.push(followed)) == progress::sent_bytes(lines)
        }),
{
    let start = "total size is "@;
    let pat = "  "@;
    let short = start + count;
    let long = start + count + pat + rest;
    reveal_strlit("sent ");
    reveal_strlit("  ");
    reveal_strlit("total size is ");
    assert(short[0] == 't' && long[0] == 't');
    assert(short.last() == count[count.len() - 1]);
    assert(long.last() == rest.last());
    lemma_trimmed_core(a, short, b);
    lemma_trimmed_core(a, long, b);
    assert(start =~= short.subrange(0, 14));
    assert(start =~= long.subrange(0, 14));
    assert(short.skip(14) =~= count);
    assert(long.skip(14) =~= count + pat + rest);
    if count.contains(' ') {
        let i = choose|i: int| 0 <= i < count.len() && count[i] == ' ';
        assert(!text::is_space(count[i]));
    }
    lemma_found_behind(count, pat, rest);
    assert((count + pat + rest).take(count.len() as int) =~= count);
    assert forall|j: int| 0 <= j < count.len() implies #[trigger] count[j] != pat[0] by {
        assert(!text::is_space(count[j]));
    }
    lemma_not_found(count, pat, 0);
    assert(lines.push(a + short + b).drop_last() =~= lines);
    assert(lines.push(a + long + b).drop_last() =~= lines);
    assert(!"sent "@.is_prefix_of(short)) by {
        if "sent "@.is_prefix_of(short) {
            assert(short.subrange(0, 5)[0] == 's');
        }
    }
    assert(!"sent "@.is_prefix_of(long)) by {
        if "sent "@.is_prefix_of(long) {
            assert(long.subrange(0, 5)[0] == 's');
        }
    }
}

/// A line that, without white space around it, does not begin with the words for it changes nothing
/// of what was read; nor does one on the bytes sent that does not go on as it should.
pub proof fn law_other_lines_change_nothing(lines: Seq<Seq<char>>, line: Seq<char>)
    ensures
        !"sent "@.is_prefix_of(text::trimmed(line)) ==> progress::sent_bytes(lines.push(line))
            == progress::sent_bytes(lines),
        (forall|i: int|
            0 <= i && i + 6 <= text::trimmed(line).len() ==> #[trigger] text::trimmed(
                line,
            ).subrange(i, i + 6) != " bytes"@) ==> progress::sent_bytes(lines.push(line))
            == progress::sent_bytes(lines),
        !"total size is "@.is_prefix_of(text::trimmed(line)) ==> progress::total_bytes(
            lines.push(line),
        ) == progress::total_bytes(lines),
        progress::sent_bytes(Seq::empty()) is None,
        progress::total_bytes(Seq::empty()) is None,
{
    assert(lines.push(line).drop_last() =~= lines);
    reveal_strlit("sent ");
    reveal_strlit(" bytes");
    let s = text::trimmed(line);
    if "sent "@.is_prefix_of(s) {
        let rest = s.skip(5);
        lemma_found_stands(rest, " bytes"@, 0);
        if let Some(i) = text::first_occurrence(rest, " bytes"@, 0) {
            assert(rest.subrange(i, i + 6) =~= s.subrange(i + 5, i + 5 + 6));
        }
    }
}

/// The summary: a heading, the bytes sent and the total size as far as they are known, and how long
/// it took.
pub proof fn law_what_the_summary_shows(stats: Seq<Seq<char>>, duration: Seq<char>)
    ensures
        ({
            let shown = progress::summary_texts(stats, duration);
            let took = "  duration: "@ + duration;
            let head = "Summary:"@;
            match (progress::sent_bytes(stats), progress::total_bytes(stats)) {
                (Some(sent), Some(total)) => shown == seq![
                    head,
                    "  sent: "@ + number::size_text(sent),
                    "  total size: "@ + number::size_text(total),
                    took,
                ],
                (Some(sent), None) => shown == seq![
                    head,
                    "  sent: "@ + number::size_text(sent),
                    took,
                ],
                (None, Some(total)) => shown == seq![
                    head,
                    "  total size: "@ + number::size_text(total),
                    took,
                ],
                (None, None) => shown == seq![head, took],
            }
        }),
{
}

/// The changes: a heading and the drawing of all itemized lines, unless there are none.
pub proof fn law_what_is_shown_of_changes(itemized: Seq<Seq<char>>)
    ensures
        itemized.len() == 0 ==> progress::change_texts(itemized).len() == 0,
        itemized.len() > 0 ==> progress::change_texts(itemized) == seq![
            "Changes:"@,
            tree::tree_text(text::joined(itemized, seq!['\n'])),
        ],
{
    reveal_strlit("\n");
    assert("\n"@ =~= seq!['\n']);
}

} // verus!
