//! What the commands of a sync ask for, and what their results say.

use vstd::prelude::*;

use crate::command;
use crate::command::DryRunSummary;
use crate::shell;
use crate::text;
use crate::text_laws;
use crate::tree;

verus! {

/// Both commands for the host connect in the same way, to that host, and hand its shell one line:
/// the words of the task, and behind them one word that the shell reads as the path.
pub proof fn law_host_is_asked_about_the_path(host: Seq<char>, path: Seq<char>, home: Seq<char>)
    ensures
        ({
            let probe = command::probe_text(host, path);
            let create = command::create_dir_text(host, path);
            let connect = seq![
                "-o"@,
                "ConnectTimeout=10"@,
                "-o"@,
                "ServerAliveInterval=15"@,
                "-o"@,
                "ServerAliveCountMax=2"@,
                host,
            ];
            let word = shell::remote_word(path);
            &&& probe.program == "ssh"@
            &&& create.program == "ssh"@
            &&& probe.args == connect + seq!["test -f "@ + word]
            &&& create.args == connect + seq!["mkdir -p "@ + word]
            &&& shell::shell_word(word, home) == Some(shell::home_filled_in(path, home))
        }),
{
    let connect = seq![
        "-o"@,
        "ConnectTimeout=10"@,
        "-o"@,
        "ServerAliveInterval=15"@,
        "-o"@,
        "ServerAliveCountMax=2"@,
        host,
    ];
    shell::law_remote_word_is_read_as_path(path, home);
    assert(command::probe_text(host, path).args =~= connect + seq![
        "test -f "@ + shell::remote_word(path),
    ]);
    assert(command::create_dir_text(host, path).args =~= connect + seq![
        "mkdir -p "@ + shell::remote_word(path),
    ]);
}

/// A file is synced with the path of the file, and a directory with what lies in the directory: both
/// paths have a slash behind them then. The remote path stands behind the host and a colon.
pub proof fn law_endpoints(host: Seq<char>, local: Seq<char>, remote: Seq<char>)
    ensures
        command::endpoint_texts(host, local, remote, true, false) == (local, host + seq![':']
            + remote),
        command::endpoint_texts(host, local, remote, false, false) == (local + seq!['/'], host
            + seq![':'] + remote + seq!['/']),
        command::endpoint_texts(host, local, remote, true, true) == (host + seq![':'] + remote, local),
        command::endpoint_texts(host, local, remote, false, true) == (host + seq![':'] + remote + seq![
            '/',
        ], local + seq!['/']),
{
    reveal_strlit("/");
    reveal_strlit(":");
    assert("/"@ =~= seq!['/']);
    assert(":"@ =~= seq![':']);
    assert(host + ":"@ + (remote + "/"@) =~= host + seq![':'] + remote + seq!['/']);
}

proof fn lemma_first_beginning(lines: Seq<Seq<char>>, start: Seq<char>, from: int)
    requires
        0 <= from,
    ensures
        match command::first_beginning(lines, start, from) {
            Some(line) => exists|i: int|
                from <= i < lines.len() && line == #[trigger] lines[i] && start.is_prefix_of(line)
                    && forall|j: int|
                    from <= j < i ==> !start.is_prefix_of(#[trigger] lines[j]),
            None => forall|j: int|
                from <= j < lines.len() ==> !start.is_prefix_of(#[trigger] lines[j]),
        },
    decreases lines.len() - from,
{
    if from < lines.len() && !start.is_prefix_of(lines[from]) {
        lemma_first_beginning(lines, start, from + 1);
        if let Some(line) = command::first_beginning(lines, start, from + 1) {
            let i = choose|i: int|
                from + 1 <= i < lines.len() && line == #[trigger] lines[i] && start.is_prefix_of(
                    line,
                ) && forall|j: int|
                    from + 1 <= j < i ==> !start.is_prefix_of(#[trigger] lines[j]);
            assert(line == lines[i]);
        }
    } else if from < lines.len() {
        assert(lines[from] == lines[from]);
    }
}

/// Of the statistics, the first line on the transferred size is shown, without white space around
/// it; where there is none, nothing is shown.
pub proof fn law_transferred_line_is_the_first(stats: Seq<char>)
    ensures
        ({
            let lines = text::lines_of(stats);
            let start = "Total transferred file size:"@;
            match command::transferred_text(stats) {
                Some(shown) => exists|i: int|
                    0 <= i < lines.len() && start.is_prefix_of(#[trigger] lines[i]) && shown
                        == text::trimmed(lines[i]) && forall|j: int|
                        0 <= j < i ==> !start.is_prefix_of(#[trigger] lines[j]),
                None => forall|j: int|
                    0 <= j < lines.len() ==> !start.is_prefix_of(#[trigger] lines[j]),
            }
        }),
{
    let lines = text::lines_of(stats);
    let start = "Total transferred file size:"@;
    lemma_first_beginning(lines, start, 0);
    if let Some(line) = command::first_beginning(lines, start, 0) {
        let i = choose|i: int|
            0 <= i < lines.len() && line == #[trigger] lines[i] && start.is_prefix_of(line)
                && forall|j: int| 0 <= j < i ==> !start.is_prefix_of(#[trigger] lines[j]);
        assert(start.is_prefix_of(lines[i]));
    }
}

/// A line on the transferred size is shown whole, whatever it says, if no line before it speaks of
/// that.
pub proof fn law_transferred_line_is_shown_whole(size: Seq<char>, rest: Seq<char>)
    requires
        !size.contains('\n'),
        size.len() > 0,
        !text::is_space(size.last()),
    ensures
        command::transferred_text("Total transferred file size:"@ + size + seq!['\n'] + rest) == Some(
            "Total transferred file size:"@ + size,
        ),
{
    let start = "Total transferred file size:"@;
    let line = start + size;
    let stats = line + seq!['\n'] + rest;
    reveal_strlit("Total transferred file size:");
    assert forall|i: int| 0 <= i < line.len() implies line[i] != '\n' by {
        if i >= start.len() {
            assert(size.contains(size[i - start.len()]));
        }
    }
    assert(line.last() == size.last());
    text_laws::law_line_feed_ends_line(line, rest);
    let lines = text::lines_of(stats);
    assert(lines[0] == line);
    assert(start =~= line.subrange(0, start.len() as int));
    let none = Seq::<char>::empty();
    text_laws::law_trimming_takes_space_only(none, line, none);
    assert(none + line + none =~= line);
    assert(command::first_beginning(lines, start, 0) == Some(line));
}

/// The summary of a dry run holds the drawing of its output and the line on the transferred size, if
/// there is one.
pub proof fn law_summary_of_dry_run(summary: DryRunSummary, output: Seq<char>, stats: Seq<char>)
    requires
        summary.sums_up(output, stats),
    ensures
        summary.tree@ == tree::tree_text(output),
        summary.transferred_line is Some <==> command::transferred_text(stats) is Some,
        summary.transferred_line is Some ==> summary.transferred_line->0@
            == command::transferred_text(stats)->0,
{
}

} // verus!
