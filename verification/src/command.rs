//! The commands that a sync runs, and how their results are read.

use vstd::prelude::*;

use crate::args;
use crate::args::Args;
use crate::error::{Failure, SyncError};
use crate::lossy;
use crate::shell;
use crate::text;
use crate::tree;

verus! {

/// A program and its arguments.
#[derive(Debug)]
pub struct Command {
    pub program: String,
    pub args: Vec<String>,
}

/// A program and its arguments, as text.
pub struct CommandText {
    pub program: Seq<char>,
    pub args: Seq<Seq<char>>,
}

impl View for Command {
    type V = CommandText;

    open spec fn view(&self) -> CommandText {
        CommandText { program: self.program@, args: text::texts(self.args@) }
    }
}

/// Running a line of shell on a host.
pub open spec fn on_host(host: Seq<char>, line: Seq<char>) -> CommandText {
    CommandText { program: "ssh"@, args: args::ssh_option_texts().push(host).push(line) }
}

/// Runs a line of shell on a host.
pub fn ssh_command(host: &str, line: &str) -> (r: Command)
    ensures
        r@ == on_host(host@, line@),
{
    let mut list = args::ssh_options();
    text::push_text(&mut list, host);
    text::push_text(&mut list, line);
    Command { program: "ssh".to_string(), args: list }
}

/// The command that tests whether a remote path is a file.
pub open spec fn probe_text(host: Seq<char>, remote_path: Seq<char>) -> CommandText {
    on_host(host, "test -f "@ + shell::remote_word(remote_path))
}

/// Tests whether a remote path is a file: the command succeeds if it is.
pub fn remote_is_file_command(host: &str, remote_path: &str) -> (r: Command)
    ensures
        r@ == probe_text(host@, remote_path@),
{
    let word = shell::remote_shell_path(remote_path);
    ssh_command(host, text::concat("test -f ", word.as_str()).as_str())
}

/// The command that creates a remote directory.
pub open spec fn create_dir_text(host: Seq<char>, remote_parent: Seq<char>) -> CommandText {
    on_host(host, "mkdir -p "@ + shell::remote_word(remote_parent))
}

/// Creates a remote directory, with those that it lies in.
pub fn ensure_remote_parent_command(host: &str, remote_parent: &str) -> (r: Command)
    ensures
        r@ == create_dir_text(host@, remote_parent@),
{
    let word = shell::remote_shell_path(remote_parent);
    ssh_command(host, text::concat("mkdir -p ", word.as_str()).as_str())
}

/// Reads how the creation of a remote directory ended.
pub fn ensure_remote_parent(success: bool, remote_parent: &str) -> (r: Result<(), SyncError>)
    ensures
        success ==> r is Ok,
        !success ==> r is Err && r->Err_0@ == Failure::RemoteDir(remote_parent@),
{
    if success {
        Ok(())
    } else {
        Err(SyncError::RemoteDir(remote_parent.to_string()))
    }
}

/// A path as rsync is given it: what lies in a directory is meant by a slash at the end.
pub open spec fn with_contents(path: Seq<char>, is_file: bool) -> Seq<char> {
    if is_file {
        path
    } else {
        path + "/"@
    }
}

/// Source and destination of a sync.
pub open spec fn endpoint_texts(
    host: Seq<char>,
    local: Seq<char>,
    remote: Seq<char>,
    is_file: bool,
    pulling: bool,
) -> (Seq<char>, Seq<char>) {
    let here = with_contents(local, is_file);
    let there = host + ":"@ + with_contents(remote, is_file);
    if pulling {
        (there, here)
    } else {
        (here, there)
    }
}

/// A pull goes from where a push goes to, and to where it comes from.
pub proof fn law_pull_reverses_push(
    host: Seq<char>,
    local: Seq<char>,
    remote: Seq<char>,
    is_file: bool,
)
    ensures
        endpoint_texts(host, local, remote, is_file, true) == (
            endpoint_texts(host, local, remote, is_file, false).1,
            endpoint_texts(host, local, remote, is_file, false).0,
        ),
{
}

/// Source and destination of a sync, for a local path that is text.
pub fn text_endpoints(
    host: &str,
    local: &str,
    remote_path: &str,
    is_file: bool,
    pulling: bool,
) -> (r: (String, String))
    ensures
        (r.0@, r.1@) == endpoint_texts(host@, local@, remote_path@, is_file, pulling),
{
    let mut here = local.to_string();
    let mut there = host.to_string();
    there.append(":");
    there.append(remote_path);
    if !is_file {
        here.append("/");
        there.append("/");
    }
    assert(here@ =~= with_contents(local@, is_file));
    assert(there@ =~= host@ + ":"@ + with_contents(remote_path@, is_file));
    if pulling {
        (there, here)
    } else {
        (here, there)
    }
}

/// Source and destination of a sync.
pub fn sync_endpoints(
    host: &str,
    local_path: &[u8],
    remote_path: &str,
    is_file: bool,
    pulling: bool,
) -> (r: (String, String))
    ensures
        (r.0@, r.1@) == endpoint_texts(
            host@,
            lossy::lossy_text(local_path@),
            remote_path@,
            is_file,
            pulling,
        ),
        lossy::faithful(local_path@),
{
    let local = lossy::read_lossy(local_path);
    text_endpoints(host, local.as_str(), remote_path, is_file, pulling)
}

/// The command that lists what a sync between two endpoints would do.
pub open spec fn dry_run_text(args: Args, ends: (Seq<char>, Seq<char>)) -> CommandText {
    CommandText {
        program: "rsync"@,
        args: args::base_flags(args, true) + seq![
            "--dry-run"@,
            "--itemize-changes"@,
            "--out-format=%i|%n|%l"@,
            ends.0,
            ends.1,
        ],
    }
}

/// Lists what a sync between two endpoints would do.
pub fn dry_run_command(args: &Args, ends: &(String, String)) -> (r: Command)
    ensures
        r@ == dry_run_text(*args, (ends.0@, ends.1@)),
{
    let mut list = args::base_rsync_args(args, true);
    text::push_text(&mut list, "--dry-run");
    text::push_text(&mut list, "--itemize-changes");
    text::push_text(&mut list, "--out-format=%i|%n|%l");
    text::push_text(&mut list, ends.0.as_str());
    text::push_text(&mut list, ends.1.as_str());
    let r = Command { program: "rsync".to_string(), args: list };
    assert(r@.args =~= dry_run_text(*args, (ends.0@, ends.1@)).args);
    r
}

/// The arguments with the request to itemize changes among them.
pub open spec fn itemizing(flags: Seq<Seq<char>>) -> Seq<Seq<char>> {
    if flags.contains("--itemize-changes"@) {
        flags
    } else {
        flags.push("--itemize-changes"@)
    }
}

/// The command that syncs between two endpoints.
pub open spec fn transfer_text(args: Args, ends: (Seq<char>, Seq<char>)) -> CommandText {
    CommandText {
        program: "rsync"@,
        args: itemizing(args::base_flags(args, false)).push(ends.0).push(ends.1),
    }
}

fn lists(list: &Vec<String>, wanted: &str) -> (r: bool)
    ensures
        r == text::texts(list@).contains(wanted@),
{
    let w = text::chars_of(wanted);
    let mut i: usize = 0;
    while i < list.len()
        invariant
            i <= list.len(),
            w@ == wanted@,
            forall|k: int| 0 <= k < i ==> #[trigger] text::texts(list@)[k] != wanted@,
        decreases list.len() - i,
    {
        let item = text::chars_of(list[i].as_str());
        assert(text::texts(list@)[i as int] == item@);
        if text::same(item.as_slice(), w.as_slice()) {
            return true;
        }
        i += 1;
    }
    false
}

/// Syncs between two endpoints.
pub fn transfer_command(args: &Args, ends: &(String, String)) -> (r: Command)
    ensures
        r@ == transfer_text(*args, (ends.0@, ends.1@)),
{
    let mut list = args::base_rsync_args(args, false);
    if !lists(&list, "--itemize-changes") {
        text::push_text(&mut list, "--itemize-changes");
    }
    text::push_text(&mut list, ends.0.as_str());
    text::push_text(&mut list, ends.1.as_str());
    Command { program: "rsync".to_string(), args: list }
}

/// What a dry run shows.
#[derive(Debug)]
pub struct DryRunSummary {
    /// The tree of changes.
    pub tree: String,
    /// The line of statistics on how much would be transferred.
    pub transferred_line: Option<String>,
}

/// The first of the lines, from `from` on, that begins with `start`.
pub open spec fn first_beginning(
    lines: Seq<Seq<char>>,
    start: Seq<char>,
    from: int,
) -> Option<Seq<char>>
    decreases lines.len() - from,
{
    if from >= lines.len() {
        None
    } else if start.is_prefix_of(lines[from]) {
        Some(lines[from])
    } else {
        first_beginning(lines, start, from + 1)
    }
}

/// The line of statistics on how much is transferred.
pub open spec fn transferred_text(stats: Seq<char>) -> Option<Seq<char>> {
    match first_beginning(text::lines_of(stats), "Total transferred file size:"@, 0) {
        Some(line) => Some(text::trimmed(line)),
        None => None,
    }
}

impl DryRunSummary {
    /// Whether this is the summary of a dry run with the given output and statistics.
    pub open spec fn sums_up(&self, output: Seq<char>, stats: Seq<char>) -> bool {
        &&& self.tree@ == tree::tree_text(output)
        &&& match self.transferred_line {
            Some(line) => transferred_text(stats) == Some(line@),
            None => transferred_text(stats) is None,
        }
    }
}

fn find_transferred(stats: &str) -> (r: Option<String>)
    ensures
        match r {
            Some(line) => transferred_text(stats@) == Some(line@),
            None => transferred_text(stats@) is None,
        },
{
    let chars = text::chars_of(stats);
    let lines = text::lines(chars.as_slice());
    let ghost all = text::views(lines@);
    let ghost start = "Total transferred file size:"@;
    let mut i: usize = 0;
    while i < lines.len()
        invariant
            i <= lines.len(),
            all == text::views(lines@),
            all == text::lines_of(stats@),
            start == "Total transferred file size:"@,
            first_beginning(all, start, 0) == first_beginning(all, start, i as int),
        decreases lines.len() - i,
    {
        assert(all[i as int] == lines@[i as int]@);
        if text::starts_with(lines[i], "Total transferred file size:") {
            return Some(text::string_of(text::trim(lines[i])));
        }
        i += 1;
    }
    None
}

/// Sums up the output and the statistics of a dry run.
pub fn summarize_dry_run(output: &str, stats: &str) -> (r: DryRunSummary)
    ensures
        r.sums_up(output@, stats@),
{
    DryRunSummary { tree: tree::render_tree(output), transferred_line: find_transferred(stats) }
}

/// Reads how a dry run ended.
pub fn read_dry_run(success: bool, stdout: &[u8], stderr: &[u8]) -> (r: Result<
    DryRunSummary,
    SyncError,
>)
    ensures
        !success ==> r is Err && r->Err_0@ == Failure::DryRunFailed,
        success ==> r is Ok && r->Ok_0.sums_up(
            lossy::lossy_text(stdout@),
            lossy::lossy_text(stderr@),
        ),
        success ==> lossy::faithful(stdout@) && lossy::faithful(stderr@),
{
    if !success {
        return Err(SyncError::DryRunFailed);
    }
    let output = lossy::read_lossy(stdout);
    let stats = lossy::read_lossy(stderr);
    Ok(summarize_dry_run(output.as_str(), stats.as_str()))
}

} // verus!
