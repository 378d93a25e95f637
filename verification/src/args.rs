//! The options of a run, and the rsync arguments that they stand for.

use vstd::prelude::*;

use crate::text;

verus! {

/// The options of a run.
#[derive(Debug)]
pub struct Args {
    /// Local path to sync (push) or path to pull into (pull). Defaults to current directory.
    pub path: Option<String>,
    /// Host to sync with; if omitted, the last used host or a picker is used.
    pub host: Option<String>,
    /// Push local -> remote (default is bidirectional)
    pub push: bool,
    /// Pull remote -> local (default is bidirectional)
    pub pull: bool,
    /// Watch for file changes and sync automatically (defaults to Push mode)
    pub watch: bool,
    /// Sync everything (disable default smart excludes and size limits)
    pub all: bool,
    /// Allow large files (disables the default 10MB size limit)
    pub large: bool,
    /// Use .gitignore to exclude files
    pub gitignore: bool,
    /// Override max size limit (e.g. 100M, 1G)
    pub max_size: Option<String>,
    /// Backup updated/deleted files on the destination
    pub backup: bool,
    /// Dry run: show a tree-style diff and transfer size
    pub dry_run: bool,
    /// Skip syncing permissions (useful for macOS/Linux UID/GID clashes)
    pub no_perms: bool,
}

impl Args {
    /// Whether the local side is sent: on request, or where no direction is given.
    pub open spec fn pushes(&self) -> bool {
        self.push || !self.pull
    }

    /// Whether the remote side is fetched: on request, or where no direction is given.
    pub open spec fn pulls(&self) -> bool {
        self.pull || !self.push
    }

    /// Whether to push.
    pub fn is_push(&self) -> (r: bool)
        ensures
            r == self.pushes(),
    {
        self.push || (!self.push && !self.pull)
    }

    /// Whether to pull.
    pub fn is_pull(&self) -> (r: bool)
        ensures
            r == self.pulls(),
    {
        self.pull || (!self.push && !self.pull)
    }
}

/// The options that every ssh connection is made with.
pub open spec fn ssh_option_texts() -> Seq<Seq<char>> {
    seq![
        "-o"@,
        "ConnectTimeout=10"@,
        "-o"@,
        "ServerAliveInterval=15"@,
        "-o"@,
        "ServerAliveCountMax=2"@,
    ]
}

/// The options that every ssh connection is made with.
pub fn ssh_options() -> (r: Vec<String>)
    ensures
        text::texts(r@) == ssh_option_texts(),
{
    let mut r: Vec<String> = Vec::new();
    text::push_text(&mut r, "-o");
    text::push_text(&mut r, "ConnectTimeout=10");
    text::push_text(&mut r, "-o");
    text::push_text(&mut r, "ServerAliveInterval=15");
    text::push_text(&mut r, "-o");
    text::push_text(&mut r, "ServerAliveCountMax=2");
    assert(text::texts(r@) =~= ssh_option_texts());
    r
}

/// What a transfer asks of rsync beyond a dry run: progress, and transfers that can go on where
/// they broke off.
pub open spec fn transfer_flags() -> Seq<Seq<char>> {
    seq!["-P"@, "--partial"@, "--inplace"@, "--info=progress2"@, "--out-format=%i|%n"@]
}

/// How rsync connects, and that it reports statistics.
pub open spec fn connection_flags() -> Seq<Seq<char>> {
    seq!["-e"@, "ssh "@ + text::joined(ssh_option_texts(), " "@), "--stats"@]
}

/// The files that are left out by default: build products, caches and editor leftovers.
pub open spec fn default_excludes() -> Seq<Seq<char>> {
    seq![
        "--exclude=*.o"@,
        "--exclude=*.obj"@,
        "--exclude=*.a"@,
        "--exclude=*.lib"@,
        "--exclude=*.so"@,
        "--exclude=*.dylib"@,
        "--exclude=*.dll"@,
        "--exclude=*.exe"@,
        "--exclude=__pycache__/"@,
        "--exclude=*.pyc"@,
        "--exclude=.git/"@,
        "--exclude=node_modules/"@,
        "--exclude=target/"@,
        "--exclude=.next/"@,
        "--exclude=dist/"@,
        "--exclude=build/"@,
        "--exclude=.terraform/"@,
        "--exclude=.DS_Store"@,
        "--exclude=Thumbs.db"@,
        "--exclude=*.swp"@,
        "--exclude=*~"@,
    ]
}

/// The size limit: the given one, or ten megabytes unless large files or all files are asked for.
pub open spec fn size_flags(args: Args) -> Seq<Seq<char>> {
    match args.max_size {
        Some(size) => seq!["--max-size="@ + size@],
        None => if args.large || args.all {
            Seq::empty()
        } else {
            seq!["--max-size=10m"@]
        },
    }
}

/// `flags` where `cond` holds, and nothing otherwise.
pub open spec fn flags_if(cond: bool, flags: Seq<Seq<char>>) -> Seq<Seq<char>> {
    if cond {
        flags
    } else {
        Seq::empty()
    }
}

/// The rsync arguments for the given options, without source and destination.
pub open spec fn base_flags(args: Args, dry_run: bool) -> Seq<Seq<char>> {
    seq!["-avzu"@] + flags_if(!dry_run, transfer_flags()) + connection_flags() + flags_if(
        !args.all,
        default_excludes(),
    ) + flags_if(args.gitignore, seq!["--filter=:- .gitignore"@]) + size_flags(args) + flags_if(
        args.backup,
        seq!["--backup"@, "--backup-dir=.syncz-backups"@],
    ) + flags_if(args.no_perms, seq!["--no-perms"@])
}

fn push_transfer_flags(list: &mut Vec<String>, wanted: bool)
    ensures
        text::texts(final(list)@) == text::texts(old(list)@) + flags_if(wanted, transfer_flags()),
{
    let ghost before = text::texts(list@);
    if wanted {
        text::push_text(list, "-P");
        text::push_text(list, "--partial");
        text::push_text(list, "--inplace");
        text::push_text(list, "--info=progress2");
        text::push_text(list, "--out-format=%i|%n");
    }
    assert(text::texts(list@) =~= before + flags_if(wanted, transfer_flags()));
}

fn push_connection_flags(list: &mut Vec<String>)
    ensures
        text::texts(final(list)@) == text::texts(old(list)@) + connection_flags(),
{
    let ghost before = text::texts(list@);
    text::push_text(list, "-e");
    let options = text::join(ssh_options().as_slice(), " ");
    text::push_text(list, text::concat("ssh ", options.as_str()).as_str());
    text::push_text(list, "--stats");
    assert(text::texts(list@) =~= before + connection_flags());
}

fn push_default_excludes(list: &mut Vec<String>, wanted: bool)
    ensures
        text::texts(final(list)@) == text::texts(old(list)@) + flags_if(wanted, default_excludes()),
{
    let ghost before = text::texts(list@);
    if wanted {
        text::push_text(list, "--exclude=*.o");
        text::push_text(list, "--exclude=*.obj");
        text::push_text(list, "--exclude=*.a");
        text::push_text(list, "--exclude=*.lib");
        text::push_text(list, "--exclude=*.so");
        text::push_text(list, "--exclude=*.dylib");
        text::push_text(list, "--exclude=*.dll");
        text::push_text(list, "--exclude=*.exe");
        text::push_text(list, "--exclude=__pycache__/");
        text::push_text(list, "--exclude=*.pyc");
        text::push_text(list, "--exclude=.git/");
        text::push_text(list, "--exclude=node_modules/");
        text::push_text(list, "--exclude=target/");
        text::push_text(list, "--exclude=.next/");
        text::push_text(list, "--exclude=dist/");
        text::push_text(list, "--exclude=build/");
        text::push_text(list, "--exclude=.terraform/");
        text::push_text(list, "--exclude=.DS_Store");
        text::push_text(list, "--exclude=Thumbs.db");
        text::push_text(list, "--exclude=*.swp");
        text::push_text(list, "--exclude=*~");
    }
    assert(text::texts(list@) =~= before + flags_if(wanted, default_excludes()));
}

fn push_flag(list: &mut Vec<String>, wanted: bool, flag: &str)
    ensures
        text::texts(final(list)@) == text::texts(old(list)@) + flags_if(wanted, seq![flag@]),
{
    let ghost before = text::texts(list@);
    if wanted {
        text::push_text(list, flag);
    }
    assert(text::texts(list@) =~= before + flags_if(wanted, seq![flag@]));
}

fn push_size_flags(list: &mut Vec<String>, args: &Args)
    ensures
        text::texts(final(list)@) == text::texts(old(list)@) + size_flags(*args),
{
    let ghost before = text::texts(list@);
    if let Some(max_size) = &args.max_size {
        text::push_text(list, text::concat("--max-size=", max_size.as_str()).as_str());
    } else if !args.large && !args.all {
        text::push_text(list, "--max-size=10m");
    }
    assert(text::texts(list@) =~= before + size_flags(*args));
}

fn push_backup_flags(list: &mut Vec<String>, wanted: bool)
    ensures
        text::texts(final(list)@) == text::texts(old(list)@) + flags_if(
            wanted,
            seq!["--backup"@, "--backup-dir=.syncz-backups"@],
        ),
{
    let ghost before = text::texts(list@);
    if wanted {
        text::push_text(list, "--backup");
        text::push_text(list, "--backup-dir=.syncz-backups");
    }
    assert(text::texts(list@) =~= before + flags_if(
        wanted,
        seq!["--backup"@, "--backup-dir=.syncz-backups"@],
    ));
}

/// Lists the rsync arguments for the given options, without source and destination.
pub fn base_rsync_args(args: &Args, dry_run: bool) -> (r: Vec<String>)
    ensures
        text::texts(r@) == base_flags(*args, dry_run),
{
    let mut list: Vec<String> = Vec::new();
    text::push_text(&mut list, "-avzu");
    assert(text::texts(list@) =~= seq!["-avzu"@]);
    push_transfer_flags(&mut list, !dry_run);
    push_connection_flags(&mut list);
    push_default_excludes(&mut list, !args.all);
    push_flag(&mut list, args.gitignore, "--filter=:- .gitignore");
    push_size_flags(&mut list, args);
    push_backup_flags(&mut list, args.backup);
    push_flag(&mut list, args.no_perms, "--no-perms");
    list
}

} // verus!
