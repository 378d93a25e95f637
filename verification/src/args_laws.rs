//! What the options of a run ask of rsync.

use vstd::prelude::*;

use crate::args;
use crate::args::Args;
use crate::command;
use crate::text_laws;

verus! {

/// The flags that begin with `start`.
pub open spec fn beginning_with(flags: Seq<Seq<char>>, start: Seq<char>) -> Seq<Seq<char>> {
    flags.filter(|f: Seq<char>| start.is_prefix_of(f))
}

proof fn lemma_not_prefix(start: Seq<char>, flag: Seq<char>, k: int)
    requires
        0 <= k < start.len(),
        k >= flag.len() || flag[k] != start[k],
    ensures
        !start.is_prefix_of(flag),
{
    if start.is_prefix_of(flag) {
        assert(flag.subrange(0, start.len() as int)[k] == start[k]);
    }
}

proof fn lemma_none(flags: Seq<Seq<char>>, start: Seq<char>)
    requires
        forall|i: int| 0 <= i < flags.len() ==> !start.is_prefix_of(#[trigger] flags[i]),
    ensures
        beginning_with(flags, start) == Seq::<Seq<char>>::empty(),
    decreases flags.len(),
{
    reveal(Seq::filter);
    if flags.len() > 0 {
        let init = flags.drop_last();
        assert forall|i: int| 0 <= i < init.len() implies !start.is_prefix_of(
            #[trigger] init[i],
        ) by {
            assert(init[i] == flags[i]);
        }
        lemma_none(init, start);
        assert(!start.is_prefix_of(flags[flags.len() - 1]));
    }
}

proof fn lemma_all(flags: Seq<Seq<char>>, start: Seq<char>)
    requires
        forall|i: int| 0 <= i < flags.len() ==> start.is_prefix_of(#[trigger] flags[i]),
    ensures
        beginning_with(flags, start) == flags,
    decreases flags.len(),
{
    reveal(Seq::filter);
    if flags.len() > 0 {
        let init = flags.drop_last();
        assert forall|i: int| 0 <= i < init.len() implies start.is_prefix_of(
            #[trigger] init[i],
        ) by {
            assert(init[i] == flags[i]);
        }
        lemma_all(init, start);
        assert(start.is_prefix_of(flags[flags.len() - 1]));
        assert(init.push(flags.last()) =~= flags);
    }
}

proof fn lemma_concat(a: Seq<Seq<char>>, b: Seq<Seq<char>>, start: Seq<char>)
    ensures
        beginning_with(a + b, start) == beginning_with(a, start) + beginning_with(b, start),
{
    Seq::filter_distributes_over_add(a, b, |f: Seq<char>| start.is_prefix_of(f));
}

/// Whether `start` begins none of the flags but excludes and size limits.
spec fn is_apart(start: Seq<char>) -> bool {
    &&& start.len() >= 4
    &&& start[0] == '-'
    &&& start[1] == '-'
    &&& start[2] == 'e' || start[2] == 'm' || (start[2] == 'i' && start[3] == 't')
}

proof fn lemma_fixed_flags(args: Args, dry_run: bool, start: Seq<char>)
    requires
        is_apart(start),
    ensures
        beginning_with(seq!["-avzu"@], start).len() == 0,
        beginning_with(args::flags_if(!dry_run, args::transfer_flags()), start).len() == 0,
        beginning_with(args::connection_flags(), start).len() == 0,
{
    reveal_strlit("-avzu");
    lemma_not_prefix(start, "-avzu"@, 1);
    lemma_none(seq!["-avzu"@], start);
    reveal_strlit("-P");
    lemma_not_prefix(start, "-P"@, 1);
    reveal_strlit("--partial");
    lemma_not_prefix(start, "--partial"@, 2);
    reveal_strlit("--inplace");
    lemma_not_prefix(start, "--inplace"@, if start[2] == 'i' { 3 } else { 2 });
    reveal_strlit("--info=progress2");
    lemma_not_prefix(start, "--info=progress2"@, if start[2] == 'i' { 3 } else { 2 });
    reveal_strlit("--out-format=%i|%n");
    lemma_not_prefix(start, "--out-format=%i|%n"@, 2);
    lemma_none(args::flags_if(!dry_run, args::transfer_flags()), start);
    let rsh = args::connection_flags()[1];
    reveal_strlit("-e");
    lemma_not_prefix(start, "-e"@, 1);
    reveal_strlit("ssh ");
    assert(rsh[0] == 's');
    lemma_not_prefix(start, rsh, 0);
    reveal_strlit("--stats");
    lemma_not_prefix(start, "--stats"@, 2);
    lemma_none(args::connection_flags(), start);
}

proof fn lemma_option_flags(args: Args, start: Seq<char>)
    requires
        is_apart(start),
    ensures
        beginning_with(
            args::flags_if(args.gitignore, seq!["--filter=:- .gitignore"@]),
            start,
        ).len() == 0,
        beginning_with(
            args::flags_if(args.backup, seq!["--backup"@, "--backup-dir=.syncz-backups"@]),
            start,
        ).len() == 0,
        beginning_with(args::flags_if(args.no_perms, seq!["--no-perms"@]), start).len() == 0,
{
    reveal_strlit("--filter=:- .gitignore");
    lemma_not_prefix(start, "--filter=:- .gitignore"@, 2);
    lemma_none(args::flags_if(args.gitignore, seq!["--filter=:- .gitignore"@]), start);
    reveal_strlit("--backup");
    lemma_not_prefix(start, "--backup"@, 2);
    reveal_strlit("--backup-dir=.syncz-backups");
    lemma_not_prefix(start, "--backup-dir=.syncz-backups"@, 2);
    lemma_none(
        args::flags_if(args.backup, seq!["--backup"@, "--backup-dir=.syncz-backups"@]),
        start,
    );
    reveal_strlit("--no-perms");
    lemma_not_prefix(start, "--no-perms"@, 2);
    lemma_none(args::flags_if(args.no_perms, seq!["--no-perms"@]), start);
}

/// Only excludes and size limits begin as `start` does.
proof fn lemma_only_rules(args: Args, dry_run: bool, start: Seq<char>)
    requires
        is_apart(start),
    ensures
        beginning_with(args::base_flags(args, dry_run), start) == beginning_with(
            args::flags_if(!args.all, args::default_excludes()),
            start,
        ) + beginning_with(args::size_flags(args), start),
{
    let f0 = seq!["-avzu"@];
    let f1 = args::flags_if(!dry_run, args::transfer_flags());
    let f2 = args::connection_flags();
    let f3 = args::flags_if(!args.all, args::default_excludes());
    let f4 = args::flags_if(args.gitignore, seq!["--filter=:- .gitignore"@]);
    let f5 = args::size_flags(args);
    let f6 = args::flags_if(args.backup, seq!["--backup"@, "--backup-dir=.syncz-backups"@]);
    let f7 = args::flags_if(args.no_perms, seq!["--no-perms"@]);
    lemma_fixed_flags(args, dry_run, start);
    lemma_option_flags(args, start);
    lemma_concat(f0, f1, start);
    lemma_concat(f0 + f1, f2, start);
    lemma_concat(f0 + f1 + f2, f3, start);
    lemma_concat(f0 + f1 + f2 + f3, f4, start);
    lemma_concat(f0 + f1 + f2 + f3 + f4, f5, start);
    lemma_concat(f0 + f1 + f2 + f3 + f4 + f5, f6, start);
    lemma_concat(f0 + f1 + f2 + f3 + f4 + f5 + f6, f7, start);
    assert(beginning_with(args::base_flags(args, dry_run), start) =~= beginning_with(f3, start)
        + beginning_with(f5, start));
}

/// Each default exclude begins with the word for it.
proof fn lemma_exclude(flag: Seq<char>)
    requires
        flag.len() >= 10,
        flag[0] == '-',
        flag[1] == '-',
        flag[2] == 'e',
        flag[3] == 'x',
        flag[4] == 'c',
        flag[5] == 'l',
        flag[6] == 'u',
        flag[7] == 'd',
        flag[8] == 'e',
        flag[9] == '=',
    ensures
        "--exclude="@.is_prefix_of(flag),
{
    reveal_strlit("--exclude=");
    assert("--exclude="@ =~= flag.subrange(0, 10));
}

proof fn lemma_default_excludes()
    ensures
        beginning_with(args::default_excludes(), "--exclude="@) == args::default_excludes(),
        beginning_with(args::default_excludes(), "--max-size="@).len() == 0,
        beginning_with(args::default_excludes(), "--itemize-changes"@).len() == 0,
{
    let all = args::default_excludes();
    reveal_strlit("--max-size=");
    reveal_strlit("--itemize-changes");
    reveal_strlit("--exclude=*.o");
    reveal_strlit("--exclude=*.obj");
    reveal_strlit("--exclude=*.a");
    reveal_strlit("--exclude=*.lib");
    reveal_strlit("--exclude=*.so");
    reveal_strlit("--exclude=*.dylib");
    reveal_strlit("--exclude=*.dll");
    reveal_strlit("--exclude=*.exe");
    reveal_strlit("--exclude=__pycache__/");
    reveal_strlit("--exclude=*.pyc");
    reveal_strlit("--exclude=.git/");
    reveal_strlit("--exclude=node_modules/");
    reveal_strlit("--exclude=target/");
    reveal_strlit("--exclude=.next/");
    reveal_strlit("--exclude=dist/");
    reveal_strlit("--exclude=build/");
    reveal_strlit("--exclude=.terraform/");
    reveal_strlit("--exclude=.DS_Store");
    reveal_strlit("--exclude=Thumbs.db");
    reveal_strlit("--exclude=*.swp");
    reveal_strlit("--exclude=*~");
    assert forall|i: int| 0 <= i < all.len() implies "--exclude="@.is_prefix_of(
        #[trigger] all[i],
    ) && !"--max-size="@.is_prefix_of(all[i]) && !"--itemize-changes"@.is_prefix_of(all[i]) by {
        lemma_exclude(all[i]);
        lemma_not_prefix("--max-size="@, all[i], 2);
        lemma_not_prefix("--itemize-changes"@, all[i], 2);
    }
    lemma_all(all, "--exclude="@);
    lemma_none(all, "--max-size="@);
    lemma_none(all, "--itemize-changes"@);
}

proof fn lemma_size_flags(args: Args)
    ensures
        beginning_with(args::size_flags(args), "--max-size="@) == args::size_flags(args),
        beginning_with(args::size_flags(args), "--exclude="@).len() == 0,
        beginning_with(args::size_flags(args), "--itemize-changes"@).len() == 0,
{
    let all = args::size_flags(args);
    reveal_strlit("--max-size=");
    reveal_strlit("--max-size=10m");
    reveal_strlit("--exclude=");
    reveal_strlit("--itemize-changes");
    assert forall|i: int| 0 <= i < all.len() implies "--max-size="@.is_prefix_of(#[trigger] all[i])
        && !"--exclude="@.is_prefix_of(all[i]) && !"--itemize-changes"@.is_prefix_of(all[i]) by {
        assert("--max-size="@ =~= all[i].subrange(0, "--max-size="@.len() as int));
        lemma_not_prefix("--exclude="@, all[i], 2);
        lemma_not_prefix("--itemize-changes"@, all[i], 2);
    }
    lemma_all(all, "--max-size="@);
    lemma_none(all, "--exclude="@);
    lemma_none(all, "--itemize-changes"@);
}

/// With all files asked for, nothing is excluded; otherwise exactly the defaults are.
pub proof fn law_excludes(args: Args, dry_run: bool)
    ensures
        beginning_with(args::base_flags(args, dry_run), "--exclude="@) == args::flags_if(
            !args.all,
            args::default_excludes(),
        ),
{
    reveal_strlit("--exclude=");
    lemma_only_rules(args, dry_run, "--exclude="@);
    lemma_default_excludes();
    lemma_size_flags(args);
    lemma_none(Seq::empty(), "--exclude="@);
    assert(beginning_with(args::base_flags(args, dry_run), "--exclude="@) =~= args::flags_if(
        !args.all,
        args::default_excludes(),
    ));
}

/// There is at most one size limit: the given one; else, unless large files or all files are asked
/// for, ten megabytes.
pub proof fn law_size_limit(args: Args, dry_run: bool)
    ensures
        beginning_with(args::base_flags(args, dry_run), "--max-size="@) == args::size_flags(args),
        args::size_flags(args).len() <= 1,
        args.max_size is None && (args.all || args.large) ==> args::size_flags(args).len() == 0,
{
    reveal_strlit("--max-size=");
    lemma_only_rules(args, dry_run, "--max-size="@);
    lemma_default_excludes();
    lemma_size_flags(args);
    lemma_none(Seq::empty(), "--max-size="@);
    assert(beginning_with(args::base_flags(args, dry_run), "--max-size="@) =~= args::size_flags(
        args,
    ));
}

/// A flag that begins no other flag is not among the flags.
proof fn lemma_absent(flags: Seq<Seq<char>>, flag: Seq<char>)
    requires
        beginning_with(flags, flag).len() == 0,
    ensures
        !flags.contains(flag),
{
    if flags.contains(flag) {
        let i = choose|i: int| 0 <= i < flags.len() && flags[i] == flag;
        assert(flag =~= flag.subrange(0, flag.len() as int));
        flags.lemma_filter_contains(|f: Seq<char>| flag.is_prefix_of(f), i);
        assert(beginning_with(flags, flag).contains(flag));
    }
}

proof fn lemma_base_does_not_itemize(args: Args)
    ensures
        !args::base_flags(args, false).contains("--itemize-changes"@),
{
    let start = "--itemize-changes"@;
    reveal_strlit("--itemize-changes");
    lemma_only_rules(args, false, start);
    lemma_default_excludes();
    lemma_size_flags(args);
    lemma_none(Seq::empty(), start);
    lemma_absent(args::base_flags(args, false), start);
}

/// A transfer asks once for changes to be itemized.
pub proof fn law_transfer_itemizes_once(args: Args, ends: (Seq<char>, Seq<char>))
    ensures
        command::transfer_text(args, ends).args == args::base_flags(args, false).push(
            "--itemize-changes"@,
        ) + seq![ends.0, ends.1],
        !args::base_flags(args, false).contains("--itemize-changes"@),
{
    lemma_base_does_not_itemize(args);
}

proof fn lemma_regrouped(
    head: Seq<Seq<char>>,
    progress: Seq<Seq<char>>,
    a: Seq<Seq<char>>,
    b: Seq<Seq<char>>,
    c: Seq<Seq<char>>,
    d: Seq<Seq<char>>,
    e: Seq<Seq<char>>,
    f: Seq<Seq<char>>,
)
    requires
        head.len() == 1,
    ensures
        head + progress + a + b + c + d + e + f == head + progress + (head + Seq::empty() + a + b
            + c + d + e + f).skip(1),
{
    let rest = a + b + c + d + e + f;
    assert(head + Seq::empty() + a + b + c + d + e + f =~= head + rest);
    assert((head + rest).skip(1) =~= rest);
    assert(head + progress + a + b + c + d + e + f =~= head + progress + rest);
}

/// A dry run looks at the files that the transfer would look at: the transfer only adds flags on
/// how progress is shown and what is kept of a broken-off transfer.
pub proof fn law_dry_run_looks_at_same_files(args: Args)
    ensures
        args::base_flags(args, false) == seq!["-avzu"@] + args::transfer_flags()
            + args::base_flags(args, true).skip(1),
{
    lemma_regrouped(
        seq!["-avzu"@],
        args::transfer_flags(),
        args::connection_flags(),
        args::flags_if(!args.all, args::default_excludes()),
        args::flags_if(args.gitignore, seq!["--filter=:- .gitignore"@]),
        args::size_flags(args),
        args::flags_if(args.backup, seq!["--backup"@, "--backup-dir=.syncz-backups"@]),
        args::flags_if(args.no_perms, seq!["--no-perms"@]),
    );
}

/// Whether two runs agree in the options that choose the files and say how they are treated.
pub open spec fn treat_files_alike(a: Args, b: Args) -> bool {
    &&& a.all == b.all
    &&& a.large == b.large
    &&& a.gitignore == b.gitignore
    &&& a.max_size == b.max_size
    &&& a.backup == b.backup
    &&& a.no_perms == b.no_perms
}

/// A dry run goes between the same endpoints as the run that it stands for, and looks at the same
/// files.
pub proof fn law_dry_run_stands_for_transfer(
    dry: Args,
    live: Args,
    ends: (Seq<char>, Seq<char>),
)
    requires
        treat_files_alike(dry, live),
    ensures
        command::dry_run_text(dry, ends).program == "rsync"@,
        command::transfer_text(live, ends).program == "rsync"@,
        command::dry_run_text(dry, ends).args == args::base_flags(live, true) + seq![
            "--dry-run"@,
            "--itemize-changes"@,
            "--out-format=%i|%n|%l"@,
            ends.0,
            ends.1,
        ],
        command::transfer_text(live, ends).args == (seq!["-avzu"@] + args::transfer_flags()
            + args::base_flags(live, true).skip(1)).push("--itemize-changes"@) + seq![
            ends.0,
            ends.1,
        ],
{
    law_dry_run_looks_at_same_files(live);
    law_transfer_itemizes_once(live, ends);
    assert(args::base_flags(dry, true) == args::base_flags(live, true));
}

/// Without a direction a run goes both ways, and one direction alone is kept to.
pub proof fn law_directions(args: Args)
    ensures
        args.push == args.pull ==> args.pushes() && args.pulls(),
        args.push && !args.pull ==> args.pushes() && !args.pulls(),
        !args.push && args.pull ==> !args.pushes() && args.pulls(),
{
}

/// The letter behind the two dashes of a long flag.
spec fn letter(flag: Seq<char>) -> char {
    if flag.len() > 2 && flag[0] == '-' && flag[1] == '-' {
        flag[2]
    } else {
        ' '
    }
}

proof fn lemma_contains_either(a: Seq<Seq<char>>, b: Seq<Seq<char>>, x: Seq<char>)
    ensures
        (a + b).contains(x) <==> a.contains(x) || b.contains(x),
{
    if a.contains(x) {
        let i = choose|i: int| 0 <= i < a.len() && a[i] == x;
        assert((a + b)[i] == x);
    }
    if b.contains(x) {
        let i = choose|i: int| 0 <= i < b.len() && b[i] == x;
        assert((a + b)[a.len() + i] == x);
    }
}

/// A flag is among the arguments if it is among those of one kind.
proof fn lemma_among_kinds(args: Args, dry_run: bool, x: Seq<char>)
    ensures
        args::base_flags(args, dry_run).contains(x) <==> {
            ||| seq!["-avzu"@].contains(x)
            ||| args::flags_if(!dry_run, args::transfer_flags()).contains(x)
            ||| args::connection_flags().contains(x)
            ||| args::flags_if(!args.all, args::default_excludes()).contains(x)
            ||| args::flags_if(args.gitignore, seq!["--filter=:- .gitignore"@]).contains(x)
            ||| args::size_flags(args).contains(x)
            ||| args::flags_if(
                args.backup,
                seq!["--backup"@, "--backup-dir=.syncz-backups"@],
            ).contains(x)
            ||| args::flags_if(args.no_perms, seq!["--no-perms"@]).contains(x)
        },
{
    let f0 = seq!["-avzu"@];
    let f1 = args::flags_if(!dry_run, args::transfer_flags());
    let f2 = args::connection_flags();
    let f3 = args::flags_if(!args.all, args::default_excludes());
    let f4 = args::flags_if(args.gitignore, seq!["--filter=:- .gitignore"@]);
    let f5 = args::size_flags(args);
    let f6 = args::flags_if(args.backup, seq!["--backup"@, "--backup-dir=.syncz-backups"@]);
    let f7 = args::flags_if(args.no_perms, seq!["--no-perms"@]);
    lemma_contains_either(f0, f1, x);
    lemma_contains_either(f0 + f1, f2, x);
    lemma_contains_either(f0 + f1 + f2, f3, x);
    lemma_contains_either(f0 + f1 + f2 + f3, f4, x);
    lemma_contains_either(f0 + f1 + f2 + f3 + f4, f5, x);
    lemma_contains_either(f0 + f1 + f2 + f3 + f4 + f5, f6, x);
    lemma_contains_either(f0 + f1 + f2 + f3 + f4 + f5 + f6, f7, x);
}

proof fn lemma_letters_of_fixed()
    ensures
        forall|i: int|
            0 <= i < args::connection_flags().len() ==> letter(
                #[trigger] args::connection_flags()[i],
            ) == ' ' || args::connection_flags()[i] == "--stats"@,
        letter("--stats"@) == 's',
        letter("-avzu"@) == ' ',
        letter("-P"@) == ' ',
        letter("--partial"@) == 'p',
        letter("--inplace"@) == 'i',
        letter("--info=progress2"@) == 'i',
        letter("--out-format=%i|%n"@) == 'o',
        letter("--filter=:- .gitignore"@) == 'f',
        letter("--backup"@) == 'b',
        letter("--backup-dir=.syncz-backups"@) == 'b',
        letter("--no-perms"@) == 'n',
        "--backup"@ != "--backup-dir=.syncz-backups"@,
        "--inplace"@ != "--info=progress2"@,
{
    reveal_strlit("-e");
    reveal_strlit("ssh ");
    reveal_strlit("--stats");
    reveal_strlit("-avzu");
    reveal_strlit("-P");
    reveal_strlit("--partial");
    reveal_strlit("--inplace");
    reveal_strlit("--info=progress2");
    reveal_strlit("--out-format=%i|%n");
    reveal_strlit("--filter=:- .gitignore");
    reveal_strlit("--backup");
    reveal_strlit("--backup-dir=.syncz-backups");
    reveal_strlit("--no-perms");
    assert("--backup"@.len() != "--backup-dir=.syncz-backups"@.len());
    assert("--inplace"@.len() != "--info=progress2"@.len());
    let rsh = args::connection_flags()[1];
    assert(rsh[0] == 's');
}

proof fn lemma_letters_of_excludes()
    ensures
        forall|i: int|
            0 <= i < args::default_excludes().len() ==> letter(
                #[trigger] args::default_excludes()[i],
            ) == 'e',
{
    reveal_strlit("--exclude=*.o");
    reveal_strlit("--exclude=*.obj");
    reveal_strlit("--exclude=*.a");
    reveal_strlit("--exclude=*.lib");
    reveal_strlit("--exclude=*.so");
    reveal_strlit("--exclude=*.dylib");
    reveal_strlit("--exclude=*.dll");
    reveal_strlit("--exclude=*.exe");
    reveal_strlit("--exclude=__pycache__/");
    reveal_strlit("--exclude=*.pyc");
    reveal_strlit("--exclude=.git/");
    reveal_strlit("--exclude=node_modules/");
    reveal_strlit("--exclude=target/");
    reveal_strlit("--exclude=.next/");
    reveal_strlit("--exclude=dist/");
    reveal_strlit("--exclude=build/");
    reveal_strlit("--exclude=.terraform/");
    reveal_strlit("--exclude=.DS_Store");
    reveal_strlit("--exclude=Thumbs.db");
    reveal_strlit("--exclude=*.swp");
    reveal_strlit("--exclude=*~");
}

proof fn lemma_letters_of_limits(args: Args)
    ensures
        forall|i: int|
            0 <= i < args::size_flags(args).len() ==> letter(#[trigger] args::size_flags(args)[i])
                == 'm',
{
    reveal_strlit("--max-size=");
    reveal_strlit("--max-size=10m");
}

/// A flag of another letter than excludes, size limits and what is always given: it is there where
/// an option or a transfer asks for it.
proof fn lemma_option_flag(args: Args, dry_run: bool, x: Seq<char>)
    requires
        letter(x) != ' ',
        letter(x) != 's',
        letter(x) != 'e',
        letter(x) != 'm',
    ensures
        args::base_flags(args, dry_run).contains(x) <==> {
            ||| !dry_run && args::transfer_flags().contains(x)
            ||| args.gitignore && x == "--filter=:- .gitignore"@
            ||| args.backup && (x == "--backup"@ || x == "--backup-dir=.syncz-backups"@)
            ||| args.no_perms && x == "--no-perms"@
        },
{
    lemma_among_kinds(args, dry_run, x);
    lemma_letters_of_fixed();
    lemma_letters_of_excludes();
    lemma_letters_of_limits(args);
    assert(seq!["-avzu"@][0] == "-avzu"@);
    let backup = seq!["--backup"@, "--backup-dir=.syncz-backups"@];
    assert(backup[0] == "--backup"@);
    assert(backup[1] == "--backup-dir=.syncz-backups"@);
    assert(seq!["--filter=:- .gitignore"@][0] == "--filter=:- .gitignore"@);
    assert(seq!["--no-perms"@][0] == "--no-perms"@);
}

/// Each of the options for ignored files, backups and permissions has its flags, and they are given
/// exactly if that option is, whatever the other options are.
pub proof fn law_options_have_their_flags(args: Args, dry_run: bool)
    ensures
        args::base_flags(args, dry_run).contains("--filter=:- .gitignore"@) <==> args.gitignore,
        args::base_flags(args, dry_run).contains("--backup"@) <==> args.backup,
        args::base_flags(args, dry_run).contains("--backup-dir=.syncz-backups"@) <==> args.backup,
        args::base_flags(args, dry_run).contains("--no-perms"@) <==> args.no_perms,
{
    lemma_letters_of_fixed();
    lemma_option_flag(args, dry_run, "--filter=:- .gitignore"@);
    lemma_option_flag(args, dry_run, "--backup"@);
    lemma_option_flag(args, dry_run, "--backup-dir=.syncz-backups"@);
    lemma_option_flag(args, dry_run, "--no-perms"@);
    lemma_transfer_letters();
}

proof fn lemma_transfer_letters()
    ensures
        forall|x: Seq<char>| #[trigger]
            args::transfer_flags().contains(x) ==> letter(x) == ' ' || letter(x) == 'p' || letter(x)
                == 'i' || letter(x) == 'o',
{
    lemma_letters_of_fixed();
    let t = args::transfer_flags();
    assert forall|x: Seq<char>| #[trigger] t.contains(x) implies letter(x) == ' ' || letter(x) == 'p'
        || letter(x) == 'i' || letter(x) == 'o' by {
        let i = choose|i: int| 0 <= i < t.len() && t[i] == x;
        assert(0 <= i < 5);
    }
}

/// Progress, and transfers that can go on where they broke off, are asked for by transfers only.
pub proof fn law_transfers_have_their_flags(args: Args, dry_run: bool)
    ensures
        args::base_flags(args, dry_run).contains("--partial"@) <==> !dry_run,
        args::base_flags(args, dry_run).contains("--inplace"@) <==> !dry_run,
        args::base_flags(args, dry_run).contains("--info=progress2"@) <==> !dry_run,
        args::base_flags(args, dry_run).contains("--out-format=%i|%n"@) <==> !dry_run,
        !dry_run ==> args::base_flags(args, dry_run).contains("-P"@),
{
    lemma_letters_of_fixed();
    let t = args::transfer_flags();
    assert(t[0] == "-P"@);
    assert(t[1] == "--partial"@);
    assert(t[2] == "--inplace"@);
    assert(t[3] == "--info=progress2"@);
    assert(t[4] == "--out-format=%i|%n"@);
    lemma_option_flag(args, dry_run, "--partial"@);
    lemma_option_flag(args, dry_run, "--inplace"@);
    lemma_option_flag(args, dry_run, "--info=progress2"@);
    lemma_option_flag(args, dry_run, "--out-format=%i|%n"@);
    lemma_among_kinds(args, dry_run, "-P"@);
}

/// The size limit is the given one, if there is one, whatever else is asked for; without one it is
/// ten megabytes, and none where large files or all files are asked for.
pub proof fn law_which_size_limit(args: Args, dry_run: bool)
    ensures
        ({
            let limits = beginning_with(args::base_flags(args, dry_run), "--max-size="@);
            &&& args.max_size matches Some(size) ==> limits == seq!["--max-size="@ + size@]
            &&& args.max_size is None && !args.large && !args.all ==> limits == seq![
                "--max-size=10m"@,
            ]
            &&& args.max_size is None && (args.large || args.all) ==> limits.len() == 0
        }),
{
    law_size_limit(args, dry_run);
}

/// Every run archives, compresses and leaves newer files alone, connects by ssh with the same
/// limits on silence, and asks for statistics; and nothing is asked for beyond what the options and
/// the kind of the run call for.
pub proof fn law_what_every_run_asks_for(args: Args, dry_run: bool)
    ensures
        ({
            let base = args::base_flags(args, dry_run);
            let start: int = if dry_run {
                1
            } else {
                6
            };
            &&& base[0] == "-avzu"@
            &&& base[start] == "-e"@
            &&& base[start + 1]
                == "ssh -o ConnectTimeout=10 -o ServerAliveInterval=15 -o ServerAliveCountMax=2"@
            &&& base[start + 2] == "--stats"@
            &&& base.len() == start + 3 + (if args.all {
                0int
            } else {
                21
            }) + (if args.gitignore {
                1int
            } else {
                0
            }) + (if args.max_size is None && (args.large || args.all) {
                0int
            } else {
                1
            }) + (if args.backup {
                2int
            } else {
                0
            }) + (if args.no_perms {
                1int
            } else {
                0
            })
        }),
{
    lemma_rsh();
    let f1 = args::flags_if(!dry_run, args::transfer_flags());
    lemma_front(
        seq!["-avzu"@],
        f1,
        args::connection_flags(),
        args::flags_if(!args.all, args::default_excludes()),
        args::flags_if(args.gitignore, seq!["--filter=:- .gitignore"@]),
        args::size_flags(args),
        args::flags_if(args.backup, seq!["--backup"@, "--backup-dir=.syncz-backups"@]),
        args::flags_if(args.no_perms, seq!["--no-perms"@]),
    );
}

proof fn lemma_front(
    head: Seq<Seq<char>>,
    progress: Seq<Seq<char>>,
    a: Seq<Seq<char>>,
    b: Seq<Seq<char>>,
    c: Seq<Seq<char>>,
    d: Seq<Seq<char>>,
    e: Seq<Seq<char>>,
    f: Seq<Seq<char>>,
)
    ensures
        ({
            let all = head + progress + a + b + c + d + e + f;
            &&& all.len() == head.len() + progress.len() + a.len() + b.len() + c.len() + d.len()
                + e.len() + f.len()
            &&& forall|i: int| 0 <= i < head.len() ==> #[trigger] all[i] == head[i]
            &&& forall|i: int|
                0 <= i < a.len() ==> all[head.len() + progress.len() + i] == #[trigger] a[i]
        }),
{
}

proof fn lemma_rsh()
    ensures
        args::connection_flags()[1]
            == "ssh -o ConnectTimeout=10 -o ServerAliveInterval=15 -o ServerAliveCountMax=2"@,
{
    let gap = " "@;
    let p = args::ssh_option_texts();
    let p1 = seq!["-o"@];
    let p2 = p1.push("ConnectTimeout=10"@);
    let p3 = p2.push("-o"@);
    let p4 = p3.push("ServerAliveInterval=15"@);
    let p5 = p4.push("-o"@);
    let p6 = p5.push("ServerAliveCountMax=2"@);
    assert(p =~= p6);
    text_laws::law_joining_one_part_more(Seq::<Seq<char>>::empty(), gap, "-o"@);
    assert(p1 =~= Seq::<Seq<char>>::empty().push("-o"@));
    text_laws::law_joining_one_part_more(p1, gap, "ConnectTimeout=10"@);
    text_laws::law_joining_one_part_more(p2, gap, "-o"@);
    text_laws::law_joining_one_part_more(p3, gap, "ServerAliveInterval=15"@);
    text_laws::law_joining_one_part_more(p4, gap, "-o"@);
    text_laws::law_joining_one_part_more(p5, gap, "ServerAliveCountMax=2"@);
    reveal_strlit("ssh ");
    reveal_strlit("-o");
    reveal_strlit(" ");
    reveal_strlit("ConnectTimeout=10");
    reveal_strlit("ServerAliveInterval=15");
    reveal_strlit("ServerAliveCountMax=2");
    reveal_strlit("ssh -o ConnectTimeout=10 -o ServerAliveInterval=15 -o ServerAliveCountMax=2");
    assert(args::connection_flags()[1]
        =~= "ssh -o ConnectTimeout=10 -o ServerAliveInterval=15 -o ServerAliveCountMax=2"@);
}

proof fn lemma_default_exclude(args: Args, dry_run: bool, x: Seq<char>)
    requires
        args::default_excludes().contains(x),
    ensures
        args::base_flags(args, dry_run).contains(x) <==> !args.all,
{
    lemma_among_kinds(args, dry_run, x);
    lemma_letters_of_fixed();
    lemma_letters_of_excludes();
    lemma_letters_of_limits(args);
    lemma_transfer_letters();
    assert(letter(x) == 'e');
    assert(seq!["-avzu"@][0] == "-avzu"@);
    let backup = seq!["--backup"@, "--backup-dir=.syncz-backups"@];
    assert(backup[0] == "--backup"@);
    assert(backup[1] == "--backup-dir=.syncz-backups"@);
}

proof fn lemma_every_default_exclude(args: Args, dry_run: bool)
    ensures
        forall|x: Seq<char>| #[trigger]
            args::default_excludes().contains(x) ==> (args::base_flags(args, dry_run).contains(x)
                <==> !args.all),
{
    assert forall|x: Seq<char>| #[trigger] args::default_excludes().contains(x) implies (
    args::base_flags(args, dry_run).contains(x) <==> !args.all) by {
        lemma_default_exclude(args, dry_run, x);
    }
}

proof fn lemma_listed_excludes()
    ensures
        args::default_excludes().contains("--exclude=*.o"@),
        args::default_excludes().contains("--exclude=*.obj"@),
        args::default_excludes().contains("--exclude=*.a"@),
        args::default_excludes().contains("--exclude=*.lib"@),
        args::default_excludes().contains("--exclude=*.so"@),
        args::default_excludes().contains("--exclude=*.dylib"@),
        args::default_excludes().contains("--exclude=*.dll"@),
        args::default_excludes().contains("--exclude=*.exe"@),
        args::default_excludes().contains("--exclude=__pycache__/"@),
        args::default_excludes().contains("--exclude=*.pyc"@),
        args::default_excludes().contains("--exclude=.git/"@),
        args::default_excludes().contains("--exclude=node_modules/"@),
        args::default_excludes().contains("--exclude=target/"@),
        args::default_excludes().contains("--exclude=.next/"@),
        args::default_excludes().contains("--exclude=dist/"@),
        args::default_excludes().contains("--exclude=build/"@),
        args::default_excludes().contains("--exclude=.terraform/"@),
        args::default_excludes().contains("--exclude=.DS_Store"@),
        args::default_excludes().contains("--exclude=Thumbs.db"@),
        args::default_excludes().contains("--exclude=*.swp"@),
        args::default_excludes().contains("--exclude=*~"@),
        args::default_excludes().len() == 21,
{
    let all = args::default_excludes();
    assert(all[0] == "--exclude=*.o"@);
    assert(all[1] == "--exclude=*.obj"@);
    assert(all[2] == "--exclude=*.a"@);
    assert(all[3] == "--exclude=*.lib"@);
    assert(all[4] == "--exclude=*.so"@);
    assert(all[5] == "--exclude=*.dylib"@);
    assert(all[6] == "--exclude=*.dll"@);
    assert(all[7] == "--exclude=*.exe"@);
    assert(all[8] == "--exclude=__pycache__/"@);
    assert(all[9] == "--exclude=*.pyc"@);
    assert(all[10] == "--exclude=.git/"@);
    assert(all[11] == "--exclude=node_modules/"@);
    assert(all[12] == "--exclude=target/"@);
    assert(all[13] == "--exclude=.next/"@);
    assert(all[14] == "--exclude=dist/"@);
    assert(all[15] == "--exclude=build/"@);
    assert(all[16] == "--exclude=.terraform/"@);
    assert(all[17] == "--exclude=.DS_Store"@);
    assert(all[18] == "--exclude=Thumbs.db"@);
    assert(all[19] == "--exclude=*.swp"@);
    assert(all[20] == "--exclude=*~"@);
}

/// Build products, caches and editor leftovers are left out of a run unless all files are asked for.
pub proof fn law_what_is_left_out(args: Args, dry_run: bool)
    ensures
        ({
            let base = args::base_flags(args, dry_run);
            &&& base.contains("--exclude=*.o"@) <==> !args.all
            &&& base.contains("--exclude=*.obj"@) <==> !args.all
            &&& base.contains("--exclude=*.a"@) <==> !args.all
            &&& base.contains("--exclude=*.lib"@) <==> !args.all
            &&& base.contains("--exclude=*.so"@) <==> !args.all
            &&& base.contains("--exclude=*.dylib"@) <==> !args.all
            &&& base.contains("--exclude=*.dll"@) <==> !args.all
            &&& base.contains("--exclude=*.exe"@) <==> !args.all
            &&& base.contains("--exclude=__pycache__/"@) <==> !args.all
            &&& base.contains("--exclude=*.pyc"@) <==> !args.all
            &&& base.contains("--exclude=.git/"@) <==> !args.all
            &&& base.contains("--exclude=node_modules/"@) <==> !args.all
            &&& base.contains("--exclude=target/"@) <==> !args.all
            &&& base.contains("--exclude=.next/"@) <==> !args.all
            &&& base.contains("--exclude=dist/"@) <==> !args.all
            &&& base.contains("--exclude=build/"@) <==> !args.all
            &&& base.contains("--exclude=.terraform/"@) <==> !args.all
            &&& base.contains("--exclude=.DS_Store"@) <==> !args.all
            &&& base.contains("--exclude=Thumbs.db"@) <==> !args.all
            &&& base.contains("--exclude=*.swp"@) <==> !args.all
            &&& base.contains("--exclude=*~"@) <==> !args.all
            &&& beginning_with(base, "--exclude="@).len() == if args.all {
                0nat
            } else {
                21nat
            }
        }),
{
    law_excludes(args, dry_run);
    lemma_listed_excludes();
    lemma_every_default_exclude(args, dry_run);
}

} // verus!
