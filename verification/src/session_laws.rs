//! What a push and a pull do from their beginning to their end.

use vstd::prelude::*;

use crate::args;
use crate::args::Args;
use crate::args_laws;
use crate::command;
use crate::command_laws;
use crate::error::{Failure, SyncError, Task};
use crate::lossy;
use crate::path;
use crate::path_laws;
use crate::session;
use crate::session::{Action, ActionText, Event, Request, Stage};
use crate::shell;
use crate::text;
use crate::text_laws;
use crate::tree;

verus! {

/// How the host is connected to, by ssh.
pub open spec fn connection(host: Seq<char>) -> Seq<Seq<char>> {
    seq![
        "-o"@,
        "ConnectTimeout=10"@,
        "-o"@,
        "ServerAliveInterval=15"@,
        "-o"@,
        "ServerAliveCountMax=2"@,
        host,
    ]
}

/// Whenever a remote directory is created, at whatever stage and whatever was found out before, it
/// is the one that holds the remote path: for a path of some names, the path without the last of
/// them, as the remote shell reads it. A path that lies in no directory is created itself.
pub proof fn law_remote_dir_holds_remote_path(
    request: Request,
    args: Args,
    stage: Stage,
    event: Event,
    home: Seq<char>,
    rooted: bool,
    names: Seq<Seq<char>>,
)
    requires
        session::next_step(request, args, stage, event).1 is Run,
        session::next_step(request, args, stage, event).1->task is CreateRemoteDir,
    ensures
        ({
            let command = session::next_step(request, args, stage, event).1->Run_command;
            let remote = request.remote_path@;
            let dir = match path::parent_len(remote) {
                Some(n) => remote.take(n),
                None => remote,
            };
            let word = shell::remote_word(dir);
            &&& command.program == "ssh"@
            &&& command.args == connection(request.host@) + seq!["mkdir -p "@ + word]
            &&& shell::shell_word(word, home) == Some(shell::home_filled_in(dir, home))
            &&& path_laws::all_names(names) && names.len() > 0 && remote == path_laws::path_of(
                rooted,
                names,
            ) ==> dir == path_laws::path_of(rooted, names.drop_last())
        }),
{
    let remote = request.remote_path@;
    let dir = request.remote_dir();
    command_laws::law_host_is_asked_about_the_path(request.host@, dir, home);
    if path_laws::all_names(names) && names.len() > 0 && remote == path_laws::path_of(
        rooted,
        names,
    ) {
        path_laws::law_parent_drops_the_last_name(rooted, names);
    }
}

/// A path below the remote home directory has its directory created there: the names without the
/// last one, below what the remote shell knows as home.
pub proof fn law_remote_dir_below_home(
    request: Request,
    args: Args,
    is_file: bool,
    home: Seq<char>,
    names: Seq<Seq<char>>,
)
    requires
        !request.pulling,
        path_laws::all_names(names),
        names.len() > 0,
        request.remote_path@ == path_laws::path_of(false, seq![seq!['~']] + names),
    ensures
        ({
            let action = session::next_step(
                request,
                args,
                Stage::CheckingLocal,
                Event::LocalIsFile(is_file),
            ).1;
            let dir = path_laws::path_of(false, seq![seq!['~']] + names.drop_last());
            &&& action matches ActionText::Run { task, command } && task is CreateRemoteDir
                && command.args == connection(request.host@) + seq![
                "mkdir -p "@ + shell::remote_word(dir),
            ]
            &&& names.len() == 1 ==> shell::shell_word(shell::remote_word(dir), home) == Some(home)
            &&& names.len() > 1 ==> shell::shell_word(shell::remote_word(dir), home) == Some(
                home + seq!['/'] + path_laws::path_of(false, names.drop_last()),
            )
        }),
{
    let tilde = seq![seq!['~']];
    let all = tilde + names;
    assert forall|i: int| 0 <= i < all.len() implies path_laws::is_name(#[trigger] all[i]) by {
        if i > 0 {
            assert(path_laws::is_name(names[i - 1]));
        } else {
            assert(seq!['~'][0] != seq!['.'][0]);
        }
    }
    law_remote_dir_holds_remote_path(
        request,
        args,
        Stage::CheckingLocal,
        Event::LocalIsFile(is_file),
        home,
        false,
        all,
    );
    let left = names.drop_last();
    let dir = path_laws::path_of(false, tilde + left);
    assert(all.drop_last() =~= tilde + left);
    shell::law_remote_paths_reach_their_place(dir, text::joined(left, seq!['/']), home);
    if left.len() == 0 {
        assert(tilde + left =~= tilde);
        assert(dir =~= seq!['~']);
    } else {
        text_laws::lemma_joined_front(tilde + left, seq!['/']);
        assert((tilde + left).skip(1) =~= left);
        assert(dir =~= seq!['~', '/'] + text::joined(left, seq!['/']));
        assert(path_laws::path_of(false, left) =~= text::joined(left, seq!['/']));
    }
}

/// The step that syncs runs rsync between the two paths: source and destination stand last, a
/// directory is meant by a slash behind its path, a push goes to the host and a pull comes from it.
/// A dry run lists, and does so as a preview; what is announced is the context, unless it is empty.
pub proof fn law_sync_goes_between_the_paths(request: Request, args: Args, is_file: bool)
    ensures
        ({
            let (stage, action) = session::sync_step(request, args, is_file);
            let slash = if is_file {
                Seq::<char>::empty()
            } else {
                seq!['/']
            };
            let here = lossy::lossy_text(request.local_path@) + slash;
            let there = request.host@ + seq![':'] + request.remote_path@ + slash;
            let announce = if request.context@.len() == 0 {
                None
            } else {
                Some(request.context@)
            };
            let run = if args.dry_run {
                action->Preview_command
            } else {
                action->Transfer_command
            };
            let n = run.args.len() as int;
            &&& args.dry_run ==> stage is Previewing && action is Preview && action->Preview_announce
                == announce && run.args.contains("--dry-run"@)
            &&& !args.dry_run ==> stage is Ended && action is Transfer && action->Transfer_announce
                == announce
            &&& run.program == "rsync"@
            &&& n >= 3
            &&& request.pulling ==> run.args[n - 2] == there && run.args[n - 1] == here
            &&& !request.pulling ==> run.args[n - 2] == here && run.args[n - 1] == there
            &&& run.args.contains("--itemize-changes"@)
        }),
{
    let ends = request.ends(is_file);
    let local = lossy::lossy_text(request.local_path@);
    command_laws::law_endpoints(request.host@, local, request.remote_path@);
    let none = Seq::<char>::empty();
    assert(local + none =~= local);
    assert(request.host@ + seq![':'] + request.remote_path@ + none =~= request.host@ + seq![':']
        + request.remote_path@);
    args_laws::law_transfer_itemizes_once(args, ends);
    let dry = command::dry_run_text(args, ends).args;
    let base = args::base_flags(args, true);
    assert(dry[base.len() as int] == "--dry-run"@);
    assert(dry[base.len() as int + 1] == "--itemize-changes"@);
    let wet = command::transfer_text(args, ends).args;
    let flags = args::base_flags(args, false);
    assert(wet[flags.len() as int] == "--itemize-changes"@);
}

/// A push finds out whether the local path is a file, creates the remote directory, and syncs as it
/// found; where the directory cannot be created, it ends there.
pub proof fn law_course_of_a_push(request: Request, args: Args, is_file: bool)
    requires
        !request.pulling,
    ensures
        ({
            let asked = seq![Event::Begin];
            let found = asked.push(Event::LocalIsFile(is_file));
            &&& session::action_after(request, args, asked) is CheckLocal
            &&& session::action_after(request, args, found) is Run
            &&& session::action_after(request, args, found)->task is CreateRemoteDir
            &&& (
                session::stage_after(request, args, found.push(Event::Exited(true))),
                session::action_after(request, args, found.push(Event::Exited(true))),
            ) == session::sync_step(request, args, is_file)
            &&& session::action_after(request, args, found.push(Event::Exited(false)))
                == ActionText::Fail(Failure::RemoteDir(request.remote_dir()))
            &&& session::action_after(request, args, found.push(Event::NotStarted))
                == ActionText::Fail(Failure::NotStarted(Task::CreateRemoteDir))
            &&& request.remote_dir() == match path::parent_len(request.remote_path@) {
                Some(n) => request.remote_path@.take(n),
                None => request.remote_path@,
            }
        }),
{
    let none = Seq::<Event>::empty();
    let asked = seq![Event::Begin];
    let found = asked.push(Event::LocalIsFile(is_file));
    assert(asked.drop_last() =~= none);
    assert(found.drop_last() =~= asked);
    assert(session::stage_after(request, args, none) is Start);
    assert(session::stage_after(request, args, asked) is CheckingLocal);
    assert(session::stage_after(request, args, found) == Stage::CreatingRemoteDir { is_file });
    assert(found.push(Event::Exited(true)).drop_last() =~= found);
    assert(found.push(Event::Exited(false)).drop_last() =~= found);
    assert(found.push(Event::NotStarted).drop_last() =~= found);
}

/// A pull asks the host whether the remote path is a file, creates the local directory, and syncs a
/// file exactly if the host said that it is one; no answer counts as a directory. Where there is no
/// local directory, or it cannot be created, it ends there.
pub proof fn law_course_of_a_pull(request: Request, args: Args, answer: Event, home: Seq<char>)
    requires
        request.pulling,
        answer is Exited || answer is NotStarted,
    ensures
        ({
            let asked = seq![Event::Begin];
            let told = asked.push(answer);
            let dir = path::parent_len(request.local_path@);
            let probe = session::action_after(request, args, asked);
            let word = shell::remote_word(request.remote_path@);
            &&& probe is Run && probe->task is ProbeRemote
            &&& probe->Run_command.program == "ssh"@
            &&& probe->Run_command.args == connection(request.host@) + seq!["test -f "@ + word]
            &&& shell::shell_word(word, home) == Some(
                shell::home_filled_in(request.remote_path@, home),
            )
            &&& dir is None ==> session::action_after(request, args, told) == ActionText::Fail(
                Failure::NoLocalParent,
            )
            &&& dir is Some ==> {
                let path = request.local_path@.take(dir->0);
                &&& session::action_after(request, args, told) == ActionText::CreateDir(path)
                &&& (
                    session::stage_after(request, args, told.push(Event::DirCreated)),
                    session::action_after(request, args, told.push(Event::DirCreated)),
                ) == session::sync_step(request, args, answer == Event::Exited(true))
                &&& session::action_after(request, args, told.push(Event::DirFailed))
                    == ActionText::Fail(Failure::LocalDir(lossy::lossy_text(path)))
            }
        }),
{
    let none = Seq::<Event>::empty();
    let asked = seq![Event::Begin];
    let told = asked.push(answer);
    command_laws::law_host_is_asked_about_the_path(request.host@, request.remote_path@, home);
    assert(asked.drop_last() =~= none);
    assert(told.drop_last() =~= asked);
    assert(session::stage_after(request, args, none) is Start);
    assert(session::stage_after(request, args, asked) is ProbingRemote);
    assert(told.push(Event::DirCreated).drop_last() =~= told);
    assert(told.push(Event::DirFailed).drop_last() =~= told);
    if path::parent_len(request.local_path@) is Some {
        assert(session::stage_after(request, args, told) == Stage::CreatingLocalDir {
            is_file: answer == Event::Exited(true),
        });
    }
}

/// The local directory that a pull creates is the one that holds the local path: the path without
/// its last name.
pub proof fn law_local_dir_holds_local_path(
    request: Request,
    args: Args,
    stage: Stage,
    event: Event,
    names: Seq<Seq<u8>>,
)
    requires
        session::next_step(request, args, stage, event).1 is CreateDir,
        path_laws::all_names(names),
        request.local_path@ == path_laws::path_of(true, names),
    ensures
        names.len() > 0,
        session::next_step(request, args, stage, event).1 == ActionText::CreateDir(
            path_laws::path_of(true, names.drop_last()),
        ),
{
    if names.len() == 0 {
        assert(names =~= Seq::empty());
        path_laws::law_root_has_no_parent::<u8>();
    } else {
        path_laws::law_parent_drops_the_last_name(true, names);
    }
}

/// Whether the event at `i` ended the test of the remote path.
pub open spec fn ends_probe(request: Request, args: Args, events: Seq<Event>, i: int) -> bool {
    &&& 0 <= i < events.len()
    &&& session::stage_after(request, args, events.take(i)) is ProbingRemote
    &&& !(session::stage_after(request, args, events.take(i + 1)) is ProbingRemote)
}

proof fn lemma_probe_history(request: Request, args: Args, events: Seq<Event>)
    requires
        request.pulling,
    ensures
        session::stage_after(request, args, events) matches Stage::CreatingLocalDir { is_file }
            ==> exists|i: int| #[trigger]
            ends_probe(request, args, events, i) && (is_file <==> events[i] == Event::Exited(true)),
    decreases events.len(),
{
    if events.len() > 0 {
        let before = events.drop_last();
        lemma_probe_history(request, args, before);
        let n = before.len() as int;
        assert(events.take(n) =~= before);
        assert(events.take(n + 1) =~= events);
        match session::stage_after(request, args, events) {
            Stage::CreatingLocalDir { is_file } => {
                match session::stage_after(request, args, before) {
                    Stage::CreatingLocalDir { is_file: f } => {
                        let i = choose|i: int| #[trigger]
                            ends_probe(request, args, before, i) && (f <==> before[i]
                                == Event::Exited(true));
                        assert(before.take(i) =~= events.take(i));
                        assert(before.take(i + 1) =~= events.take(i + 1));
                        assert(ends_probe(request, args, events, i));
                    },
                    _ => {
                        assert(session::stage_after(request, args, before) is ProbingRemote);
                        assert(ends_probe(request, args, events, n));
                    },
                }
            },
            _ => {},
        }
    }
}

/// Whatever happens, a pull that transfers or previews does so after the local directory was
/// created, and as for a file exactly if the test of the remote path ended with success.
pub proof fn law_pull_goes_by_the_probe(request: Request, args: Args, events: Seq<Event>)
    requires
        request.pulling,
        events.len() > 0,
        session::action_after(request, args, events) is Transfer || session::action_after(
            request,
            args,
            events,
        ) is Preview,
    ensures
        events.last() == Event::DirCreated,
        exists|i: int| #[trigger]
            ends_probe(request, args, events, i) && (
                session::stage_after(request, args, events),
                session::action_after(request, args, events),
            ) == session::sync_step(request, args, events[i] == Event::Exited(true)),
{
    let before = events.drop_last();
    session::law_pull_needs_local_dir(request, args, events);
    lemma_pull_stages(request, args, before);
    lemma_probe_history(request, args, before);
    let is_file = session::stage_after(request, args, before)->CreatingLocalDir_is_file;
    let i = choose|i: int| #[trigger]
        ends_probe(request, args, before, i) && (is_file <==> before[i] == Event::Exited(true));
    assert(before.take(i) =~= events.take(i));
    assert(before.take(i + 1) =~= events.take(i + 1));
    assert(ends_probe(request, args, events, i));
    assert(events[i] == before[i]);
}

proof fn lemma_pull_stages(request: Request, args: Args, events: Seq<Event>)
    requires
        request.pulling,
    ensures
        !(session::stage_after(request, args, events) is CheckingLocal),
        !(session::stage_after(request, args, events) is CreatingRemoteDir),
    decreases events.len(),
{
    if events.len() > 0 {
        lemma_pull_stages(request, args, events.drop_last());
    }
}

/// A preview that succeeds shows the drawing of what it printed and, below it, the line on the
/// transferred size if there is one; one that fails, or cannot run, ends the sync.
pub proof fn law_what_a_preview_shows(
    request: Request,
    args: Args,
    stdout: Vec<u8>,
    stderr: Vec<u8>,
)
    ensures
        ({
            let done = Event::Output { success: true, stdout, stderr };
            let failed = Event::Output { success: false, stdout, stderr };
            let shown = session::next_step(request, args, Stage::Previewing, done).1;
            let size = command::transferred_text(lossy::lossy_text(stderr@));
            &&& shown is Show
            &&& size is None ==> shown->Show_0 == seq![
                tree::tree_text(lossy::lossy_text(stdout@)),
            ]
            &&& size matches Some(line) ==> shown->Show_0 == seq![
                tree::tree_text(lossy::lossy_text(stdout@)),
                line,
            ]
            &&& session::next_step(request, args, Stage::Previewing, failed).1 == ActionText::Fail(
                Failure::DryRunFailed,
            )
            &&& session::next_step(request, args, Stage::Previewing, Event::NotStarted).1
                == ActionText::Fail(Failure::NotStarted(Task::DryRun))
        }),
{
    let done = Event::Output { success: true, stdout, stderr };
    let shown = session::next_step(request, args, Stage::Previewing, done).1->Show_0;
    let drawing = tree::tree_text(lossy::lossy_text(stdout@));
    match command::transferred_text(lossy::lossy_text(stderr@)) {
        Some(line) => {
            assert(shown =~= seq![drawing, line]);
        },
        None => {
            assert(shown =~= seq![drawing]);
        },
    }
}

/// Every failure has its message, and one about a directory names it.
pub proof fn law_messages(dir: Seq<char>)
    ensures
        Failure::NoHomeDir.text() == "unable to resolve home dir"@,
        Failure::NoHosts.text() == "no hosts found in ~/.ssh/config and no host provided"@,
        Failure::NotStarted(Task::ProbeRemote).text() == "failed to run ssh test -f"@,
        Failure::NotStarted(Task::CreateRemoteDir).text() == "failed to run ssh mkdir -p"@,
        Failure::NotStarted(Task::DryRun).text() == "failed to run rsync --dry-run"@,
        Failure::RemoteDir(dir).text() == "failed to create remote directory "@ + dir,
        Failure::NoLocalParent.text() == "unable to resolve local parent"@,
        Failure::LocalDir(dir).text() == "failed to create "@ + dir,
        Failure::DryRunFailed.text() == "rsync dry run failed"@,
        Failure::TransferFailed.text() == "rsync failed"@,
{
}

/// A command is seen with its program and all its arguments, and an error with what it names.
pub proof fn law_commands_and_errors_are_seen_whole(run: command::Command, name: String, task: Task)
    ensures
        run@.program == run.program@,
        run@.args.len() == run.args@.len(),
        forall|i: int| 0 <= i < run.args@.len() ==> #[trigger] run@.args[i] == run.args@[i]@,
        SyncError::NoHomeDir@ == Failure::NoHomeDir,
        SyncError::NoHosts@ == Failure::NoHosts,
        SyncError::NotStarted(task)@ == Failure::NotStarted(task),
        SyncError::RemoteDir(name)@ == Failure::RemoteDir(name@),
        SyncError::NoLocalParent@ == Failure::NoLocalParent,
        SyncError::LocalDir(name)@ == Failure::LocalDir(name@),
        SyncError::DryRunFailed@ == Failure::DryRunFailed,
        SyncError::TransferFailed@ == Failure::TransferFailed,
{
}

/// An action is seen with all that it holds.
pub proof fn law_actions_are_seen_whole(
    task: Task,
    run: command::Command,
    dir: Vec<u8>,
    announce: String,
    lines: Vec<String>,
    error: SyncError,
)
    ensures
        Action::CheckLocal@ is CheckLocal,
        (Action::Run { task, command: run })@ == (ActionText::Run { task, command: run@ }),
        Action::CreateDir(dir)@ == ActionText::CreateDir(dir@),
        (Action::Preview { announce: Some(announce), command: run })@ == (ActionText::Preview {
            announce: Some(announce@),
            command: run@,
        }),
        (Action::Preview { announce: None, command: run })@ == (ActionText::Preview {
            announce: None,
            command: run@,
        }),
        (Action::Transfer { announce: Some(announce), command: run })@ == (ActionText::Transfer {
            announce: Some(announce@),
            command: run@,
        }),
        (Action::Transfer { announce: None, command: run })@ == (ActionText::Transfer {
            announce: None,
            command: run@,
        }),
        Action::Show(lines)@ == ActionText::Show(text::texts(lines@)),
        Action::Fail(error)@ == ActionText::Fail(error@),
        Action::Ignore@ is Ignore,
{
}

} // verus!
