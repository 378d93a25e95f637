//! One sync in one direction, step by step: what is done next after what has happened.

use vstd::prelude::*;

use crate::args::Args;
use crate::command;
use crate::command::{Command, CommandText};
use crate::error::{Failure, SyncError, Task};
use crate::lossy;
use crate::path;
use crate::text;

verus! {

/// What to sync.
#[derive(Debug)]
pub struct Request {
    /// The host.
    pub host: String,
    /// The path on this side.
    pub local_path: Vec<u8>,
    /// The path on the host.
    pub remote_path: String,
    /// Whether the host's side is fetched, and not this side sent.
    pub pulling: bool,
    /// What is shown before the sync, unless it is empty.
    pub context: String,
}

/// How far a sync has come.
#[derive(Clone, Copy, Debug, PartialEq, Eq, Structural)]
pub enum Stage {
    /// Nothing has been done.
    Start,
    /// It is being tested whether the local path is a file.
    CheckingLocal,
    /// The remote directory is being created.
    CreatingRemoteDir { is_file: bool },
    /// It is being tested whether the remote path is a file.
    ProbingRemote,
    /// The local directory is being created.
    CreatingLocalDir { is_file: bool },
    /// The dry run is under way.
    Previewing,
    /// There is nothing left to decide.
    Ended,
}

/// What has happened.
#[derive(Debug)]
pub enum Event {
    /// The sync begins.
    Begin,
    /// The local path was tested.
    LocalIsFile(bool),
    /// A command ran to its end, with success or without.
    Exited(bool),
    /// A command could not be started.
    NotStarted,
    /// The local directory stands.
    DirCreated,
    /// The local directory could not be created.
    DirFailed,
    /// A command whose output is read ran to its end.
    Output { success: bool, stdout: Vec<u8>, stderr: Vec<u8> },
}

/// What to do next.
#[derive(Debug)]
pub enum Action {
    /// Test whether the local path is a file.
    CheckLocal,
    /// Run a command to its end.
    Run { task: Task, command: Command },
    /// Create a local directory, with those that it lies in.
    CreateDir(Vec<u8>),
    /// Show what is announced, and run a command to read its output.
    Preview { announce: Option<String>, command: Command },
    /// Show what is announced, and run the transfer.
    Transfer { announce: Option<String>, command: Command },
    /// Show some lines; the sync is done.
    Show(Vec<String>),
    /// Give up.
    Fail(SyncError),
    /// Go on waiting: the event does not belong here.
    Ignore,
}

/// What to do next, with all names as text.
pub enum ActionText {
    CheckLocal,
    Run { task: Task, command: CommandText },
    CreateDir(Seq<u8>),
    Preview { announce: Option<Seq<char>>, command: CommandText },
    Transfer { announce: Option<Seq<char>>, command: CommandText },
    Show(Seq<Seq<char>>),
    Fail(Failure),
    Ignore,
}

/// The text of a string, if there is one.
pub open spec fn text_in(s: Option<String>) -> Option<Seq<char>> {
    match s {
        Some(t) => Some(t@),
        None => None,
    }
}

impl View for Action {
    type V = ActionText;

    open spec fn view(&self) -> ActionText {
        match self {
            Action::CheckLocal => ActionText::CheckLocal,
            Action::Run { task, command } => ActionText::Run { task: *task, command: command@ },
            Action::CreateDir(dir) => ActionText::CreateDir(dir@),
            Action::Preview { announce, command } => ActionText::Preview {
                announce: text_in(*announce),
                command: command@,
            },
            Action::Transfer { announce, command } => ActionText::Transfer {
                announce: text_in(*announce),
                command: command@,
            },
            Action::Show(lines) => ActionText::Show(text::texts(lines@)),
            Action::Fail(error) => ActionText::Fail(error@),
            Action::Ignore => ActionText::Ignore,
        }
    }
}

impl Request {
    /// What is announced.
    pub open spec fn announcement(&self) -> Option<Seq<char>> {
        if self.context@.len() == 0 {
            None
        } else {
            Some(self.context@)
        }
    }

    /// The remote directory that is created before a push.
    pub open spec fn remote_dir(&self) -> Seq<char> {
        match path::parent_len(self.remote_path@) {
            Some(n) => self.remote_path@.take(n),
            None => self.remote_path@,
        }
    }

    /// Source and destination.
    pub open spec fn ends(&self, is_file: bool) -> (Seq<char>, Seq<char>) {
        command::endpoint_texts(
            self.host@,
            lossy::lossy_text(self.local_path@),
            self.remote_path@,
            is_file,
            self.pulling,
        )
    }
}

/// The step that syncs, or shows what a sync would do.
pub open spec fn sync_step(request: Request, args: Args, is_file: bool) -> (Stage, ActionText) {
    if args.dry_run {
        (
            Stage::Previewing,
            ActionText::Preview {
                announce: request.announcement(),
                command: command::dry_run_text(args, request.ends(is_file)),
            },
        )
    } else {
        (
            Stage::Ended,
            ActionText::Transfer {
                announce: request.announcement(),
                command: command::transfer_text(args, request.ends(is_file)),
            },
        )
    }
}

/// The step that creates the local directory.
pub open spec fn local_dir_step(request: Request, is_file: bool) -> (Stage, ActionText) {
    match path::parent_len(request.local_path@) {
        Some(n) => (
            Stage::CreatingLocalDir { is_file },
            ActionText::CreateDir(request.local_path@.take(n)),
        ),
        None => (Stage::Ended, ActionText::Fail(Failure::NoLocalParent)),
    }
}

/// What a dry run shows: the tree of changes, and how much would be transferred.
pub open spec fn preview_lines(output: Seq<char>, stats: Seq<char>) -> Seq<Seq<char>> {
    seq![crate::tree::tree_text(output)] + (match command::transferred_text(stats) {
        Some(line) => seq![line],
        None => Seq::empty(),
    })
}

/// The step after `event` at `stage`. A push tests the local path, creates the remote directory
/// and syncs; a pull tests the remote path, where a test that cannot be run counts as a directory,
/// creates the local directory and syncs.
pub open spec fn next_step(
    request: Request,
    args: Args,
    stage: Stage,
    event: Event,
) -> (Stage, ActionText) {
    match (stage, event) {
        (Stage::Start, Event::Begin) => if request.pulling {
            (
                Stage::ProbingRemote,
                ActionText::Run {
                    task: Task::ProbeRemote,
                    command: command::probe_text(request.host@, request.remote_path@),
                },
            )
        } else {
            (Stage::CheckingLocal, ActionText::CheckLocal)
        },
        (Stage::CheckingLocal, Event::LocalIsFile(is_file)) => (
            Stage::CreatingRemoteDir { is_file },
            ActionText::Run {
                task: Task::CreateRemoteDir,
                command: command::create_dir_text(request.host@, request.remote_dir()),
            },
        ),
        (Stage::CreatingRemoteDir { is_file }, Event::Exited(success)) => if success {
            sync_step(request, args, is_file)
        } else {
            (Stage::Ended, ActionText::Fail(Failure::RemoteDir(request.remote_dir())))
        },
        (Stage::CreatingRemoteDir { is_file }, Event::NotStarted) => (
            Stage::Ended,
            ActionText::Fail(Failure::NotStarted(Task::CreateRemoteDir)),
        ),
        (Stage::ProbingRemote, Event::Exited(success)) => local_dir_step(request, success),
        (Stage::ProbingRemote, Event::NotStarted) => local_dir_step(request, false),
        (Stage::CreatingLocalDir { is_file }, Event::DirCreated) => sync_step(
            request,
            args,
            is_file,
        ),
        (Stage::CreatingLocalDir { is_file }, Event::DirFailed) => (
            Stage::Ended,
            match path::parent_len(request.local_path@) {
                Some(n) => ActionText::Fail(
                    Failure::LocalDir(lossy::lossy_text(request.local_path@.take(n))),
                ),
                None => ActionText::Fail(Failure::NoLocalParent),
            },
        ),
        (Stage::Previewing, Event::Output { success, stdout, stderr }) => if success {
            (
                Stage::Ended,
                ActionText::Show(
                    preview_lines(lossy::lossy_text(stdout@), lossy::lossy_text(stderr@)),
                ),
            )
        } else {
            (Stage::Ended, ActionText::Fail(Failure::DryRunFailed))
        },
        (Stage::Previewing, Event::NotStarted) => (
            Stage::Ended,
            ActionText::Fail(Failure::NotStarted(Task::DryRun)),
        ),
        _ => (stage, ActionText::Ignore),
    }
}

fn announce(request: &Request) -> (r: Option<String>)
    ensures
        text_in(r) == request.announcement(),
{
    if request.context.as_str().is_empty() {
        None
    } else {
        Some(request.context.clone())
    }
}

fn sync(request: &Request, args: &Args, is_file: bool) -> (r: (Stage, Action))
    ensures
        (r.0, r.1@) == sync_step(*request, *args, is_file),
        lossy::faithful(request.local_path@),
{
    let ends = command::sync_endpoints(
        request.host.as_str(),
        request.local_path.as_slice(),
        request.remote_path.as_str(),
        is_file,
        request.pulling,
    );
    let announce = announce(request);
    if args.dry_run {
        let command = command::dry_run_command(args, &ends);
        (Stage::Previewing, Action::Preview { announce, command })
    } else {
        let command = command::transfer_command(args, &ends);
        (Stage::Ended, Action::Transfer { announce, command })
    }
}

fn create_local_dir(request: &Request, is_file: bool) -> (r: (Stage, Action))
    ensures
        (r.0, r.1@) == local_dir_step(*request, is_file),
{
    match path::local_parent(request.local_path.as_slice()) {
        Some(dir) => (Stage::CreatingLocalDir { is_file }, Action::CreateDir(dir)),
        None => (Stage::Ended, Action::Fail(SyncError::NoLocalParent)),
    }
}

fn show_preview(success: bool, stdout: &[u8], stderr: &[u8]) -> (r: Action)
    ensures
        r@ == (if success {
            ActionText::Show(
                preview_lines(lossy::lossy_text(stdout@), lossy::lossy_text(stderr@)),
            )
        } else {
            ActionText::Fail(Failure::DryRunFailed)
        }),
        success ==> lossy::faithful(stdout@) && lossy::faithful(stderr@),
{
    match command::read_dry_run(success, stdout, stderr) {
        Ok(summary) => {
            let mut lines: Vec<String> = Vec::new();
            text::push_text(&mut lines, summary.tree.as_str());
            if let Some(line) = &summary.transferred_line {
                text::push_text(&mut lines, line.as_str());
            }
            assert(text::texts(lines@) =~= preview_lines(
                lossy::lossy_text(stdout@),
                lossy::lossy_text(stderr@),
            ));
            Action::Show(lines)
        },
        Err(error) => Action::Fail(error),
    }
}

/// Decides what to do after `event` at `stage`.
pub fn step(request: &Request, args: &Args, stage: Stage, event: &Event) -> (r: (Stage, Action))
    ensures
        (r.0, r.1@) == next_step(*request, *args, stage, *event),
        r.1 is Preview || r.1 is Transfer ==> lossy::faithful(request.local_path@),
        r.1 is Show ==> event is Output && lossy::faithful(event->stdout@) && lossy::faithful(
            event->stderr@,
        ),
        r.1@ matches ActionText::Fail(Failure::LocalDir(_)) ==> (path::parent_len(
            request.local_path@,
        ) matches Some(n) && lossy::faithful(request.local_path@.take(n))),
{
    match (stage, event) {
        (Stage::Start, Event::Begin) => {
            if request.pulling {
                let command = command::remote_is_file_command(
                    request.host.as_str(),
                    request.remote_path.as_str(),
                );
                (Stage::ProbingRemote, Action::Run { task: Task::ProbeRemote, command })
            } else {
                (Stage::CheckingLocal, Action::CheckLocal)
            }
        },
        (Stage::CheckingLocal, Event::LocalIsFile(is_file)) => {
            let dir = path::parent_of_remote(request.remote_path.as_str());
            let command = command::ensure_remote_parent_command(
                request.host.as_str(),
                dir.as_str(),
            );
            (
                Stage::CreatingRemoteDir { is_file: *is_file },
                Action::Run { task: Task::CreateRemoteDir, command },
            )
        },
        (Stage::CreatingRemoteDir { is_file }, Event::Exited(success)) => {
            let dir = path::parent_of_remote(request.remote_path.as_str());
            match command::ensure_remote_parent(*success, dir.as_str()) {
                Ok(()) => sync(request, args, is_file),
                Err(error) => (Stage::Ended, Action::Fail(error)),
            }
        },
        (Stage::CreatingRemoteDir { is_file }, Event::NotStarted) => {
            (Stage::Ended, Action::Fail(SyncError::NotStarted(Task::CreateRemoteDir)))
        },
        (Stage::ProbingRemote, Event::Exited(success)) => create_local_dir(request, *success),
        (Stage::ProbingRemote, Event::NotStarted) => create_local_dir(request, false),
        (Stage::CreatingLocalDir { is_file }, Event::DirCreated) => sync(request, args, is_file),
        (Stage::CreatingLocalDir { is_file }, Event::DirFailed) => {
            match path::local_parent(request.local_path.as_slice()) {
                Some(dir) => {
                    let name = lossy::read_lossy(dir.as_slice());
                    (Stage::Ended, Action::Fail(SyncError::LocalDir(name)))
                },
                None => (Stage::Ended, Action::Fail(SyncError::NoLocalParent)),
            }
        },
        (Stage::Previewing, Event::Output { success, stdout, stderr }) => {
            (Stage::Ended, show_preview(*success, stdout.as_slice(), stderr.as_slice()))
        },
        (Stage::Previewing, Event::NotStarted) => {
            (Stage::Ended, Action::Fail(SyncError::NotStarted(Task::DryRun)))
        },
        _ => (stage, Action::Ignore),
    }
}

/// The stage after a row of events.
pub open spec fn stage_after(request: Request, args: Args, events: Seq<Event>) -> Stage
    decreases events.len(),
{
    if events.len() == 0 {
        Stage::Start
    } else {
        next_step(request, args, stage_after(request, args, events.drop_last()), events.last()).0
    }
}

/// The action after the last of a row of events.
pub open spec fn action_after(request: Request, args: Args, events: Seq<Event>) -> ActionText {
    next_step(request, args, stage_after(request, args, events.drop_last()), events.last()).1
}

/// Where a push stands tells what it has been through: once the remote directory is being created,
/// the local path has been tested, and a preview has seen that directory created.
proof fn lemma_push_history(request: Request, args: Args, events: Seq<Event>)
    requires
        !request.pulling,
    ensures
        match stage_after(request, args, events) {
            Stage::ProbingRemote => false,
            Stage::CreatingLocalDir { .. } => false,
            Stage::CreatingRemoteDir { is_file } => events.contains(Event::LocalIsFile(is_file)),
            Stage::Previewing => events.contains(Event::Exited(true)),
            _ => true,
        },
    decreases events.len(),
{
    if events.len() > 0 {
        let before = events.drop_last();
        lemma_push_history(request, args, before);
        lemma_contains_more(events);
    }
}

/// Where a pull stands tells what it has been through: a preview has seen the local directory
/// created.
proof fn lemma_pull_history(request: Request, args: Args, events: Seq<Event>)
    requires
        request.pulling,
    ensures
        match stage_after(request, args, events) {
            Stage::CheckingLocal => false,
            Stage::CreatingRemoteDir { .. } => false,
            Stage::Previewing => events.contains(Event::DirCreated),
            _ => true,
        },
    decreases events.len(),
{
    if events.len() > 0 {
        lemma_pull_history(request, args, events.drop_last());
        lemma_contains_more(events);
    }
}

proof fn lemma_contains_more(events: Seq<Event>)
    requires
        events.len() > 0,
    ensures
        events.contains(events.last()),
        forall|e: Event| #[trigger] events.drop_last().contains(e) ==> events.contains(e),
{
    assert(events[events.len() - 1] == events.last());
    assert forall|e: Event| #[trigger] events.drop_last().contains(e) implies events.contains(
        e,
    ) by {
        let i = choose|i: int| 0 <= i < events.drop_last().len() && events.drop_last()[i] == e;
        assert(events[i] == e);
    }
}

/// Whatever happens, a push transfers or previews only after the remote directory was created, and
/// treats the path as the file or directory that it was found to be.
pub proof fn law_push_needs_remote_dir(request: Request, args: Args, events: Seq<Event>)
    requires
        !request.pulling,
        events.len() > 0,
        action_after(request, args, events) is Transfer || action_after(request, args, events)
            is Preview,
    ensures
        events.last() == Event::Exited(true),
        exists|is_file: bool|
            events.contains(Event::LocalIsFile(is_file)) && (stage_after(
                request,
                args,
                events,
            ), action_after(request, args, events)) == #[trigger] sync_step(
                request,
                args,
                is_file,
            ),
{
    let before = events.drop_last();
    lemma_push_history(request, args, before);
    lemma_contains_more(events);
    let is_file = stage_after(request, args, before)->CreatingRemoteDir_is_file;
    assert(events.contains(Event::LocalIsFile(is_file)));
    assert((stage_after(request, args, events), action_after(request, args, events)) == sync_step(
        request,
        args,
        is_file,
    ));
}

/// Whatever happens, a pull transfers or previews only after the local directory was created.
pub proof fn law_pull_needs_local_dir(request: Request, args: Args, events: Seq<Event>)
    requires
        request.pulling,
        events.len() > 0,
        action_after(request, args, events) is Transfer || action_after(request, args, events)
            is Preview,
    ensures
        events.last() == Event::DirCreated,
{
    lemma_pull_history(request, args, events.drop_last());
}

/// A dry run never transfers anything, and a sync that is no dry run never stops at a preview.
pub proof fn law_dry_run_never_transfers(
    request: Request,
    args: Args,
    stage: Stage,
    event: Event,
)
    ensures
        args.dry_run ==> !(next_step(request, args, stage, event).1 is Transfer),
        !args.dry_run ==> !(next_step(request, args, stage, event).1 is Preview),
{
}

/// A remote path that cannot be tested is pulled like a directory.
pub proof fn law_failed_probe_means_directory(request: Request, args: Args)
    ensures
        next_step(request, args, Stage::ProbingRemote, Event::NotStarted) == next_step(
            request,
            args,
            Stage::ProbingRemote,
            Event::Exited(false),
        ),
{
}

/// How many steps a sync can still take from a stage on.
pub open spec fn steps_left(stage: Stage) -> nat {
    match stage {
        Stage::Start => 4,
        Stage::CheckingLocal => 3,
        Stage::ProbingRemote => 3,
        Stage::CreatingRemoteDir { .. } => 2,
        Stage::CreatingLocalDir { .. } => 2,
        Stage::Previewing => 1,
        Stage::Ended => 0,
    }
}

/// Each event either brings a sync nearer to its end or changes nothing, and what ends a sync is
/// that a transfer runs, that lines are shown, or that it fails. So a sync runs at most one transfer,
/// and nothing follows on it.
pub proof fn law_sync_comes_to_its_end(request: Request, args: Args, stage: Stage, event: Event)
    ensures
        ({
            let (next, action) = next_step(request, args, stage, event);
            &&& action is Ignore <==> next == stage
            &&& !(action is Ignore) ==> steps_left(next) < steps_left(stage)
            &&& action is Transfer || action is Show || action is Fail ==> next is Ended
            &&& next is Ended && !(stage is Ended) ==> action is Transfer || action is Show
                || action is Fail
        }),
{
}

/// One sync of a run.
#[derive(Debug)]
pub struct Leg {
    /// Whether the host's side is fetched, and not this side sent.
    pub pulling: bool,
    /// What is shown before it, unless it is empty.
    pub context: String,
}

/// Whether a leg has this direction and context.
pub open spec fn leg_is(leg: Leg, pulling: bool, context: Seq<char>) -> bool {
    leg.pulling == pulling && leg.context@ == context
}

/// Lists the syncs of a run: first the push, then the pull, each if it is asked for. Their
/// direction is shown where both are.
pub fn plan_legs(args: &Args) -> (r: Vec<Leg>)
    ensures
        args.pushes() && args.pulls() ==> r@.len() == 2 && leg_is(r@[0], false, "[Upstream]"@)
            && leg_is(r@[1], true, "[Downstream]"@),
        args.pushes() && !args.pulls() ==> r@.len() == 1 && leg_is(r@[0], false, Seq::empty()),
        !args.pushes() && args.pulls() ==> r@.len() == 1 && leg_is(r@[0], true, Seq::empty()),
        args.pushes() || args.pulls(),
{
    let mut legs: Vec<Leg> = Vec::new();
    if args.is_push() {
        let context = if args.is_pull() { "[Upstream]".to_string() } else { String::new() };
        legs.push(Leg { pulling: false, context });
    }
    if args.is_pull() {
        let context = if args.is_push() { "[Downstream]".to_string() } else { String::new() };
        legs.push(Leg { pulling: true, context });
    }
    legs
}

/// The sync that a watch repeats: a push.
pub fn watch_leg() -> (r: Leg)
    ensures
        leg_is(r, false, "[Watch]"@),
{
    Leg { pulling: false, context: "[Watch]".to_string() }
}

} // verus!
