use syncz::args::{base_rsync_args, ssh_options, Args};
use syncz::command::{
    dry_run_command, ensure_remote_parent, ensure_remote_parent_command, read_dry_run,
    remote_is_file_command, sync_endpoints, text_endpoints, transfer_command,
};
use syncz::session::{
    plan_legs, step, watch_leg, Action, Event, Request, Stage,
};
use syncz::shell::remote_shell_path;

fn no_options() -> Args {
    Args {
        path: None,
        host: None,
        push: false,
        pull: false,
        watch: false,
        all: false,
        large: false,
        gitignore: false,
        max_size: None,
        backup: false,
        dry_run: false,
        no_perms: false,
    }
}

fn request(pulling: bool, context: &str) -> Request {
    Request {
        host: "example".to_string(),
        local_path: b"/home/user/projects/app".to_vec(),
        remote_path: "~/projects/app".to_string(),
        pulling,
        context: context.to_string(),
    }
}

#[test]
fn args_default_to_bidirectional() {
    let args = Args {
        path: None,
        host: None,
        push: false,
        pull: false,
        watch: false,
        all: false,
        large: false,
        gitignore: false,
        max_size: None,
        backup: false,
        dry_run: false,
        no_perms: false,
    };
    assert!(args.is_push());
    assert!(args.is_pull());
}

#[test]
fn args_push_only() {
    let args = Args {
        path: None,
        host: None,
        push: true,
        pull: false,
        watch: false,
        all: false,
        large: false,
        gitignore: false,
        max_size: None,
        backup: false,
        dry_run: false,
        no_perms: false,
    };
    assert!(args.is_push());
    assert!(!args.is_pull());
}

#[test]
fn args_pull_only() {
    let args = Args {
        path: None,
        host: None,
        push: false,
        pull: true,
        watch: false,
        all: false,
        large: false,
        gitignore: false,
        max_size: None,
        backup: false,
        dry_run: false,
        no_perms: false,
    };
    assert!(!args.is_push());
    assert!(args.is_pull());
}

#[test]
fn test_base_rsync_args_logic() {
    let mut args = Args {
        path: None,
        host: None,
        push: false,
        pull: false,
        watch: false,
        all: false,
        large: false,
        gitignore: false,
        max_size: None,
        backup: false,
        dry_run: true,
        no_perms: false,
    };

    let rsync_args = base_rsync_args(&args, true);
    assert!(rsync_args.iter().any(|a| a == "--max-size=10m"));

    args.large = true;
    let rsync_args = base_rsync_args(&args, true);
    assert!(!rsync_args.iter().any(|a| a == "--max-size=10m"));

    args.all = true;
    let rsync_args = base_rsync_args(&args, true);
    assert!(!rsync_args.iter().any(|a| a == "--max-size=10m"));

    args.gitignore = true;
    let rsync_args = base_rsync_args(&args, true);
    assert!(rsync_args.iter().any(|a| a == "--filter=:- .gitignore"));

    args.backup = true;
    let rsync_args = base_rsync_args(&args, true);
    assert!(rsync_args.iter().any(|a| a == "--backup"));
    assert!(rsync_args.iter().any(|a| a == "--backup-dir=.syncz-backups"));
}

#[test]
fn remote_is_file_uses_ssh() {
    let host = "example";
    let remote = "~/projects/app/file.txt";
    let mut args = ssh_options();
    args.push(host.to_string());
    args.push(format!("test -f {}", remote_shell_path(remote)));

    let command = remote_is_file_command(host, remote);
    assert_eq!(command.program, "ssh");
    assert_eq!(command.args, args);

    let mut asked = request(true, "");
    asked.remote_path = remote.to_string();
    let options = no_options();
    let (stage, action) = step(&asked, &options, Stage::Start, &Event::Begin);
    assert!(matches!(action, Action::Run { command, .. } if command.args == args));
    let (stage, _) = step(&asked, &options, stage, &Event::Exited(true));
    assert_eq!(stage, Stage::CreatingLocalDir { is_file: true });
}

#[test]
fn ensure_remote_parent_creates_dir() {
    let host = "example";
    let remote_parent = "~/projects/app";
    let mut args = ssh_options();
    args.push(host.to_string());
    args.push(format!("mkdir -p {}", remote_shell_path(remote_parent)));

    let command = ensure_remote_parent_command(host, remote_parent);
    assert_eq!(command.program, "ssh");
    assert_eq!(command.args, args);

    ensure_remote_parent(true, remote_parent).expect("ensure_remote_parent");
}

#[test]
fn dry_run_parses_tree_and_stats() {
    let args = Args {
        path: None,
        host: Some("example".to_string()),
        push: false,
        pull: false,
        watch: false,
        all: false,
        large: false,
        gitignore: false,
        max_size: None,
        backup: false,
        dry_run: true,
        no_perms: false,
    };
    let local_path = b"/home/user/projects/app";
    let remote_path = "~/projects/app";
    let (src, dst) = sync_endpoints("example", local_path, remote_path, false, false);

    let mut cmd_args = base_rsync_args(&args, true);
    cmd_args.push("--dry-run".to_string());
    cmd_args.push("--itemize-changes".to_string());
    cmd_args.push("--out-format=%i|%n|%l".to_string());
    cmd_args.push(src.clone());
    cmd_args.push(dst.clone());

    let command = dry_run_command(&args, &(src, dst));
    assert_eq!(command.program, "rsync");
    assert_eq!(command.args, cmd_args);

    let stdout = b"f+++++++++|foo.txt|12\nd+++++++++|dir/|0\nf+++++++++|dir/bar.txt|24\n";
    let stderr = b"Total transferred file size: 36 bytes\n";
    let summary = read_dry_run(true, stdout, stderr).unwrap();
    assert!(summary.tree.contains("+-- foo.txt"));
    assert!(summary.tree.lines().any(|line| line.ends_with(" dir")));
    assert!(summary.tree.contains("+-- bar.txt"));
    assert_eq!(
        summary.transferred_line.as_deref(),
        Some("Total transferred file size: 36 bytes")
    );
}

#[test]
fn all_arguments_of_a_default_transfer() {
    let expected: Vec<String> = vec![
        "-avzu",
        "-P",
        "--partial",
        "--inplace",
        "--info=progress2",
        "--out-format=%i|%n",
        "-e",
        "ssh -o ConnectTimeout=10 -o ServerAliveInterval=15 -o ServerAliveCountMax=2",
        "--stats",
        "--exclude=*.o",
        "--exclude=*.obj",
        "--exclude=*.a",
        "--exclude=*.lib",
        "--exclude=*.so",
        "--exclude=*.dylib",
        "--exclude=*.dll",
        "--exclude=*.exe",
        "--exclude=__pycache__/",
        "--exclude=*.pyc",
        "--exclude=.git/",
        "--exclude=node_modules/",
        "--exclude=target/",
        "--exclude=.next/",
        "--exclude=dist/",
        "--exclude=build/",
        "--exclude=.terraform/",
        "--exclude=.DS_Store",
        "--exclude=Thumbs.db",
        "--exclude=*.swp",
        "--exclude=*~",
        "--max-size=10m",
    ]
    .into_iter()
    .map(|s| s.to_string())
    .collect();
    assert_eq!(base_rsync_args(&no_options(), false), expected);
}

#[test]
fn everything_with_own_limit() {
    let mut args = no_options();
    args.all = true;
    args.max_size = Some("1G".to_string());
    args.no_perms = true;
    assert_eq!(
        base_rsync_args(&args, true),
        vec![
            "-avzu",
            "-e",
            "ssh -o ConnectTimeout=10 -o ServerAliveInterval=15 -o ServerAliveCountMax=2",
            "--stats",
            "--max-size=1G",
            "--no-perms",
        ]
    );
}

#[test]
fn endpoints_of_files_and_directories() {
    assert_eq!(
        text_endpoints("h", "/a/b", "~/b", true, false),
        ("/a/b".to_string(), "h:~/b".to_string())
    );
    assert_eq!(
        text_endpoints("h", "/a/b", "~/b", false, false),
        ("/a/b/".to_string(), "h:~/b/".to_string())
    );
    assert_eq!(
        text_endpoints("h", "/a/b", "~/b", true, true),
        ("h:~/b".to_string(), "/a/b".to_string())
    );
    assert_eq!(
        text_endpoints("h", "/a/b", "~/b", false, true),
        ("h:~/b/".to_string(), "/a/b/".to_string())
    );
    assert_eq!(
        sync_endpoints("h", b"/a/\xff", "/a", true, false),
        ("/a/\u{fffd}".to_string(), "h:/a".to_string())
    );
}

#[test]
fn transfer_itemizes_changes_once() {
    let ends = ("a/".to_string(), "h:b/".to_string());
    let command = transfer_command(&no_options(), &ends);
    assert_eq!(command.program, "rsync");
    let n = command.args.len();
    assert_eq!(command.args[n - 3..], ["--itemize-changes", "a/", "h:b/"]);
    let count = command.args.iter().filter(|a| *a == "--itemize-changes").count();
    assert_eq!(count, 1);
}

#[test]
fn failed_dry_run_and_odd_bytes() {
    let error = read_dry_run(false, b"", b"").unwrap_err();
    assert_eq!(error.message(), "rsync dry run failed");
    let summary = read_dry_run(true, b"x|caf\xc3\xa9|1\nx|b\xffd|2\n", b"sent 1 bytes\n").unwrap();
    assert_eq!(summary.tree, "|-- b\u{fffd}d\n+-- caf\u{e9}");
    assert_eq!(summary.transferred_line, None);
}

#[test]
fn push_creates_remote_dir_and_transfers() {
    let request = request(false, "[Upstream]");
    let args = no_options();
    let (stage, action) = step(&request, &args, Stage::Start, &Event::Begin);
    assert_eq!(stage, Stage::CheckingLocal);
    assert!(matches!(action, Action::CheckLocal));
    let (stage, action) = step(&request, &args, stage, &Event::LocalIsFile(false));
    match action {
        Action::Run { command, .. } => {
            assert_eq!(command.args.last().unwrap(), "mkdir -p \"$HOME/projects\"");
        }
        _ => panic!("expected a command"),
    }
    let (stage, action) = step(&request, &args, stage, &Event::Exited(true));
    assert_eq!(stage, Stage::Ended);
    match action {
        Action::Transfer { announce, command } => {
            assert_eq!(announce.as_deref(), Some("[Upstream]"));
            let n = command.args.len();
            assert_eq!(
                command.args[n - 2..],
                ["/home/user/projects/app/", "example:~/projects/app/"]
            );
        }
        _ => panic!("expected a transfer"),
    }
}

#[test]
fn push_fails_without_remote_dir() {
    let request = request(false, "");
    let args = no_options();
    let stage = Stage::CreatingRemoteDir { is_file: true };
    let (ended, action) = step(&request, &args, stage, &Event::Exited(false));
    assert_eq!(ended, Stage::Ended);
    match action {
        Action::Fail(error) => {
            assert_eq!(error.message(), "failed to create remote directory ~/projects");
        }
        _ => panic!("expected a failure"),
    }
    match step(&request, &args, stage, &Event::NotStarted).1 {
        Action::Fail(error) => assert_eq!(error.message(), "failed to run ssh mkdir -p"),
        _ => panic!("expected a failure"),
    }
}

#[test]
fn pull_previews_a_dry_run() {
    let request = request(true, "");
    let mut args = no_options();
    args.dry_run = true;
    let (stage, action) = step(&request, &args, Stage::Start, &Event::Begin);
    assert!(matches!(action, Action::Run { .. }));
    let (stage, action) = step(&request, &args, stage, &Event::NotStarted);
    assert_eq!(stage, Stage::CreatingLocalDir { is_file: false });
    match action {
        Action::CreateDir(dir) => assert_eq!(dir, b"/home/user/projects"),
        _ => panic!("expected a directory"),
    }
    let (stage, action) = step(&request, &args, stage, &Event::DirCreated);
    assert_eq!(stage, Stage::Previewing);
    match action {
        Action::Preview { announce, command } => {
            assert_eq!(announce, None);
            assert!(command.args.iter().any(|a| a == "--dry-run"));
        }
        _ => panic!("expected a preview"),
    }
    let event = Event::Output {
        success: true,
        stdout: b"x|a/b|1\n".to_vec(),
        stderr: b"Total transferred file size: 1 bytes \r\n".to_vec(),
    };
    match step(&request, &args, stage, &event).1 {
        Action::Show(lines) => assert_eq!(
            lines,
            ["+-- a\n   +-- b", "Total transferred file size: 1 bytes"]
        ),
        _ => panic!("expected lines"),
    }
    match step(&request, &args, stage, &Event::NotStarted).1 {
        Action::Fail(error) => assert_eq!(error.message(), "failed to run rsync --dry-run"),
        _ => panic!("expected a failure"),
    }
    let event = Event::Output { success: false, stdout: vec![], stderr: vec![] };
    match step(&request, &args, stage, &event).1 {
        Action::Fail(error) => assert_eq!(error.message(), "rsync dry run failed"),
        _ => panic!("expected a failure"),
    }
}

#[test]
fn pull_needs_a_local_directory() {
    let mut request = request(true, "");
    let args = no_options();
    let stage = Stage::CreatingLocalDir { is_file: false };
    match step(&request, &args, stage, &Event::DirFailed).1 {
        Action::Fail(error) => assert_eq!(error.message(), "failed to create /home/user/projects"),
        _ => panic!("expected a failure"),
    }
    request.local_path = b"/".to_vec();
    match step(&request, &args, Stage::ProbingRemote, &Event::Exited(true)).1 {
        Action::Fail(error) => assert_eq!(error.message(), "unable to resolve local parent"),
        _ => panic!("expected a failure"),
    }
}

#[test]
fn events_out_of_place_are_ignored() {
    let request = request(true, "");
    let args = no_options();
    let (stage, action) = step(&request, &args, Stage::Start, &Event::DirCreated);
    assert_eq!(stage, Stage::Start);
    assert!(matches!(action, Action::Ignore));
    let (stage, action) = step(&request, &args, Stage::Ended, &Event::Begin);
    assert_eq!(stage, Stage::Ended);
    assert!(matches!(action, Action::Ignore));
}

#[test]
fn legs_of_a_run() {
    let mut args = no_options();
    let legs = plan_legs(&args);
    assert_eq!(legs.len(), 2);
    assert!(!legs[0].pulling && legs[0].context == "[Upstream]");
    assert!(legs[1].pulling && legs[1].context == "[Downstream]");
    args.push = true;
    let legs = plan_legs(&args);
    assert_eq!(legs.len(), 1);
    assert!(!legs[0].pulling && legs[0].context.is_empty());
    args.push = false;
    args.pull = true;
    let legs = plan_legs(&args);
    assert_eq!(legs.len(), 1);
    assert!(legs[0].pulling && legs[0].context.is_empty());
    let leg = watch_leg();
    assert!(!leg.pulling && leg.context == "[Watch]");
}

fn options_in_turn() -> Vec<Args> {
    let mut all = Vec::new();
    for bits in 0..64u32 {
        let mut args = no_options();
        args.all = bits & 1 != 0;
        args.large = bits & 2 != 0;
        args.gitignore = bits & 4 != 0;
        args.backup = bits & 8 != 0;
        args.no_perms = bits & 16 != 0;
        args.max_size = if bits & 32 != 0 { Some("1G".to_string()) } else { None };
        all.push(args);
    }
    all
}

#[test]
fn excludes_and_limits_follow_the_options() {
    for args in options_in_turn() {
        for dry_run in [false, true] {
            let flags = base_rsync_args(&args, dry_run);
            let excludes = flags.iter().filter(|f| f.starts_with("--exclude=")).count();
            assert_eq!(excludes, if args.all { 0 } else { 21 });
            let limits: Vec<&String> =
                flags.iter().filter(|f| f.starts_with("--max-size=")).collect();
            if args.max_size.is_some() {
                assert_eq!(limits, vec!["--max-size=1G"]);
            } else if args.all || args.large {
                assert!(limits.is_empty());
            } else {
                assert_eq!(limits, vec!["--max-size=10m"]);
            }
        }
    }
}

#[test]
fn dry_run_looks_at_same_files() {
    for args in options_in_turn() {
        let dry = base_rsync_args(&args, true);
        let live = base_rsync_args(&args, false);
        assert_eq!(live[0], dry[0]);
        assert_eq!(
            live[1..6],
            ["-P", "--partial", "--inplace", "--info=progress2", "--out-format=%i|%n"]
        );
        assert_eq!(live[6..], dry[1..]);
        let ends = ("from".to_string(), "to".to_string());
        let preview = dry_run_command(&args, &ends);
        let transfer = transfer_command(&args, &ends);
        assert_eq!(preview.program, transfer.program);
        assert_eq!(preview.args[preview.args.len() - 2..], ["from", "to"]);
        assert_eq!(transfer.args[transfer.args.len() - 2..], ["from", "to"]);
    }
}

#[test]
fn pull_reverses_push() {
    for is_file in [false, true] {
        let push = text_endpoints("h", "/a", "~/a", is_file, false);
        let pull = text_endpoints("h", "/a", "~/a", is_file, true);
        assert_eq!(pull, (push.1, push.0));
    }
}

#[test]
fn ended_sync_stays_ended() {
    let args = no_options();
    let push = request(false, "");
    for event in [Event::Begin, Event::Exited(true), Event::DirCreated, Event::NotStarted] {
        let (stage, action) = step(&push, &args, Stage::Ended, &event);
        assert_eq!(stage, Stage::Ended);
        assert!(matches!(action, Action::Ignore));
    }
}
