use syncz::progress::{
    duration_line, parse_progress_percent, summarize, summary_lines, summary_with, TransferLog,
};
use syncz::tree::{insert_path, render_node, render_tree, TreeNode};
use syncz::watch::{Watch, WatchAction, WatchEvent, DEBOUNCE_NANOS};

fn strings(lines: &[&str]) -> Vec<String> {
    lines.iter().map(|s| s.to_string()).collect()
}

#[test]
fn tree_of_changes() {
    let output = "f+++++++++|src/main.rs|10\n\
        f+++++++++|src/lib/a.rs|10\r\n\
        \n\
        sending incremental file list\n\
        d+++++++++|./docs/|0\n\
        f+++++++++|././|0\n\
        f+++++++++|.hidden|0\n\
        f+++++++++|a|b|c\n\
        f+++++++++||0\n\
        f+++++++++|src//lib/b.rs|10";
    assert_eq!(
        render_tree(output),
        "|-- a\n\
         |-- docs\n\
         +-- src\n\
         \u{20}  |-- lib\n\
         \u{20}  |  |-- a.rs\n\
         \u{20}  |  +-- b.rs\n\
         \u{20}  +-- main.rs"
    );
    assert_eq!(render_tree(""), "");
}

#[test]
fn tree_does_not_depend_on_order() {
    let one = "x|b/c\nx|a\nx|b/a\nx|a\n";
    let two = "y|a|1\ny|b/a|2\ny|b/c|3\n";
    assert_eq!(render_tree(one), render_tree(two));
}

#[test]
fn every_path_is_drawn_once() {
    let text = render_tree("x|b/c\nx|b\nx|b/c\nx|a/c");
    assert_eq!(text, "|-- a\n|  +-- c\n+-- b\n   +-- c");
}

#[test]
fn names_are_ordered_by_code_point() {
    assert_eq!(render_tree("x|a\nx|Z\nx|\u{e9}\n"), "|-- Z\n|-- a\n+-- \u{e9}");
}

#[test]
fn nodes_below_a_name() {
    let mut root = TreeNode::new();
    insert_path(&mut root, "b/c");
    insert_path(&mut root, "/a/");
    let mut lines: Vec<String> = strings(&["before"]);
    render_node(&mut lines, "top", &root, "> ", false);
    assert_eq!(
        lines,
        ["before", "> |-- top", "> |  |-- a", "> |  +-- b", "> |     +-- c"]
    );
}

#[test]
fn progress_percentages() {
    assert_eq!(parse_progress_percent("  1,234  45%  1.2MB/s  0:00:01"), Some(45));
    assert_eq!(parse_progress_percent("no progress"), None);
    assert_eq!(parse_progress_percent("x% 300% +7% 8%"), Some(7));
    assert_eq!(parse_progress_percent("100%"), Some(100));
    assert_eq!(parse_progress_percent("5%% %"), None);
}

#[test]
fn log_of_a_transfer() {
    let mut log = TransferLog::new();
    assert_eq!(log.on_stdout("  \t"), None);
    assert_eq!(log.on_stdout(">f+++|dir/a|x").as_deref(), Some("dir/a"));
    assert_eq!(log.on_stdout("building file list").as_deref(), Some("building file list"));
    assert_eq!(log.on_stderr("  10  50% 1MB/s"), Some(50));
    assert_eq!(log.on_stderr("sent 2,048 bytes  received 35 bytes"), None);
    assert_eq!(log.on_stderr(" sent 1 bytes"), None);
    assert_eq!(log.on_stderr("total size is 1,048,576  speedup is 1.00"), None);
    assert_eq!(log.itemized, [">f+++|dir/a|x"]);
    assert_eq!(
        log.stats,
        ["sent 2,048 bytes  received 35 bytes", "total size is 1,048,576  speedup is 1.00"]
    );
    assert_eq!(
        log.report_with(true, "1.50s").unwrap(),
        [
            "Changes:",
            "+-- dir\n   +-- a",
            "Summary:",
            "  sent: 2.00 KB",
            "  total size: 1.00 MB",
            "  duration: 1.50s",
        ]
    );
    assert_eq!(log.report_with(false, "1.50s").unwrap_err().message(), "rsync failed");
    assert_eq!(
        TransferLog::new().report_with(true, "2.00ms").unwrap(),
        ["Summary:", "  duration: 2.00ms"]
    );
}

#[test]
fn statistics_of_a_transfer() {
    let s = summarize(&strings(&["sent 5 bytes", "total size is 7", "sent 6 bytes  x"]));
    assert_eq!((s.sent, s.total), (Some(6), Some(7)));
    let s = summarize(&strings(&["sent 5 bytes", "sent many bytes"]));
    assert_eq!((s.sent, s.total), (None, None));
    let s = summarize(&strings(&["sent 5 bytes", "sent 6", " total size is 7 8"]));
    assert_eq!((s.sent, s.total), (Some(5), None));
    assert_eq!(
        summary_with(&strings(&["total size is 1,023  speedup"]), "3.00s"),
        ["Summary:", "  total size: 1023 B", "  duration: 3.00s"]
    );
}

#[test]
fn watch_waits_between_syncs() {
    let mut watch = Watch::new(1000);
    assert_eq!(watch.step(WatchEvent::Changed), WatchAction::Settle);
    assert_eq!(watch.step(WatchEvent::Failed), WatchAction::Report);
    assert_eq!(watch.step(WatchEvent::Closed), WatchAction::Wait);
    let edge = 1000 + DEBOUNCE_NANOS;
    assert_eq!(watch.step(WatchEvent::Settled { now: edge }), WatchAction::Wait);
    assert_eq!(watch.step(WatchEvent::Settled { now: 0 }), WatchAction::Wait);
    assert_eq!(watch.step(WatchEvent::Settled { now: edge + 1 }), WatchAction::Sync);
    assert_eq!(watch.step(WatchEvent::Synced { now: edge + 9 }), WatchAction::Wait);
    assert_eq!(watch.last, edge + 9);
    assert_eq!(watch.step(WatchEvent::Settled { now: edge + 10 }), WatchAction::Wait);
}

#[test]
fn log_keeps_items_and_statistics() {
    let output = ["", "sending list", ">f+++|b", "   ", "cd+++|a/", "|"];
    let diagnostics = ["sent 1 bytes", " 50%", "total size is 2", " sent 3 bytes"];
    let mut log = TransferLog::new();
    for line in output {
        log.on_stdout(line);
    }
    for line in diagnostics {
        log.on_stderr(line);
    }
    assert_eq!(log.itemized, strings(&[">f+++|b", "cd+++|a/", "|"]));
    assert_eq!(log.stats, strings(&["sent 1 bytes", "total size is 2"]));
}

#[test]
fn duration_of_a_transfer() {
    assert_eq!(duration_line("1.50s"), "  duration: 1.50s");
    for (secs, nanos, text) in [
        (1u64, 500_000_000u32, "1.50s"),
        (0, 2_000_000, "2.00ms"),
        (0, 0, "0.00ns"),
        (61, 999_999_999, "62.00s"),
    ] {
        let took = std::time::Duration::new(secs, nanos);
        assert_eq!(text, format!("{:.2?}", took));
        let line = format!("  duration: {}", text);
        assert_eq!(summary_lines(&[], secs, nanos), ["Summary:", line.as_str()]);
        let log = TransferLog::new();
        assert_eq!(log.report(true, secs, nanos).unwrap(), ["Summary:", line.as_str()]);
        assert_eq!(log.report(false, secs, nanos).unwrap_err().message(), "rsync failed");
    }
}

#[test]
fn prefix_stands_before_each_line() {
    let mut node = TreeNode::new();
    for path in ["a/b", "a/c/d", "e", "f//g"] {
        insert_path(&mut node, path);
    }
    for last in [false, true] {
        let mut plain = Vec::new();
        render_node(&mut plain, "top", &node, "", last);
        assert_eq!(plain.len(), 8);
        let mut lines = strings(&["kept"]);
        render_node(&mut lines, "top", &node, "> ", last);
        assert_eq!(lines[0], "kept");
        let expected: Vec<String> = plain.iter().map(|l| format!("> {}", l)).collect();
        assert_eq!(lines[1..], expected[..]);
        assert_eq!(lines[1], if last { "> +-- top" } else { "> |-- top" });
    }
}
