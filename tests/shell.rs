use smash::history::{format_history_line, parse_history_line, History, HistorySelector};
use smash::path::{DirListing, PathTable};
use smash::process::{
    destroy_job, state_of_wait_event, wait_for_any_process, wait_for_job, ExitStatus, JobId,
    JobProgress, ProcessState, WaitEvent,
};
use smash::shell::Shell;
use smash::text::{split_chars, trim, u64_to_string, i32_to_string};
use smash::variable::{Frame, Value, Variable};

fn listing(dir: &str, names: &[&str]) -> DirListing {
    DirListing {
        dir: dir.to_string(),
        entries: names.iter().map(|n| (n.to_string(), format!("{}/{}", dir, n))).collect(),
    }
}

#[test]
fn earlier_path_directories_win() {
    let mut t = PathTable::new();
    assert_eq!(PathTable::dirs("/usr/local/bin:/usr/bin:/bin"), vec!["/usr/local/bin", "/usr/bin", "/bin"]);
    let ls = vec![
        listing("/usr/local/bin", &["vim"]),
        listing("/usr/bin", &["vim", "ls"]),
        listing("/bin", &["ls", "sh"]),
    ];
    t.scan("/usr/local/bin:/usr/bin:/bin", &ls);
    assert_eq!(t.lookup("vim"), Some("/usr/local/bin/vim"));
    assert_eq!(t.lookup("ls"), Some("/usr/bin/ls"));
    assert_eq!(t.lookup("sh"), Some("/bin/sh"));
    assert_eq!(t.lookup("cc"), None);
    let mut names = t.to_vec();
    names.sort();
    assert_eq!(names, vec!["ls", "sh", "vim"]);
    t.rehash(&vec![listing("/opt", &["x"])]);
    assert_eq!(t.lookup("ls"), None);
    assert_eq!(t.lookup("x"), Some("/opt/x"));
}

#[test]
fn setting_path_asks_for_rescan() {
    let mut sh = Shell::new(1, History::new("", &vec![]));
    sh.set("PATH", Value::String("/bin".into()), false, &vec![listing("/bin", &["ls"])]);
    assert_eq!(sh.path_table().lookup("ls"), Some("/bin/ls"));
    sh.set("PATH", Value::String("/usr/bin".into()), true, &vec![listing("/usr/bin", &["cc"])]);
    assert_eq!(sh.path_table().lookup("ls"), Some("/bin/ls"));
    assert_eq!(sh.path_table().lookup("cc"), None);
    sh.set("HOME", Value::String("/h".into()), false, &vec![listing("/h", &["x"])]);
    assert_eq!(sh.path_table().lookup("x"), None);

    let ls = vec![listing("/a", &["x"]), listing("/b", &["x", "y"])];
    sh.set("PATH", Value::String("/a:/b".into()), false, &ls);
    assert_eq!(sh.path_table().lookup("x"), Some("/a/x"));
    assert_eq!(sh.path_table().lookup("y"), Some("/b/y"));
    assert_eq!(sh.path_table().lookup("ls"), None);
    sh.set("OTHER", Value::String("v".into()), false, &vec![]);
    assert_eq!(sh.path_table().lookup("x"), Some("/a/x"));
    assert_eq!(sh.get_str("PATH"), Some("/a:/b".to_string()));
}

#[test]
fn history_append_policy() {
    let mut h = History::new("/tmp/h", &vec![]);
    assert!(!h.append("", "/"));
    assert!(!h.append("ls -l", "/"));
    assert_eq!(h.len(), 0);
    assert!(h.append("cargo build", "/src"));
    assert_eq!(h.len(), 1);
    assert!(!h.append("cargo build", "/src"));
    assert_eq!(h.len(), 1);
    assert!(h.append("cargo test --all", "/src"));
    assert!(h.append("cargo build", "/src"));
    assert_eq!(h.len(), 3);
    assert_eq!(h.path(), "/tmp/h");
}

#[test]
fn history_file_lines() {
    assert_eq!(format_history_line(1700000000, "/home/u", "make all"), "1700000000\t/home/u\tmake all\n");
    assert_eq!(parse_history_line("1\t/tmp\tls -la"), Some(("/tmp".to_string(), "ls -la".to_string())));
    assert_eq!(parse_history_line("garbage"), None);
    let lines = vec!["1\t/a\tfirst cmd".to_string(), "bad".to_string(), "2\t/b\tsecond cmd".to_string()];
    let h = History::new("f", &lines);
    assert_eq!(h.len(), 2);
    assert_eq!(h.get(0).map(|s| s.as_str()), Some("first cmd"));
    assert_eq!(History::malformed_line(&lines), Some(2));
}

#[test]
fn history_selector_walks_back() {
    let lines = vec![
        "1\t/\tgit status".to_string(),
        "2\t/\tcargo build".to_string(),
        "3\t/\tgit commit".to_string(),
    ];
    let h = History::new("f", &lines);
    let mut sel = HistorySelector::new();
    assert_eq!(sel.current(&h), Some(String::new()));
    sel.prev(&h, "");
    assert_eq!(sel.current(&h), Some("git commit".to_string()));
    sel.prev(&h, "");
    assert_eq!(sel.current(&h), Some("cargo build".to_string()));
    sel.prev(&h, "");
    sel.prev(&h, "");
    assert_eq!(sel.current(&h), Some("git status".to_string()));
    sel.next();
    assert_eq!(sel.current(&h), Some("cargo build".to_string()));
    sel.next();
    sel.next();
    assert_eq!(sel.current(&h), Some(String::new()));

    let mut sel = HistorySelector::new();
    sel.prev(&h, "git c");
    assert_eq!(sel.current(&h), Some("git commit".to_string()));
    sel.reset();
    assert_eq!(sel.current(&h), Some("git c".to_string()));
}

#[test]
fn history_suggestion() {
    let lines = vec!["1\t/\tgit status".to_string(), "2\t/\tgit commit".to_string()];
    let h = History::new("f", &lines);
    let mut sel = HistorySelector::new();
    sel.set_similary_named_history(&h, "git");
    assert_eq!(sel.similary_named_history(&h), Some("git status".to_string()));
    sel.set_similary_named_history(&h, "git status");
    assert_eq!(sel.similary_named_history(&h), None);
    sel.set_similary_named_history(&h, "git c");
    assert_eq!(sel.similary_named_history(&h), Some("git commit".to_string()));
    sel.clear_similary_named_history();
    assert_eq!(sel.similary_named_history(&h), None);
}

#[test]
fn jobs_are_waited_for() {
    let mut sh = Shell::new(10, History::new("", &vec![]));
    assert_eq!(sh.shell_pgid(), 10);
    let id = sh.create_job("echo a | tr a-z A-Z".to_string(), 100, vec![100, 101]);
    assert_eq!(id, JobId::new(1));
    let id2 = sh.create_job("sleep 1".to_string(), 200, vec![200]);
    assert_eq!(id2, JobId::new(2));
    assert_eq!(sh.get_process_state(100), Some(&ProcessState::Running));
    assert_eq!(wait_for_job(&mut sh, id), JobProgress::Wait);
    assert_eq!(wait_for_any_process(&mut sh, WaitEvent::Exited(100, 0)), Some(100));
    assert_eq!(wait_for_job(&mut sh, id), JobProgress::Wait);
    assert_eq!(wait_for_any_process(&mut sh, WaitEvent::Exited(101, 3)), Some(101));
    assert_eq!(wait_for_job(&mut sh, id), JobProgress::Completed(3));
    assert!(sh.get_job(id).is_none());
    let id3 = sh.create_job("vi".to_string(), 300, vec![300]);
    assert_eq!(id3, JobId::new(1));
    wait_for_any_process(&mut sh, WaitEvent::Stopped(300));
    assert_eq!(wait_for_job(&mut sh, id3), JobProgress::Stopped(300));
    assert!(sh.get_job(id3).is_some());
    sh.set_last_fore_job(Some(id3));
    destroy_job(&mut sh, id3);
    assert_eq!(sh.last_fore_job(), None);
    assert_eq!(wait_for_any_process(&mut sh, WaitEvent::NoChild), None);
}

#[test]
fn signal_death_is_minus_one() {
    assert_eq!(state_of_wait_event(WaitEvent::Signaled(7)), Some((7, ProcessState::Completed(-1))));
    assert_eq!(state_of_wait_event(WaitEvent::Exited(7, 2)), Some((7, ProcessState::Completed(2))));
    assert_eq!(state_of_wait_event(WaitEvent::Stopped(7)), Some((7, ProcessState::Stopped(7))));
    assert_eq!(state_of_wait_event(WaitEvent::NoChild), None);
    let _ = ExitStatus::ExitedWith(0);
}

#[test]
fn variables_and_frames() {
    let v = Variable::new(Some(Value::Array(vec![])));
    assert_eq!(v.as_str(), "");
    let v = Variable::new(None);
    assert_eq!(v.as_str(), "");
    assert!(v.value().is_none());
    let mut f = Frame::new();
    f.set("x", Value::String("1".into()));
    assert_eq!(f.get("x").unwrap().as_str(), "1");
    assert!(f.get("y").is_none());
    let mut sh = Shell::new(1, History::new("", &vec![]));
    sh.set("x", Value::String("g".into()), false, &vec![]);
    assert_eq!(sh.get_str("x"), Some("g".to_string()));
    assert_eq!(sh.ifs(), "\n\t ");
    sh.export("x");
    assert!(sh.exported_names().iter().any(|n| n == "x"));
    sh.pushd("/a".into());
    assert_eq!(sh.popd(), Some("/a".to_string()));
    assert_eq!(sh.popd(), None);
    assert!(sh.has_lookup_alias("q") == false);
}

#[test]
fn text_helpers() {
    assert_eq!(split_chars(&vec!['a', ':', ':', 'b'], &vec![':']), vec!["a", "", "b"]);
    assert_eq!(trim("  a b \n"), "a b");
    assert_eq!(trim("   "), "");
    assert_eq!(u64_to_string(0), "0");
    assert_eq!(u64_to_string(1234567890123), "1234567890123");
    assert_eq!(i32_to_string(-2147483648), "-2147483648");
}
