use smash::context::parse_context;
use smash::event::{
    completion_base, completion_layout, completion_name, cursor_position, parent_dir, filter_completions, grid_fill, strip_dir, keep_entry, longest_entry,
    prompt_text, truncate, CompletionRequest, Editor, Key, KeyAction, UserInput,
};
use smash::history::History;

#[test]
fn user_input_edits_by_character() {
    let mut u = UserInput::new();
    assert!(u.is_empty());
    for c in "héllo".chars() {
        u.insert(c);
    }
    assert_eq!(u.as_str(), "héllo");
    assert_eq!(u.len(), 5);
    assert_eq!(u.byte_index(), 6);
    u.move_by(-3);
    assert_eq!(u.cursor(), 2);
    assert_eq!(u.byte_index(), 3);
    u.backspace();
    assert_eq!(u.as_str(), "hllo");
    u.insert_str("ÉÉ");
    assert_eq!(u.as_str(), "hÉÉllo");
    assert_eq!(u.cursor(), 3);
    u.delete();
    assert_eq!(u.as_str(), "hÉÉlo");
    u.move_by(100);
    assert_eq!(u.cursor(), 5);
    u.delete();
    assert_eq!(u.as_str(), "hÉÉlo");
    u.move_to_begin();
    u.backspace();
    assert_eq!(u.cursor(), 0);
    u.move_by(-5);
    assert_eq!(u.cursor(), 0);
    u.replace_range(1..3, "ee");
    assert_eq!(u.as_str(), "heelo");
    assert_eq!(u.cursor(), 3);
    u.reset("abc".to_string());
    assert_eq!(u.cursor(), 3);
    u.move_to_begin();
    u.move_to_end();
    assert_eq!(u.cursor(), 3);
    u.clear();
    assert_eq!(u.as_str(), "");
}

#[test]
fn truncate_counts_characters() {
    assert_eq!(truncate("héllo", 2), "hé");
    assert_eq!(truncate("ab", 5), "ab");
}

#[test]
fn context_finds_word_under_cursor() {
    let ctx = parse_context("ls /usr/l", 9);
    assert_eq!(ctx.current_literal, (3, 9));
    assert_eq!(ctx.current_text, "/usr/l");
    assert!(!ctx.is_argv0);
    assert_eq!(ctx.argv0.as_deref(), Some("ls"));
    let ctx = parse_context("  gi", 4);
    assert!(ctx.is_argv0);
    assert_eq!(ctx.current_text, "gi");
    let ctx = parse_context("", 0);
    assert_eq!(ctx.argv0, None);
    assert!(ctx.is_argv0);
}

fn type_line(e: &mut Editor, h: &History, s: &str) {
    for c in s.chars() {
        e.handle_key(Key::Char(c), h);
    }
}

#[test]
fn tab_completes_paths() {
    // `ls /usr/l` then Tab: entries under /usr/ starting with `l`; Enter picks one.
    let h = History::new("", &vec![]);
    let mut e = Editor::new();
    type_line(&mut e, &h, "ls /usr/l");
    assert_eq!(e.take_completion_request(), None);
    assert_eq!(e.handle_key(Key::Tab, &h), KeyAction::Redraw);
    assert_eq!(
        e.take_completion_request(),
        Some(CompletionRequest::Paths { pattern: "/usr/l".to_string(), only_dirs: false })
    );
    e.update_completion_entries(vec!["/usr/bin".into(), "/usr/lib".into(), "/usr/local".into()]);
    assert!(e.is_completion_mode());
    assert_eq!(e.filtered_completions(), &vec!["/usr/lib".to_string(), "/usr/local".to_string()]);
    e.handle_key(Key::Right, &h);
    assert_eq!(e.selected_completion(), 1);
    e.handle_key(Key::Enter, &h);
    assert!(!e.is_completion_mode());
    assert_eq!(e.input().as_str(), "ls /usr/local");
}

#[test]
fn unique_completion_is_taken_at_once() {
    let h = History::new("", &vec![]);
    let mut e = Editor::new();
    type_line(&mut e, &h, "cd /usr/lo");
    e.handle_key(Key::Tab, &h);
    assert_eq!(
        e.take_completion_request(),
        Some(CompletionRequest::Paths { pattern: "/usr/lo".to_string(), only_dirs: true })
    );
    e.update_completion_entries(vec!["/usr/lib".into(), "/usr/local".into()]);
    assert_eq!(e.input().as_str(), "cd /usr/local");
    assert!(!e.is_completion_mode());
}

#[test]
fn command_names_complete_from_path_table() {
    let h = History::new("", &vec![]);
    let mut e = Editor::new();
    type_line(&mut e, &h, "gi");
    e.handle_key(Key::Tab, &h);
    assert_eq!(e.take_completion_request(), Some(CompletionRequest::Commands));
    let mut e = Editor::new();
    type_line(&mut e, &h, "./ru");
    e.handle_key(Key::Tab, &h);
    assert_eq!(
        e.take_completion_request(),
        Some(CompletionRequest::Paths { pattern: "./ru".to_string(), only_dirs: false })
    );
}

#[test]
fn enter_ctrl_c_ctrl_d() {
    let h = History::new("", &vec![]);
    let mut e = Editor::new();
    assert_eq!(e.handle_key(Key::Ctrl('d'), &h), KeyAction::Exit);
    type_line(&mut e, &h, "echo hi");
    assert_eq!(e.handle_key(Key::Enter, &h), KeyAction::RunCommand("echo hi".to_string()));
    e.command_done();
    assert_eq!(e.input().as_str(), "");
    type_line(&mut e, &h, "abc");
    e.handle_key(Key::Ctrl('a'), &h);
    assert_eq!(e.input().cursor(), 0);
    assert_eq!(e.handle_key(Key::Ctrl('d'), &h), KeyAction::Redraw);
    assert_eq!(e.input().as_str(), "bc");
    e.handle_key(Key::Ctrl('e'), &h);
    e.handle_key(Key::Backspace, &h);
    assert_eq!(e.input().as_str(), "b");
    e.handle_key(Key::Left, &h);
    e.handle_key(Key::ShiftChar('A'), &h);
    assert_eq!(e.input().as_str(), "Ab");
    assert_eq!(e.handle_key(Key::Ctrl('c'), &h), KeyAction::NewPrompt);
    assert_eq!(e.input().as_str(), "");
    e.push_buffer_stack();
}

#[test]
fn up_and_right_use_history() {
    let lines = vec!["1\t/\tgit status".to_string(), "2\t/\tcargo build".to_string()];
    let h = History::new("f", &lines);
    let mut e = Editor::new();
    e.handle_key(Key::Up, &h);
    assert_eq!(e.input().as_str(), "cargo build");
    e.handle_key(Key::Down, &h);
    assert_eq!(e.input().as_str(), "");
    type_line(&mut e, &h, "git");
    assert_eq!(e.similary_named_history(&h), Some("git status".to_string()));
    e.handle_key(Key::Left, &h);
    e.handle_key(Key::Right, &h);
    assert_eq!(e.input().as_str(), "git");
    assert_eq!(e.input().cursor(), 3);
    e.handle_key(Key::Right, &h);
    assert_eq!(e.input().as_str(), "git status");
}

#[test]
fn completion_filtering_escapes_spaces() {
    let comps = vec!["my file".to_string(), "other".to_string(), "my dir".to_string()];
    assert_eq!(filter_completions(&comps, "my"), vec!["my\\ file", "my\\ dir"]);
    assert_eq!(filter_completions(&comps, ""), vec!["my\\ file", "other", "my\\ dir"]);
    let dups = vec!["ls".to_string(), "lsof".to_string(), "ls".to_string()];
    assert_eq!(filter_completions(&dups, "ls"), vec!["ls", "lsof"]);
}

#[test]
fn dotfiles_hidden_unless_asked() {
    assert!(!keep_entry("/home/u/", ".bashrc"));
    assert!(keep_entry("/home/u/.", ".bashrc"));
    assert!(keep_entry(".b", ".bashrc"));
    assert!(keep_entry("", "src"));
}

#[test]
fn prompt_abbreviates_home() {
    assert_eq!(prompt_text("/home/u/src", Some("/home/u")), "~/src $ ");
    assert_eq!(prompt_text("/tmp", Some("/home/u")), "/tmp $ ");
    assert_eq!(prompt_text("/tmp", None), "/tmp $ ");
}

#[test]
fn grid_layout() {
    assert_eq!(longest_entry(&vec!["ab".into(), "abcd".into()]), 5);
    let g = completion_layout(20, 10, 1, 5, 0, 0).unwrap();
    assert_eq!(g.num_columns, 4);
    assert_eq!(g.column_width, 5);
    assert_eq!(g.max_rows, 8);
    assert_eq!(g.show_from, 0);
    // 7 rows of 4 fit; selecting entry 30 scrolls to the row holding it.
    let g = completion_layout(20, 10, 1, 5, 30, 0).unwrap();
    assert_eq!(g.show_from, 4);
    let g = completion_layout(20, 10, 1, 5, 2, 8).unwrap();
    assert_eq!(g.show_from, 0);
    assert!(completion_layout(20, 3, 1, 5, 0, 0).is_none());
    assert_eq!(cursor_position(10, 15, 20), (5, 1));
}

#[test]
fn completion_names_follow_the_pattern() {
    assert_eq!(strip_dir("/home/u/src", "/home/u"), Some("src".to_string()));
    assert_eq!(strip_dir("/home/user", "/home/u"), None);
    assert_eq!(strip_dir("/usr/lib", "/"), Some("usr/lib".to_string()));
    assert_eq!(completion_name("~/s", "/home/u/src", "/home/u", "/tmp"), "~/src");
    assert_eq!(completion_name("/usr/l", "/usr/lib", "/home/u", "/tmp"), "/usr/lib");
    assert_eq!(completion_name("sr", "/tmp/src", "/home/u", "/tmp"), "src");
    assert_eq!(completion_name("", "/etc/x", "/home/u", "/tmp"), "/etc/x");
}

#[test]
fn grid_fill_counts_rows_and_rest() {
    let f = grid_fill(10, 0, 4, 8);
    assert_eq!((f.shown, f.rows, f.remaining), (10, 3, 0));
    let f = grid_fill(40, 4, 4, 8);
    assert_eq!((f.shown, f.rows, f.remaining), (28, 7, 8));
    let f = grid_fill(5, 5, 4, 8);
    assert_eq!((f.shown, f.rows, f.remaining), (0, 0, 0));
    let f = grid_fill(5, 0, 4, 1);
    assert_eq!((f.shown, f.rows, f.remaining), (0, 0, 5));
}

#[test]
fn completion_directory_from_pattern() {
    assert_eq!(completion_base("", "/home/u", "/tmp"), "/tmp");
    assert_eq!(completion_base("~", "/home/u", "/tmp"), "/home/u");
    assert_eq!(completion_base("~/src", "/home/u", "/tmp"), "/home/u/src");
    assert_eq!(completion_base("/usr/l", "/home/u", "/tmp"), "/usr/l");
    assert_eq!(parent_dir("/usr/l"), Some("/usr".to_string()));
    assert_eq!(parent_dir("/usr"), Some("/".to_string()));
    assert_eq!(parent_dir("src"), None);
}
