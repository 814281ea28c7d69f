use smash::expand::{
    expand_param, expand_word_into_string, expand_word_into_vec, expand_words, split_fields,
    trim_one_newline, ExpandError, Fragment,
};
use smash::history::History;
use smash::parser::{parse, Command, Span, Word};
use smash::shell::Shell;
use smash::variable::Value;

fn shell() -> Shell {
    Shell::new(1, History::new("", &vec![]))
}

fn argv_of(script: &str) -> Vec<Word> {
    let ast = parse(script).unwrap();
    let mut terms = ast.terms;
    let mut term = terms.remove(0);
    let mut p = term.pipelines.remove(0);
    match p.commands.remove(0) {
        Command::SimpleCommand { argv, .. } => argv,
        _ => panic!("not a simple command"),
    }
}

fn set(sh: &mut Shell, k: &str, v: &str) {
    sh.set(k, Value::String(v.to_string()), false, &vec![]);
}

#[test]
fn quoted_parameter_is_one_argument() {
    for ifs in [" ", "b", " \t\n", ""] {
        let mut sh = shell();
        set(&mut sh, "x", "a b c");
        set(&mut sh, "IFS", ifs);
        let argv = argv_of("echo \"$x\"");
        assert_eq!(expand_words(&sh, &argv, &vec![]).unwrap(), vec!["echo", "a b c"]);
    }
}

#[test]
fn quoted_literal_is_fixed() {
    for ifs in [" ", "a", " \t\n"] {
        let mut sh = shell();
        set(&mut sh, "IFS", ifs);
        let argv = argv_of("echo 'a b'");
        assert_eq!(expand_words(&sh, &argv, &vec![]).unwrap(), vec!["echo", "a b"]);
    }
}

#[test]
fn unquoted_parameter_is_split() {
    let mut sh = shell();
    set(&mut sh, "x", "a b\tc");
    let argv = argv_of("echo $x");
    assert_eq!(expand_words(&sh, &argv, &vec![]).unwrap(), vec!["echo", "a", "b", "c"]);
    set(&mut sh, "IFS", ":");
    set(&mut sh, "y", "p:q");
    let argv = argv_of("echo $y");
    assert_eq!(expand_words(&sh, &argv, &vec![]).unwrap(), vec!["echo", "p", "q"]);
}

#[test]
fn last_piece_joins_following_text() {
    let mut sh = shell();
    set(&mut sh, "x", "a b");
    let argv = argv_of("echo $x'c'");
    assert_eq!(expand_words(&sh, &argv, &vec![]).unwrap(), vec!["echo", "a", "bc"]);
}

#[test]
fn tilde_expands_to_home() {
    let mut sh = shell();
    set(&mut sh, "HOME", "/home/u");
    let argv = argv_of("ls ~ \"~\" ~/src");
    assert_eq!(expand_words(&sh, &argv, &vec![]).unwrap(), vec!["ls", "/home/u", "~", "/home/u/src"]);
}

#[test]
fn undefined_variable_is_an_error() {
    let sh = shell();
    let argv = argv_of("echo $NOPE");
    assert_eq!(
        expand_words(&sh, &argv, &vec![]),
        Err(ExpandError::UndefinedVariable("NOPE".to_string()))
    );
    assert!(expand_param(&sh, "NOPE").is_err());
}

#[test]
fn status_parameter() {
    let mut sh = shell();
    assert_eq!(expand_param(&sh, "?").unwrap(), "0");
    sh.set_last_status(-1);
    assert_eq!(expand_param(&sh, "?").unwrap(), "-1");
    sh.set_last_status(127);
    assert_eq!(expand_param(&sh, "?").unwrap(), "127");
}

#[test]
fn empty_value_gives_one_empty_argument() {
    let mut sh = shell();
    set(&mut sh, "x", "");
    let argv = argv_of("cmd \"$x\"");
    assert_eq!(expand_words(&sh, &argv, &vec![]).unwrap(), vec!["cmd", ""]);
}

#[test]
fn array_reads_as_first_element() {
    let mut sh = shell();
    sh.set("a", Value::Array(vec!["one".to_string(), "two".to_string()]), false, &vec![]);
    let argv = argv_of("echo \"$a\"");
    assert_eq!(expand_words(&sh, &argv, &vec![]).unwrap(), vec!["echo", "one"]);
}

#[test]
fn command_substitution_uses_supplied_output() {
    let sh = shell();
    let argv = argv_of("echo $(printf 'a b') \"$(date)\"");
    let outputs = vec![vec![], vec!["x y".to_string()], vec!["Mon 1".to_string()]];
    assert_eq!(expand_words(&sh, &argv, &outputs).unwrap(), vec!["echo", "x", "y", "Mon 1"]);
    let missing = vec![vec![], vec![]];
    assert_eq!(expand_words(&sh, &argv, &missing), Err(ExpandError::MissingOutput));
}

#[test]
fn substitution_output_loses_one_newline() {
    assert_eq!(trim_one_newline("hi\n"), "hi");
    assert_eq!(trim_one_newline("hi\n\n"), "hi\n");
    assert_eq!(trim_one_newline("hi"), "hi");
    assert_eq!(trim_one_newline(""), "");
}

#[test]
fn split_fields_on_fragments() {
    let frags = vec![
        Fragment { text: "a".to_string(), split: false },
        Fragment { text: " b c ".to_string(), split: true },
        Fragment { text: "d".to_string(), split: false },
    ];
    assert_eq!(split_fields(&frags, &vec![' ']), vec!["a", "", "b", "c", "d"]);
    assert_eq!(split_fields(&vec![], &vec![' ']), vec![""]);
}

#[test]
fn word_into_string_joins_fields() {
    let mut sh = shell();
    set(&mut sh, "x", "a b");
    let argv = argv_of("echo $x");
    assert_eq!(expand_word_into_string(&sh, &argv[1], " ", &vec![]).unwrap(), "ab");
    assert_eq!(expand_word_into_vec(&sh, &argv[1], " ", &vec![]).unwrap(), vec!["a", "b"]);
}

#[test]
fn literal_chars_span_expands_to_its_characters() {
    let sh = shell();
    let w = Word(vec![Span::LiteralChars(vec![
        smash::parser::LiteralChar::Normal('a'),
        smash::parser::LiteralChar::Escaped(' '),
    ])]);
    assert_eq!(expand_word_into_vec(&sh, &w, " ", &vec![]).unwrap(), vec!["a "]);
}
