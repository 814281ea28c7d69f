use smash::parser::{
    parse, Ast, Command, ExpansionOp, Initializer, ParseError, Pipeline, Redirection,
    RedirectionDirection, RedirectionType, RunIf, Span, Term, Word,
};

fn lit(s: &str) -> Word {
    Word(vec![Span::Literal(s.to_string())])
}

fn simple(script: &str) -> (Vec<Word>, Vec<Redirection>, Vec<smash::parser::Assignment>) {
    let ast = parse(script).unwrap();
    assert_eq!(ast.terms.len(), 1);
    let mut terms = ast.terms;
    let mut term = terms.remove(0);
    assert_eq!(term.pipelines.len(), 1);
    let mut p = term.pipelines.remove(0);
    assert_eq!(p.commands.len(), 1);
    match p.commands.remove(0) {
        Command::SimpleCommand { argv, redirects, assignments } => (argv, redirects, assignments),
        other => panic!("not a simple command: {:?}", other),
    }
}

#[test]
fn test_simple_commands() {
    assert_eq!(
        parse("ls -G /tmp\n"),
        Ok(Ast {
            terms: vec![Term {
                code: "ls -G /tmp".into(),
                pipelines: vec![Pipeline {
                    run_if: RunIf::Always,
                    commands: vec![Command::SimpleCommand {
                        argv: vec![lit("ls"), lit("-G"), lit("/tmp")],
                        redirects: vec![],
                        assignments: vec![],
                    }],
                }],
                background: false,
            }],
        })
    );
}

#[test]
fn empty_scripts_are_empty() {
    assert_eq!(parse(""), Err(ParseError::Empty));
    assert_eq!(parse("   \n\t\n"), Err(ParseError::Empty));
    assert_eq!(parse("# just a comment\n  # another"), Err(ParseError::Empty));
}

#[test]
fn syntax_errors_are_fatal() {
    assert!(matches!(parse("echo 'abc"), Err(ParseError::Fatal(_))));
    assert!(matches!(parse("echo \"abc"), Err(ParseError::Fatal(_))));
    assert!(matches!(parse("echo a |"), Err(ParseError::Fatal(_))));
    assert!(matches!(parse("; echo a"), Err(ParseError::Fatal(_))));
    assert!(matches!(parse("echo $(ls"), Err(ParseError::Fatal(_))));
    assert!(matches!(parse("echo a )"), Err(ParseError::Fatal(_))));
}

#[test]
fn and_or_lists_carry_run_if() {
    let ast = parse("false && echo x ; echo y").unwrap();
    assert_eq!(ast.terms.len(), 2);
    assert_eq!(ast.terms[0].code, "false && echo x");
    assert_eq!(ast.terms[1].code, "echo y");
    assert_eq!(ast.terms[0].pipelines.len(), 2);
    assert_eq!(ast.terms[0].pipelines[0].run_if, RunIf::Always);
    assert_eq!(ast.terms[0].pipelines[1].run_if, RunIf::Success);
    assert_eq!(ast.terms[1].pipelines[0].run_if, RunIf::Always);

    let ast = parse("true || echo x ; echo y").unwrap();
    assert_eq!(ast.terms[0].pipelines[1].run_if, RunIf::Failure);
}

#[test]
fn pipelines_split_at_bars() {
    let ast = parse("echo a | tr a-z A-Z").unwrap();
    assert_eq!(ast.terms.len(), 1);
    assert_eq!(ast.terms[0].pipelines.len(), 1);
    assert_eq!(
        ast.terms[0].pipelines[0].commands,
        vec![
            Command::SimpleCommand { argv: vec![lit("echo"), lit("a")], redirects: vec![], assignments: vec![] },
            Command::SimpleCommand {
                argv: vec![lit("tr"), lit("a-z"), lit("A-Z")],
                redirects: vec![],
                assignments: vec![],
            },
        ]
    );
}

#[test]
fn trailing_ampersand_runs_in_background() {
    let ast = parse("sleep 1 & echo done").unwrap();
    assert_eq!(ast.terms.len(), 2);
    assert!(ast.terms[0].background);
    assert!(!ast.terms[1].background);
    assert_eq!(ast.terms[0].code, "sleep 1");
}

#[test]
fn term_code_is_trimmed_source() {
    let ast = parse("  echo   a  ;\n\t ls -l   \n").unwrap();
    assert_eq!(ast.terms[0].code, "echo   a");
    assert_eq!(ast.terms[1].code, "ls -l");
}

#[test]
fn single_quotes_keep_text() {
    let (argv, _, _) = simple("echo 'a b'");
    assert_eq!(argv, vec![lit("echo"), lit("a b")]);
    let (argv, _, _) = simple("echo 'a$x\\n'");
    assert_eq!(argv[1], lit("a$x\\n"));
}

#[test]
fn double_quotes_mark_parameters_quoted() {
    let (argv, _, _) = simple("echo \"$x\" $y");
    assert_eq!(
        argv[1],
        Word(vec![Span::Parameter { name: "x".into(), op: ExpansionOp::GetOrEmpty, quoted: true }])
    );
    assert_eq!(
        argv[2],
        Word(vec![Span::Parameter { name: "y".into(), op: ExpansionOp::GetOrEmpty, quoted: false }])
    );
}

#[test]
fn double_quote_escapes() {
    let (argv, _, _) = simple(r#"echo "a\"b\n""#);
    assert_eq!(argv[1], lit("a\"b\\n"));
    let (argv, _, _) = simple("echo \"\"");
    assert_eq!(argv[1], lit(""));
}

#[test]
fn braced_parameters_and_status() {
    let (argv, _, _) = simple("echo ${HOME} $? ${x:-d}");
    assert_eq!(
        argv[1],
        Word(vec![Span::Parameter { name: "HOME".into(), op: ExpansionOp::GetOrEmpty, quoted: false }])
    );
    assert_eq!(
        argv[2],
        Word(vec![Span::Parameter { name: "?".into(), op: ExpansionOp::GetOrEmpty, quoted: false }])
    );
    assert_eq!(
        argv[3],
        Word(vec![Span::Parameter { name: "x".into(), op: ExpansionOp::Other("-d".into()), quoted: false }])
    );
}

#[test]
fn tilde_only_unquoted() {
    let (argv, _, _) = simple("ls ~ \"~\" ~/src");
    assert_eq!(argv[1], Word(vec![Span::Tilde(None)]));
    assert_eq!(argv[2], lit("~"));
    assert_eq!(argv[3], Word(vec![Span::Tilde(None), Span::Literal("/src".into())]));
}

#[test]
fn command_substitution_nests_terms() {
    let (argv, _, _) = simple("echo $(echo hi) x$(date)");
    match &argv[1].0[0] {
        Span::Command { body, quoted } => {
            assert!(!quoted);
            assert_eq!(body.len(), 1);
            assert_eq!(body[0].code, "echo hi");
        }
        other => panic!("unexpected span {:?}", other),
    }
    assert_eq!(argv[2].0.len(), 2);
    assert_eq!(argv[2].0[0], Span::Literal("x".into()));
}

#[test]
fn redirections_default_fds() {
    let (argv, redirects, _) = simple("cat < in > out 2>> err");
    assert_eq!(argv, vec![lit("cat")]);
    assert_eq!(
        redirects,
        vec![
            Redirection { fd: 0, direction: RedirectionDirection::Input, target: RedirectionType::File(lit("in")) },
            Redirection { fd: 1, direction: RedirectionDirection::Output, target: RedirectionType::File(lit("out")) },
            Redirection { fd: 2, direction: RedirectionDirection::Append, target: RedirectionType::File(lit("err")) },
        ]
    );
}

#[test]
fn assignment_prefixes() {
    let (argv, _, assignments) = simple("FOO=bar echo $FOO");
    assert_eq!(assignments.len(), 1);
    assert_eq!(assignments[0].name, "FOO");
    assert_eq!(assignments[0].initializer, Initializer::String(lit("bar")));
    assert_eq!(assignments[0].index, None);
    assert_eq!(argv[0], lit("echo"));

    let ast = parse("FOO=bar ; echo $FOO").unwrap();
    assert!(matches!(ast.terms[0].pipelines[0].commands[0], Command::Assignment { .. }));

    let ast = parse("A=(x y)").unwrap();
    match &ast.terms[0].pipelines[0].commands[0] {
        Command::Assignment { assignments } => {
            assert_eq!(assignments[0].initializer, Initializer::Array(vec![lit("x"), lit("y")]));
        }
        other => panic!("unexpected {:?}", other),
    }
}

#[test]
fn backslash_escapes_outside_quotes() {
    let (argv, _, _) = simple("echo a\\ b");
    assert_eq!(argv[1], lit("a b"));
}

#[test]
fn newlines_separate_terms_and_continue_lists() {
    let ast = parse("echo a\necho b &&\n  echo c").unwrap();
    assert_eq!(ast.terms.len(), 2);
    assert_eq!(ast.terms[1].pipelines.len(), 2);
    assert_eq!(ast.terms[1].code, "echo b &&\n  echo c");
}
