use smash::builtins::{builtin_command, parse_alias, Alias, Builtin, Cd, Eval, Export, Source};
use smash::eval::{
    evaluate_initializer, exported_environment, parse_for_run, resolve_command, should_run,
    CommandTarget, PipelineOutcome, PipelineRun, TermRunner,
};
use smash::expand::expand_words;
use smash::history::History;
use smash::parser::{parse, Command, Initializer, ParseError, RunIf, Span, Word};
use smash::path::DirListing;
use smash::process::ExitStatus;
use smash::resolve::resolve_alias;
use smash::shell::Shell;
use smash::variable::Value;

fn shell() -> Shell {
    Shell::new(1, History::new("", &vec![]))
}

fn strings(v: &[&str]) -> Vec<String> {
    v.iter().map(|s| s.to_string()).collect()
}

/// Runs the pipelines of `script` with each command's status given by `status_of`
/// (given the indices of its term and pipeline); returns the positions of those that ran.
fn trace(script: &str, status_of: &dyn Fn(usize, usize) -> i32) -> (Vec<(usize, usize)>, ExitStatus) {
    let ast = parse(script).unwrap();
    let mut runner = TermRunner::new();
    let mut ran = Vec::new();
    while let Some((t, p)) = runner.next(&ast.terms) {
        ran.push((t, p));
        runner.report(ExitStatus::ExitedWith(status_of(t, p)));
    }
    (ran, runner.last_status())
}

#[test]
fn run_if_table() {
    assert!(should_run(ExitStatus::ExitedWith(0), RunIf::Success));
    assert!(!should_run(ExitStatus::ExitedWith(1), RunIf::Success));
    assert!(should_run(ExitStatus::ExitedWith(1), RunIf::Failure));
    assert!(!should_run(ExitStatus::ExitedWith(0), RunIf::Failure));
    assert!(should_run(ExitStatus::ExitedWith(7), RunIf::Always));
    assert!(should_run(ExitStatus::Running(3), RunIf::Always));
    assert!(!should_run(ExitStatus::Running(3), RunIf::Success));
}

#[test]
fn false_and_skips_then_semicolon_runs() {
    // `false && echo x ; echo y`: `false` fails, `echo x` is skipped, `echo y` runs.
    let (ran, last) = trace("false && echo x ; echo y", &|t, _| if t == 0 { 1 } else { 0 });
    assert_eq!(ran, vec![(0, 0), (1, 0)]);
    assert_eq!(last, ExitStatus::ExitedWith(0));
}

#[test]
fn true_or_skips_then_semicolon_runs() {
    let (ran, last) = trace("true || echo x ; echo y", &|_, _| 0);
    assert_eq!(ran, vec![(0, 0), (1, 0)]);
    assert_eq!(last, ExitStatus::ExitedWith(0));
}

#[test]
fn simple_echo_runs_once() {
    let (ran, last) = trace("echo hello", &|_, _| 0);
    assert_eq!(ran, vec![(0, 0)]);
    assert_eq!(last, ExitStatus::ExitedWith(0));
    let sh = shell();
    let ast = parse("echo hello").unwrap();
    match &ast.terms[0].pipelines[0].commands[0] {
        Command::SimpleCommand { argv, .. } => {
            assert_eq!(expand_words(&sh, argv, &vec![]).unwrap(), vec!["echo", "hello"]);
        }
        _ => panic!(),
    }
}

#[test]
fn pipeline_of_two_makes_one_pipe() {
    // `echo a | tr a-z A-Z`: one pipe, two children, pgid is the pid of `echo`.
    let mut run = PipelineRun::new(2);
    assert!(run.start_command());
    let ends = run.finish_command(ExitStatus::Running(100));
    assert!(ends.close_write && !ends.close_read);
    assert_eq!(run.pgid(), Some(100));
    assert!(!run.start_command());
    let ends = run.finish_command(ExitStatus::Running(101));
    assert!(!ends.close_write && ends.close_read);
    assert!(run.done());
    assert_eq!(run.outcome(), PipelineOutcome::Spawned { pgid: 100, childs: vec![100, 101] });
}

#[test]
fn pipeline_status_is_last_command_status() {
    let mut run = PipelineRun::new(2);
    run.start_command();
    run.finish_command(ExitStatus::Running(5));
    run.start_command();
    run.finish_command(ExitStatus::ExitedWith(3));
    assert_eq!(run.outcome(), PipelineOutcome::Status(ExitStatus::ExitedWith(3)));
    let mut run = PipelineRun::new(3);
    let mut pipes = 0;
    let mut closed = 0;
    for pid in [7, 8, 9] {
        if run.start_command() {
            pipes += 1;
        }
        let ends = run.finish_command(ExitStatus::Running(pid));
        closed += ends.close_write as i32 + ends.close_read as i32;
    }
    assert_eq!((pipes, closed), (2, 4));
    let run = PipelineRun::new(0);
    assert_eq!(run.outcome(), PipelineOutcome::Nothing);
}

#[test]
fn scripts_to_run() {
    assert_eq!(parse_for_run("  # nothing\n").err(), Some(ExitStatus::ExitedWith(0)));
    assert_eq!(parse_for_run("echo 'x").err(), Some(ExitStatus::ExitedWith(-1)));
    assert!(parse_for_run("echo x").is_ok());
}

#[test]
fn command_resolution() {
    let mut sh = shell();
    assert_eq!(resolve_command(&sh, &vec![]), CommandTarget::Nothing);
    assert_eq!(resolve_command(&sh, &strings(&["cd", "/"])), CommandTarget::Builtin(Builtin::Cd));
    assert_eq!(resolve_command(&sh, &strings(&["."])), CommandTarget::Builtin(Builtin::Source));
    assert_eq!(resolve_command(&sh, &strings(&["./run"])), CommandTarget::External("./run".into()));
    assert_eq!(resolve_command(&sh, &strings(&["/bin/ls"])), CommandTarget::External("/bin/ls".into()));
    assert_eq!(resolve_command(&sh, &strings(&["bin/tool"])), CommandTarget::External("bin/tool".into()));
    assert_eq!(resolve_command(&sh, &strings(&["ls"])), CommandTarget::NotFound);
    let listings = vec![DirListing {
        dir: "/bin".into(),
        entries: vec![("ls".to_string(), "/bin/ls".to_string())],
    }];
    sh.scan_path("/bin", &listings);
    assert_eq!(resolve_command(&sh, &strings(&["ls"])), CommandTarget::External("/bin/ls".into()));
}

#[test]
fn builtin_names() {
    assert_eq!(builtin_command("cd"), Some(Builtin::Cd));
    assert_eq!(builtin_command("eval"), Some(Builtin::Eval));
    assert_eq!(builtin_command("exit"), Some(Builtin::Exit));
    assert_eq!(builtin_command("export"), Some(Builtin::Export));
    assert_eq!(builtin_command("source"), Some(Builtin::Source));
    assert_eq!(builtin_command("alias"), Some(Builtin::Alias));
    assert_eq!(builtin_command("ls"), None);
}

#[test]
fn alias_definitions() {
    assert_eq!(parse_alias("ll=ls -l"), Ok(("ll".to_string(), "ls -l".to_string())));
    assert_eq!(parse_alias("e="), Ok(("e".to_string(), "".to_string())));
    assert_eq!(parse_alias(""), Err(ParseError::Empty));
    assert!(matches!(parse_alias("=x"), Err(ParseError::Fatal(_))));
    assert!(matches!(parse_alias("no equals"), Err(ParseError::Fatal(_))));
    assert!(matches!(parse_alias("a b=c"), Err(ParseError::Fatal(_))));

    let mut sh = shell();
    let out = Alias.run(&mut sh, &strings(&["alias", "ll=ls -l"]));
    assert_eq!(out.status, ExitStatus::ExitedWith(0));
    assert_eq!(sh.lookup_alias("ll"), Some("ls -l".to_string()));
    let out = Alias.run(&mut sh, &strings(&["alias", "=bad"]));
    assert_eq!(out.status, ExitStatus::ExitedWith(1));
    assert!(out.message.is_some());
    let out = Alias.run(&mut sh, &strings(&["alias", ""]));
    assert_eq!(out.status, ExitStatus::ExitedWith(1));
}

#[test]
fn alias_resolution() {
    let mut sh = shell();
    sh.add_alias("ll", " ls -l ".to_string());
    let argv = vec![
        Word(vec![Span::Literal("ll".into())]),
        Word(vec![Span::Literal("/tmp".into())]),
    ];
    let out = resolve_alias(&sh, argv);
    assert_eq!(
        out,
        vec![
            Word(vec![Span::Literal("ls".into())]),
            Word(vec![Span::Literal("-l".into())]),
            Word(vec![Span::Literal("/tmp".into())]),
        ]
    );
    let argv = vec![Word(vec![Span::Literal("ls".into())])];
    assert_eq!(resolve_alias(&sh, argv), vec![Word(vec![Span::Literal("ls".into())])]);
}

#[test]
fn cd_targets() {
    let mut sh = shell();
    assert_eq!(Cd.run(&mut sh, &strings(&["cd", "-"]), "/a", None), Err(ExitStatus::ExitedWith(1)));
    assert_eq!(Cd.run(&mut sh, &strings(&["cd", "/etc"]), "/a", None), Ok("/etc".to_string()));
    assert_eq!(Cd.run(&mut sh, &strings(&["cd", "src"]), "/a", None), Ok("/a/src".to_string()));
    assert_eq!(Cd.run(&mut sh, &strings(&["cd", "src"]), "/", None), Ok("/src".to_string()));
    assert_eq!(Cd.run(&mut sh, &strings(&["cd"]), "/b", Some("/home/u".into())), Ok("/home/u".to_string()));
    assert_eq!(Cd.run(&mut sh, &strings(&["cd"]), "/c", None), Ok("/".to_string()));
    assert_eq!(Cd.run(&mut sh, &strings(&["cd", "-"]), "/", None), Ok("/c".to_string()));
    assert_eq!(Cd.run(&mut sh, &strings(&["cd", "-"]), "/", None), Ok("/b".to_string()));
}

#[test]
fn eval_program_joins_arguments() {
    assert_eq!(Eval.program(&strings(&["eval", "echo", "hi"])), "echo hi ");
    assert_eq!(Eval.program(&strings(&["eval"])), "");
}

#[test]
fn source_needs_a_file() {
    assert_eq!(Source.file(&strings(&["source", "f.sh"])), Ok("f.sh".to_string()));
    assert!(Source.file(&strings(&["source"])).is_err());
}

#[test]
fn export_and_environment() {
    let mut sh = shell();
    sh.set("A", Value::String("1".into()), false, &vec![]);
    assert_eq!(Export.run(&mut sh, &strings(&["export", "A", "B"])), ExitStatus::ExitedWith(0));
    let env = exported_environment(&sh);
    assert_eq!(env, vec![("A".to_string(), "1".to_string())]);
}

#[test]
fn prefix_assignment_value() {
    let mut sh = shell();
    sh.set("FOO", Value::String("bar".into()), false, &vec![]);
    let ast = parse("X=$FOO A=() B=(p q) echo").unwrap();
    match &ast.terms[0].pipelines[0].commands[0] {
        Command::SimpleCommand { assignments, .. } => {
            match evaluate_initializer(&sh, &assignments[0].initializer, &vec![]).unwrap() {
                Value::String(s) => assert_eq!(s, "bar"),
                _ => panic!(),
            }
            match evaluate_initializer(&sh, &assignments[1].initializer, &vec![]).unwrap() {
                Value::Array(a) => assert!(a.is_empty()),
                _ => panic!(),
            }
            match evaluate_initializer(&sh, &assignments[2].initializer, &vec![]).unwrap() {
                Value::Array(a) => assert_eq!(a, vec!["p", "q"]),
                _ => panic!(),
            }
            assert!(matches!(assignments[0].initializer, Initializer::String(_)));
        }
        _ => panic!(),
    }
}

#[test]
fn prefix_assignment_then_expansion() {
    // `FOO=bar echo $FOO`: `$FOO` must be set in the shell for the expansion to succeed.
    let sh = shell();
    let ast = parse("FOO=bar echo $FOO").unwrap();
    match &ast.terms[0].pipelines[0].commands[0] {
        Command::SimpleCommand { argv, .. } => {
            assert!(expand_words(&sh, argv, &vec![]).is_err());
            let mut sh = shell();
            sh.set("FOO", Value::String("bar".into()), false, &vec![]);
            assert_eq!(expand_words(&sh, argv, &vec![]).unwrap(), vec!["echo", "bar"]);
        }
        _ => panic!(),
    }
}
