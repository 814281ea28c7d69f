use vstd::prelude::*;

use crate::parser::ParseError;
use crate::process::ExitStatus;
use crate::shell::Shell;
use crate::text::{push_char, str_eq, views};

verus! {

/// The commands the shell runs itself.
#[derive(Debug, Clone, Copy, PartialEq, Eq, Structural)]
pub enum Builtin {
    Cd,
    Eval,
    Exit,
    Export,
    Source,
    Alias,
}

#[derive(Debug, Clone, PartialEq, Eq)]
pub enum BuiltinCommandError {
    NotFound,
}

pub open spec fn builtin_of(name: Seq<char>) -> Option<Builtin> {
    if name == seq!['c', 'd'] {
        Some(Builtin::Cd)
    } else if name == seq!['e', 'v', 'a', 'l'] {
        Some(Builtin::Eval)
    } else if name == seq!['e', 'x', 'i', 't'] {
        Some(Builtin::Exit)
    } else if name == seq!['e', 'x', 'p', 'o', 'r', 't'] {
        Some(Builtin::Export)
    } else if name == seq!['s', 'o', 'u', 'r', 'c', 'e'] || name == seq!['.'] {
        Some(Builtin::Source)
    } else if name == seq!['a', 'l', 'i', 'a', 's'] {
        Some(Builtin::Alias)
    } else {
        None
    }
}

/// The built-in command called `name`, if any.
pub fn builtin_command(name: &str) -> (r: Option<Builtin>)
    ensures
        r == builtin_of(name@),
{
    proof {
        reveal_strlit("cd");
        reveal_strlit("eval");
        reveal_strlit("exit");
        reveal_strlit("export");
        reveal_strlit("source");
        reveal_strlit(".");
        reveal_strlit("alias");
        assert("cd"@ =~= seq!['c', 'd']);
        assert("eval"@ =~= seq!['e', 'v', 'a', 'l']);
        assert("exit"@ =~= seq!['e', 'x', 'i', 't']);
        assert("export"@ =~= seq!['e', 'x', 'p', 'o', 'r', 't']);
        assert("source"@ =~= seq!['s', 'o', 'u', 'r', 'c', 'e']);
        assert("."@ =~= seq!['.']);
        assert("alias"@ =~= seq!['a', 'l', 'i', 'a', 's']);
    }
    if str_eq(name, "cd") {
        Some(Builtin::Cd)
    } else if str_eq(name, "eval") {
        Some(Builtin::Eval)
    } else if str_eq(name, "exit") {
        Some(Builtin::Exit)
    } else if str_eq(name, "export") {
        Some(Builtin::Export)
    } else if str_eq(name, "source") || str_eq(name, ".") {
        Some(Builtin::Source)
    } else if str_eq(name, "alias") {
        Some(Builtin::Alias)
    } else {
        None
    }
}

/// The index of the first `=` in `s`.
pub open spec fn first_eq(s: Seq<char>) -> Option<int> {
    if exists|i: int| 0 <= i < s.len() && s[i] == '=' {
        Some(choose|i: int| 0 <= i < s.len() && s[i] == '=' && forall|j: int| 0 <= j < i ==> s[j] != '=')
    } else {
        None
    }
}

/// The `(name, body)` of an alias definition `name=body`: the name is what precedes the
/// first `=`, non-empty and without whitespace.
pub open spec fn alias_definition(s: Seq<char>) -> Option<(Seq<char>, Seq<char>)> {
    match first_eq(s) {
        Some(i) => if i > 0 && forall|j: int| 0 <= j < i ==> !crate::text::is_ws(#[trigger] s[j]) {
            Some((s.subrange(0, i), s.subrange(i + 1, s.len() as int)))
        } else {
            None
        },
        None => None,
    }
}

/// Parses an alias definition `name=body`.
pub fn parse_alias(alias: &str) -> (r: Result<(String, String), ParseError>)
    ensures
        alias@.len() == 0 ==> r == Err::<(String, String), ParseError>(ParseError::Empty),
        alias@.len() > 0 ==> match r {
            Ok((name, body)) => alias_definition(alias@) == Some((name@, body@)),
            Err(e) => alias_definition(alias@) is None && e is Fatal,
        },
{
    let n = alias.unicode_len();
    if n == 0 {
        return Err(ParseError::Empty);
    }
    let mut i: usize = 0;
    let mut bad = false;
    while i < n && alias.get_char(i) != '='
        invariant
            n == alias@.len(),
            i <= n,
            forall|j: int| 0 <= j < i ==> alias@[j] != '=',
            bad == exists|j: int| 0 <= j < i && crate::text::is_ws(#[trigger] alias@[j]),
        decreases n - i,
    {
        let c = alias.get_char(i);
        if c == ' ' || c == '\t' || c == '\n' || c == '\r' {
            bad = true;
        }
        i += 1;
    }
    if i == n {
        return Err(ParseError::Fatal("expected `name=body'".to_owned()));
    }
    proof {
        let c = choose|k: int| 0 <= k < alias@.len() && alias@[k] == '=' && forall|j: int| 0 <= j < k ==> alias@[j] != '=';
        assert(alias@[i as int] == '=');
        if c < i {
        } else if c > i {
            assert(alias@[i as int] != '=');
        }
        assert(c == i);
    }
    if i == 0 || bad {
        return Err(ParseError::Fatal("invalid alias name".to_owned()));
    }
    let name = alias.substring_char(0, i).to_owned();
    let body = alias.substring_char(i + 1, n).to_owned();
    Ok((name, body))
}

/// The `alias` built-in.
pub struct Alias;

/// The `cd` built-in.
pub struct Cd;

/// The `eval` built-in.
pub struct Eval;

/// The `exit` built-in.
pub struct Exit;

/// The `export` built-in.
pub struct Export;

/// The `source` (or `.`) built-in.
pub struct Source;

/// What a built-in returns: its status, and a message for its standard error.
pub struct BuiltinOutcome {
    pub status: ExitStatus,
    pub message: Option<String>,
}

impl Alias {
    /// `alias name=body` registers an alias; without an argument it does nothing.
    pub fn run(&self, shell: &mut Shell, argv: &Vec<String>) -> (r: BuiltinOutcome)
        requires
            old(shell).wf(),
        ensures
            final(shell).wf(),
            argv@.len() < 2 ==> r.status == ExitStatus::ExitedWith(0) && final(shell).spec_aliases() == old(shell).spec_aliases(),
            argv@.len() >= 2 ==> match alias_definition(argv@[1]@) {
                Some((name, body)) => r.status == ExitStatus::ExitedWith(0)
                    && final(shell).spec_aliases().contains_key(name)
                    && final(shell).spec_aliases()[name]@ == body
                    && final(shell).spec_aliases() == old(shell).spec_aliases().insert(name, final(shell).spec_aliases()[name]),
                None => r.status == ExitStatus::ExitedWith(1) && r.message is Some
                    && final(shell).spec_aliases() == old(shell).spec_aliases(),
            },
            final(shell).spec_states() == old(shell).spec_states(),
            final(shell).spec_jobs() == old(shell).spec_jobs(),
    {
        if argv.len() < 2 {
            return BuiltinOutcome { status: ExitStatus::ExitedWith(0), message: None };
        }
        match parse_alias(argv[1].as_str()) {
            Ok((name, body)) => {
                shell.add_alias(name.as_str(), body);
                BuiltinOutcome { status: ExitStatus::ExitedWith(0), message: None }
            },
            Err(ParseError::Fatal(err)) => {
                BuiltinOutcome { status: ExitStatus::ExitedWith(1), message: Some(err) }
            },
            Err(ParseError::Empty) => {
                proof {
                    assert(argv@[1]@.len() == 0);
                    assert(first_eq(argv@[1]@) is None);
                }
                BuiltinOutcome {
                    status: ExitStatus::ExitedWith(1),
                    message: Some("alias can't be empty string".to_owned()),
                }
            },
        }
    }
}

/// The directory `dir` joined onto `base`, as `Path::join` does for a relative `dir`.
pub open spec fn join_path(base: Seq<char>, dir: Seq<char>) -> Seq<char> {
    if base.len() > 0 && base.last() == '/' {
        base + dir
    } else {
        base + seq!['/'] + dir
    }
}

impl Cd {
    /// Decides where `cd` goes from `cwd`: `-` goes back to the last directory pushed, an
    /// absolute path is taken as it is, a relative one is joined onto `cwd`, and no argument
    /// goes to `home` (or `/`). Every case but `-` first pushes `cwd`. `Err` when `-` finds
    /// nothing pushed.
    pub fn run(&self, shell: &mut Shell, argv: &Vec<String>, cwd: &str, home: Option<String>) -> (r: Result<String, ExitStatus>)
        requires
            old(shell).wf(),
        ensures
            final(shell).wf(),
            final(shell).spec_states() == old(shell).spec_states(),
            final(shell).spec_jobs() == old(shell).spec_jobs(),
            argv@.len() >= 2 && argv@[1]@ == seq!['-'] ==> match r {
                Ok(d) => old(shell).spec_cd_stack().len() > 0 && d@ == old(shell).spec_cd_stack().last()
                    && final(shell).spec_cd_stack() == old(shell).spec_cd_stack().drop_last(),
                Err(s) => old(shell).spec_cd_stack().len() == 0 && s == ExitStatus::ExitedWith(1)
                    && final(shell).spec_cd_stack() == old(shell).spec_cd_stack(),
            },
            !(argv@.len() >= 2 && argv@[1]@ == seq!['-']) ==> {
                &&& r is Ok
                &&& final(shell).spec_cd_stack() == old(shell).spec_cd_stack().push(cwd@)
                &&& argv@.len() >= 2 && argv@[1]@.len() > 0 && argv@[1]@[0] == '/' ==> r->Ok_0@ == argv@[1]@
                &&& argv@.len() >= 2 && !(argv@[1]@.len() > 0 && argv@[1]@[0] == '/') ==> r->Ok_0@ == join_path(cwd@, argv@[1]@)
                &&& argv@.len() < 2 ==> r->Ok_0@ == match home {
                    Some(h) => h@,
                    None => seq!['/'],
                }
            },
    {
        proof {
            reveal_strlit("-");
            reveal_strlit("/");
            assert("-"@ =~= seq!['-']);
            assert("/"@ =~= seq!['/']);
        }
        if argv.len() >= 2 && str_eq(argv[1].as_str(), "-") {
            return match shell.popd() {
                Some(d) => Ok(d),
                None => Err(ExitStatus::ExitedWith(1)),
            };
        }
        let dir = if argv.len() >= 2 {
            let a = argv[1].as_str();
            if a.unicode_len() > 0 && a.get_char(0) == '/' {
                a.to_owned()
            } else {
                let n = cwd.unicode_len();
                let mut d = cwd.to_owned();
                if !(n > 0 && cwd.get_char(n - 1) == '/') {
                    push_char(&mut d, '/');
                }
                d.concat(a)
            }
        } else {
            match home {
                Some(h) => h,
                None => "/".to_owned(),
            }
        };
        shell.pushd(cwd.to_owned());
        Ok(dir)
    }
}

/// The program `args` make for `eval`: each argument after the first, followed by a space.
pub open spec fn eval_program(args: Seq<Seq<char>>) -> Seq<char>
    decreases args.len(),
{
    if args.len() <= 1 {
        Seq::empty()
    } else {
        eval_program(args.drop_last()) + args.last() + seq![' ']
    }
}

impl Eval {
    /// The script `eval` runs.
    pub fn program(&self, argv: &Vec<String>) -> (r: String)
        ensures
            r@ == eval_program(views(argv@)),
    {
        let mut program = String::new();
        if argv.len() == 0 {
            return program;
        }
        let mut i: usize = 1;
        while i < argv.len()
            invariant
                1 <= i <= argv@.len(),
                program@ == eval_program(views(argv@).subrange(0, i as int)),
            decreases argv@.len() - i,
        {
            assert(views(argv@).subrange(0, i + 1).drop_last() =~= views(argv@).subrange(0, i as int));
            program = program.concat(argv[i].as_str());
            push_char(&mut program, ' ');
            i += 1;
        }
        assert(views(argv@).subrange(0, i as int) =~= views(argv@));
        program
    }
}

impl Exit {
    /// The status the shell exits with.
    pub fn status(&self) -> (r: i32)
        ensures
            r == 0,
    {
        0
    }
}

impl Export {
    /// Marks each argument for export.
    pub fn run(&self, shell: &mut Shell, argv: &Vec<String>) -> (r: ExitStatus)
        requires
            old(shell).wf(),
        ensures
            final(shell).wf(),
            r == ExitStatus::ExitedWith(0),
            forall|k: int| 1 <= k < argv@.len() ==> final(shell).spec_exported().contains(#[trigger] argv@[k]@),
            forall|n: Seq<char>| #[trigger] old(shell).spec_exported().contains(n) ==> final(shell).spec_exported().contains(n),
    {
        let mut i: usize = 1;
        while i < argv.len()
            invariant
                1 <= i,
                i <= argv@.len() || argv@.len() == 0,
                shell.wf(),
                forall|k: int| 1 <= k < i && k < argv@.len() ==> shell.spec_exported().contains(#[trigger] argv@[k]@),
                forall|n: Seq<char>| #[trigger] old(shell).spec_exported().contains(n) ==> shell.spec_exported().contains(n),
            decreases argv@.len() - i,
        {
            shell.export(argv[i].as_str());
            i += 1;
        }
        ExitStatus::ExitedWith(0)
    }
}

impl Source {
    /// The file `source` reads, or the message when none is given.
    pub fn file(&self, argv: &Vec<String>) -> (r: Result<String, String>)
        ensures
            argv@.len() >= 2 ==> (r matches Ok(f) && f@ == argv@[1]@),
            argv@.len() < 2 ==> r is Err,
    {
        if argv.len() >= 2 {
            Ok(argv[1].clone())
        } else {
            Err("source: filename argument required".to_owned())
        }
    }
}

} // verus!
