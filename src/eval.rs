use vstd::prelude::*;

use crate::builtins::{Builtin, builtin_command, builtin_of};
use crate::expand::{ExpandError, concat, expand_all, expand_spec, expand_word_into_string, expand_words, outputs_view};
use crate::parser::{Ast, Initializer, ParseError, RunIf, Term, parse, is_trimmed_piece, is_void, laid_out, well_formed_pipelines};
use crate::process::ExitStatus;
use crate::shell::Shell;
use crate::text::{chars_of, contains_char, views};
use crate::variable::Value;

verus! {

/// Whether a pipeline joined by `run_if` runs after the status `last`: `;` always, `&&`
/// after a zero exit, `||` after a non-zero exit.
pub open spec fn runs_after(last: ExitStatus, run_if: RunIf) -> bool {
    match run_if {
        RunIf::Always => true,
        RunIf::Success => last == ExitStatus::ExitedWith(0),
        RunIf::Failure => last matches ExitStatus::ExitedWith(n) && n != 0,
    }
}

pub fn should_run(last: ExitStatus, run_if: RunIf) -> (r: bool)
    ensures
        r == runs_after(last, run_if),
{
    match run_if {
        RunIf::Always => true,
        RunIf::Success => last == ExitStatus::ExitedWith(0),
        RunIf::Failure => match last {
            ExitStatus::ExitedWith(n) => n != 0,
            _ => false,
        },
    }
}

/// A position `(term, pipeline)` in a list of terms.
pub open spec fn valid_pos(terms: Seq<Term>, t: int, p: int) -> bool {
    0 <= t < terms.len() && 0 <= p < terms[t].pipelines@.len()
}

/// Whether `(ta, pa)` comes before `(tb, pb)`.
pub open spec fn pos_lt(ta: int, pa: int, tb: int, pb: int) -> bool {
    ta < tb || (ta == tb && pa < pb)
}

/// Walks the pipelines of a list of terms in order, choosing those to run from the status
/// each run leaves.
pub struct TermRunner {
    term: usize,
    pipeline: usize,
    last_status: ExitStatus,
}

impl TermRunner {
    /// The position of the next pipeline to consider.
    pub closed spec fn spec_cursor(&self) -> (int, int) {
        (self.term as int, self.pipeline as int)
    }

    pub closed spec fn spec_last_status(&self) -> ExitStatus {
        self.last_status
    }

    pub fn new() -> (r: TermRunner)
        ensures
            r.spec_cursor() == (0int, 0int),
            r.spec_last_status() == ExitStatus::ExitedWith(0),
    {
        TermRunner { term: 0, pipeline: 0, last_status: ExitStatus::ExitedWith(0) }
    }

    pub fn last_status(&self) -> (r: ExitStatus)
        ensures
            r == self.spec_last_status(),
    {
        self.last_status
    }

    /// The next pipeline to run: the first one from the cursor whose condition holds after
    /// the last status; the ones passed over are skipped. `None` when none is left.
    pub fn next(&mut self, terms: &Vec<Term>) -> (r: Option<(usize, usize)>)
        ensures
            final(self).spec_last_status() == old(self).spec_last_status(),
            match r {
                Some((t, p)) => {
                    &&& valid_pos(terms@, t as int, p as int)
                    &&& !pos_lt(t as int, p as int, old(self).spec_cursor().0, old(self).spec_cursor().1)
                    &&& runs_after(old(self).spec_last_status(), terms@[t as int].pipelines@[p as int].run_if)
                    &&& forall|tb: int, pb: int|
                        valid_pos(terms@, tb, pb) && !pos_lt(tb, pb, old(self).spec_cursor().0, old(self).spec_cursor().1)
                            && pos_lt(tb, pb, t as int, p as int) ==> !runs_after(
                            old(self).spec_last_status(),
                            #[trigger] terms@[tb].pipelines@[pb].run_if,
                        )
                    &&& final(self).spec_cursor() == (t as int, p + 1)
                },
                None => forall|tb: int, pb: int|
                    valid_pos(terms@, tb, pb) && !pos_lt(tb, pb, old(self).spec_cursor().0, old(self).spec_cursor().1)
                        ==> !runs_after(old(self).spec_last_status(), #[trigger] terms@[tb].pipelines@[pb].run_if),
            },
    {
        let ghost c0 = old(self).spec_cursor();
        while self.term < terms.len()
            invariant
                c0 == old(self).spec_cursor(),
                self.last_status == old(self).last_status,
                !pos_lt(self.term as int, self.pipeline as int, c0.0, c0.1),
                forall|tb: int, pb: int|
                    valid_pos(terms@, tb, pb) && !pos_lt(tb, pb, c0.0, c0.1)
                        && pos_lt(tb, pb, self.term as int, self.pipeline as int) ==> !runs_after(
                        self.last_status,
                        #[trigger] terms@[tb].pipelines@[pb].run_if,
                    ),
            decreases terms@.len() - self.term, usize::MAX - self.pipeline,
        {
            let term = &terms[self.term];
            if self.pipeline < term.pipelines.len() {
                let t = self.term;
                let p = self.pipeline;
                if should_run(self.last_status, term.pipelines[p].run_if) {
                    self.pipeline = p + 1;
                    return Some((t, p));
                }
                self.pipeline = p + 1;
            } else {
                self.term = self.term + 1;
                self.pipeline = 0;
            }
        }
        None
    }

    /// Records the status the last pipeline returned.
    pub fn report(&mut self, status: ExitStatus)
        ensures
            final(self).spec_last_status() == status,
            final(self).spec_cursor() == old(self).spec_cursor(),
    {
        self.last_status = status;
    }
}

/// What running a script starts from: its terms, or the status it returns at once (0 for
/// an empty script, -1 for one that does not parse).
pub fn parse_for_run(script: &str) -> (r: Result<Ast, ExitStatus>)
    ensures
        r == Err::<Ast, ExitStatus>(ExitStatus::ExitedWith(0)) <==> is_void(script@),
        r matches Err(s) ==> s == ExitStatus::ExitedWith(0) || s == ExitStatus::ExitedWith(-1i32),
        r matches Ok(ast) ==> ast.terms@.len() > 0 && forall|k: int|
            0 <= k < ast.terms@.len() ==> is_trimmed_piece(#[trigger] ast.terms@[k].code@, script@),
        r matches Ok(ast) ==> laid_out(script@, ast.terms@) && forall|k: int|
            0 <= k < ast.terms@.len() ==> well_formed_pipelines(#[trigger] ast.terms@[k].pipelines@),
{
    match parse(script) {
        Ok(ast) => Ok(ast),
        Err(ParseError::Empty) => Err(ExitStatus::ExitedWith(0)),
        Err(ParseError::Fatal(_)) => Err(ExitStatus::ExitedWith(-1)),
    }
}

} // verus!

verus! {

/// The pids of the commands that were forked, in order.
pub open spec fn running_pids(rs: Seq<ExitStatus>) -> Seq<i32>
    decreases rs.len(),
{
    if rs.len() == 0 {
        Seq::empty()
    } else {
        running_pids(rs.drop_last()) + match rs.last() {
            ExitStatus::Running(pid) => seq![pid],
            _ => Seq::empty(),
        }
    }
}

/// The number of pipes made for the first `i` of `n` commands: one after each command but
/// the last.
pub open spec fn pipes_made(i: nat, n: nat) -> nat {
    if i + 1 <= n { i } else if n >= 1 { (n - 1) as nat } else { 0 }
}

/// The number of pipe ends closed by the parent once `i` of `n` commands have started:
/// the write end after each command that writes to a pipe, the read end after each one
/// that reads from one.
pub open spec fn ends_closed(i: nat, n: nat) -> nat {
    pipes_made(i, n) + if i >= 1 { (i - 1) as nat } else { 0 }
}

/// Which pipe ends the parent closes after starting a command.
#[derive(Debug, Clone, Copy, PartialEq, Eq, Structural)]
pub struct PipeEnds {
    /// The write end of the pipe the command writes to.
    pub close_write: bool,
    /// The read end of the pipe the command reads from.
    pub close_read: bool,
}

/// How a pipeline ended once all its commands were started.
#[derive(Debug, Clone, PartialEq, Eq)]
pub enum PipelineOutcome {
    /// Nothing was run.
    Nothing,
    /// The last command ran in the shell and returned this status.
    Status(ExitStatus),
    /// The last command was forked: a job of these processes, in this process group,
    /// is to be waited for.
    Spawned { pgid: i32, childs: Vec<i32> },
}

/// The parent's bookkeeping while it starts the commands of a pipeline, left to right.
pub struct PipelineRun {
    n: usize,
    index: usize,
    pgid: Option<i32>,
    childs: Vec<i32>,
    last_result: Option<ExitStatus>,
    started: bool,
    pipes_created: Ghost<nat>,
    ends_closed: Ghost<nat>,
    results: Ghost<Seq<ExitStatus>>,
}

impl PipelineRun {
    pub closed spec fn spec_len(&self) -> nat {
        self.n as nat
    }

    pub closed spec fn spec_results(&self) -> Seq<ExitStatus> {
        self.results@
    }

    pub closed spec fn spec_pgid(&self) -> Option<i32> {
        self.pgid
    }

    pub closed spec fn spec_pipes_created(&self) -> nat {
        self.pipes_created@
    }

    pub closed spec fn spec_ends_closed(&self) -> nat {
        self.ends_closed@
    }

    pub closed spec fn wf(&self) -> bool {
        &&& self.index as nat == self.results@.len()
        &&& self.index <= self.n
        &&& self.childs@ == running_pids(self.results@)
        &&& self.pgid == if running_pids(self.results@).len() > 0 {
            Some(running_pids(self.results@)[0])
        } else {
            None
        }
        &&& self.last_result == if self.results@.len() > 0 {
            Some(self.results@.last())
        } else {
            None
        }
        &&& self.started ==> self.index < self.n
        &&& self.pipes_created@ == pipes_made((self.index + if self.started { 1int } else { 0 }) as nat, self.n as nat)
        &&& self.ends_closed@ == ends_closed(self.index as nat, self.n as nat)
    }

    /// Whether the next command was started and not yet recorded.
    pub closed spec fn spec_started(&self) -> bool {
        self.started
    }

    /// A run of a pipeline of `n` commands.
    pub fn new(n: usize) -> (r: PipelineRun)
        ensures
            r.wf(),
            r.spec_len() == n,
            r.spec_results() == Seq::<ExitStatus>::empty(),
            !r.spec_started(),
            r.spec_pipes_created() == 0,
            r.spec_ends_closed() == 0,
    {
        PipelineRun {
            n,
            index: 0,
            pgid: None,
            childs: Vec::new(),
            last_result: None,
            started: false,
            pipes_created: Ghost(0),
            ends_closed: Ghost(0),
            results: Ghost(Seq::empty()),
        }
    }

    /// Whether all commands were started.
    pub fn done(&self) -> (r: bool)
        requires
            self.wf(),
            !self.spec_started(),
        ensures
            r == (self.spec_results().len() == self.spec_len()),
    {
        self.index == self.n
    }

    /// Starts the next command; returns whether the parent makes a pipe for it to write
    /// into now, before the command runs: every command but the last writes into one.
    pub fn start_command(&mut self) -> (r: bool)
        requires
            old(self).wf(),
            !old(self).spec_started(),
            old(self).spec_results().len() < old(self).spec_len(),
        ensures
            final(self).wf(),
            final(self).spec_started(),
            final(self).spec_len() == old(self).spec_len(),
            final(self).spec_results() == old(self).spec_results(),
            final(self).spec_pgid() == old(self).spec_pgid(),
            r == (old(self).spec_results().len() + 1 < old(self).spec_len()),
            final(self).spec_pipes_created() == old(self).spec_pipes_created() + if r { 1nat } else { 0 },
            final(self).spec_ends_closed() == old(self).spec_ends_closed(),
    {
        let needed = self.n - self.index > 1;
        self.started = true;
        if needed {
            self.pipes_created = Ghost(self.pipes_created@ + 1);
        }
        needed
    }

    /// The process group of the pipeline: the pid of the first forked command.
    pub fn pgid(&self) -> (r: Option<i32>)
        requires
            self.wf(),
        ensures
            r == self.spec_pgid(),
            r == if running_pids(self.spec_results()).len() > 0 {
                Some(running_pids(self.spec_results())[0])
            } else {
                None
            },
    {
        self.pgid
    }

    /// Records how the next command started (run in the shell, or forked with its pid),
    /// and says which pipe ends the parent closes now.
    pub fn finish_command(&mut self, result: ExitStatus) -> (r: PipeEnds)
        requires
            old(self).wf(),
            old(self).spec_started(),
        ensures
            final(self).wf(),
            !final(self).spec_started(),
            final(self).spec_pipes_created() == old(self).spec_pipes_created(),
            final(self).spec_ends_closed() == old(self).spec_ends_closed() + (if r.close_write { 1nat } else { 0 })
                + (if r.close_read { 1nat } else { 0 }),
            final(self).spec_len() == old(self).spec_len(),
            final(self).spec_results() == old(self).spec_results().push(result),
            r.close_write == (old(self).spec_results().len() + 1 < old(self).spec_len()),
            r.close_read == (old(self).spec_results().len() > 0),
    {
        let writes = self.n - self.index > 1;
        let reads = self.index > 0;
        let ghost rs = self.results@.push(result);
        proof {
            assert(rs.drop_last() =~= self.results@);
        }
        match result {
            ExitStatus::Running(pid) => {
                if self.pgid.is_none() {
                    self.pgid = Some(pid);
                }
                let ghost prev = self.childs@;
                self.childs.push(pid);
                assert(self.childs@ =~= prev + seq![pid]);
            },
            _ => {
                assert(running_pids(rs) =~= running_pids(self.results@));
            },
        }
        if writes {
            self.ends_closed = Ghost(self.ends_closed@ + 1);
        }
        self.started = false;
        if reads {
            self.ends_closed = Ghost(self.ends_closed@ + 1);
        }
        self.last_result = Some(result);
        self.index = self.index + 1;
        self.results = Ghost(rs);
        PipeEnds { close_write: writes, close_read: reads }
    }

    /// How the pipeline ended: its status is that of its last command.
    pub fn outcome(self) -> (r: PipelineOutcome)
        requires
            self.wf(),
        ensures
            self.spec_results().len() == 0 ==> r == PipelineOutcome::Nothing,
            self.spec_results().len() > 0 ==> match self.spec_results().last() {
                ExitStatus::Running(_) => r matches PipelineOutcome::Spawned { pgid, childs }
                    && childs@ == running_pids(self.spec_results()) && childs@.len() > 0
                    && Some(pgid) == self.spec_pgid() && childs@.last() == self.spec_results().last()->Running_0,
                other => r == PipelineOutcome::Status(other),
            },
    {
        match self.last_result {
            None => PipelineOutcome::Nothing,
            Some(ExitStatus::Running(pid)) => {
                proof {
                    let rs = self.results@;
                    assert(running_pids(rs) == running_pids(rs.drop_last()) + seq![pid]);
                }
                PipelineOutcome::Spawned { pgid: self.pgid.unwrap(), childs: self.childs }
            },
            Some(other) => PipelineOutcome::Status(other),
        }
    }
}

/// Once every command of a pipeline of `n >= 1` commands has started, the parent has made
/// exactly `n - 1` pipes and closed both ends of each.
pub proof fn lemma_pipes_balanced(run: PipelineRun)
    requires
        run.wf(),
        run.spec_len() >= 1,
        !run.spec_started(),
        run.spec_results().len() == run.spec_len(),
    ensures
        run.spec_pipes_created() == run.spec_len() - 1,
        run.spec_ends_closed() == 2 * (run.spec_len() - 1),
{
}

} // verus!

verus! {

/// What `argv` runs.
#[derive(Debug, PartialEq, Eq)]
pub enum CommandTarget {
    /// An empty command line: nothing runs.
    Nothing,
    Builtin(Builtin),
    /// The executable at this path.
    External(String),
    /// The name is neither built in nor in the path table.
    NotFound,
}

/// Whether a command name is used as a path rather than looked up: it holds a `/`.
pub open spec fn is_path_name(name: Seq<char>) -> bool {
    name.contains('/')
}

/// Resolves `argv[0]`: a built-in first, then a path as written, then the path table.
pub fn resolve_command(shell: &Shell, argv: &Vec<String>) -> (r: CommandTarget)
    ensures
        argv@.len() == 0 ==> r == CommandTarget::Nothing,
        argv@.len() > 0 ==> match builtin_of(argv@[0]@) {
            Some(b) => r == CommandTarget::Builtin(b),
            None => if is_path_name(argv@[0]@) {
                r matches CommandTarget::External(p) && p@ == argv@[0]@
            } else {
                match shell.spec_path_table().spec_lookup(argv@[0]@) {
                    Some(q) => r matches CommandTarget::External(p) && p@ == q,
                    None => r == CommandTarget::NotFound,
                }
            },
        },
{
    if argv.len() == 0 {
        return CommandTarget::Nothing;
    }
    let name = argv[0].as_str();
    if let Some(b) = builtin_command(name) {
        return CommandTarget::Builtin(b);
    }
    let chars = chars_of(name);
    if contains_char(&chars, '/') {
        return CommandTarget::External(name.to_owned());
    }
    match shell.path_table().lookup(name) {
        Some(q) => CommandTarget::External(q.to_owned()),
        None => CommandTarget::NotFound,
    }
}

/// Evaluates an assignment's right-hand side. `(x)` with a single empty element is the
/// empty array.
pub fn evaluate_initializer(shell: &Shell, initializer: &Initializer, outputs: &Vec<Vec<String>>) -> (r: Result<Value, ExpandError>)
    ensures
        match initializer {
            Initializer::String(w) => match r {
                Ok(v) => v matches Value::String(s) && (expand_spec(*shell, w.0@, shell.spec_ifs(), if outputs@.len() > 0 { views(outputs@[0]@) } else { Seq::empty() }) matches Some(fs) && s@ == concat(fs)),
                Err(_) => expand_spec(*shell, w.0@, shell.spec_ifs(), if outputs@.len() > 0 { views(outputs@[0]@) } else { Seq::empty() }) is None,
            },
            Initializer::Array(ws) => match r {
                Ok(v) => v matches Value::Array(elems) && (expand_all(*shell, ws@, shell.spec_ifs(), outputs_view(outputs@)) matches Some(args)
                    && if args.len() == 1 && args[0].len() == 0 { elems@.len() == 0 } else { views(elems@) == args }),
                Err(_) => expand_all(*shell, ws@, shell.spec_ifs(), outputs_view(outputs@)) is None,
            },
        },
{
    match initializer {
        Initializer::String(word) => {
            let ifs = shell.ifs();
            let empty: Vec<String> = Vec::new();
            assert(views(empty@) =~= Seq::<Seq<char>>::empty());
            let outs = if outputs.len() > 0 {
                &outputs[0]
            } else {
                &empty
            };
            let s = expand_word_into_string(shell, word, ifs.as_str(), outs)?;
            Ok(Value::String(s))
        },
        Initializer::Array(words) => {
            let elems = expand_words(shell, words, outputs)?;
            if elems.len() == 1 && elems[0].unicode_len() == 0 {
                Ok(Value::Array(Vec::new()))
            } else {
                Ok(Value::Array(elems))
            }
        },
    }
}

/// The environment a child gets from the shell: each exported name that holds a
/// variable, with its value read as a string.
pub fn exported_environment(shell: &Shell) -> (r: Vec<(String, String)>)
    ensures
        forall|k: int| 0 <= k < r@.len() ==> shell.spec_exported().contains((#[trigger] r@[k]).0@)
            && (shell.spec_get(r@[k].0@) matches Some(v) && v.spec_str() == r@[k].1@),
        forall|n: Seq<char>| shell.spec_exported().contains(n) && #[trigger] shell.spec_get(n) is Some
            ==> exists|k: int| 0 <= k < r@.len() && (#[trigger] r@[k]).0@ == n,
{
    let names = shell.exported_names();
    let mut r: Vec<(String, String)> = Vec::new();
    let mut i: usize = 0;
    while i < names.len()
        invariant
            i <= names@.len(),
            forall|k: Seq<char>| views(names@).contains(k) <==> shell.spec_exported().contains(k),
            forall|k: int| 0 <= k < r@.len() ==> shell.spec_exported().contains((#[trigger] r@[k]).0@)
                && (shell.spec_get(r@[k].0@) matches Some(v) && v.spec_str() == r@[k].1@),
            forall|j: int| 0 <= j < i && #[trigger] shell.spec_get(names@[j]@) is Some
                ==> exists|k: int| 0 <= k < r@.len() && (#[trigger] r@[k]).0@ == names@[j]@,
        decreases names@.len() - i,
    {
        let name = names[i].as_str();
        assert(views(names@)[i as int] == names@[i as int]@);
        let ghost prev = r@;
        if let Some(var) = shell.get(name) {
            r.push((name.to_owned(), var.as_str().to_owned()));
            assert(r@[r@.len() - 1].0@ == names@[i as int]@);
        }
        assert forall|j: int| 0 <= j < i + 1 && #[trigger] shell.spec_get(names@[j]@) is Some
            implies exists|k: int| 0 <= k < r@.len() && (#[trigger] r@[k]).0@ == names@[j]@ by {
            if j < i {
                let k = choose|k: int| 0 <= k < prev.len() && (#[trigger] prev[k]).0@ == names@[j]@;
                assert(r@[k] == prev[k]);
            } else {
                assert(r@[r@.len() - 1].0@ == names@[j]@);
            }
        }
        i += 1;
    }
    assert forall|n: Seq<char>| shell.spec_exported().contains(n) && #[trigger] shell.spec_get(n) is Some
        implies exists|k: int| 0 <= k < r@.len() && (#[trigger] r@[k]).0@ == n by {
        assert(views(names@).contains(n));
        let j = choose|j: int| 0 <= j < views(names@).len() && views(names@)[j] == n;
        assert(names@[j]@ == n);
    }
    r
}

} // verus!
