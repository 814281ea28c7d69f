use vstd::prelude::*;

use crate::text::{string_of, chars_of};

verus! {

/// A parsed script: the terms in source order.
#[derive(Debug, PartialEq, Eq)]
pub struct Ast {
    pub terms: Vec<Term>,
}

/// A unit of input ended by `;`, `&` or a newline.
#[derive(Debug, PartialEq, Eq)]
pub struct Term {
    /// The source text of the term, without surrounding whitespace.
    pub code: String,
    pub pipelines: Vec<Pipeline>,
    /// Set when the term is followed by `&`.
    pub background: bool,
}

#[derive(Debug, PartialEq, Eq, Clone)]
pub enum ParseError {
    Fatal(String),
    Empty,
}

/// How a pipeline's execution depends on the status left by the one before it.
#[derive(Debug, Clone, Copy, PartialEq, Eq, Structural)]
pub enum RunIf {
    Always,
    /// Run the pipeline if the previous one returned 0.
    Success,
    /// Run the pipeline if the previous one returned a non-zero value.
    Failure,
}

#[derive(Debug, PartialEq, Eq)]
pub struct Assignment {
    pub name: String,
    pub initializer: Initializer,
    pub index: Option<Expr>,
}

#[derive(Debug, PartialEq, Eq)]
pub struct BinaryExpr {
    pub lhs: Box<Expr>,
    pub rhs: Box<Expr>,
}

/// Arithmetic expressions, kept for array indices and arithmetic forms.
#[derive(Debug, PartialEq, Eq)]
pub enum Expr {
    Add(BinaryExpr),
    Sub(BinaryExpr),
    Mul(BinaryExpr),
    Div(BinaryExpr),
    Assign { name: String, rhs: Box<Expr> },
    Literal(i32),
    /// `foo` in `$((foo + 1))`.
    Parameter { name: String },
    Eq(Box<Expr>, Box<Expr>),
    Ne(Box<Expr>, Box<Expr>),
    Lt(Box<Expr>, Box<Expr>),
    Le(Box<Expr>, Box<Expr>),
    Gt(Box<Expr>, Box<Expr>),
    Ge(Box<Expr>, Box<Expr>),
    /// `i++`.
    Inc(String),
    /// `i--`.
    Dec(String),
    Expr(Box<Expr>),
}

#[derive(Debug, PartialEq, Eq)]
pub enum Initializer {
    Array(Vec<Word>),
    String(Word),
}

#[derive(Debug, PartialEq, Eq)]
pub enum Command {
    SimpleCommand {
        argv: Vec<Word>,
        redirects: Vec<Redirection>,
        /// Assignment prefixes (e.g. `RAILS_ENV=production rails server`).
        assignments: Vec<Assignment>,
    },
    /// `foo=1 bar="Hello World"` with no command.
    Assignment { assignments: Vec<Assignment> },
}

#[derive(Debug, PartialEq, Eq, Clone)]
pub enum LiteralChar {
    Normal(char),
    Escaped(char),
}

#[derive(Debug, PartialEq, Eq)]
pub struct Redirection {
    pub fd: usize,
    pub direction: RedirectionDirection,
    pub target: RedirectionType,
}

#[derive(Debug, PartialEq, Eq, Clone, Copy)]
pub enum RedirectionDirection {
    /// `cat < foo.txt`
    Input,
    /// `cat > foo.txt`
    Output,
    /// `cat >> foo.txt`
    Append,
}

#[derive(Debug, PartialEq, Eq)]
pub enum RedirectionType {
    File(Word),
}

/// The operator of a `${name:op}` expansion; only the plain form is interpreted.
#[derive(Debug, PartialEq, Eq, Clone)]
pub enum ExpansionOp {
    GetOrEmpty,
    /// The text after `:`, kept as written.
    Other(String),
}

#[derive(Debug, PartialEq, Eq)]
pub enum Span {
    Literal(String),
    LiteralChars(Vec<LiteralChar>),
    Parameter { name: String, op: ExpansionOp, quoted: bool },
    /// `~` or `~user` at the start of an unquoted word.
    Tilde(Option<String>),
    /// `$(...)`.
    Command { body: Vec<Term>, quoted: bool },
}

#[derive(Debug, PartialEq, Eq)]
pub struct Word(pub Vec<Span>);

impl Word {
    pub fn spans(&self) -> (r: &Vec<Span>)
        ensures
            r == &self.0,
    {
        &self.0
    }
}

#[derive(Debug, PartialEq, Eq)]
pub struct Pipeline {
    pub run_if: RunIf,
    /// Separated by `|`.
    pub commands: Vec<Command>,
}

pub open spec fn is_space(c: char) -> bool {
    c == ' ' || c == '\t' || c == '\n'
}

pub open spec fn is_blank(c: char) -> bool {
    c == ' ' || c == '\t'
}

/// Characters that end an unquoted word.
pub open spec fn is_word_stop(c: char) -> bool {
    is_space(c) || c == ';' || c == '&' || c == '|' || c == '<' || c == '>' || c == '(' || c
        == ')'
}

pub open spec fn is_name_start(c: char) -> bool {
    ('a' <= c && c <= 'z') || ('A' <= c && c <= 'Z') || c == '_'
}

pub open spec fn is_name_char(c: char) -> bool {
    is_name_start(c) || ('0' <= c && c <= '9')
}

/// Whether `s` from index `i` holds nothing but whitespace and comments; `in_comment`
/// says that a comment is open at `i`.
pub open spec fn void_from(s: Seq<char>, i: int, in_comment: bool) -> bool
    decreases s.len() - i,
{
    if i >= s.len() || i < 0 {
        true
    } else if in_comment {
        void_from(s, i + 1, s[i] != '\n')
    } else if is_space(s[i]) {
        void_from(s, i + 1, false)
    } else if s[i] == '#' {
        void_from(s, i + 1, true)
    } else {
        false
    }
}

/// A script with nothing to run: only whitespace and comments.
pub open spec fn is_void(s: Seq<char>) -> bool {
    void_from(s, 0, false)
}

/// `code` is a piece of `src` that neither starts nor ends with whitespace.
pub open spec fn is_trimmed_piece(code: Seq<char>, src: Seq<char>) -> bool {
    exists|i: int, j: int|
        0 <= i < j <= src.len() && code == src.subrange(i, j) && !is_space(#[trigger] src[i])
            && !is_space(#[trigger] src[j - 1])
}


/// Characters that stand for themselves wherever they are in a word.
pub open spec fn is_plain(c: char) -> bool {
    !is_word_stop(c) && c != '\'' && c != '"' && c != '\\' && c != '$' && c != '`' && c != '#'
        && c != '~' && c != '='
}

/// The index of the first newline at or after `i`, or the length.
pub open spec fn line_end(s: Seq<char>, i: int) -> int
    decreases s.len() - i,
{
    if i >= s.len() || i < 0 {
        s.len() as int
    } else if s[i] == '\n' {
        i
    } else {
        line_end(s, i + 1)
    }
}

/// From `i` to the end of its line there are only plain characters and blanks, and the
/// first one is plain.
pub open spec fn plain_from(s: Seq<char>, i: int) -> bool {
    &&& 0 <= i < line_end(s, i)
    &&& is_plain(s[i])
    &&& forall|k: int| i <= k < line_end(s, i) ==> is_plain(#[trigger] s[k]) || is_blank(s[k])
}

/// The words of `s[i..l]`: its runs of non-blank characters; `cur` is the start of the
/// run open at `i`.
pub open spec fn runs(s: Seq<char>, i: int, l: int, cur: Option<int>) -> Seq<Seq<char>>
    decreases l - i,
{
    if i >= l {
        match cur {
            Some(st) => seq![s.subrange(st, l)],
            None => Seq::empty(),
        }
    } else if is_blank(s[i]) {
        match cur {
            Some(st) => seq![s.subrange(st, i)] + runs(s, i + 1, l, None),
            None => runs(s, i + 1, l, None),
        }
    } else {
        runs(
            s,
            i + 1,
            l,
            match cur {
                Some(st) => Some(st),
                None => Some(i),
            },
        )
    }
}

/// `w` is the word of the single literal `text`.
pub open spec fn literal_word(w: Word, text: Seq<char>) -> bool {
    w.0@.len() == 1 && (w.0@[0] matches Span::Literal(t) && t@ == text)
}

/// `ws` are the literal words `texts`.
pub open spec fn literal_words(ws: Seq<Word>, texts: Seq<Seq<char>>) -> bool {
    ws.len() == texts.len() && forall|k: int| 0 <= k < ws.len() ==> literal_word(#[trigger] ws[k], texts[k])
}

/// `q` ends the last word of `s[i..l]`: blanks only follow it.
pub open spec fn ends_last_word(s: Seq<char>, i: int, l: int, q: int) -> bool {
    &&& i < q <= l
    &&& !is_blank(s[q - 1])
    &&& forall|k: int| q <= k < l ==> is_blank(#[trigger] s[k])
}

/// The command a plain line stands for: its words, as literals, with nothing else.
pub open spec fn plain_command(c: Command, s: Seq<char>, i: int) -> bool {
    c matches Command::SimpleCommand { argv, redirects, assignments } && redirects@.len() == 0
        && assignments@.len() == 0 && literal_words(argv@, runs(s, i, line_end(s, i), None))
}

proof fn lemma_line_end(s: Seq<char>, i: int)
    requires
        0 <= i <= s.len(),
    ensures
        i <= line_end(s, i) <= s.len(),
        line_end(s, i) < s.len() ==> s[line_end(s, i)] == '\n',
        forall|k: int| i <= k < line_end(s, i) ==> #[trigger] s[k] != '\n',
    decreases s.len() - i,
{
    if i < s.len() && s[i] != '\n' {
        lemma_line_end(s, i + 1);
    }
}

proof fn lemma_line_end_same(s: Seq<char>, i: int, j: int)
    requires
        0 <= i <= j <= line_end(s, i),
        i <= s.len(),
    ensures
        line_end(s, j) == line_end(s, i),
    decreases j - i,
{
    lemma_line_end(s, i);
    if i < j {
        assert(s[i] != '\n');
        lemma_line_end_same(s, i + 1, j);
    }
}

proof fn lemma_runs_blanks(s: Seq<char>, i: int, j: int, l: int)
    requires
        i <= j <= l,
        forall|k: int| i <= k < j ==> is_blank(#[trigger] s[k]),
    ensures
        runs(s, i, l, None) == runs(s, j, l, None),
    decreases j - i,
{
    if i < j {
        lemma_runs_blanks(s, i + 1, j, l);
    }
}

proof fn lemma_runs_word(s: Seq<char>, m: int, j: int, l: int, st: int)
    requires
        m <= j <= l,
        forall|k: int| m <= k < j ==> !is_blank(#[trigger] s[k]),
    ensures
        runs(s, m, l, Some(st)) == runs(s, j, l, Some(st)),
    decreases j - m,
{
    if m < j {
        lemma_runs_word(s, m + 1, j, l, st);
    }
}

/// Reading the word `s[i..j]` from `i`: it is the first of the runs.
proof fn lemma_runs_take(s: Seq<char>, i: int, j: int, l: int)
    requires
        i < j <= l,
        forall|k: int| i <= k < j ==> !is_blank(#[trigger] s[k]),
        j == l || is_blank(s[j]),
    ensures
        runs(s, i, l, None) == seq![s.subrange(i, j)] + if j < l {
            runs(s, j + 1, l, None)
        } else {
            Seq::empty()
        },
{
    lemma_runs_word(s, i + 1, j, l, i);
    if j == l {
        assert(seq![s.subrange(i, j)] + Seq::<Seq<char>>::empty() =~= seq![s.subrange(i, j)]);
    }
}

/// The first non-blank index from `i`, or the length.
pub open spec fn lead(s: Seq<char>, i: int) -> int
    decreases s.len() - i,
{
    if i >= s.len() || i < 0 {
        s.len() as int
    } else if is_blank(s[i]) {
        lead(s, i + 1)
    } else {
        i
    }
}

/// A script that is one line of plain words separated by blanks, possibly ended by a
/// newline.
pub open spec fn is_plain_line(s: Seq<char>) -> bool {
    plain_from(s, lead(s, 0)) && line_end(s, lead(s, 0)) >= s.len() - 1
}

/// The term a plain line stands for: one simple command of its words, whose code is the
/// line without surrounding blanks.
pub open spec fn plain_term(t: Term, s: Seq<char>) -> bool {
    let i = lead(s, 0);
    let l = line_end(s, i);
    &&& !t.background
    &&& t.pipelines@.len() == 1
    &&& t.pipelines@[0].run_if == RunIf::Always
    &&& t.pipelines@[0].commands@.len() == 1
    &&& plain_command(t.pipelines@[0].commands@[0], s, i)
    &&& exists|e: int| ends_last_word(s, i, l, e) && t.code@ == s.subrange(i, e)
}

proof fn lemma_lead(s: Seq<char>, i: int)
    requires
        0 <= i <= s.len(),
    ensures
        i <= lead(s, i) <= s.len(),
        forall|k: int| i <= k < lead(s, i) ==> is_blank(#[trigger] s[k]),
        lead(s, i) < s.len() ==> !is_blank(s[lead(s, i)]),
    decreases s.len() - i,
{
    if i < s.len() && is_blank(s[i]) {
        lemma_lead(s, i + 1);
    }
}

/// `s[k]` lies in a comment opened at or after `a`.
pub open spec fn commented(s: Seq<char>, a: int, k: int) -> bool {
    exists|c: int| a <= c <= k && s[c] == '#' && forall|m: int| c <= m <= k ==> #[trigger] s[m] != '\n'
}

/// Between `a` and `b` there is only whitespace and comments.
pub open spec fn void_gap(s: Seq<char>, a: int, b: int) -> bool {
    a <= b && forall|k: int| a <= k < b ==> is_space(#[trigger] s[k]) || commented(s, a, k)
}

/// Between `a` and `b` there are only blanks.
pub open spec fn blank_gap(s: Seq<char>, a: int, b: int) -> bool {
    a <= b && forall|k: int| a <= k < b ==> is_blank(#[trigger] s[k])
}

/// Pipeline `k` of an and-or list follows the one before, which ends at `prev_end`: blanks,
/// the operator at `j`, then whitespace and comments up to `start`. `&&` makes it run on
/// success, `||` on failure.
pub open spec fn joined(s: Seq<char>, prev_end: int, j: int, start: int, run_if: RunIf) -> bool {
    &&& blank_gap(s, prev_end, j)
    &&& j + 2 <= start <= s.len()
    &&& void_gap(s, j + 2, start)
    &&& (s[j] == '&' && s[j + 1] == '&' && run_if == RunIf::Success) || (s[j] == '|' && s[j + 1] == '|'
        && run_if == RunIf::Failure)
}

/// Where the pipelines of an and-or list stand in `s`: pipeline `k` spans
/// `starts[k]..ends[k]`, and the operator joining it to the one before is at `seps[k - 1]`.
pub open spec fn and_or_layout(
    s: Seq<char>,
    ps: Seq<Pipeline>,
    starts: Seq<int>,
    ends: Seq<int>,
    seps: Seq<int>,
) -> bool {
    &&& ps.len() > 0
    &&& starts.len() == ps.len() && ends.len() == ps.len() && seps.len() + 1 == ps.len()
    &&& forall|k: int| 0 <= k < ps.len() ==> 0 <= #[trigger] starts[k] < ends[k] <= s.len()
    &&& ps[0].run_if == RunIf::Always
    &&& forall|k: int| 0 < k < ps.len() ==> joined(s, ends[k - 1], seps[k - 1], starts[k], (#[trigger] ps[k]).run_if)
}

/// Where the whitespace after a term's separator at `t` begins: a comment that ends a
/// term belongs to it.
pub open spec fn after_sep(s: Seq<char>, t: int) -> int {
    if t < s.len() && s[t] == '#' {
        t
    } else {
        t + 1
    }
}

/// Term `t` spans `start..sep` of `s`: its code is `s[start..code_end]`, only whitespace
/// follows up to its separator at `sep` (`;`, `&`, a newline, a comment or the closing `)`
/// of a substitution; `s.len()` when none), it runs in the background exactly when that
/// separator is `&`, and its pipelines stand as `lay` says.
pub open spec fn term_at(s: Seq<char>, t: Term, start: int, code_end: int, sep: int, lay: (Seq<int>, Seq<int>, Seq<int>)) -> bool {
    &&& 0 <= start < code_end <= sep <= s.len()
    &&& t.code@ == s.subrange(start, code_end)
    &&& !is_space(s[start]) && !is_space(s[code_end - 1])
    &&& forall|m: int| code_end <= m < sep ==> is_space(#[trigger] s[m])
    &&& and_or_layout(s, t.pipelines@, lay.0, lay.1, lay.2)
    &&& lay.0[0] == start && code_end <= lay.1.last() <= sep
    &&& sep < s.len() ==> (s[sep] == ';' || s[sep] == '&' || s[sep] == '\n' || s[sep] == '#' || s[sep] == ')')
    &&& t.background == (sep < s.len() && s[sep] == '&')
}

/// The terms stand in `s` in order, each after the separator of the one before and the
/// whitespace that follows it.
pub open spec fn term_layout(
    s: Seq<char>,
    terms: Seq<Term>,
    starts: Seq<int>,
    code_ends: Seq<int>,
    seps: Seq<int>,
    lays: Seq<(Seq<int>, Seq<int>, Seq<int>)>,
) -> bool {
    &&& starts.len() == terms.len() && code_ends.len() == terms.len() && seps.len() == terms.len()
        && lays.len() == terms.len()
    &&& forall|k: int| 0 <= k < terms.len() ==> term_at(s, #[trigger] terms[k], starts[k], code_ends[k], seps[k], lays[k])
    &&& forall|k: int| 0 < k < terms.len() ==> term_follows(s, seps[k - 1], #[trigger] starts[k])
}

/// A term starting at `start` follows the separator at `prev_sep` of the one before,
/// with only whitespace and comments between.
pub open spec fn term_follows(s: Seq<char>, prev_sep: int, start: int) -> bool {
    prev_sep < s.len() && void_gap(s, after_sep(s, prev_sep), start)
}

proof fn lemma_layout_push(
    s: Seq<char>,
    terms: Seq<Term>,
    t: Term,
    starts: Seq<int>,
    code_ends: Seq<int>,
    seps: Seq<int>,
    lays: Seq<(Seq<int>, Seq<int>, Seq<int>)>,
    start: int,
    code_end: int,
    sep: int,
    lay: (Seq<int>, Seq<int>, Seq<int>),
)
    requires
        term_layout(s, terms, starts, code_ends, seps, lays),
        term_at(s, t, start, code_end, sep, lay),
        terms.len() > 0 ==> seps.last() < s.len() && void_gap(s, after_sep(s, seps.last()), start),
    ensures
        term_layout(s, terms.push(t), starts.push(start), code_ends.push(code_end), seps.push(sep), lays.push(lay)),
{
    let ts = terms.push(t);
    let st = starts.push(start);
    let sp = seps.push(sep);
    assert forall|k: int| 0 <= k < ts.len() implies term_at(s, #[trigger] ts[k], st[k], code_ends.push(code_end)[k], sp[k], lays.push(lay)[k]) by {
        if k < terms.len() {
            assert(ts[k] == terms[k]);
        }
    }
    assert forall|k: int| 0 < k < ts.len() implies term_follows(s, sp[k - 1], #[trigger] st[k]) by {
        if k < terms.len() {
            assert(st[k] == starts[k]);
            assert(sp[k - 1] == seps[k - 1]);
        } else {
            assert(sp[k - 1] == seps.last());
        }
    }
}

/// The whole script is its terms: whitespace and comments before the first, after the
/// last, and between each separator and the next term.
pub open spec fn script_layout(
    s: Seq<char>,
    terms: Seq<Term>,
    starts: Seq<int>,
    code_ends: Seq<int>,
    seps: Seq<int>,
    lays: Seq<(Seq<int>, Seq<int>, Seq<int>)>,
) -> bool {
    &&& term_layout(s, terms, starts, code_ends, seps, lays)
    &&& terms.len() > 0
    &&& void_gap(s, 0, starts[0])
    &&& seps.last() == s.len() || (s[seps.last()] != ')' && void_gap(s, after_sep(s, seps.last()), s.len() as int))
}

/// The terms are those of `s`, as `script_layout` places them.
pub open spec fn laid_out(s: Seq<char>, terms: Seq<Term>) -> bool {
    exists|starts: Seq<int>, code_ends: Seq<int>, seps: Seq<int>, lays: Seq<(Seq<int>, Seq<int>, Seq<int>)>|
        #[trigger] script_layout(s, terms, starts, code_ends, seps, lays)
}

/// Every word holds at least one span.
pub open spec fn word_ok(w: Word) -> bool {
    w.0@.len() > 0
}

pub open spec fn assignment_ok(a: Assignment) -> bool {
    match a.initializer {
        Initializer::String(w) => word_ok(w),
        Initializer::Array(ws) => forall|k: int| 0 <= k < ws@.len() ==> word_ok(#[trigger] ws@[k]),
    }
}

pub open spec fn redirect_ok(r: Redirection) -> bool {
    match r.target {
        RedirectionType::File(w) => word_ok(w),
    }
}

/// The words of a command, its redirection targets and assignments included, are not
/// empty.
pub open spec fn command_words_ok(c: Command) -> bool {
    match c {
        Command::SimpleCommand { argv, redirects, assignments } => {
            &&& forall|k: int| 0 <= k < argv@.len() ==> word_ok(#[trigger] argv@[k])
            &&& forall|k: int| 0 <= k < redirects@.len() ==> redirect_ok(#[trigger] redirects@[k])
            &&& forall|k: int| 0 <= k < assignments@.len() ==> assignment_ok(#[trigger] assignments@[k])
        },
        Command::Assignment { assignments } => forall|k: int| 0 <= k < assignments@.len() ==> assignment_ok(#[trigger] assignments@[k]),
    }
}

/// The pipelines of one term: at least one; the first runs unconditionally and each
/// later one after `&&` or `||`; none is empty.
pub open spec fn well_formed_pipelines(ps: Seq<Pipeline>) -> bool {
    &&& ps.len() > 0
    &&& ps[0].run_if == RunIf::Always
    &&& forall|k: int| 0 < k < ps.len() ==> (#[trigger] ps[k]).run_if != RunIf::Always
    &&& forall|k: int| 0 <= k < ps.len() ==> (#[trigger] ps[k]).commands@.len() > 0
    &&& forall|k: int, j: int| 0 <= k < ps.len() && 0 <= j < ps[k].commands@.len() ==> command_words_ok(#[trigger] ps[k].commands@[j])
}

/// Blanks skipped after the last word of a plain line lead to its end.
proof fn lemma_after_last_word(s: Seq<char>, pos: int, q: int, t: int)
    requires
        0 <= pos,
        ends_last_word(s, pos, line_end(s, pos), q),
        line_end(s, pos) <= s.len(),
        line_end(s, pos) < s.len() ==> s[line_end(s, pos)] == '\n',
        q <= t <= s.len(),
        forall|k: int| q <= k < t ==> is_blank(#[trigger] s[k]),
        t < s.len() ==> !is_blank(s[t]),
    ensures
        t == line_end(s, pos),
{
    let l = line_end(s, pos);
    if t < l {
        assert(is_blank(s[t]));
    }
    if t > l {
        assert(is_blank(s[l]));
    }
}

fn ch_space(c: char) -> (r: bool)
    ensures
        r == is_space(c),
{
    c == ' ' || c == '\t' || c == '\n'
}

fn ch_blank(c: char) -> (r: bool)
    ensures
        r == is_blank(c),
{
    c == ' ' || c == '\t'
}

fn ch_word_stop(c: char) -> (r: bool)
    ensures
        r == is_word_stop(c),
{
    ch_space(c) || c == ';' || c == '&' || c == '|' || c == '<' || c == '>' || c == '(' || c
        == ')'
}

fn ch_name_start(c: char) -> (r: bool)
    ensures
        r == is_name_start(c),
{
    ('a' <= c && c <= 'z') || ('A' <= c && c <= 'Z') || c == '_'
}

fn ch_name_char(c: char) -> (r: bool)
    ensures
        r == is_name_char(c),
{
    ch_name_start(c) || ('0' <= c && c <= '9')
}

fn fatal(msg: &str) -> (r: ParseError)
    ensures
        r is Fatal,
{
    ParseError::Fatal(msg.to_owned())
}

/// Skips whitespace and comments from `pos`.
#[verifier::spinoff_prover]
#[verifier::rlimit(100)]
fn skip_void(s: &Vec<char>, pos: usize) -> (r: usize)
    requires
        pos <= s@.len(),
    ensures
        pos <= r <= s@.len(),
        void_from(s@, pos as int, false) == void_from(s@, r as int, false),
        r < s@.len() ==> !is_space(s@[r as int]) && s@[r as int] != '#',
        (forall|k: int| pos <= k < s@.len() ==> is_blank(#[trigger] s@[k])) ==> r == s@.len(),
        forall|j: int| pos <= j < s@.len() && !is_space(#[trigger] s@[j]) && s@[j] != '#' && (forall|k: int| pos <= k < j ==> is_blank(#[trigger] s@[k])) ==> r == j,
        void_gap(s@, pos as int, r as int),
{
    let mut i = pos;
    let mut in_comment = false;
    let ghost mut cstart: int = pos as int;
    while i < s.len()
        invariant
            pos <= i <= s@.len(),
            void_gap(s@, pos as int, i as int),
            in_comment ==> pos <= cstart < i && s@[cstart] == '#' && forall|m: int| cstart <= m < i ==> #[trigger] s@[m] != '\n',
            void_from(s@, pos as int, false) == void_from(s@, i as int, in_comment),
            (forall|k: int| pos <= k < i ==> is_blank(#[trigger] s@[k])) ==> !in_comment,
            forall|j: int| pos <= j < s@.len() && !is_space(#[trigger] s@[j]) && s@[j] != '#' && (forall|k: int| pos <= k < j ==> is_blank(#[trigger] s@[k])) ==> i <= j,
        decreases s@.len() - i,
    {
        let c = s[i];
        if in_comment {
            proof {
                if c != '\n' {
                    assert(forall|m: int| cstart <= m <= i ==> #[trigger] s@[m] != '\n');
                    assert(commented(s@, pos as int, i as int));
                }
            }
            in_comment = c != '\n';
        } else if ch_space(c) {
        } else if c == '#' {
            proof {
                cstart = i as int;
                assert(forall|m: int| cstart <= m <= i ==> #[trigger] s@[m] != '\n');
                assert(commented(s@, pos as int, i as int));
            }
            in_comment = true;
        } else {
            return i;
        }
        proof {
            lemma_gap_extend(s@, pos as int, i as int);
        }
        i += 1;
    }
    i
}

proof fn lemma_gap_extend(s: Seq<char>, a: int, i: int)
    requires
        void_gap(s, a, i),
        0 <= i < s.len(),
        is_space(s[i]) || commented(s, a, i),
    ensures
        void_gap(s, a, i + 1),
{
}

/// Skips blanks (not newlines) from `pos`.
fn skip_blanks(s: &Vec<char>, pos: usize) -> (r: usize)
    requires
        pos <= s@.len(),
    ensures
        pos <= r <= s@.len(),
        r < s@.len() ==> !is_blank(s@[r as int]),
        forall|k: int| pos <= k < r ==> is_blank(#[trigger] s@[k]),
{
    let mut i = pos;
    while i < s.len() && ch_blank(s[i])
        invariant
            pos <= i <= s@.len(),
            forall|k: int| pos <= k < i ==> is_blank(#[trigger] s@[k]),
        decreases s@.len() - i,
    {
        i += 1;
    }
    i
}

/// The end of the run of name characters from `pos`.
fn name_end(s: &Vec<char>, pos: usize) -> (r: usize)
    requires
        pos <= s@.len(),
    ensures
        pos <= r <= s@.len(),
        forall|k: int| pos <= k < r ==> is_name_char(#[trigger] s@[k]),
{
    let mut i = pos;
    while i < s.len() && ch_name_char(s[i])
        invariant
            pos <= i <= s@.len(),
            forall|k: int| pos <= k < i ==> is_name_char(#[trigger] s@[k]),
        decreases s@.len() - i,
    {
        i += 1;
    }
    i
}

/// Parses terms from `pos` up to the end of the input, or, when `nested`, up to a closing
/// `)`, which is not consumed.
#[verifier::spinoff_prover]
#[verifier::rlimit(80)]
fn parse_list(s: &Vec<char>, pos: usize, nested: bool) -> (r: Result<
    (Vec<Term>, usize, Ghost<(Seq<int>, Seq<int>, Seq<int>, Seq<(Seq<int>, Seq<int>, Seq<int>)>)>),
    ParseError,
>)
    requires
        s@.len() < usize::MAX,
        pos <= s@.len(),
    ensures
        r is Ok ==> pos <= r->Ok_0.1 <= s@.len(),
        r is Ok && nested ==> r->Ok_0.1 < s@.len() && s@[r->Ok_0.1 as int] == ')',
        r is Ok && !nested ==> r->Ok_0.1 == s@.len(),
        r is Ok ==> forall|k: int|
            0 <= k < r->Ok_0.0@.len() ==> is_trimmed_piece(#[trigger] r->Ok_0.0@[k].code@, s@),
        !nested && pos == 0 && is_plain_line(s@) ==> (r matches Ok((ts, _, _)) && ts@.len() == 1 && plain_term(ts@[0], s@)),
        !nested && pos == 0 && r is Ok && r->Ok_0.0@.len() > 0 ==> script_layout(s@, r->Ok_0.0@, r->Ok_0.2@.0, r->Ok_0.2@.1, r->Ok_0.2@.2, r->Ok_0.2@.3),
        r is Ok ==> forall|k: int| 0 <= k < r->Ok_0.0@.len() ==> well_formed_pipelines(#[trigger] r->Ok_0.0@[k].pipelines@),
    decreases s@.len() - pos, 7nat,
{
    let mut terms: Vec<Term> = Vec::new();
    let ghost plain = !nested && pos == 0 && is_plain_line(s@);
    let ghost i0 = lead(s@, 0);
    let ghost l = line_end(s@, i0);
    proof {
        lemma_lead(s@, 0);
        if plain {
            lemma_line_end(s@, i0);
        }
    }
    let ghost mut tst: Seq<int> = Seq::empty();
    let ghost mut tce: Seq<int> = Seq::empty();
    let ghost mut tsep: Seq<int> = Seq::empty();
    let ghost mut tlay: Seq<(Seq<int>, Seq<int>, Seq<int>)> = Seq::empty();
    let mut p = skip_void(s, pos);
    loop
        invariant
            s@.len() < usize::MAX,
            pos <= p <= s@.len(),
            term_layout(s@, terms@, tst, tce, tsep, tlay),
            terms@.len() == 0 ==> void_gap(s@, pos as int, p as int),
            terms@.len() > 0 ==> void_gap(s@, pos as int, tst[0]),
            terms@.len() > 0 ==> (tsep.last() == s@.len() && p == s@.len()) || (tsep.last() < s@.len()
                && s@[tsep.last()] != ')' && void_gap(s@, after_sep(s@, tsep.last()), p as int)),
            forall|k: int| 0 <= k < terms@.len() ==> is_trimmed_piece(#[trigger] terms@[k].code@, s@),
            p < s@.len() ==> !is_space(s@[p as int]) && s@[p as int] != '#',
            plain == (!nested && pos == 0 && is_plain_line(s@)),
            i0 == lead(s@, 0),
            l == line_end(s@, i0),
            plain ==> i0 < l <= s@.len() && l >= s@.len() - 1 && (l < s@.len() ==> s@[l] == '\n'),
            plain ==> (terms@.len() == 0 && p == i0) || (terms@.len() == 1 && p == s@.len() && plain_term(terms@[0], s@)),
            forall|k: int| 0 <= k < terms@.len() ==> well_formed_pipelines(#[trigger] terms@[k].pipelines@),
        decreases s@.len() - p,
    {
        if p == s.len() {
            if nested {
                return Err(fatal("unterminated command substitution"));
            }
            return Ok((terms, p, Ghost((tst, tce, tsep, tlay))));
        }
        if s[p] == ')' {
            if nested {
                return Ok((terms, p, Ghost((tst, tce, tsep, tlay))));
            }
            return Err(fatal("unexpected `)'"));
        }
        let (pipelines, q, lay) = parse_and_or(s, p)?;
        assert(well_formed_pipelines(pipelines@));
        proof {
            if plain {
                assert(is_plain(s@[q - 1]) || is_blank(s@[q - 1]));
            }
        }
        let mut e = q;
        while e > p && ch_space(s[e - 1])
            invariant
                s@.len() < usize::MAX,
                p < e <= q <= s@.len(),
                !is_space(s@[p as int]),
                plain ==> e == q && !is_space(s@[q - 1]),
                forall|m: int| e <= m < q ==> is_space(#[trigger] s@[m]),
            decreases e,
        {
            e -= 1;
        }
        let code = string_of(s, p, e);
        assert(code@ == s@.subrange(p as int, e as int) && !is_space(s@[p as int]) && !is_space(
            s@[e - 1],
        ));
        assert(is_trimmed_piece(code@, s@));
        let t = skip_blanks(s, q);
        if t < s.len() && !(s[t] == ';' || s[t] == '\n' || s[t] == '&' || s[t] == '#' || (s[t] == ')' && nested)) {
            return Err(fatal("syntax error"));
        }
        let background = t < s.len() && s[t] == '&';
        let ghost code_view = code@;
        let ghost pv = pipelines@;
        let ghost prev_terms = terms@;
        terms.push(Term { code, pipelines, background });
        proof {
            let n = prev_terms.len() as int;
            assert(terms@ == prev_terms.push(terms@[n]));
            assert(terms@[n].code@ == s@.subrange(p as int, e as int));
            assert(terms@[n].pipelines@ == pv);
            assert(and_or_layout(s@, pv, lay@.0, lay@.1, lay@.2));
            assert(forall|m: int| e <= m < t ==> is_space(#[trigger] s@[m])) by {
                assert forall|m: int| e <= m < t implies is_space(#[trigger] s@[m]) by {
                    if m >= q {
                        assert(is_blank(s@[m]));
                    }
                }
            }
            assert(term_at(s@, terms@[n], p as int, e as int, t as int, lay@));
            lemma_layout_push(s@, prev_terms, terms@[n], tst, tce, tsep, tlay, p as int, e as int, t as int, lay@);
            tst = tst.push(p as int);
            tce = tce.push(e as int);
            tsep = tsep.push(t as int);
            tlay = tlay.push(lay@);
            if n > 0 {
                assert(tst[0] == tst.drop_last()[0]);
            }
        }
        assert forall|k: int| 0 <= k < terms@.len() implies well_formed_pipelines(#[trigger] terms@[k].pipelines@) by {
            if k < prev_terms.len() {
                assert(terms@[k] == prev_terms[k]);
            } else {
                assert(terms@[k].pipelines@ == pv);
                assert(well_formed_pipelines(pv));
            }
        }
        assert forall|k: int| 0 <= k < terms@.len() implies is_trimmed_piece(
            #[trigger] terms@[k].code@,
            s@,
        ) by {
            if k == terms@.len() - 1 {
                assert(is_trimmed_piece(code@, s@));
            } else {
                assert(terms@[k] == prev_terms[k]);
            }
        }
        proof {
            if plain {
                assert(terms@.len() == 1);
                assert(terms@[0].code@ == code_view);
                assert(ends_last_word(s@, i0, l, q as int) && terms@[0].code@ == s@.subrange(i0, q as int));
                lemma_after_last_word(s@, i0, q as int, t as int);
                assert(!background);
                assert(plain_term(terms@[0], s@));
            }
        }
        if t == s.len() {
            p = t;
        } else {
            let c = s[t];
            if c == ';' || c == '\n' || c == '&' {
                p = skip_void(s, t + 1);
            } else if c == '#' {
                p = skip_void(s, t);
            } else if c == ')' && nested {
                return Ok((terms, t, Ghost((tst, tce, tsep, tlay))));
            } else {
                return Err(fatal("syntax error"));
            }
        }
    }
}

/// Parses pipelines joined by `&&` and `||`; `pos` is at a non-space character.
fn parse_and_or(s: &Vec<char>, pos: usize) -> (r: Result<(Vec<Pipeline>, usize, Ghost<(Seq<int>, Seq<int>, Seq<int>)>), ParseError>)
    requires
        s@.len() < usize::MAX,
        pos < s@.len(),
    ensures
        r is Ok ==> pos < r->Ok_0.1 <= s@.len(),
        r matches Ok((ps, q, lay)) ==> and_or_layout(s@, ps@, lay@.0, lay@.1, lay@.2) && lay@.0[0] == pos
            && lay@.1.last() == q,
        r is Ok ==> well_formed_pipelines(r->Ok_0.0@),
        plain_from(s@, pos as int) ==> (r matches Ok((ps, q, _)) && ps@.len() == 1 && ps@[0].run_if == RunIf::Always
            && ps@[0].commands@.len() == 1 && plain_command(ps@[0].commands@[0], s@, pos as int)
            && ends_last_word(s@, pos as int, line_end(s@, pos as int), q as int)),
    decreases s@.len() - pos, 6nat,
{
    let mut pipelines: Vec<Pipeline> = Vec::new();
    let mut run_if = RunIf::Always;
    let mut p = pos;
    let mut end = pos;
    let ghost plain = plain_from(s@, pos as int);
    let ghost mut st: Seq<int> = Seq::empty();
    let ghost mut en: Seq<int> = Seq::empty();
    let ghost mut sp: Seq<int> = Seq::empty();
    proof {
        lemma_line_end(s@, pos as int);
    }
    loop
        invariant
            s@.len() < usize::MAX,
            pos <= p <= s@.len(),
            pos <= end <= p,
            pipelines@.len() > 0 ==> pos < end,
            st.len() == pipelines@.len() && en.len() == pipelines@.len() && sp.len() == pipelines@.len(),
            forall|k: int| 0 <= k < pipelines@.len() ==> pos <= #[trigger] st[k] < en[k] <= s@.len(),
            pipelines@.len() > 0 ==> st[0] == pos && en.last() == end,
            forall|k: int| 0 < k < pipelines@.len() ==> joined(s@, en[k - 1], sp[k - 1], st[k], (#[trigger] pipelines@[k]).run_if),
            pipelines@.len() > 0 ==> {
                let j = sp.last();
                &&& blank_gap(s@, en.last(), j)
                &&& j + 2 <= p
                &&& void_gap(s@, j + 2, p as int)
                &&& (s@[j] == '&' && s@[j + 1] == '&' && run_if == RunIf::Success) || (s@[j] == '|' && s@[j + 1] == '|'
                    && run_if == RunIf::Failure)
            },
            pipelines@.len() == 0 ==> p == pos,
            plain == plain_from(s@, pos as int),
            line_end(s@, pos as int) <= s@.len(),
            line_end(s@, pos as int) < s@.len() ==> s@[line_end(s@, pos as int)] == '\n',
            plain ==> pipelines@.len() == 0 && run_if == RunIf::Always,
            pipelines@.len() == 0 <==> run_if == RunIf::Always,
            pipelines@.len() > 0 ==> pipelines@[0].run_if == RunIf::Always,
            forall|k: int| 0 < k < pipelines@.len() ==> (#[trigger] pipelines@[k]).run_if != RunIf::Always,
            forall|k: int| 0 <= k < pipelines@.len() ==> (#[trigger] pipelines@[k]).commands@.len() > 0,
            forall|k: int, j: int| 0 <= k < pipelines@.len() && 0 <= j < pipelines@[k].commands@.len() ==> command_words_ok(#[trigger] pipelines@[k].commands@[j]),
        decreases s@.len() - p,
    {
        if p == s.len() {
            return Err(fatal("unexpected end of input"));
        }
        let (commands, q) = parse_pipeline(s, p)?;
        let ghost old_ps = pipelines@;
        let ghost n = pipelines@.len() as int;
        pipelines.push(Pipeline { run_if, commands });
        end = q;
        proof {
            st = st.push(p as int);
            en = en.push(q as int);
            assert forall|k: int| 0 < k < pipelines@.len() implies joined(s@, en[k - 1], sp[k - 1], st[k], (#[trigger] pipelines@[k]).run_if) by {
                if k < n {
                    assert(pipelines@[k] == old_ps[k]);
                }
            }
        }
        let t = skip_blanks(s, q);
        proof {
            if plain {
                lemma_after_last_word(s@, pos as int, q as int, t as int);
            }
        }
        if t < s.len() && s[t] == '&' && t + 1 < s.len() && s[t + 1] == '&' {
            run_if = RunIf::Success;
            p = skip_void(s, t + 2);
            proof {
                sp = sp.push(t as int);
            }
        } else if t < s.len() && s[t] == '|' && t + 1 < s.len() && s[t + 1] == '|' {
            run_if = RunIf::Failure;
            p = skip_void(s, t + 2);
            proof {
                sp = sp.push(t as int);
            }
        } else {
            return Ok((pipelines, end, Ghost((st, en, sp))));
        }
    }
}

/// Parses commands joined by `|`.
fn parse_pipeline(s: &Vec<char>, pos: usize) -> (r: Result<(Vec<Command>, usize), ParseError>)
    requires
        s@.len() < usize::MAX,
        pos < s@.len(),
    ensures
        r is Ok ==> pos < r->Ok_0.1 <= s@.len(),
        r is Ok ==> forall|k: int| 0 <= k < r->Ok_0.0@.len() ==> command_words_ok(#[trigger] r->Ok_0.0@[k]),
        r is Ok ==> r->Ok_0.0@.len() > 0,
        plain_from(s@, pos as int) ==> (r matches Ok((cs, q)) && cs@.len() == 1 && plain_command(cs@[0], s@, pos as int)
            && ends_last_word(s@, pos as int, line_end(s@, pos as int), q as int)),
    decreases s@.len() - pos, 5nat,
{
    let mut commands: Vec<Command> = Vec::new();
    let mut p = pos;
    let ghost plain = plain_from(s@, pos as int);
    proof {
        lemma_line_end(s@, pos as int);
    }
    loop
        invariant
            s@.len() < usize::MAX,
            pos <= p <= s@.len(),
            commands@.len() == 0 ==> p == pos,
            plain == plain_from(s@, pos as int),
            line_end(s@, pos as int) <= s@.len(),
            line_end(s@, pos as int) < s@.len() ==> s@[line_end(s@, pos as int)] == '\n',
            plain ==> commands@.len() == 0,
            forall|k: int| 0 <= k < commands@.len() ==> command_words_ok(#[trigger] commands@[k]),
        decreases s@.len() - p,
    {
        if p == s.len() {
            return Err(fatal("unexpected end of input"));
        }
        let (command, q) = parse_command(s, p)?;
        commands.push(command);
        let t = skip_blanks(s, q);
        proof {
            if plain {
                lemma_after_last_word(s@, pos as int, q as int, t as int);
            }
        }
        if t < s.len() && s[t] == '|' && !(t + 1 < s.len() && s[t + 1] == '|') {
            p = skip_void(s, t + 1);
        } else {
            return Ok((commands, q));
        }
    }
}

/// Whether a redirection starts at `pos`: digits, then `<` or `>`.
fn redirect_at(s: &Vec<char>, pos: usize) -> (r: bool)
    requires
        pos <= s@.len(),
    ensures
        r ==> exists|e: int| pos <= e < s@.len() && (s@[e] == '<' || s@[e] == '>')
            && forall|k: int| pos <= k < e ==> '0' <= #[trigger] s@[k] <= '9',
{
    let mut i = pos;
    while i < s.len() && '0' <= s[i] && s[i] <= '9'
        invariant
            pos <= i <= s@.len(),
            forall|k: int| pos <= k < i ==> '0' <= #[trigger] s@[k] <= '9',
        decreases s@.len() - i,
    {
        i += 1;
    }
    i < s.len() && (s[i] == '<' || s[i] == '>')
}

/// Whether an assignment `NAME=` starts at `pos`.
fn assignment_at(s: &Vec<char>, pos: usize) -> (r: bool)
    requires
        pos <= s@.len(),
    ensures
        r ==> exists|e: int| pos <= e < s@.len() && s@[e] == '='
            && forall|k: int| pos <= k < e ==> is_name_char(#[trigger] s@[k]),
{
    if pos < s.len() && ch_name_start(s[pos]) {
        let e = name_end(s, pos);
        e < s.len() && s[e] == '='
    } else {
        false
    }
}

/// Parses `assignment* word (word | redirection)*`, or assignments alone.
fn parse_command(s: &Vec<char>, pos: usize) -> (r: Result<(Command, usize), ParseError>)
    requires
        s@.len() < usize::MAX,
        pos < s@.len(),
    ensures
        r is Ok ==> command_words_ok(r->Ok_0.0),
        r is Ok ==> pos < r->Ok_0.1 <= s@.len(),
        plain_from(s@, pos as int) ==> (r matches Ok((c, q)) && plain_command(c, s@, pos as int)
            && ends_last_word(s@, pos as int, line_end(s@, pos as int), q as int)),
    decreases s@.len() - pos, 4nat,
{
    let mut argv: Vec<Word> = Vec::new();
    let mut redirects: Vec<Redirection> = Vec::new();
    let mut assignments: Vec<Assignment> = Vec::new();
    let mut p = pos;
    let mut end = pos;
    let ghost plain = plain_from(s@, pos as int);
    let ghost l = line_end(s@, pos as int);
    let ghost ws = runs(s@, pos as int, l, None);
    let ghost mut done: Seq<Seq<char>> = Seq::empty();
    proof {
        lemma_line_end(s@, pos as int);
    }
    loop
        invariant
            s@.len() < usize::MAX,
            pos <= end <= p <= s@.len(),
            argv@.len() + redirects@.len() + assignments@.len() > 0 ==> pos < end,
            argv@.len() + redirects@.len() + assignments@.len() == 0 ==> p == pos,
            forall|k: int| 0 <= k < argv@.len() ==> word_ok(#[trigger] argv@[k]),
            forall|k: int| 0 <= k < redirects@.len() ==> redirect_ok(#[trigger] redirects@[k]),
            forall|k: int| 0 <= k < assignments@.len() ==> assignment_ok(#[trigger] assignments@[k]),
            plain == plain_from(s@, pos as int),
            l == line_end(s@, pos as int),
            ws == runs(s@, pos as int, l, None),
            pos <= l <= s@.len(),
            l < s@.len() ==> s@[l] == '\n',
            plain ==> {
                &&& redirects@.len() == 0 && assignments@.len() == 0
                &&& pos < l
                &&& p <= l
                &&& p < l ==> !is_blank(s@[p as int])
                &&& literal_words(argv@, done)
                &&& done + runs(s@, p as int, l, None) == ws
                &&& argv@.len() > 0 ==> ends_last_word(s@, pos as int, p as int, end as int)
            },
        ensures
            plain ==> p == l,
        decreases s@.len() - p,
    {
        proof {
            if plain && p < l {
                assert(is_plain(s@[p as int]) || is_blank(s@[p as int]));
            }
        }
        if p == s.len() || ch_word_stop(s[p]) && !(s[p] == '<' || s[p] == '>') || s[p] == '#' {
            proof {
                if plain && p < l {
                    assert(false);
                }
            }
            break;
        }
        proof {
            if plain {
                assert(p < l);
                lemma_line_end_same(s@, pos as int, p as int);
                assert(plain_from(s@, p as int));
            }
        }
        let ghost pp = p;
        if argv.len() == 0 && assignment_at(s, p) {
            proof {
                if plain {
                    let e = choose|e: int| p <= e < s@.len() && s@[e] == '='
                        && forall|k: int| p <= k < e ==> is_name_char(#[trigger] s@[k]);
                    if e < l {
                        assert(is_plain(s@[e]) || is_blank(s@[e]));
                    } else if e > l {
                        assert(is_name_char(s@[l]));
                    }
                    assert(false);
                }
            }
            let (a, q) = parse_assignment(s, p)?;
            assignments.push(a);
            end = q;
        } else if redirect_at(s, p) {
            proof {
                if plain {
                    let e = choose|e: int| p <= e < s@.len() && (s@[e] == '<' || s@[e] == '>')
                        && forall|k: int| p <= k < e ==> '0' <= #[trigger] s@[k] <= '9';
                    if e < l {
                        assert(is_plain(s@[e]) || is_blank(s@[e]));
                    } else if e > l {
                        assert('0' <= s@[l] <= '9');
                    }
                    assert(false);
                }
            }
            let (rd, q) = parse_redirect(s, p)?;
            redirects.push(rd);
            end = q;
        } else {
            let (w, q) = parse_word(s, p)?;
            let ghost prev = argv@;
            argv.push(w);
            end = q;
            proof {
                if plain {
                    lemma_runs_take(s@, p as int, q as int, l);
                    done = done.push(s@.subrange(p as int, q as int));
                    assert(argv@ == prev.push(w));
                    assert forall|k: int| 0 <= k < argv@.len() implies literal_word(#[trigger] argv@[k], done[k]) by {
                        if k < prev.len() {
                            assert(argv@[k] == prev[k]);
                        }
                    }
                }
            }
        }
        p = skip_blanks(s, end);
        proof {
            if plain {
                if end < l {
                    assert(is_blank(s@[end as int]));
                    if p > l {
                        assert(is_blank(s@[l]));
                    }
                    lemma_runs_blanks(s@, end + 1, p as int, l);
                    assert(done + runs(s@, p as int, l, None) =~= ws);
                } else {
                    if p > l {
                        assert(is_blank(s@[l]));
                    }
                    assert(p == l);
                    assert(done + runs(s@, p as int, l, None) =~= ws);
                }
            }
        }
    }
    proof {
        if plain {
            assert(p == l);
            assert(argv@.len() > 0);
            assert(runs(s@, p as int, l, None) == Seq::<Seq<char>>::empty());
            assert(done + Seq::<Seq<char>>::empty() =~= done);
            assert(done == ws);
        }
    }
    if argv.len() == 0 {
        if redirects.len() == 0 && assignments.len() > 0 {
            return Ok((Command::Assignment { assignments }, end));
        }
        return Err(fatal("syntax error: expected a command"));
    }
    Ok((Command::SimpleCommand { argv, redirects, assignments }, end))
}

/// Parses `NAME=word` or `NAME=(word...)`.
fn parse_assignment(s: &Vec<char>, pos: usize) -> (r: Result<(Assignment, usize), ParseError>)
    requires
        s@.len() < usize::MAX,
        pos < s@.len(),
    ensures
        r is Ok ==> assignment_ok(r->Ok_0.0),
        r is Ok ==> pos < r->Ok_0.1 <= s@.len(),
    decreases s@.len() - pos, 3nat,
{
    let e = name_end(s, pos);
    if !(e < s.len() && s[e] == '=') {
        return Err(fatal("expected an assignment"));
    }
    let name = string_of(s, pos, e);
    let v = e + 1;
    if v < s.len() && s[v] == '(' {
        let mut words: Vec<Word> = Vec::new();
        let mut p = skip_void(s, v + 1);
        loop
            invariant
                s@.len() < usize::MAX,
                pos < v < p <= s@.len(),
                s@.len() < usize::MAX,
                forall|k: int| 0 <= k < words@.len() ==> word_ok(#[trigger] words@[k]),
            decreases s@.len() - p,
        {
            if p == s.len() {
                return Err(fatal("unterminated array"));
            }
            if s[p] == ')' {
                return Ok((
                    Assignment { name, initializer: Initializer::Array(words), index: None },
                    p + 1,
                ));
            }
            let (w, q) = parse_word(s, p)?;
            words.push(w);
            p = skip_void(s, q);
        }
    } else if v < s.len() && !ch_word_stop(s[v]) && s[v] != '#' {
        let (w, q) = parse_word(s, v)?;
        Ok((Assignment { name, initializer: Initializer::String(w), index: None }, q))
    } else {
        let empty = Word(vec![Span::Literal(String::new())]);
        assert(empty.0@.len() == 1);
        Ok((Assignment { name, initializer: Initializer::String(empty), index: None }, v))
    }
}

/// Parses `[n]<`, `[n]>` or `[n]>>` followed by a word.
fn parse_redirect(s: &Vec<char>, pos: usize) -> (r: Result<(Redirection, usize), ParseError>)
    requires
        s@.len() < usize::MAX,
        pos < s@.len(),
    ensures
        r is Ok ==> redirect_ok(r->Ok_0.0),
        r is Ok ==> pos < r->Ok_0.1 <= s@.len(),
    decreases s@.len() - pos, 3nat,
{
    let mut i = pos;
    let mut fd: usize = 0;
    while i < s.len() && '0' <= s[i] && s[i] <= '9'
        invariant
            s@.len() < usize::MAX,
            pos <= i <= s@.len(),
            fd <= 9999,
        decreases s@.len() - i,
    {
        let d = (s[i] as u32 - '0' as u32) as usize;
        fd = fd * 10 + d;
        if fd > 9999 {
            return Err(fatal("file descriptor out of range"));
        }
        i += 1;
    }
    let has_fd = i > pos;
    if i == s.len() {
        return Err(fatal("expected a redirection"));
    }
    let (direction, default_fd, after) = if s[i] == '<' {
        (RedirectionDirection::Input, 0usize, i + 1)
    } else if s[i] == '>' {
        if i + 1 < s.len() && s[i + 1] == '>' {
            (RedirectionDirection::Append, 1usize, i + 2)
        } else {
            (RedirectionDirection::Output, 1usize, i + 1)
        }
    } else {
        return Err(fatal("expected a redirection"));
    };
    let t = skip_blanks(s, after);
    if t == s.len() || ch_word_stop(s[t]) {
        return Err(fatal("expected a redirection target"));
    }
    let (target, q) = parse_word(s, t)?;
    let fd = if has_fd {
        fd
    } else {
        default_fd
    };
    Ok((Redirection { fd, direction, target: RedirectionType::File(target) }, q))
}

/// Parses one word starting at `pos`.
fn parse_word(s: &Vec<char>, pos: usize) -> (r: Result<(Word, usize), ParseError>)
    requires
        s@.len() < usize::MAX,
        pos < s@.len(),
    ensures
        r is Ok ==> word_ok(r->Ok_0.0),
        r is Ok ==> pos < r->Ok_0.1 <= s@.len(),
        plain_from(s@, pos as int) ==> (r matches Ok((w, q)) && literal_word(w, s@.subrange(pos as int, q as int))
            && q <= line_end(s@, pos as int) && (q == line_end(s@, pos as int) || is_blank(s@[q as int]))
            && forall|k: int| pos <= k < q ==> !is_blank(#[trigger] s@[k])),
    decreases s@.len() - pos, 2nat,
{
    let mut spans: Vec<Span> = Vec::new();
    let mut lit: Vec<char> = Vec::new();
    let mut i = pos;
    let ghost plain = plain_from(s@, pos as int);
    let ghost l = line_end(s@, pos as int);
    proof {
        lemma_line_end(s@, pos as int);
    }
    if s[i] == '~' {
        let mut j = i + 1;
        while j < s.len() && !ch_word_stop(s[j]) && s[j] != '/' && s[j] != '\'' && s[j] != '"'
            && s[j] != '$' && s[j] != '\\' && s[j] != '`'
            invariant
                s@.len() < usize::MAX,
                i < j <= s@.len(),
            decreases s@.len() - j,
        {
            j += 1;
        }
        if j == i + 1 {
            spans.push(Span::Tilde(None));
        } else {
            spans.push(Span::Tilde(Some(string_of(s, i + 1, j))));
        }
        i = j;
    }
    while i < s.len() && !ch_word_stop(s[i])
        invariant
            s@.len() < usize::MAX,
            pos <= i <= s@.len(),
            i == pos ==> spans@.len() == 0 && lit@.len() == 0,
            i > pos ==> spans@.len() > 0 || lit@.len() > 0,
            plain == plain_from(s@, pos as int),
            l == line_end(s@, pos as int),
            pos <= l <= s@.len(),
            l < s@.len() ==> s@[l] == '\n',
            plain ==> spans@.len() == 0 && lit@ == s@.subrange(pos as int, i as int) && i <= l
                && forall|k: int| pos <= k < i ==> !is_blank(#[trigger] s@[k]),
        decreases s@.len() - i,
    {
        let c = s[i];
        proof {
            if plain {
                if i == l {
                    assert(is_word_stop(s@[i as int]));
                }
                assert(is_plain(s@[i as int]) || is_blank(s@[i as int]));
            }
        }
        if c == '\\' {
            if i + 1 == s.len() || s[i + 1] == '\n' {
                return Err(fatal("unexpected end of line after `\\'"));
            }
            lit.push(s[i + 1]);
            i += 2;
        } else if c == '\'' {
            let mut j = i + 1;
            while j < s.len() && s[j] != '\''
                invariant
                    s@.len() < usize::MAX,
                    i < j <= s@.len(),
                decreases s@.len() - j,
            {
                j += 1;
            }
            if j == s.len() {
                return Err(fatal("unterminated single quote"));
            }
            if lit.len() > 0 {
                spans.push(Span::Literal(crate::text::string_of_all(&lit)));
                lit = Vec::new();
            }
            spans.push(Span::Literal(string_of(s, i + 1, j)));
            i = j + 1;
        } else if c == '"' {
            if lit.len() > 0 {
                spans.push(Span::Literal(crate::text::string_of_all(&lit)));
                lit = Vec::new();
            }
            let (mut inner, j) = parse_double_quoted(s, i + 1)?;
            spans.append(&mut inner);
            i = j + 1;
        } else if c == '$' {
            match parse_dollar(s, i, false)? {
                Some((span, j)) => {
                    if lit.len() > 0 {
                        spans.push(Span::Literal(crate::text::string_of_all(&lit)));
                        lit = Vec::new();
                    }
                    spans.push(span);
                    i = j;
                },
                None => {
                    lit.push('$');
                    i += 1;
                },
            }
        } else if c == '`' {
            return Err(fatal("backquote substitution is not supported; use $(...)"));
        } else {
            lit.push(c);
            i += 1;
            proof {
                if plain {
                    assert(lit@ =~= s@.subrange(pos as int, i as int));
                }
            }
        }
    }
    proof {
        if plain && i < l {
            assert(is_plain(s@[i as int]) || is_blank(s@[i as int]));
        }
    }
    if lit.len() > 0 {
        let text = crate::text::string_of_all(&lit);
        spans.push(Span::Literal(text));
        proof {
            if plain {
                assert(spans@.len() == 1);
                assert(spans@[0] == Span::Literal(text));
            }
        }
    }
    if i == pos {
        return Err(fatal("syntax error: expected a word"));
    }
    Ok((Word(spans), i))
}

/// Parses the inside of a double-quoted string starting at `pos`; the result's position
/// is that of the closing quote.
fn parse_double_quoted(s: &Vec<char>, pos: usize) -> (r: Result<(Vec<Span>, usize), ParseError>)
    requires
        s@.len() < usize::MAX,
        pos <= s@.len(),
    ensures
        r is Ok ==> pos <= r->Ok_0.1 < s@.len() && s@[r->Ok_0.1 as int] == '"',
        r is Ok ==> r->Ok_0.0@.len() > 0,
    decreases s@.len() - pos, 1nat,
{
    let mut spans: Vec<Span> = Vec::new();
    let mut lit: Vec<char> = Vec::new();
    let mut i = pos;
    while i < s.len() && s[i] != '"'
        invariant
            s@.len() < usize::MAX,
            pos <= i <= s@.len(),
        decreases s@.len() - i,
    {
        let c = s[i];
        if c == '\\' {
            if i + 1 == s.len() {
                return Err(fatal("unterminated double quote"));
            }
            let e = s[i + 1];
            if !(e == '"' || e == '\\' || e == '$' || e == '`') {
                lit.push('\\');
            }
            lit.push(e);
            i += 2;
        } else if c == '$' {
            match parse_dollar(s, i, true)? {
                Some((span, j)) => {
                    if lit.len() > 0 {
                        spans.push(Span::Literal(crate::text::string_of_all(&lit)));
                        lit = Vec::new();
                    }
                    spans.push(span);
                    i = j;
                },
                None => {
                    lit.push('$');
                    i += 1;
                },
            }
        } else if c == '`' {
            return Err(fatal("backquote substitution is not supported; use $(...)"));
        } else {
            lit.push(c);
            i += 1;
        }
    }
    if i == s.len() {
        return Err(fatal("unterminated double quote"));
    }
    if lit.len() > 0 || spans.len() == 0 {
        spans.push(Span::Literal(crate::text::string_of_all(&lit)));
    }
    Ok((spans, i))
}

/// Parses `$NAME`, `$?`, `${NAME}`, `${NAME:op}` or `$(...)` at `pos`; `None` when the
/// `$` starts none of them and stands for itself.
fn parse_dollar(s: &Vec<char>, pos: usize, quoted: bool) -> (r: Result<
    Option<(Span, usize)>,
    ParseError,
>)
    requires
        s@.len() < usize::MAX,
        pos < s@.len(),
    ensures
        r matches Ok(Some((_, q))) ==> pos < q <= s@.len(),
    decreases s@.len() - pos, 0nat,
{
    if pos + 1 >= s.len() {
        return Ok(None);
    }
    let c = s[pos + 1];
    if c == '?' {
        let name = string_of(s, pos + 1, pos + 2);
        Ok(Some((Span::Parameter { name, op: ExpansionOp::GetOrEmpty, quoted }, pos + 2)))
    } else if ch_name_start(c) {
        let e = name_end(s, pos + 1);
        let name = string_of(s, pos + 1, e);
        Ok(Some((Span::Parameter { name, op: ExpansionOp::GetOrEmpty, quoted }, e)))
    } else if c == '{' {
        let b = pos + 2;
        let e = if b < s.len() && s[b] == '?' {
            b + 1
        } else {
            name_end(s, b)
        };
        if e == b || e == s.len() {
            return Err(fatal("bad substitution"));
        }
        let name = string_of(s, b, e);
        if s[e] == '}' {
            Ok(Some((Span::Parameter { name, op: ExpansionOp::GetOrEmpty, quoted }, e + 1)))
        } else if s[e] == ':' {
            let mut k = e + 1;
            while k < s.len() && s[k] != '}'
                invariant
                    s@.len() < usize::MAX,
                    e < k <= s@.len(),
                decreases s@.len() - k,
            {
                k += 1;
            }
            if k == s.len() {
                return Err(fatal("bad substitution"));
            }
            let op = ExpansionOp::Other(string_of(s, e + 1, k));
            Ok(Some((Span::Parameter { name, op, quoted }, k + 1)))
        } else {
            Err(fatal("bad substitution"))
        }
    } else if c == '(' {
        let (body, close, _) = parse_list(s, pos + 2, true)?;
        Ok(Some((Span::Command { body, quoted }, close + 1)))
    } else {
        Ok(None)
    }
}

/// Parses a script into its terms.
#[verifier::spinoff_prover]
pub fn parse(script: &str) -> (r: Result<Ast, ParseError>)
    ensures
        r == Err::<Ast, ParseError>(ParseError::Empty) <==> is_void(script@),
        r is Ok ==> r->Ok_0.terms@.len() > 0,
        r is Ok ==> forall|k: int|
            0 <= k < r->Ok_0.terms@.len() ==> is_trimmed_piece(
                #[trigger] r->Ok_0.terms@[k].code@,
                script@,
            ),
        r is Ok ==> forall|k: int| 0 <= k < r->Ok_0.terms@.len() ==> well_formed_pipelines(#[trigger] r->Ok_0.terms@[k].pipelines@),
        r is Ok ==> laid_out(script@, r->Ok_0.terms@),
        is_plain_line(script@) && script@.len() < usize::MAX ==> (r matches Ok(ast) && ast.terms@.len() == 1
            && plain_term(ast.terms@[0], script@)),
{
    let s = chars_of(script);
    proof {
        lemma_lead(s@, 0);
    }
    let p = skip_void(&s, 0);
    if p == s.len() {
        return Err(ParseError::Empty);
    }
    if s.len() == usize::MAX {
        return Err(fatal("script too long"));
    }
    match parse_list(&s, 0, false) {
        Ok((terms, _, lay)) => {
            if terms.len() == 0 {
                Err(fatal("syntax error"))
            } else {
                assert(script_layout(script@, terms@, lay@.0, lay@.1, lay@.2, lay@.3));
                let ast = Ast { terms };
                assert(script_layout(script@, ast.terms@, lay@.0, lay@.1, lay@.2, lay@.3));
                assert(laid_out(script@, ast.terms@));
                Ok(ast)
            }
        },
        Err(ParseError::Empty) => Err(fatal("syntax error")),
        Err(e) => Err(e),
    }
}

} // verus!
