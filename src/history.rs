use vstd::prelude::*;
use vstd::hash_map::StringHashMap;

use crate::text::{chars_of, is_prefix_of, push_char, split_by, split_chars, starts_with, str_eq, u64_to_string, decimal, views};

verus! {

/// Commands shorter than this many characters are not recorded.
pub const MIN_HISTORY_LEN: usize = 8;

/// The `(cwd, command)` that a history file line `time\tcwd\tcommand` records, or `None`
/// when the line has fewer than three tab-separated fields.
pub open spec fn history_record(line: Seq<char>) -> Option<(Seq<char>, Seq<char>)> {
    let fields = split_by(line, seq!['\t']);
    if fields.len() >= 3 {
        Some((fields[1], fields[2]))
    } else {
        None
    }
}

/// Whether `append` records `cmd` after the commands `hist`.
pub open spec fn records(hist: Seq<Seq<char>>, cmd: Seq<char>) -> bool {
    cmd.len() >= MIN_HISTORY_LEN && !(hist.len() > 0 && hist.last() == cmd)
}

/// The line that records `cmd`, run in `cwd` at `time`, in the history file.
pub open spec fn history_line(time: nat, cwd: Seq<char>, cmd: Seq<char>) -> Seq<char> {
    decimal(time) + seq!['\t'] + cwd + seq!['\t'] + cmd + seq!['\n']
}

/// The commands that the lines of a history file record, in order.
pub open spec fn recorded_commands(lines: Seq<Seq<char>>) -> Seq<Seq<char>>
    decreases lines.len(),
{
    if lines.len() == 0 {
        Seq::empty()
    } else {
        let rest = recorded_commands(lines.drop_last());
        match history_record(lines.last()) {
            Some(r) => rest.push(r.1),
            None => rest,
        }
    }
}

/// Splits a history file line into its working directory and command.
pub fn parse_history_line(line: &str) -> (r: Option<(String, String)>)
    ensures
        match r {
            Some((cwd, cmd)) => history_record(line@) == Some((cwd@, cmd@)),
            None => history_record(line@) is None,
        },
{
    let chars = chars_of(line);
    let tab = vec!['\t'];
    assert(tab@ =~= seq!['\t']);
    let mut fields = split_chars(&chars, &tab);
    if fields.len() >= 3 {
        let cmd = fields.remove(2);
        let cwd = fields.remove(1);
        Some((cwd, cmd))
    } else {
        None
    }
}

/// Formats the history file line for `cmd`.
pub fn format_history_line(time: u64, cwd: &str, cmd: &str) -> (r: String)
    ensures
        r@ == history_line(time as nat, cwd@, cmd@),
{
    let mut s = u64_to_string(time);
    push_char(&mut s, '\t');
    let s = s.concat(cwd);
    let mut s = s;
    push_char(&mut s, '\t');
    let mut s = s.concat(cmd);
    push_char(&mut s, '\n');
    s
}

/// Command history.
pub struct History {
    /// The history file.
    path: String,
    history: Vec<String>,
    path2cwd: StringHashMap<String>,
}

impl History {
    /// The recorded commands, oldest first.
    pub closed spec fn entries(&self) -> Seq<Seq<char>> {
        views(self.history@)
    }

    /// The working directory each command was last run in.
    pub closed spec fn cwds(&self) -> Map<Seq<char>, String> {
        self.path2cwd@
    }

    pub closed spec fn spec_path(&self) -> Seq<char> {
        self.path@
    }

    /// A history kept in `history_file`, whose lines are `lines`; lines that do not parse
    /// are skipped.
    pub fn new(history_file: &str, lines: &Vec<String>) -> (r: History)
        ensures
            r.spec_path() == history_file@,
            r.entries() == recorded_commands(views(lines@)),
    {
        let mut history: Vec<String> = Vec::new();
        let mut path2cwd: StringHashMap<String> = StringHashMap::new();
        let mut i: usize = 0;
        while i < lines.len()
            invariant
                i <= lines@.len(),
                views(history@) == recorded_commands(views(lines@).subrange(0, i as int)),
            decreases lines@.len() - i,
        {
            proof {
                assert(views(lines@).subrange(0, i + 1).drop_last() =~= views(lines@).subrange(0, i as int));
            }
            match parse_history_line(lines[i].as_str()) {
                Some((cwd, cmd)) => {
                    let c2 = cmd.clone();
                    let ghost prev = history@;
                    history.push(cmd);
                    assert(views(history@) =~= views(prev).push(c2@));
                    path2cwd.insert(c2, cwd);
                },
                None => {},
            }
            i += 1;
        }
        assert(views(lines@).subrange(0, i as int) =~= views(lines@));
        History { path: history_file.to_owned(), history, path2cwd }
    }

    /// The 1-based number of the first line of a history file that does not parse.
    pub fn malformed_line(lines: &Vec<String>) -> (r: Option<usize>)
        ensures
            match r {
                Some(n) => 1 <= n <= lines@.len() && history_record(lines@[n - 1]@) is None
                    && forall|k: int| 0 <= k < n - 1 ==> history_record(#[trigger] lines@[k]@) is Some,
                None => forall|k: int| 0 <= k < lines@.len() ==> history_record(#[trigger] lines@[k]@) is Some,
            },
    {
        let mut i: usize = 0;
        while i < lines.len()
            invariant
                i <= lines@.len(),
                forall|k: int| 0 <= k < i ==> history_record(#[trigger] lines@[k]@) is Some,
            decreases lines@.len() - i,
        {
            if parse_history_line(lines[i].as_str()).is_none() {
                return Some(i + 1);
            }
            i += 1;
        }
        None
    }

    pub fn path(&self) -> (r: &str)
        ensures
            r@ == self.spec_path(),
    {
        self.path.as_str()
    }

    pub fn len(&self) -> (r: usize)
        ensures
            r == self.entries().len(),
    {
        self.history.len()
    }

    /// The `i`-th oldest command.
    pub fn get(&self, i: usize) -> (r: Option<&String>)
        ensures
            match r {
                Some(s) => i < self.entries().len() && s@ == self.entries()[i as int],
                None => i >= self.entries().len(),
            },
    {
        if i < self.history.len() {
            Some(&self.history[i])
        } else {
            None
        }
    }

    /// Records `cmd`, run in `cwd`, unless it is shorter than `MIN_HISTORY_LEN` or repeats
    /// the last command. Returns whether it was recorded, that is whether its line
    /// (`format_history_line`) is due in the history file.
    pub fn append(&mut self, cmd: &str, cwd: &str) -> (r: bool)
        ensures
            r == records(old(self).entries(), cmd@),
            r ==> final(self).entries() == old(self).entries().push(cmd@),
            r ==> final(self).cwds() == old(self).cwds().insert(cmd@, final(self).cwds()[cmd@]),
            r ==> final(self).cwds()[cmd@]@ == cwd@,
            !r ==> final(self).entries() == old(self).entries() && final(self).cwds() == old(self).cwds(),
            final(self).spec_path() == old(self).spec_path(),
    {
        if cmd.unicode_len() < MIN_HISTORY_LEN {
            return false;
        }
        let n = self.history.len();
        if n > 0 && str_eq(self.history[n - 1].as_str(), cmd) {
            return false;
        }
        let ghost prev = self.history@;
        self.history.push(cmd.to_owned());
        assert(views(self.history@) =~= views(prev).push(cmd@));
        self.path2cwd.insert(cmd.to_owned(), cwd.to_owned());
        true
    }
}

/// Whether `h` is a history entry that extends `input`.
pub open spec fn is_similar(h: Seq<char>, input: Seq<char>) -> bool {
    h != input && is_prefix_of(input, h)
}

/// The index of the oldest entry of `hist` that extends `input`.
pub open spec fn first_similar(hist: Seq<Seq<char>>, input: Seq<char>) -> Option<int> {
    if exists|p: int| 0 <= p < hist.len() && is_similar(#[trigger] hist[p], input) {
        Some(
            choose|p: int|
                0 <= p < hist.len() && is_similar(#[trigger] hist[p], input) && forall|q: int|
                    0 <= q < p ==> !is_similar(#[trigger] hist[q], input),
        )
    } else {
        None
    }
}

/// The entry `offset` steps back from the newest (1 is the newest).
pub open spec fn entry_back(hist: Seq<Seq<char>>, offset: int) -> Option<Seq<char>> {
    if 1 <= offset <= hist.len() {
        Some(hist[hist.len() - offset])
    } else {
        None
    }
}

/// Finds the oldest entry of `history` that extends `input`.
fn find_similar(history: &History, input: &str, need_input: bool) -> (r: Option<usize>)
    ensures
        need_input && input@.len() == 0 ==> r is None,
        r matches Some(p) ==> p < history.entries().len(),
        !(need_input && input@.len() == 0) ==> match r {
            Some(p) => first_similar(history.entries(), input@) == Some(p as int),
            None => first_similar(history.entries(), input@) is None,
        },
{
    if need_input && input.unicode_len() == 0 {
        return None;
    }
    let ghost hist = history.entries();
    let n = history.len();
    let mut i: usize = 0;
    while i < n
        invariant
            n == hist.len(),
            hist == history.entries(),
            !(need_input && input@.len() == 0),
            i <= n,
            forall|q: int| 0 <= q < i ==> !is_similar(#[trigger] hist[q], input@),
        decreases n - i,
    {
        let h = history.get(i).unwrap();
        if !str_eq(h.as_str(), input) && starts_with(h.as_str(), input) {
            assert(is_similar(hist[i as int], input@));
            let ghost c = choose|p: int|
                0 <= p < hist.len() && is_similar(#[trigger] hist[p], input@) && forall|q: int|
                    0 <= q < p ==> !is_similar(#[trigger] hist[q], input@);
            proof {
                if c < i {
                    assert(!is_similar(hist[c], input@));
                }
                if c > i {
                    assert(!is_similar(hist[i as int], input@));
                }
            }
            return Some(i);
        }
        i += 1;
    }
    None
}

/// The position of the line editor in the history, and the suggestion shown while typing.
pub struct HistorySelector {
    offset: usize,
    similary_named_offset: Option<usize>,
    input: String,
}

impl HistorySelector {
    /// Steps back from the input being typed (0 is the input itself).
    pub closed spec fn spec_offset(&self) -> nat {
        self.offset as nat
    }

    pub closed spec fn spec_similar(&self) -> Option<usize> {
        self.similary_named_offset
    }

    /// The input saved when the selection left it.
    pub closed spec fn spec_input(&self) -> Seq<char> {
        self.input@
    }

    pub fn new() -> (r: HistorySelector)
        ensures
            r.spec_offset() == 0,
            r.spec_similar() is None,
            r.spec_input() == Seq::<char>::empty(),
    {
        HistorySelector { offset: 0, similary_named_offset: None, input: String::new() }
    }

    pub fn reset(&mut self)
        ensures
            final(self).spec_offset() == 0,
            final(self).spec_similar() == old(self).spec_similar(),
            final(self).spec_input() == old(self).spec_input(),
    {
        self.offset = 0;
    }

    /// The selected line: the saved input, or a history entry.
    pub fn current(&self, history: &History) -> (r: Option<String>)
        ensures
            self.spec_offset() == 0 ==> (r matches Some(s) && s@ == self.spec_input()),
            self.spec_offset() != 0 ==> match r {
                Some(s) => entry_back(history.entries(), self.spec_offset() as int) == Some(s@),
                None => entry_back(history.entries(), self.spec_offset() as int) is None,
            },
    {
        if self.offset == 0 {
            Some(self.input.clone())
        } else {
            let n = history.len();
            if self.offset <= n {
                match history.get(n - self.offset) {
                    Some(s) => Some(s.clone()),
                    None => None,
                }
            } else {
                None
            }
        }
    }

    /// The suggested history entry, if any.
    pub fn similary_named_history(&self, history: &History) -> (r: Option<String>)
        ensures
            match self.spec_similar() {
                Some(o) => match r {
                    Some(s) => entry_back(history.entries(), o as int) == Some(s@),
                    None => entry_back(history.entries(), o as int) is None,
                },
                None => r is None,
            },
    {
        match self.similary_named_offset {
            Some(offset) => {
                let n = history.len();
                if 1 <= offset && offset <= n {
                    match history.get(n - offset) {
                        Some(s) => Some(s.clone()),
                        None => None,
                    }
                } else {
                    None
                }
            },
            None => None,
        }
    }

    /// Suggests the oldest entry that extends `input`.
    pub fn set_similary_named_history(&mut self, history: &History, input: &str)
        ensures
            final(self).spec_offset() == old(self).spec_offset(),
            final(self).spec_input() == old(self).spec_input(),
            match first_similar(history.entries(), input@) {
                Some(p) => final(self).spec_similar() == Some((history.entries().len() - p) as usize),
                None => final(self).spec_similar() is None,
            },
    {
        self.similary_named_offset = match find_similar(history, input, false) {
            Some(p) => Some(history.len() - p),
            None => None,
        };
    }

    pub fn clear_similary_named_history(&mut self)
        ensures
            final(self).spec_offset() == old(self).spec_offset(),
            final(self).spec_input() == old(self).spec_input(),
            final(self).spec_similar() is None,
    {
        self.similary_named_offset = None;
    }

    /// Selects the previous history entry: the oldest one that extends a non-empty
    /// `input`, else one step further back, never beyond the oldest. Leaving the input
    /// saves it.
    pub fn prev(&mut self, history: &History, input: &str)
        ensures
            old(self).spec_offset() == 0 ==> final(self).spec_input() == input@,
            old(self).spec_offset() != 0 ==> final(self).spec_input() == old(self).spec_input(),
            final(self).spec_similar() == old(self).spec_similar(),
            final(self).spec_offset() as int == ({
                let n = history.entries().len();
                let o = match (if input@.len() == 0 { None } else { first_similar(history.entries(), input@) }) {
                    Some(p) => n - p,
                    None => old(self).spec_offset() + 1int,
                };
                if o >= n { n as int } else { o }
            }),
    {
        if self.offset == 0 {
            self.input = input.to_owned();
        }
        let hist_len = history.len();
        match find_similar(history, input, true) {
            Some(p) => {
                self.offset = hist_len - p;
            },
            None => {
                self.offset = if self.offset >= hist_len {
                    hist_len
                } else {
                    self.offset + 1
                };
            },
        }
        if self.offset >= hist_len {
            self.offset = hist_len;
        }
    }

    /// Selects the next (newer) history entry.
    pub fn next(&mut self)
        ensures
            final(self).spec_offset() == if old(self).spec_offset() > 0 {
                (old(self).spec_offset() - 1) as nat
            } else {
                0
            },
            final(self).spec_similar() == old(self).spec_similar(),
            final(self).spec_input() == old(self).spec_input(),
    {
        if self.offset > 0 {
            self.offset -= 1;
        }
    }
}

} // verus!
