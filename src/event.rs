use vstd::prelude::*;

use crate::text::{chars_of, string_of_all};

verus! {

/// The number of bytes UTF-8 takes for `c`.
pub open spec fn utf8_width(c: char) -> nat {
    if (c as u32) < 0x80 {
        1
    } else if (c as u32) < 0x800 {
        2
    } else if (c as u32) < 0x10000 {
        3
    } else {
        4
    }
}

/// The number of bytes UTF-8 takes for `s`.
pub open spec fn utf8_len(s: Seq<char>) -> nat
    decreases s.len(),
{
    if s.len() == 0 {
        0
    } else {
        utf8_len(s.drop_last()) + utf8_width(s.last())
    }
}

proof fn lemma_utf8_len_bound(s: Seq<char>)
    ensures
        utf8_len(s) <= 4 * s.len(),
    decreases s.len(),
{
    if s.len() > 0 {
        lemma_utf8_len_bound(s.drop_last());
    }
}

fn char_width(c: char) -> (r: usize)
    ensures
        r == utf8_width(c),
{
    let x = c as u32;
    if x < 0x80 {
        1
    } else if x < 0x800 {
        2
    } else if x < 0x10000 {
        3
    } else {
        4
    }
}

/// The first `len` characters of `s`.
pub fn truncate(s: &str, len: usize) -> (r: String)
    ensures
        len <= s@.len() ==> r@ == s@.subrange(0, len as int),
        len > s@.len() ==> r@ == s@,
{
    let n = s.unicode_len();
    if len < n {
        s.substring_char(0, len).to_owned()
    } else {
        s.to_owned()
    }
}

/// The longest line the editor holds, in characters.
pub const MAX_INPUT_LEN: usize = 0x1000_0000;

/// The line being edited, with a cursor counted in characters.
#[derive(Clone, Debug)]
pub struct UserInput {
    cursor: usize,
    chars: Vec<char>,
    input: String,
    /// `indices[i]` is the byte offset of the `i`-th character; the last entry is the length
    /// in bytes.
    indices: Vec<usize>,
}

impl UserInput {
    pub closed spec fn spec_chars(&self) -> Seq<char> {
        self.chars@
    }

    pub closed spec fn spec_cursor(&self) -> nat {
        self.cursor as nat
    }

    pub closed spec fn wf(&self) -> bool {
        &&& self.cursor <= self.chars@.len()
        &&& self.chars@.len() <= MAX_INPUT_LEN
        &&& self.input@ == self.chars@
        &&& self.indices@.len() == self.chars@.len() + 1
        &&& forall|i: int| 0 <= i <= self.chars@.len() ==> #[trigger] self.indices@[i] == utf8_len(self.chars@.subrange(0, i))
    }

    /// A well-formed line keeps its cursor within it.
    pub proof fn lemma_cursor_in_line(&self)
        requires
            self.wf(),
        ensures
            self.spec_cursor() <= self.spec_chars().len(),
            self.spec_chars().len() <= MAX_INPUT_LEN,
    {
    }

    fn rebuild(&mut self)
        requires
            old(self).chars@.len() <= MAX_INPUT_LEN,
        ensures
            final(self).chars == old(self).chars,
            final(self).cursor == old(self).cursor,
            final(self).input@ == final(self).chars@,
            final(self).indices@.len() == final(self).chars@.len() + 1,
            forall|i: int| 0 <= i <= final(self).chars@.len() ==> #[trigger] final(self).indices@[i] == utf8_len(final(self).chars@.subrange(0, i)),
    {
        self.input = string_of_all(&self.chars);
        self.update_indices();
    }

    fn update_indices(&mut self)
        requires
            old(self).chars@.len() <= MAX_INPUT_LEN,
        ensures
            final(self).chars == old(self).chars,
            final(self).cursor == old(self).cursor,
            final(self).input == old(self).input,
            final(self).indices@.len() == final(self).chars@.len() + 1,
            forall|i: int| 0 <= i <= final(self).chars@.len() ==> #[trigger] final(self).indices@[i] == utf8_len(final(self).chars@.subrange(0, i)),
    {
        let mut indices: Vec<usize> = Vec::new();
        let mut acc: usize = 0;
        let mut i: usize = 0;
        assert(self.chars@.subrange(0, 0) =~= Seq::<char>::empty());
        while i < self.chars.len()
            invariant
                i <= self.chars@.len() <= MAX_INPUT_LEN,
                indices@.len() == i,
                acc == utf8_len(self.chars@.subrange(0, i as int)),
                forall|k: int| 0 <= k < i ==> #[trigger] indices@[k] == utf8_len(self.chars@.subrange(0, k)),
            decreases self.chars@.len() - i,
        {
            proof {
                lemma_utf8_len_bound(self.chars@.subrange(0, i + 1));
                assert(self.chars@.subrange(0, i + 1).drop_last() =~= self.chars@.subrange(0, i as int));
            }
            indices.push(acc);
            acc = acc + char_width(self.chars[i]);
            i += 1;
        }
        indices.push(acc);
        self.indices = indices;
    }

    pub fn new() -> (r: UserInput)
        ensures
            r.wf(),
            r.spec_chars() == Seq::<char>::empty(),
            r.spec_cursor() == 0,
    {
        let mut u = UserInput { cursor: 0, chars: Vec::new(), input: String::new(), indices: Vec::new() };
        u.update_indices();
        u
    }

    pub fn is_empty(&self) -> (r: bool)
        requires
            self.wf(),
        ensures
            r == (self.spec_chars().len() == 0),
    {
        self.chars.len() == 0
    }

    /// The length in characters.
    pub fn len(&self) -> (r: usize)
        requires
            self.wf(),
        ensures
            r == self.spec_chars().len(),
    {
        self.chars.len()
    }

    pub fn cursor(&self) -> (r: usize)
        ensures
            r == self.spec_cursor(),
    {
        self.cursor
    }

    pub fn as_str(&self) -> (r: &str)
        requires
            self.wf(),
        ensures
            r@ == self.spec_chars(),
    {
        self.input.as_str()
    }

    /// The byte offset of the cursor in the UTF-8 text.
    pub fn byte_index(&self) -> (r: usize)
        requires
            self.wf(),
        ensures
            r == utf8_len(self.spec_chars().subrange(0, self.spec_cursor() as int)),
    {
        self.indices[self.cursor]
    }

    pub fn clear(&mut self)
        ensures
            final(self).wf(),
            final(self).spec_chars() == Seq::<char>::empty(),
            final(self).spec_cursor() == 0,
    {
        self.cursor = 0;
        self.chars = Vec::new();
        self.rebuild();
    }

    /// Replaces the text, with the cursor at its end.
    pub fn reset(&mut self, input: String)
        requires
            input@.len() <= MAX_INPUT_LEN,
        ensures
            final(self).wf(),
            final(self).spec_chars() == input@,
            final(self).spec_cursor() == input@.len(),
    {
        self.chars = chars_of(input.as_str());
        self.cursor = self.chars.len();
        self.rebuild();
    }

    /// Inserts `ch` at the cursor and moves past it.
    pub fn insert(&mut self, ch: char)
        requires
            old(self).wf(),
            old(self).spec_chars().len() < MAX_INPUT_LEN,
        ensures
            final(self).wf(),
            final(self).spec_chars() == old(self).spec_chars().insert(old(self).spec_cursor() as int, ch),
            final(self).spec_cursor() == old(self).spec_cursor() + 1,
    {
        self.chars.insert(self.cursor, ch);
        self.cursor = self.cursor + 1;
        self.rebuild();
    }

    /// Deletes the character under the cursor, if any.
    pub fn delete(&mut self)
        requires
            old(self).wf(),
        ensures
            final(self).wf(),
            old(self).spec_cursor() < old(self).spec_chars().len() ==> final(self).spec_chars()
                == old(self).spec_chars().remove(old(self).spec_cursor() as int),
            old(self).spec_cursor() >= old(self).spec_chars().len() ==> final(self).spec_chars()
                == old(self).spec_chars(),
            final(self).spec_cursor() == old(self).spec_cursor(),
    {
        if self.cursor < self.chars.len() {
            self.chars.remove(self.cursor);
            self.rebuild();
        }
    }

    /// Deletes the character before the cursor, if any.
    pub fn backspace(&mut self)
        requires
            old(self).wf(),
        ensures
            final(self).wf(),
            old(self).spec_cursor() > 0 ==> final(self).spec_chars() == old(self).spec_chars().remove(
                old(self).spec_cursor() - 1,
            ) && final(self).spec_cursor() == old(self).spec_cursor() - 1,
            old(self).spec_cursor() == 0 ==> final(self).spec_chars() == old(self).spec_chars()
                && final(self).spec_cursor() == 0,
    {
        if self.cursor > 0 {
            self.cursor = self.cursor - 1;
            self.chars.remove(self.cursor);
            self.rebuild();
        }
    }

    /// Inserts `string` at the cursor and moves past it.
    pub fn insert_str(&mut self, string: &str)
        requires
            old(self).wf(),
            old(self).spec_chars().len() + string@.len() <= MAX_INPUT_LEN,
        ensures
            final(self).wf(),
            final(self).spec_chars() == old(self).spec_chars().subrange(0, old(self).spec_cursor() as int)
                + string@ + old(self).spec_chars().subrange(old(self).spec_cursor() as int, old(self).spec_chars().len() as int),
            final(self).spec_cursor() == old(self).spec_cursor() + string@.len(),
    {
        let s = chars_of(string);
        let mut i: usize = 0;
        let ghost a = self.chars@.subrange(0, self.cursor as int);
        let ghost b = self.chars@.subrange(self.cursor as int, self.chars@.len() as int);
        let ghost c0 = self.cursor;
        while i < s.len()
            invariant
                i <= s@.len(),
                s@ == string@,
                self.cursor == c0 + i,
                self.chars@ == a + s@.subrange(0, i as int) + b,
                a.len() == c0,
                a.len() + b.len() + s@.len() <= MAX_INPUT_LEN,
            decreases s@.len() - i,
        {
            self.chars.insert(self.cursor, s[i]);
            self.cursor = self.cursor + 1;
            i += 1;
            assert(self.chars@ =~= a + s@.subrange(0, i as int) + b);
        }
        assert(s@.subrange(0, i as int) =~= s@);
        self.rebuild();
    }

    /// Replaces the characters `range` with `replace_with` and puts the cursor after them.
    pub fn replace_range(&mut self, range: std::ops::Range<usize>, replace_with: &str)
        requires
            old(self).wf(),
            range.start <= range.end <= old(self).spec_chars().len(),
            old(self).spec_chars().len() - (range.end - range.start) + replace_with@.len() <= MAX_INPUT_LEN,
        ensures
            final(self).wf(),
            final(self).spec_chars() == old(self).spec_chars().subrange(0, range.start as int) + replace_with@
                + old(self).spec_chars().subrange(range.end as int, old(self).spec_chars().len() as int),
            final(self).spec_cursor() == range.start + replace_with@.len(),
    {
        let start = range.start;
        let end = range.end;
        let mut k: usize = start;
        let ghost a = self.chars@.subrange(0, start as int);
        let ghost b = self.chars@.subrange(end as int, self.chars@.len() as int);
        while k < end
            invariant
                start <= k <= end,
                self.chars@ == a + self.chars@.subrange(start as int, start + (end - k)) + b,
                a.len() == start,
                self.chars@.len() == start + (end - k) + b.len(),
            decreases end - k,
        {
            let ghost prev = self.chars@;
            self.chars.remove(start);
            k += 1;
            assert(self.chars@ =~= a + self.chars@.subrange(start as int, start + (end - k)) + b) by {
                assert(prev =~= a + prev.subrange(start as int, start + (end - k) + 1) + b);
            }
        }
        assert(self.chars@ =~= a + b);
        self.cursor = start;
        self.rebuild();
        assert(self.chars@.subrange(0, start as int) =~= a);
        assert(self.chars@.subrange(start as int, self.chars@.len() as int) =~= b);
        self.insert_str(replace_with);
    }

    /// Moves the cursor by `offset` characters, within the line.
    pub fn move_by(&mut self, offset: isize)
        requires
            old(self).wf(),
        ensures
            final(self).wf(),
            final(self).spec_chars() == old(self).spec_chars(),
            final(self).spec_cursor() as int == if old(self).spec_cursor() + offset < 0 {
                0
            } else if old(self).spec_cursor() + offset > old(self).spec_chars().len() {
                old(self).spec_chars().len() as int
            } else {
                old(self).spec_cursor() + offset
            },
    {
        if offset < 0 {
            let back: usize = if offset == isize::MIN {
                usize::MAX
            } else {
                (-offset) as usize
            };
            self.cursor = if self.cursor >= back {
                self.cursor - back
            } else {
                0
            };
        } else {
            let fwd = offset as usize;
            let room = self.chars.len() - self.cursor;
            self.cursor = if fwd >= room {
                self.chars.len()
            } else {
                self.cursor + fwd
            };
        }
    }

    pub fn move_to_begin(&mut self)
        requires
            old(self).wf(),
        ensures
            final(self).wf(),
            final(self).spec_chars() == old(self).spec_chars(),
            final(self).spec_cursor() == 0,
    {
        self.cursor = 0;
    }

    pub fn move_to_end(&mut self)
        requires
            old(self).wf(),
        ensures
            final(self).wf(),
            final(self).spec_chars() == old(self).spec_chars(),
            final(self).spec_cursor() == old(self).spec_chars().len(),
    {
        self.cursor = self.chars.len();
    }
}

} // verus!

verus! {

/// A key as the editor reads it.
#[derive(Debug, Clone, Copy, PartialEq, Eq, Structural)]
pub enum Key {
    /// A printable character typed without modifiers.
    Char(char),
    /// A printable character typed with shift.
    ShiftChar(char),
    /// A letter typed with control.
    Ctrl(char),
    Enter,
    Backspace,
    Tab,
    BackTab,
    Esc,
    Left,
    Right,
    Up,
    Down,
    /// Any other key: ignored.
    Other,
}

/// What the editor's driver does after a key.
#[derive(Debug, Clone, PartialEq, Eq)]
pub enum KeyAction {
    /// Redraw the line.
    Redraw,
    /// Run this line, then start a new one.
    RunCommand(String),
    /// Abandon the line: print a newline and a new prompt.
    NewPrompt,
    /// Leave the shell.
    Exit,
}

/// What completion looks for.
#[derive(Debug, Clone, PartialEq, Eq)]
pub enum CompletionRequest {
    /// Command names from the path table.
    Commands,
    /// Filesystem entries matching `pattern`; directories only when `only_dirs`.
    Paths { pattern: String, only_dirs: bool },
}

/// `s` with each space escaped by a backslash.
pub open spec fn escape_spaces(s: Seq<char>) -> Seq<char>
    decreases s.len(),
{
    if s.len() == 0 {
        Seq::empty()
    } else {
        escape_spaces(s.drop_last()) + if s.last() == ' ' {
            seq!['\\', ' ']
        } else {
            seq![s.last()]
        }
    }
}

/// The entries of `comps` that extend `text`, spaces escaped, in order, each once.
pub open spec fn filter_entries(comps: Seq<Seq<char>>, text: Seq<char>) -> Seq<Seq<char>>
    decreases comps.len(),
{
    if comps.len() == 0 {
        Seq::empty()
    } else {
        let rest = filter_entries(comps.drop_last(), text);
        if crate::text::is_prefix_of(text, comps.last()) && !rest.contains(escape_spaces(comps.last())) {
            rest.push(escape_spaces(comps.last()))
        } else {
            rest
        }
    }
}

fn escape_spaces_exec(s: &str) -> (r: String)
    ensures
        r@ == escape_spaces(s@),
{
    let n = s.unicode_len();
    let mut r = String::new();
    let mut i: usize = 0;
    while i < n
        invariant
            n == s@.len(),
            i <= n,
            r@ == escape_spaces(s@.subrange(0, i as int)),
        decreases n - i,
    {
        assert(s@.subrange(0, i + 1).drop_last() =~= s@.subrange(0, i as int));
        let c = s.get_char(i);
        if c == ' ' {
            crate::text::push_char(&mut r, '\\');
            crate::text::push_char(&mut r, ' ');
        } else {
            crate::text::push_char(&mut r, c);
        }
        i += 1;
        assert(r@ =~= escape_spaces(s@.subrange(0, i as int)));
    }
    assert(s@.subrange(0, i as int) =~= s@);
    r
}

/// Whether `v` holds a string equal to `x`.
fn contains_string(v: &Vec<String>, x: &str) -> (r: bool)
    ensures
        r == crate::text::views(v@).contains(x@),
{
    let mut i: usize = 0;
    while i < v.len()
        invariant
            i <= v@.len(),
            forall|k: int| 0 <= k < i ==> v@[k]@ != x@,
        decreases v@.len() - i,
    {
        if crate::text::str_eq(v[i].as_str(), x) {
            assert(crate::text::views(v@)[i as int] == x@);
            return true;
        }
        i += 1;
    }
    assert forall|k: int| 0 <= k < crate::text::views(v@).len() implies crate::text::views(v@)[k] != x@ by {
        assert(crate::text::views(v@)[k] == v@[k]@);
    }
    false
}

/// The completion entries that extend `text`, with spaces escaped, without repeats.
pub fn filter_completions(comps: &Vec<String>, text: &str) -> (r: Vec<String>)
    ensures
        crate::text::views(r@) == filter_entries(crate::text::views(comps@), text@),
{
    let ghost cv = crate::text::views(comps@);
    let mut r: Vec<String> = Vec::new();
    let mut i: usize = 0;
    while i < comps.len()
        invariant
            i <= comps@.len(),
            cv == crate::text::views(comps@),
            crate::text::views(r@) == filter_entries(cv.subrange(0, i as int), text@),
        decreases comps@.len() - i,
    {
        assert(cv.subrange(0, i + 1).drop_last() =~= cv.subrange(0, i as int));
        assert(cv.subrange(0, i + 1).last() == comps@[i as int]@);
        let ghost prev = r@;
        if crate::text::starts_with(comps[i].as_str(), text) {
            let e = escape_spaces_exec(comps[i].as_str());
            if !contains_string(&r, e.as_str()) {
                r.push(e);
                assert(crate::text::views(r@) =~= crate::text::views(prev).push(e@));
            }
            assert(crate::text::views(r@) =~= filter_entries(cv.subrange(0, i + 1), text@));
        } else {
            assert(crate::text::views(r@) =~= filter_entries(cv.subrange(0, i + 1), text@));
        }
        i += 1;
    }
    assert(cv.subrange(0, i as int) =~= cv);
    r
}

/// Whether a directory entry named `filename` is offered for `pattern`: dotfiles only when
/// the pattern starts with `.` or holds `/.`.
pub fn keep_entry(pattern: &str, filename: &str) -> (r: bool)
    ensures
        r == (crate::text::is_prefix_of(seq!['.'], pattern@) || contains_pair(pattern@, '/', '.')
            || !crate::text::is_prefix_of(seq!['.'], filename@)),
{
    proof {
        reveal_strlit(".");
        assert("."@ =~= seq!['.']);
    }
    if crate::text::starts_with(pattern, ".") {
        return true;
    }
    let n = pattern.unicode_len();
    let mut i: usize = 0;
    while i < n && i + 1 < n
        invariant
            n == pattern@.len(),
            i <= n,
            forall|k: int| 0 <= k < i && k + 1 < n ==> !(pattern@[k] == '/' && #[trigger] pattern@[k + 1] == '.'),
        decreases n - i,
    {
        if pattern.get_char(i) == '/' && pattern.get_char(i + 1) == '.' {
            return true;
        }
        i += 1;
    }
    !crate::text::starts_with(filename, ".")
}

/// Whether `a` is followed by `b` somewhere in `s`.
pub open spec fn contains_pair(s: Seq<char>, a: char, b: char) -> bool {
    exists|k: int| 0 <= k && k + 1 < s.len() && s[k] == a && #[trigger] s[k + 1] == b
}

/// The prompt: `cwd` with a leading `home` written `~`, then ` $ `.
pub fn prompt_text(cwd: &str, home: Option<&str>) -> (r: String)
    ensures
        match home {
            Some(h) => if h@.len() > 0 && crate::text::is_prefix_of(h@, cwd@) {
                r@ == seq!['~'] + cwd@.subrange(h@.len() as int, cwd@.len() as int) + seq![' ', '$', ' ']
            } else {
                r@ == cwd@ + seq![' ', '$', ' ']
            },
            None => r@ == cwd@ + seq![' ', '$', ' '],
        },
{
    proof {
        reveal_strlit("~");
        reveal_strlit(" $ ");
        assert(" $ "@ =~= seq![' ', '$', ' ']);
    }
    let p = match home {
        Some(h) => if h.unicode_len() > 0 && crate::text::starts_with(cwd, h) {
            let rest = cwd.substring_char(h.unicode_len(), cwd.unicode_len());
            let mut t = String::new();
            crate::text::push_char(&mut t, '~');
            let t = t.concat(rest);
            assert(t@ =~= seq!['~'] + cwd@.subrange(h@.len() as int, cwd@.len() as int));
            t
        } else {
            cwd.to_owned()
        },
        None => cwd.to_owned(),
    };
    let out = p.concat(" $ ");
    out
}

} // verus!

verus! {

/// The line editor's state: the line, its history position and the completion browser.
pub struct Editor {
    input: UserInput,
    input_stack: Vec<String>,
    input_ctx: crate::context::InputContext,
    history_selector: crate::history::HistorySelector,
    completions: Vec<String>,
    filtered_completions: Vec<String>,
    selected_completion: usize,
    completions_per_line: usize,
    do_complete: bool,
}

impl Editor {
    pub closed spec fn wf(&self) -> bool {
        self.input.wf()
    }

    pub closed spec fn spec_input(&self) -> UserInput {
        self.input
    }

    pub closed spec fn spec_completions(&self) -> Seq<Seq<char>> {
        crate::text::views(self.completions@)
    }

    pub closed spec fn spec_filtered(&self) -> Seq<Seq<char>> {
        crate::text::views(self.filtered_completions@)
    }

    pub closed spec fn spec_selected(&self) -> nat {
        self.selected_completion as nat
    }

    pub closed spec fn spec_per_line(&self) -> nat {
        self.completions_per_line as nat
    }

    pub closed spec fn spec_do_complete(&self) -> bool {
        self.do_complete
    }

    pub closed spec fn spec_selector(&self) -> crate::history::HistorySelector {
        self.history_selector
    }

    /// The word under the cursor when the context was last computed, and its range.
    pub closed spec fn spec_current_text(&self) -> Seq<char> {
        self.input_ctx.current_text@
    }

    pub closed spec fn spec_current_range(&self) -> (usize, usize) {
        self.input_ctx.current_literal
    }

    pub closed spec fn spec_ctx_input(&self) -> Seq<char> {
        self.input_ctx.input@
    }

    /// Whether the word under the cursor is the command name.
    pub closed spec fn spec_ctx_is_argv0(&self) -> bool {
        self.input_ctx.is_argv0
    }

    /// The command name of the line, if any.
    pub closed spec fn spec_ctx_argv0(&self) -> Option<Seq<char>> {
        match self.input_ctx.argv0 {
            Some(w) => Some(w@),
            None => None,
        }
    }

    /// The lines put aside, the last one on top.
    pub closed spec fn spec_stack(&self) -> Seq<Seq<char>> {
        crate::text::views(self.input_stack@)
    }

    /// `after` is the line once the selected completion replaced the word under the
    /// cursor, with the cursor just after it; or the line unchanged when there is no
    /// selection or the word's range does not fit the line.
    pub open spec fn takes_selection(&self, after: UserInput) -> bool {
        let (a, b) = self.spec_current_range();
        let chars = self.spec_input().spec_chars();
        if self.spec_selected() < self.spec_filtered().len() && a <= b <= chars.len()
            && chars.len() - (b - a) + self.spec_filtered()[self.spec_selected() as int].len() <= MAX_INPUT_LEN {
            &&& after.spec_chars() == chars.subrange(0, a as int) + self.spec_filtered()[self.spec_selected() as int]
                + chars.subrange(b as int, chars.len() as int)
            &&& after.spec_cursor() == a + self.spec_filtered()[self.spec_selected() as int].len()
        } else {
            after == self.spec_input()
        }
    }

    pub open spec fn completion_mode(&self) -> bool {
        self.spec_completions().len() > 0
    }

    pub fn new() -> (r: Editor)
        ensures
            r.wf(),
            r.spec_input().spec_chars() == Seq::<char>::empty(),
            !r.completion_mode(),
            !r.spec_do_complete(),
    {
        let input = UserInput::new();
        Editor {
            input,
            input_stack: Vec::new(),
            input_ctx: crate::context::parse_context("", 0),
            history_selector: crate::history::HistorySelector::new(),
            completions: Vec::new(),
            filtered_completions: Vec::new(),
            selected_completion: 0,
            completions_per_line: 0,
            do_complete: false,
        }
    }

    pub fn input(&self) -> (r: &UserInput)
        ensures
            *r == self.spec_input(),
    {
        &self.input
    }

    pub fn context(&self) -> (r: &crate::context::InputContext)
        ensures
            r.current_text@ == self.spec_current_text(),
            r.current_literal == self.spec_current_range(),
    {
        &self.input_ctx
    }

    pub fn filtered_completions(&self) -> (r: &Vec<String>)
        ensures
            crate::text::views(r@) == self.spec_filtered(),
    {
        &self.filtered_completions
    }

    pub fn selected_completion(&self) -> (r: usize)
        ensures
            r == self.spec_selected(),
    {
        self.selected_completion
    }

    pub fn is_completion_mode(&self) -> (r: bool)
        ensures
            r == self.completion_mode(),
    {
        self.completions.len() > 0
    }

    /// Set by the renderer: how many entries one row of the completion grid shows.
    pub fn set_completions_per_line(&mut self, n: usize)
        ensures
            final(self).spec_per_line() == n,
            final(self).wf() == old(self).wf(),
            final(self).spec_input() == old(self).spec_input(),
    {
        self.completions_per_line = n;
    }

    fn clear_completions(&mut self)
        ensures
            !final(self).completion_mode(),
            final(self).spec_input() == old(self).spec_input(),
            final(self).wf() == old(self).wf(),
            final(self).spec_selector() == old(self).spec_selector(),
    {
        self.completions = Vec::new();
        assert(crate::text::views(self.completions@) =~= Seq::<Seq<char>>::empty());
    }

    fn reparse_input_ctx(&mut self)
        requires
            old(self).wf(),
        ensures
            final(self).wf(),
            final(self).spec_input() == old(self).spec_input(),
            final(self).spec_completions() == old(self).spec_completions(),
            final(self).spec_selector() == old(self).spec_selector(),
            final(self).spec_ctx_input() == old(self).spec_input().spec_chars(),
            final(self).spec_current_range() == (
                crate::context::word_start(old(self).spec_input().spec_chars(), old(self).spec_input().spec_cursor() as int) as usize,
                crate::context::word_end(old(self).spec_input().spec_chars(), old(self).spec_input().spec_cursor() as int) as usize,
            ),
            final(self).spec_do_complete() == old(self).spec_do_complete(),
            final(self).spec_stack() == old(self).spec_stack(),
    {
        self.input_ctx = crate::context::parse_context(self.input.as_str(), self.input.cursor());
    }

    /// Keeps the completions that extend the word under the cursor (none for an empty
    /// line), and keeps the selection within them.
    fn filter_completion_entries(&mut self)
        requires
            old(self).wf(),
        ensures
            final(self).wf(),
            final(self).spec_input() == old(self).spec_input(),
            final(self).spec_completions() == old(self).spec_completions(),
            final(self).spec_selector() == old(self).spec_selector(),
            final(self).spec_ctx_input() == old(self).spec_ctx_input(),
            final(self).spec_current_range() == old(self).spec_current_range(),
            final(self).spec_do_complete() == old(self).spec_do_complete(),
            final(self).spec_filtered() == if old(self).spec_input().spec_chars().len() == 0 {
                Seq::<Seq<char>>::empty()
            } else {
                filter_entries(old(self).spec_completions(), old(self).spec_current_text())
            },
            final(self).spec_filtered().len() == 0 ==> final(self).spec_selected() == 0,
            final(self).spec_filtered().len() > 0 ==> final(self).spec_selected() < final(self).spec_filtered().len(),
    {
        if self.input.is_empty() {
            self.filtered_completions = Vec::new();
            assert(crate::text::views(self.filtered_completions@) =~= Seq::<Seq<char>>::empty());
        } else {
            self.filtered_completions = filter_completions(&self.completions, self.input_ctx.current_text.as_str());
        }
        let n = self.filtered_completions.len();
        let top = if n > 0 {
            n - 1
        } else {
            0
        };
        if self.selected_completion > top {
            self.selected_completion = top;
        }
    }

    /// Replaces the word under the cursor by the selected completion, and leaves
    /// completion.
    fn select_completion(&mut self)
        requires
            old(self).wf(),
        ensures
            final(self).wf(),
            !final(self).completion_mode(),
            final(self).spec_selector() == old(self).spec_selector(),
            old(self).takes_selection(final(self).spec_input()),
    {
        let (a, b) = self.input_ctx.current_literal;
        if self.selected_completion < self.filtered_completions.len() && a <= b && b <= self.input.len() {
            let sel = self.filtered_completions[self.selected_completion].clone();
            let n = self.input.len();
            if sel.unicode_len() <= MAX_INPUT_LEN && n - (b - a) <= MAX_INPUT_LEN - sel.unicode_len() {
                assert(sel@ == crate::text::views(self.filtered_completions@)[self.selected_completion as int]);
                self.input.replace_range(a..b, sel.as_str());
            }
        }
        self.clear_completions();
    }

    /// Takes in the entries a completion search found: keeps those that extend the word
    /// under the cursor, and completes at once when exactly one does.
    pub fn update_completion_entries(&mut self, entries: Vec<String>)
        requires
            old(self).wf(),
        ensures
            final(self).wf(),
            ({
                let f = if old(self).spec_input().spec_chars().len() == 0 {
                    Seq::<Seq<char>>::empty()
                } else {
                    filter_entries(crate::text::views(entries@), old(self).spec_current_text())
                };
                let (a, b) = old(self).spec_current_range();
                let chars = old(self).spec_input().spec_chars();
                &&& f.len() != 1 ==> final(self).spec_completions() == crate::text::views(entries@)
                    && final(self).spec_filtered() == f && final(self).spec_input() == old(self).spec_input()
                &&& f.len() == 1 ==> !final(self).completion_mode()
                &&& f.len() == 1 && a <= b <= chars.len() && chars.len() - (b - a) + f[0].len() <= MAX_INPUT_LEN
                    ==> final(self).spec_input().spec_chars() == chars.subrange(0, a as int) + f[0]
                        + chars.subrange(b as int, chars.len() as int)
                        && final(self).spec_input().spec_cursor() == a + f[0].len()
            }),
    {
        self.completions = entries;
        self.filter_completion_entries();
        if self.filtered_completions.len() == 1 {
            self.select_completion();
            self.reparse_input_ctx();
        }
    }

    /// What a pending completion request looks for, clearing the request: command names
    /// for a command word that is not a path, else filesystem entries (directories only
    /// after `cd`).
    pub fn take_completion_request(&mut self) -> (r: Option<CompletionRequest>)
        requires
            old(self).wf(),
        ensures
            final(self).wf(),
            !final(self).spec_do_complete(),
            final(self).spec_input() == old(self).spec_input(),
            !old(self).spec_do_complete() ==> r is None,
            old(self).spec_do_complete() ==> ({
                let text = old(self).spec_current_text();
                if old(self).spec_ctx_is_argv0() {
                    if text.len() > 0 && (text[0] == '/' || text[0] == '.' || text[0] == '~') {
                        r matches Some(CompletionRequest::Paths { pattern, only_dirs }) && pattern@ == text && !only_dirs
                    } else {
                        r == Some(CompletionRequest::Commands)
                    }
                } else {
                    r matches Some(CompletionRequest::Paths { pattern, only_dirs }) && pattern@ == text
                        && only_dirs == (old(self).spec_ctx_argv0() == Some(seq!['c', 'd']))
                }
            }),
    {
        if !self.do_complete {
            return None;
        }
        self.do_complete = false;
        let text = self.input_ctx.current_text.as_str();
        let n = text.unicode_len();
        if self.input_ctx.is_argv0 {
            let c = if n > 0 {
                text.get_char(0)
            } else {
                ' '
            };
            if n > 0 && (c == '/' || c == '.' || c == '~') {
                Some(CompletionRequest::Paths { pattern: text.to_owned(), only_dirs: false })
            } else {
                Some(CompletionRequest::Commands)
            }
        } else {
            proof {
                reveal_strlit("cd");
                assert("cd"@ =~= seq!['c', 'd']);
            }
            let only_dirs = match &self.input_ctx.argv0 {
                Some(w) => crate::text::str_eq(w.as_str(), "cd"),
                None => false,
            };
            Some(CompletionRequest::Paths { pattern: text.to_owned(), only_dirs })
        }
    }

    /// The history entry suggested for the current line.
    pub fn similary_named_history(&self, history: &crate::history::History) -> (r: Option<String>)
        ensures
            match self.spec_selector().spec_similar() {
                Some(o) => match r {
                    Some(s) => crate::history::entry_back(history.entries(), o as int) == Some(s@),
                    None => crate::history::entry_back(history.entries(), o as int) is None,
                },
                None => r is None,
            },
    {
        self.history_selector.similary_named_history(history)
    }

    /// After the line was run: starts an empty line, or the one put aside.
    pub fn command_done(&mut self)
        requires
            old(self).wf(),
        ensures
            final(self).wf(),
            old(self).spec_stack().len() == 0 ==> final(self).spec_input().spec_chars() == Seq::<char>::empty(),
            old(self).spec_stack().len() > 0 && old(self).spec_stack().last().len() <= MAX_INPUT_LEN
                ==> final(self).spec_input().spec_chars() == old(self).spec_stack().last(),
            final(self).spec_stack() == if old(self).spec_stack().len() > 0 {
                old(self).spec_stack().drop_last()
            } else {
                old(self).spec_stack()
            },
    {
        self.input.clear();
        let ghost prev = self.input_stack@;
        match self.input_stack.pop() {
            Some(s) => {
                assert(crate::text::views(self.input_stack@) =~= crate::text::views(prev).drop_last());
                if s.unicode_len() <= MAX_INPUT_LEN {
                    self.input.insert_str(s.as_str());
                    assert(self.input.spec_chars() =~= s@);
                }
            },
            None => {},
        }
        self.reparse_input_ctx();
    }

    /// Puts the line aside to edit another; it comes back after the next command.
    pub fn push_buffer_stack(&mut self)
        requires
            old(self).wf(),
        ensures
            final(self).wf(),
            final(self).spec_input().spec_chars() == Seq::<char>::empty(),
            final(self).spec_stack() == old(self).spec_stack().push(old(self).spec_input().spec_chars()),
    {
        let ghost prev = self.input_stack@;
        let line = self.input.as_str().to_owned();
        self.input_stack.push(line);
        assert(crate::text::views(self.input_stack@) =~= crate::text::views(prev).push(line@));
        self.input.clear();
    }
}

} // verus!

verus! {

impl Editor {
    /// Reacts to one key. While completions are shown, arrows and Tab move the selection,
    /// Enter takes it, and Esc, `q`, Ctrl-C or Backspace leave. Otherwise keys edit the
    /// line, Up and Down walk the history, Right at the end of the line takes the history
    /// suggestion, Tab asks for completion, Enter runs the line, Ctrl-C abandons it and
    /// Ctrl-D on an empty line leaves the shell.
    pub fn handle_key(&mut self, key: Key, history: &crate::history::History) -> (r: KeyAction)
        requires
            old(self).wf(),
        ensures
            final(self).wf(),
            old(self).completion_mode() && (key == Key::Esc || key == Key::Char('q') || key == Key::Ctrl('c')
                || key == Key::Backspace) ==> !final(self).completion_mode() && final(self).spec_input() == old(self).spec_input()
                && r == KeyAction::Redraw,
            old(self).completion_mode() && key == Key::Enter ==> !final(self).completion_mode()
                && old(self).takes_selection(final(self).spec_input()) && r == KeyAction::Redraw,
            !old(self).completion_mode() && key == Key::Tab ==> final(self).spec_do_complete()
                && final(self).spec_input() == old(self).spec_input() && r == KeyAction::Redraw,
            !old(self).completion_mode() && key == Key::Enter ==> (r matches KeyAction::RunCommand(line)
                && line@ == old(self).spec_input().spec_chars())
                && final(self).spec_input() == old(self).spec_input()
                && final(self).spec_selector().spec_offset() == 0
                && final(self).spec_selector().spec_similar() is None,
            !old(self).completion_mode() && key == Key::Backspace ==> {
                let i = old(self).spec_input();
                &&& i.spec_cursor() > 0 ==> final(self).spec_input().spec_chars() == i.spec_chars().remove(i.spec_cursor() - 1)
                    && final(self).spec_input().spec_cursor() == i.spec_cursor() - 1
                &&& i.spec_cursor() == 0 ==> final(self).spec_input().spec_chars() == i.spec_chars()
                    && final(self).spec_input().spec_cursor() == 0
                &&& final(self).spec_selector().spec_similar() is None
                &&& r == KeyAction::Redraw
            },
            key == Key::Ctrl('c') && !old(self).completion_mode() ==> r == KeyAction::NewPrompt
                && final(self).spec_input().spec_chars() == Seq::<char>::empty(),
            key == Key::Ctrl('d') ==> (old(self).spec_input().spec_chars().len() == 0 <==> r == KeyAction::Exit),
            key == Key::Ctrl('d') && old(self).spec_input().spec_chars().len() > 0 ==> {
                let i = old(self).spec_input();
                &&& i.spec_cursor() < i.spec_chars().len() ==> final(self).spec_input().spec_chars() == i.spec_chars().remove(i.spec_cursor() as int)
                &&& i.spec_cursor() >= i.spec_chars().len() ==> final(self).spec_input().spec_chars() == i.spec_chars()
                &&& final(self).spec_input().spec_cursor() == i.spec_cursor()
            },
            key == Key::Ctrl('a') ==> final(self).spec_input().spec_cursor() == 0
                && final(self).spec_input().spec_chars() == old(self).spec_input().spec_chars() && !final(self).completion_mode(),
            key == Key::Ctrl('e') ==> final(self).spec_input().spec_cursor() == old(self).spec_input().spec_chars().len()
                && final(self).spec_input().spec_chars() == old(self).spec_input().spec_chars() && !final(self).completion_mode(),
            !old(self).completion_mode() && key == Key::Left ==> final(self).spec_input().spec_chars() == old(self).spec_input().spec_chars()
                && final(self).spec_input().spec_cursor() == if old(self).spec_input().spec_cursor() > 0 {
                    (old(self).spec_input().spec_cursor() - 1) as nat
                } else {
                    0
                },
            (key matches Key::Char(c) && !(old(self).completion_mode() && c == 'q') || key matches Key::ShiftChar(_))
                && old(self).spec_input().spec_chars().len() < MAX_INPUT_LEN ==> {
                let i = old(self).spec_input();
                let ch = match key {
                    Key::Char(c) => c,
                    Key::ShiftChar(c) => c,
                    _ => ' ',
                };
                &&& final(self).spec_input().spec_chars() == i.spec_chars().insert(i.spec_cursor() as int, ch)
                &&& final(self).spec_input().spec_cursor() == i.spec_cursor() + 1
            },
            old(self).completion_mode() && (key == Key::Up || key == Key::Ctrl('p')) ==> final(self).spec_input() == old(self).spec_input(),
            !old(self).completion_mode() && key == Key::Right && old(self).spec_input().spec_cursor() < old(self).spec_input().spec_chars().len()
                ==> final(self).spec_input().spec_chars() == old(self).spec_input().spec_chars()
                && final(self).spec_input().spec_cursor() == old(self).spec_input().spec_cursor() + 1,
            !old(self).completion_mode() && (key == Key::Up || key == Key::Down) ==> ({
                let o = final(self).spec_selector().spec_offset();
                &&& key == Key::Down ==> o == if old(self).spec_selector().spec_offset() > 0 {
                    (old(self).spec_selector().spec_offset() - 1) as nat
                } else {
                    0
                }
                &&& o == 0 && final(self).spec_selector().spec_input().len() <= MAX_INPUT_LEN
                    ==> final(self).spec_input().spec_chars() == final(self).spec_selector().spec_input()
                &&& o > 0 ==> match crate::history::entry_back(history.entries(), o as int) {
                    Some(h) => h.len() <= MAX_INPUT_LEN ==> final(self).spec_input().spec_chars() == h,
                    None => final(self).spec_input() == old(self).spec_input(),
                }
            }),
    {
        let mut action = KeyAction::Redraw;
        let comp = self.completions.len() > 0;
        let mut handled = comp;
        if comp {
            match key {
                Key::Esc | Key::Char('q') | Key::Ctrl('c') | Key::Backspace => {
                    self.clear_completions();
                },
                Key::Enter => {
                    self.select_completion();
                },
                Key::Left | Key::BackTab => {
                    if self.selected_completion > 0 {
                        self.selected_completion = self.selected_completion - 1;
                    }
                },
                Key::Up | Key::Ctrl('p') => {
                    self.selected_completion = if self.selected_completion >= self.completions_per_line {
                        self.selected_completion - self.completions_per_line
                    } else {
                        0
                    };
                },
                Key::Down | Key::Ctrl('n') => {
                    let n = self.filtered_completions.len();
                    let top = if n > 0 {
                        n - 1
                    } else {
                        0
                    };
                    let room = top - if self.selected_completion < top { self.selected_completion } else { top };
                    self.selected_completion = if self.completions_per_line >= room {
                        top
                    } else {
                        self.selected_completion + self.completions_per_line
                    };
                },
                Key::Right | Key::Tab => {
                    let n = self.filtered_completions.len();
                    if n == 0 {
                        self.clear_completions();
                    } else if self.selected_completion < n - 1 {
                        self.selected_completion = self.selected_completion + 1;
                    } else {
                        self.selected_completion = n - 1;
                    }
                },
                _ => {
                    handled = false;
                },
            }
        }
        if !handled {
        match key {
            Key::Tab => {
                self.do_complete = true;
            },
            Key::Up => {
                self.history_selector.prev(history, self.input.as_str());
                if let Some(line) = self.history_selector.current(history) {
                    if line.unicode_len() <= MAX_INPUT_LEN {
                        self.input.reset(line);
                    }
                }
            },
            Key::Down => {
                self.history_selector.next();
                if let Some(line) = self.history_selector.current(history) {
                    if line.unicode_len() <= MAX_INPUT_LEN {
                        self.input.reset(line);
                    }
                }
            },
            Key::Backspace => {
                self.input.backspace();
                self.history_selector.clear_similary_named_history();
            },
            Key::Enter => {
                self.history_selector.clear_similary_named_history();
                self.history_selector.reset();
                return KeyAction::RunCommand(self.input.as_str().to_owned());
            },
            Key::Ctrl('a') => {
                self.clear_completions();
                self.input.move_to_begin();
            },
            Key::Ctrl('e') => {
                self.clear_completions();
                self.input.move_to_end();
            },
            Key::Ctrl('c') => {
                self.input.clear();
                self.history_selector.clear_similary_named_history();
                action = KeyAction::NewPrompt;
            },
            Key::Ctrl('d') => {
                if self.input.is_empty() {
                    return KeyAction::Exit;
                } else {
                    self.input.delete();
                }
            },
            Key::Left => {
                self.input.move_by(-1);
            },
            Key::Right => {
                let suggestion = if self.input.cursor() == self.input.len() {
                    self.history_selector.similary_named_history(history)
                } else {
                    None
                };
                match suggestion {
                    Some(h) => {
                        if h.unicode_len() <= MAX_INPUT_LEN {
                            self.input.reset(h);
                        }
                        self.history_selector.reset();
                    },
                    None => {
                        self.input.move_by(1);
                    },
                }
            },
            Key::Char(ch) => {
                if self.input.len() < MAX_INPUT_LEN {
                    self.input.insert(ch);
                }
                self.history_selector.set_similary_named_history(history, self.input.as_str());
            },
            Key::ShiftChar(ch) => {
                if self.input.len() < MAX_INPUT_LEN {
                    self.input.insert(ch);
                }
            },
            _ => {},
        }
        }
        let ghost before = self.input;
        self.reparse_input_ctx();
        self.filter_completion_entries();
        assert(self.input == before);
        action
    }
}

} // verus!

verus! {

/// How the completion grid is laid out on the screen.
#[derive(Debug, Clone, Copy, PartialEq, Eq, Structural)]
pub struct GridLayout {
    /// Entries per row.
    pub num_columns: usize,
    /// Width of each column.
    pub column_width: usize,
    /// Index of the first entry shown.
    pub show_from: usize,
    /// Rows available to entries.
    pub max_rows: usize,
}

pub open spec fn spec_show_from(selected: int, show_from: int, num_columns: int, num_max: int) -> int {
    let s = if selected < show_from {
        (selected / num_columns) * num_columns
    } else {
        show_from
    };
    if selected >= s + num_max {
        (selected / num_columns + 1) * num_columns - num_max
    } else {
        s
    }
}

/// The widest entry plus one separating space.
pub fn longest_entry(entries: &Vec<String>) -> (r: usize)
    ensures
        forall|k: int| 0 <= k < entries@.len() ==> entries@[k]@.len() < r || entries@[k]@.len() >= usize::MAX - 1,
        r >= 1,
{
    let mut longest: usize = 1;
    let mut i: usize = 0;
    while i < entries.len()
        invariant
            i <= entries@.len(),
            longest >= 1,
            forall|k: int| 0 <= k < i ==> entries@[k]@.len() < longest || entries@[k]@.len() >= usize::MAX - 1,
        decreases entries@.len() - i,
    {
        let n = entries[i].unicode_len();
        if n < usize::MAX - 1 && n + 1 > longest {
            longest = n + 1;
        }
        i += 1;
    }
    longest
}

/// Lays out the grid for `columns` by `lines` cells below an input `input_height` rows
/// high, scrolling so that `selected` is visible. `None` when no row is left for it.
pub fn completion_layout(columns: usize, lines: usize, input_height: usize, longest: usize, selected: usize, show_from: usize) -> (r: Option<GridLayout>)
    requires
        longest >= 1,
    ensures
        columns == 0 || lines < input_height + 3 ==> r is None,
        columns > 0 && lines >= input_height + 3 ==> (r matches Some(g) && {
            let nc = if columns / longest >= 1 { columns / longest } else { 1 };
            let rows = (lines - input_height - 1) as int;
            &&& g.num_columns == nc
            &&& g.column_width == columns / nc
            &&& g.max_rows == rows
            &&& (rows - 1) * nc <= usize::MAX ==> g.show_from == spec_show_from(selected as int, show_from as int, nc as int, (rows - 1) * nc)
            &&& g.show_from <= selected
        }),
{
    if columns == 0 || lines < input_height || lines - input_height < 3 {
        return None;
    }
    let nc = if columns / longest >= 1 {
        columns / longest
    } else {
        1
    };
    let column_width = columns / nc;
    let rows = lines - input_height - 1;
    proof {
        let a = rows - 1;
        assert(0 <= a * nc <= 0xffff_ffff_ffff_ffffu128 * 0xffff_ffff_ffff_ffffu128) by (nonlinear_arith)
            requires 0 <= a <= 0xffff_ffff_ffff_ffffu128, 0 <= nc <= 0xffff_ffff_ffff_ffffu128;
    }
    let num_max: u128 = (rows as u128 - 1) * nc as u128;
    proof {
        assert((rows - 1) * nc >= nc) by (nonlinear_arith)
            requires rows >= 2, nc >= 1;
        assert(num_max == (rows - 1) * nc) by (nonlinear_arith)
            requires num_max == ((rows as u128 - 1) * nc as u128) as int, rows >= 2, nc <= usize::MAX, rows <= usize::MAX;
    }
    let mut from = show_from;
    if selected < from {
        proof {
            assert((selected / nc) * nc <= selected) by (nonlinear_arith)
                requires nc >= 1;
        }
        from = (selected / nc) * nc;
    }
    proof {
        assert(num_max <= 0xffff_ffff_ffff_ffffu128 * 0xffff_ffff_ffff_ffffu128);
    }
    if (selected as u128) >= from as u128 + num_max {
        let q: u128 = (selected / nc) as u128 + 1;
        proof {
            assert(q * nc <= selected + nc) by (nonlinear_arith)
                requires q == selected / nc + 1, nc >= 1;
            assert(selected + nc <= 0xffff_ffff_ffff_ffffu128 * 2);
        }
        let top: u128 = q * nc as u128;
        proof {
            assert(top >= num_max + 1 || top <= selected + nc) by (nonlinear_arith)
                requires q == selected / nc + 1, top == q * nc, nc >= 1;
            assert(top > selected) by (nonlinear_arith)
                requires q == selected / nc + 1, top == q * nc, nc >= 1;
            assert(top - num_max <= selected) by (nonlinear_arith)
                requires q == selected / nc + 1, top == q * nc, nc >= 1, num_max >= nc;
        }
        from = (top - num_max) as usize;
    }
    Some(GridLayout { num_columns: nc, column_width, show_from: from, max_rows: rows })
}

/// Where the cursor stands on the screen: `(column, row)` of the `cursor`-th character
/// after a prompt `prompt_len` wide, on a screen `columns` wide.
pub fn cursor_position(prompt_len: usize, cursor: usize, columns: usize) -> (r: (usize, usize))
    requires
        columns > 0,
        prompt_len + cursor <= usize::MAX,
    ensures
        r.0 == (prompt_len + cursor) % (columns as int),
        r.1 == (prompt_len + cursor) / (columns as int),
{
    let p = prompt_len + cursor;
    (p % columns, p / columns)
}

} // verus!

verus! {

/// `path` below the directory `dir`: what follows `dir` and one `/`.
pub open spec fn below(path: Seq<char>, dir: Seq<char>) -> Option<Seq<char>> {
    let d = if dir.len() > 0 && dir.last() == '/' {
        dir
    } else {
        dir.push('/')
    };
    if crate::text::is_prefix_of(d, path) {
        Some(path.subrange(d.len() as int, path.len() as int))
    } else {
        None
    }
}

/// The part of `path` below the directory `dir`, if it is below it.
pub fn strip_dir(path: &str, dir: &str) -> (r: Option<String>)
    ensures
        match r {
            Some(s) => below(path@, dir@) == Some(s@),
            None => below(path@, dir@) is None,
        },
{
    let n = dir.unicode_len();
    let mut d = dir.to_owned();
    if !(n > 0 && dir.get_char(n - 1) == '/') {
        crate::text::push_char(&mut d, '/');
    }
    if crate::text::starts_with(path, d.as_str()) {
        Some(path.substring_char(d.unicode_len(), path.unicode_len()).to_owned())
    } else {
        None
    }
}

/// How a directory entry at `path` is offered for `pattern`: under `~/` when the pattern
/// starts with `~`, as an absolute path when it starts with `/`, else relative to `cwd`
/// when below it.
pub fn completion_name(pattern: &str, path: &str, home: &str, cwd: &str) -> (r: String)
    ensures
        pattern@.len() > 0 && pattern@[0] == '~' ==> r@ == seq!['~', '/'] + match below(path@, home@) {
            Some(rel) => rel,
            None => path@,
        },
        pattern@.len() > 0 && pattern@[0] == '/' ==> r@ == seq!['/'] + match below(path@, seq!['/']) {
            Some(rel) => rel,
            None => path@,
        },
        !(pattern@.len() > 0 && (pattern@[0] == '~' || pattern@[0] == '/')) ==> r@ == match below(path@, cwd@) {
            Some(rel) => rel,
            None => path@,
        },
{
    proof {
        reveal_strlit("~/");
        reveal_strlit("/");
        assert("~/"@ =~= seq!['~', '/']);
        assert("/"@ =~= seq!['/']);
    }
    let first = if pattern.unicode_len() > 0 {
        pattern.get_char(0)
    } else {
        ' '
    };
    let (prefix, base) = if pattern.unicode_len() > 0 && first == '~' {
        ("~/", home)
    } else if pattern.unicode_len() > 0 && first == '/' {
        ("/", "/")
    } else {
        ("", cwd)
    };
    proof {
        reveal_strlit("");
    }
    let rel = match strip_dir(path, base) {
        Some(rel) => rel,
        None => path.to_owned(),
    };
    prefix.to_owned().concat(rel.as_str())
}

} // verus!

verus! {

/// How much of the completion list the grid shows.
#[derive(Debug, Clone, Copy, PartialEq, Eq, Structural)]
pub struct GridFill {
    /// Entries drawn, from the first one shown.
    pub shown: usize,
    /// Rows they take.
    pub rows: usize,
    /// Entries left below the grid.
    pub remaining: usize,
}

/// Fills the grid with the entries of a list of `total` from `show_from`, `num_columns` to
/// a row, leaving the last of `max_rows` rows free.
pub fn grid_fill(total: usize, show_from: usize, num_columns: usize, max_rows: usize) -> (r: GridFill)
    requires
        num_columns >= 1,
        max_rows >= 1,
        show_from <= total,
    ensures
        r.shown as int == if total - show_from <= (max_rows - 1) * num_columns {
            total - show_from
        } else {
            (max_rows - 1) * num_columns
        },
        r.rows as int == (r.shown + num_columns - 1) / (num_columns as int),
        r.remaining == total - show_from - r.shown,
{
    let left = total - show_from;
    let rows_max = max_rows - 1;
    let shown = if rows_max == 0 {
        0
    } else if left / num_columns >= rows_max {
        proof {
            assert(left >= rows_max * num_columns) by (nonlinear_arith)
                requires left / num_columns >= rows_max, num_columns >= 1;
            assert(rows_max * num_columns <= left);
        }
        rows_max * num_columns
    } else {
        proof {
            assert(left < rows_max * num_columns) by (nonlinear_arith)
                requires left / num_columns < rows_max, num_columns >= 1;
        }
        left
    };
    let rows = if shown == 0 {
        0
    } else {
        (shown - 1) / num_columns + 1
    };
    proof {
        if shown > 0 {
            assert((shown - 1) / (num_columns as int) + 1 == (shown + num_columns - 1) / (num_columns as int)) by (nonlinear_arith)
                requires shown >= 1, num_columns >= 1;
        } else {
            assert((0 + num_columns - 1) / (num_columns as int) == 0) by (nonlinear_arith)
                requires num_columns >= 1;
        }
        if rows_max == 0 {
            assert((max_rows - 1) * num_columns == 0) by (nonlinear_arith)
                requires max_rows == 1;
        }
    }
    GridFill { shown, rows, remaining: left - shown }
}

} // verus!

verus! {

/// The index of the last `/` in `s[..i]`.
pub open spec fn last_slash(s: Seq<char>, i: int) -> Option<int>
    decreases i,
{
    if i <= 0 || i > s.len() {
        None
    } else if s[i - 1] == '/' {
        Some(i - 1)
    } else {
        last_slash(s, i - 1)
    }
}

/// The directory `p` is in: what precedes its last `/` (`/` itself for a top-level
/// name); `None` for a name with no `/`.
pub fn parent_dir(p: &str) -> (r: Option<String>)
    ensures
        match last_slash(p@, p@.len() as int) {
            Some(i) => r matches Some(d) && d@ == if i == 0 { seq!['/'] } else { p@.subrange(0, i) },
            None => r is None,
        },
{
    let n = p.unicode_len();
    let mut i = n;
    while i > 0 && p.get_char(i - 1) != '/'
        invariant
            n == p@.len(),
            i <= n,
            last_slash(p@, n as int) == last_slash(p@, i as int),
        decreases i,
    {
        i -= 1;
    }
    if i == 0 {
        None
    } else if i == 1 {
        proof {
            reveal_strlit("/");
            assert("/"@ =~= seq!['/']);
        }
        Some("/".to_owned())
    } else {
        Some(p.substring_char(0, i - 1).to_owned())
    }
}

/// Where completion looks for `pattern`: the working directory for an empty pattern,
/// the home directory joined with what follows `~` (and its slashes), else the pattern.
pub fn completion_base(pattern: &str, home: &str, cwd: &str) -> (r: String)
    ensures
        pattern@.len() == 0 ==> r@ == cwd@,
        pattern@.len() > 0 && pattern@[0] == '~' ==> ({
            let rest = pattern@.subrange(first_non_slash(pattern@, 1), pattern@.len() as int);
            r@ == if rest.len() == 0 { home@ } else { crate::builtins::join_path(home@, rest) }
        }),
        pattern@.len() > 0 && pattern@[0] != '~' ==> r@ == pattern@,
{
    let n = pattern.unicode_len();
    if n == 0 {
        return cwd.to_owned();
    }
    if pattern.get_char(0) != '~' {
        return pattern.to_owned();
    }
    let mut i: usize = 1;
    while i < n && pattern.get_char(i) == '/'
        invariant
            n == pattern@.len(),
            1 <= i <= n,
            first_non_slash(pattern@, 1) == first_non_slash(pattern@, i as int),
        decreases n - i,
    {
        i += 1;
    }
    let rest = pattern.substring_char(i, n);
    if i == n {
        return home.to_owned();
    }
    let m = home.unicode_len();
    let mut d = home.to_owned();
    if !(m > 0 && home.get_char(m - 1) == '/') {
        crate::text::push_char(&mut d, '/');
    }
    d.concat(rest)
}

/// The first index from `i` that does not hold `/`.
pub open spec fn first_non_slash(s: Seq<char>, i: int) -> int
    decreases s.len() - i,
{
    if i >= s.len() || i < 0 {
        s.len() as int
    } else if s[i] == '/' {
        first_non_slash(s, i + 1)
    } else {
        i
    }
}

} // verus!
