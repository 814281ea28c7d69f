use vstd::prelude::*;

use crate::parser::is_blank;
use crate::text::{chars_of, string_of};

verus! {

/// Where the cursor's word begins: the start of the run of non-blank characters that
/// ends at `i`.
pub open spec fn word_start(s: Seq<char>, i: int) -> int
    decreases i,
{
    if i <= 0 || i > s.len() {
        if i > s.len() { s.len() as int } else { 0 }
    } else if is_blank(s[i - 1]) {
        i
    } else {
        word_start(s, i - 1)
    }
}

/// Where the cursor's word ends: the end of the run of non-blank characters that starts
/// at `i`.
pub open spec fn word_end(s: Seq<char>, i: int) -> int
    decreases s.len() - i,
{
    if i >= s.len() || i < 0 {
        s.len() as int
    } else if is_blank(s[i]) {
        i
    } else {
        word_end(s, i + 1)
    }
}

/// Whether only blanks come before index `i`.
pub open spec fn only_blanks_before(s: Seq<char>, i: int) -> bool {
    forall|k: int| 0 <= k < i ==> is_blank(#[trigger] s[k])
}

/// The line as the editor sees it for completion: the word under the cursor and whether
/// it is the command name.
#[derive(Debug)]
pub struct InputContext {
    pub input: String,
    /// The first word of the line, if any.
    pub argv0: Option<String>,
    /// The character range of the word under the cursor.
    pub current_literal: (usize, usize),
    /// The text of the word under the cursor.
    pub current_text: String,
    /// Whether the word under the cursor is the command name.
    pub is_argv0: bool,
}

/// Finds the word under `cursor` in `input`.
pub fn parse_context(input: &str, cursor: usize) -> (r: InputContext)
    requires
        cursor <= input@.len(),
    ensures
        r.input@ == input@,
        r.current_literal == (word_start(input@, cursor as int) as usize, word_end(input@, cursor as int) as usize),
        r.current_text@ == input@.subrange(word_start(input@, cursor as int), word_end(input@, cursor as int)),
        r.is_argv0 == only_blanks_before(input@, word_start(input@, cursor as int)),
        match r.argv0 {
            Some(w) => !only_blanks_before(input@, input@.len() as int) && w@ == input@.subrange(
                first_word_start(input@), word_end(input@, first_word_start(input@)),
            ),
            None => only_blanks_before(input@, input@.len() as int),
        },
{
    let s = chars_of(input);
    let n = s.len();
    let mut i = cursor;
    while i > 0 && !(s[i - 1] == ' ' || s[i - 1] == '\t')
        invariant
            i <= cursor <= n == s@.len(),
            s@ == input@,
            word_start(s@, cursor as int) == word_start(s@, i as int),
        decreases i,
    {
        i -= 1;
    }
    let mut j = cursor;
    while j < n && !(s[j] == ' ' || s[j] == '\t')
        invariant
            cursor <= j <= n == s@.len(),
            s@ == input@,
            word_end(s@, cursor as int) == word_end(s@, j as int),
        decreases n - j,
    {
        j += 1;
    }
    proof {
        lemma_word_start_bound(s@, i as int);
        lemma_word_end_bound(s@, j as int);
    }
    let mut k: usize = 0;
    while k < i && (s[k] == ' ' || s[k] == '\t')
        invariant
            k <= i <= n == s@.len(),
            forall|x: int| 0 <= x < k ==> is_blank(#[trigger] s@[x]),
        decreases i - k,
    {
        k += 1;
    }
    let is_argv0 = k == i;
    let mut f: usize = 0;
    while f < n && (s[f] == ' ' || s[f] == '\t')
        invariant
            f <= n == s@.len(),
            forall|x: int| 0 <= x < f ==> is_blank(#[trigger] s@[x]),
        decreases n - f,
    {
        f += 1;
    }
    let argv0 = if f == n {
        None
    } else {
        let mut e = f;
        while e < n && !(s[e] == ' ' || s[e] == '\t')
            invariant
                f <= e <= n == s@.len(),
                word_end(s@, f as int) == word_end(s@, e as int),
            decreases n - e,
        {
            e += 1;
        }
        proof {
            lemma_word_end_bound(s@, e as int);
            lemma_first_word_start(s@, f as int);
        }
        Some(string_of(&s, f, e))
    };
    proof {
        if f == n {
            assert(only_blanks_before(s@, n as int));
        } else {
            assert(!is_blank(s@[f as int]));
        }
    }
    InputContext {
        input: input.to_owned(),
        argv0,
        current_literal: (i, j),
        current_text: string_of(&s, i, j),
        is_argv0,
    }
}

/// The index of the first non-blank character.
pub open spec fn first_word_start(s: Seq<char>) -> int {
    first_non_blank(s, 0)
}

pub open spec fn first_non_blank(s: Seq<char>, i: int) -> int
    decreases s.len() - i,
{
    if i >= s.len() || i < 0 {
        s.len() as int
    } else if is_blank(s[i]) {
        first_non_blank(s, i + 1)
    } else {
        i
    }
}

proof fn lemma_first_word_start(s: Seq<char>, f: int)
    requires
        0 <= f < s.len(),
        !is_blank(s[f]),
        forall|x: int| 0 <= x < f ==> is_blank(#[trigger] s[x]),
    ensures
        first_word_start(s) == f,
{
    assert forall|i: int| 0 <= i <= f implies first_non_blank(s, i) == f by {
        lemma_first_non_blank_from(s, i, f);
    }
}

proof fn lemma_first_non_blank_from(s: Seq<char>, i: int, f: int)
    requires
        0 <= i <= f < s.len(),
        !is_blank(s[f]),
        forall|x: int| 0 <= x < f ==> is_blank(#[trigger] s[x]),
    ensures
        first_non_blank(s, i) == f,
    decreases f - i,
{
    if i < f {
        lemma_first_non_blank_from(s, i + 1, f);
    }
}

proof fn lemma_word_start_bound(s: Seq<char>, i: int)
    requires
        0 <= i <= s.len(),
        i == 0 || is_blank(s[i - 1]),
    ensures
        word_start(s, i) == i,
{
}

proof fn lemma_word_end_bound(s: Seq<char>, j: int)
    requires
        0 <= j <= s.len(),
        j == s.len() || is_blank(s[j]),
    ensures
        word_end(s, j) == j,
{
}

} // verus!
