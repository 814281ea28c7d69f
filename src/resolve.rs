use vstd::prelude::*;

use crate::parser::{Span, Word};
use crate::shell::Shell;
use crate::text::{chars_of, split_by, split_chars, trim, trim_ws, views};

verus! {

/// The alias body `argv[0]` names, when it is a plain literal that names an alias.
pub open spec fn alias_of(shell: Shell, argv: Seq<Word>) -> Option<Seq<char>> {
    if argv.len() > 0 && argv[0].0@.len() > 0 && argv[0].0@[0] is Literal && shell.spec_aliases().contains_key(
        argv[0].0@[0]->Literal_0@,
    ) {
        Some(shell.spec_aliases()[argv[0].0@[0]->Literal_0@]@)
    } else {
        None
    }
}

/// The words an alias body stands for: its trimmed text split at each space.
pub open spec fn alias_words(body: Seq<char>) -> Seq<Seq<char>> {
    split_by(trim_ws(body), seq![' '])
}

/// Whether `w` is the word of the single literal `text`.
pub open spec fn is_literal_word(w: Word, text: Seq<char>) -> bool {
    w.0@.len() == 1 && (w.0@[0] matches Span::Literal(s) && s@ == text)
}

/// Replaces a leading alias by the words of its body; other arguments stay as they are.
pub fn resolve_alias(shell: &Shell, argv: Vec<Word>) -> (r: Vec<Word>)
    ensures
        match alias_of(*shell, argv@) {
            None => r@ == argv@,
            Some(body) => {
                let ws = alias_words(body);
                &&& r@.len() == ws.len() + argv@.len() - 1
                &&& forall|k: int| 0 <= k < ws.len() ==> is_literal_word(#[trigger] r@[k], ws[k])
                &&& forall|k: int| 1 <= k < argv@.len() ==> #[trigger] r@[ws.len() + k - 1] == argv@[k]
            },
        },
{
    if argv.len() == 0 || argv[0].0.len() == 0 {
        return argv;
    }
    let body = match &argv[0].0[0] {
        Span::Literal(lit) => shell.lookup_alias(lit.as_str()),
        _ => None,
    };
    match body {
        None => argv,
        Some(body) => {
            let t = trim(body.as_str());
            let tc = chars_of(t.as_str());
            let sp = vec![' '];
            assert(sp@ =~= seq![' ']);
            let pieces = split_chars(&tc, &sp);
            let ghost ws = views(pieces@);
            let mut out: Vec<Word> = Vec::new();
            let mut pieces = pieces;
            let n = pieces.len();
            let mut rev: Vec<String> = Vec::new();
            while pieces.len() > 0
                invariant
                    pieces@.len() + rev@.len() == n,
                    n == ws.len(),
                    forall|k: int| 0 <= k < pieces@.len() ==> #[trigger] pieces@[k]@ == ws[k],
                    forall|k: int| 0 <= k < rev@.len() ==> #[trigger] rev@[k]@ == ws[n - 1 - k],
                decreases pieces@.len(),
            {
                let p = pieces.pop().unwrap();
                rev.push(p);
            }
            while rev.len() > 0
                invariant
                    rev@.len() + out@.len() == n,
                    n == ws.len(),
                    forall|k: int| 0 <= k < rev@.len() ==> #[trigger] rev@[k]@ == ws[n - 1 - k],
                    forall|k: int| 0 <= k < out@.len() ==> is_literal_word(#[trigger] out@[k], ws[k]),
                decreases rev@.len(),
            {
                let p = rev.pop().unwrap();
                out.push(Word(vec![Span::Literal(p)]));
            }
            let mut argv = argv;
            let mut rest: Vec<Word> = Vec::new();
            let ghost a = argv@;
            while argv.len() > 1
                invariant
                    argv@.len() >= 1,
                    argv@.len() + rest@.len() == a.len(),
                    forall|k: int| 0 <= k < argv@.len() ==> #[trigger] argv@[k] == a[k],
                    forall|k: int| 0 <= k < rest@.len() ==> #[trigger] rest@[k] == a[a.len() - 1 - k],
                decreases argv@.len(),
            {
                let w = argv.pop().unwrap();
                rest.push(w);
            }
            while rest.len() > 0
                invariant
                    out@.len() >= n,
                    rest@.len() + out@.len() == n + a.len() - 1,
                    forall|k: int| 0 <= k < n ==> is_literal_word(#[trigger] out@[k], ws[k]),
                    forall|k: int| 0 <= k < rest@.len() ==> #[trigger] rest@[k] == a[a.len() - 1 - k],
                    forall|k: int| n <= k < out@.len() ==> #[trigger] out@[k] == a[k - n + 1],
                decreases rest@.len(),
            {
                let w = rest.pop().unwrap();
                out.push(w);
            }
            assert forall|k: int| 1 <= k < a.len() implies #[trigger] out@[ws.len() + k - 1] == a[k] by {
                assert(out@[n + k - 1] == a[(n + k - 1) - n + 1]);
            }
            out
        },
    }
}

} // verus!
