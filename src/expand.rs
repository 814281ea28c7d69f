use vstd::prelude::*;

use crate::parser::{LiteralChar, Span, Word};
use crate::shell::Shell;
use crate::text::{chars_of, i32_to_string, push_char, signed_decimal, split_by, split_chars, str_eq, views};

verus! {

/// A piece of an expanded word: its text, and whether field splitting applies to it.
pub struct Fragment {
    pub text: String,
    pub split: bool,
}

pub open spec fn frag_view(f: Fragment) -> (Seq<char>, bool) {
    (f.text@, f.split)
}

pub open spec fn frags_view(fs: Seq<Fragment>) -> Seq<(Seq<char>, bool)> {
    fs.map_values(|f: Fragment| frag_view(f))
}

#[derive(Debug, PartialEq, Eq, Clone)]
pub enum ExpandError {
    /// `$NAME` with no such variable.
    UndefinedVariable(String),
    /// A `$(...)` whose output was not supplied.
    MissingOutput,
}

/// Field splitting state: the finished fields, the open field, and whether one is open.
pub type SplitState = (Seq<Seq<char>>, Seq<char>, bool);

/// Adds one fragment. A fragment that is not split extends the open field; one that is
/// split closes the open field, gives one field per piece between separators, and
/// leaves its last piece open.
pub open spec fn split_step(st: SplitState, f: (Seq<char>, bool), ifs: Seq<char>) -> SplitState {
    if f.1 {
        let done = if st.2 {
            st.0.push(st.1)
        } else {
            st.0
        };
        let pieces = split_by(f.0, ifs);
        (done + pieces.drop_last(), pieces.last(), true)
    } else {
        (st.0, st.1 + f.0, true)
    }
}

pub open spec fn split_fold(frags: Seq<(Seq<char>, bool)>, ifs: Seq<char>) -> SplitState
    decreases frags.len(),
{
    if frags.len() == 0 {
        (Seq::empty(), Seq::empty(), false)
    } else {
        split_step(split_fold(frags.drop_last(), ifs), frags.last(), ifs)
    }
}

/// The fields that a word's fragments make; never none: an empty result is one empty
/// field.
pub open spec fn fields(frags: Seq<(Seq<char>, bool)>, ifs: Seq<char>) -> Seq<Seq<char>> {
    let st = split_fold(frags, ifs);
    let w = if st.2 {
        st.0.push(st.1)
    } else {
        st.0
    };
    if w.len() == 0 {
        seq![Seq::empty()]
    } else {
        w
    }
}

/// Splits fragments into fields at the characters of `ifs`.
pub fn split_fields(frags: &Vec<Fragment>, ifs: &Vec<char>) -> (r: Vec<String>)
    ensures
        views(r@) == fields(frags_view(frags@), ifs@),
{
    let ghost fv = frags_view(frags@);
    let mut words: Vec<String> = Vec::new();
    let mut cur = String::new();
    let mut has_cur = false;
    let mut i: usize = 0;
    while i < frags.len()
        invariant
            i <= frags@.len(),
            fv == frags_view(frags@),
            (views(words@), cur@, has_cur) == split_fold(fv.subrange(0, i as int), ifs@),
        decreases frags@.len() - i,
    {
        proof {
            assert(fv.subrange(0, i + 1).drop_last() =~= fv.subrange(0, i as int));
            assert(fv.subrange(0, i + 1).last() == frag_view(frags@[i as int]));
        }
        let f = &frags[i];
        if f.split {
            if has_cur {
                let ghost prev = words@;
                words.push(cur);
                assert(views(words@) =~= views(prev).push(cur@));
            }
            let chars = chars_of(f.text.as_str());
            let mut pieces = split_chars(&chars, ifs);
            proof {
                crate::text::lemma_split_by_nonempty(f.text@, ifs@);
            }
            let ghost pv = views(pieces@);
            let last = pieces.pop().unwrap();
            let ghost before = words@;
            let mut j: usize = 0;
            while j < pieces.len()
                invariant
                    j <= pieces@.len(),
                    pv.len() == pieces@.len() + 1,
                    forall|k: int| 0 <= k < pieces@.len() ==> #[trigger] pieces@[k]@ == pv[k],
                    views(words@) == views(before) + pv.drop_last().subrange(0, j as int),
                decreases pieces@.len() - j,
            {
                let ghost prev = words@;
                let c = pieces[j].clone();
                assert(c@ == pv[j as int]);
                words.push(c);
                assert(views(words@) =~= views(prev).push(c@));
                assert(pv.drop_last().subrange(0, j + 1) =~= pv.drop_last().subrange(0, j as int).push(pv[j as int]));
                assert(views(words@) =~= views(before) + pv.drop_last().subrange(0, j + 1));
                j += 1;
            }
            assert(pv.drop_last().subrange(0, j as int) =~= pv.drop_last());
            assert(last@ == pv.last());
            cur = last;
            has_cur = true;
        } else {
            cur = cur.concat(f.text.as_str());
            has_cur = true;
        }
        i += 1;
    }
    assert(fv.subrange(0, i as int) =~= fv);
    if has_cur {
        let ghost prev = words@;
        words.push(cur);
        assert(views(words@) =~= views(prev).push(cur@));
    }
    if words.len() == 0 {
        words.push(String::new());
        assert(views(words@) =~= seq![Seq::<char>::empty()]);
    }
    words
}

/// The characters a `LiteralChars` span stands for.
pub open spec fn literal_chars_text(cs: Seq<LiteralChar>) -> Seq<char> {
    cs.map_values(
        |c: LiteralChar|
            match c {
                LiteralChar::Normal(x) => x,
                LiteralChar::Escaped(x) => x,
            },
    )
}

/// The value `$name` expands to: the last status for `?`, else the variable read as a
/// string; `None` when it is undefined.
pub open spec fn param_value(sh: Shell, name: Seq<char>) -> Option<Seq<char>> {
    if name == seq!['?'] {
        Some(signed_decimal(sh.spec_last_status() as int))
    } else {
        match sh.spec_get(name) {
            Some(v) => Some(v.spec_str()),
            None => None,
        }
    }
}

pub open spec fn home_name() -> Seq<char> {
    seq!['H', 'O', 'M', 'E']
}

/// The fragment one span gives; `out` is the output of its command when it is a
/// substitution. `None` when it cannot be expanded.
pub open spec fn span_frag(sh: Shell, span: Span, out: Option<Seq<char>>) -> Option<(Seq<char>, bool)> {
    match span {
        Span::Literal(s) => Some((s@, false)),
        Span::LiteralChars(cs) => Some((literal_chars_text(cs@), false)),
        Span::Parameter { name, op: _, quoted } => match param_value(sh, name@) {
            Some(v) => Some((v, !quoted)),
            None => None,
        },
        Span::Tilde(_) => match param_value(sh, home_name()) {
            Some(h) => Some((h, false)),
            None => None,
        },
        Span::Command { body: _, quoted } => match out {
            Some(o) => Some((o, !quoted)),
            None => None,
        },
    }
}

/// The number of command substitutions among `spans`.
pub open spec fn count_commands(spans: Seq<Span>) -> nat
    decreases spans.len(),
{
    if spans.len() == 0 {
        0
    } else {
        count_commands(spans.drop_last()) + if spans.last() is Command {
            1nat
        } else {
            0nat
        }
    }
}

/// The fragments of a word whose substitutions printed `outs`, in order.
pub open spec fn word_frags(sh: Shell, spans: Seq<Span>, outs: Seq<Seq<char>>) -> Option<Seq<(Seq<char>, bool)>>
    decreases spans.len(),
{
    if spans.len() == 0 {
        Some(Seq::empty())
    } else {
        match word_frags(sh, spans.drop_last(), outs) {
            None => None,
            Some(fs) => {
                let k = count_commands(spans.drop_last());
                let out = if k < outs.len() {
                    Some(outs[k as int])
                } else {
                    None
                };
                match span_frag(sh, spans.last(), out) {
                    Some(f) => Some(fs.push(f)),
                    None => None,
                }
            },
        }
    }
}

/// The fields a word expands to.
pub open spec fn expand_spec(sh: Shell, spans: Seq<Span>, ifs: Seq<char>, outs: Seq<Seq<char>>) -> Option<Seq<Seq<char>>> {
    match word_frags(sh, spans, outs) {
        Some(fs) => Some(fields(fs, ifs)),
        None => None,
    }
}

/// Resolves `$name`.
pub fn expand_param(shell: &Shell, name: &str) -> (r: Result<String, ExpandError>)
    ensures
        match r {
            Ok(v) => param_value(*shell, name@) == Some(v@),
            Err(e) => param_value(*shell, name@) is None && (e matches ExpandError::UndefinedVariable(n) && n@ == name@),
        },
{
    proof {
        reveal_strlit("?");
        assert("?"@ =~= seq!['?']);
    }
    if str_eq(name, "?") {
        return Ok(i32_to_string(shell.last_status()));
    }
    match shell.get(name) {
        Some(var) => Ok(var.as_str().to_owned()),
        None => Err(ExpandError::UndefinedVariable(name.to_owned())),
    }
}

} // verus!

verus! {

/// The fragment one span gives (see `span_frag`).
fn span_fragment(shell: &Shell, span: &Span, out: Option<&String>) -> (r: Result<Fragment, ExpandError>)
    ensures
        match r {
            Ok(f) => span_frag(*shell, *span, match out { Some(o) => Some(o@), None => None }) == Some(frag_view(f)),
            Err(_) => span_frag(*shell, *span, match out { Some(o) => Some(o@), None => None }) is None,
        },
{
    match span {
        Span::Literal(s) => Ok(Fragment { text: s.clone(), split: false }),
        Span::LiteralChars(cs) => {
            let mut text = String::new();
            let mut i: usize = 0;
            while i < cs.len()
                invariant
                    i <= cs@.len(),
                    text@ == literal_chars_text(cs@).subrange(0, i as int),
                decreases cs@.len() - i,
            {
                let c = match &cs[i] {
                    LiteralChar::Normal(x) => *x,
                    LiteralChar::Escaped(x) => *x,
                };
                push_char(&mut text, c);
                i += 1;
                assert(text@ =~= literal_chars_text(cs@).subrange(0, i as int));
            }
            assert(literal_chars_text(cs@).subrange(0, i as int) =~= literal_chars_text(cs@));
            Ok(Fragment { text, split: false })
        },
        Span::Parameter { name, op: _, quoted } => {
            let v = expand_param(shell, name.as_str())?;
            Ok(Fragment { text: v, split: !*quoted })
        },
        Span::Tilde(_) => {
            proof {
                reveal_strlit("HOME");
                assert("HOME"@ =~= home_name());
            }
            let h = expand_param(shell, "HOME")?;
            Ok(Fragment { text: h, split: false })
        },
        Span::Command { body: _, quoted } => match out {
            Some(o) => Ok(Fragment { text: o.clone(), split: !*quoted }),
            None => Err(ExpandError::MissingOutput),
        },
    }
}

proof fn lemma_frags_prefix_none(sh: Shell, spans: Seq<Span>, outs: Seq<Seq<char>>, j: int)
    requires
        0 <= j <= spans.len(),
        word_frags(sh, spans.subrange(0, j), outs) is None,
    ensures
        word_frags(sh, spans, outs) is None,
    decreases spans.len() - j,
{
    if j < spans.len() {
        assert(spans.subrange(0, j + 1).drop_last() =~= spans.subrange(0, j));
        lemma_frags_prefix_none(sh, spans, outs, j + 1);
    } else {
        assert(spans.subrange(0, j) =~= spans);
    }
}

proof fn lemma_expand_prefix_none(sh: Shell, words: Seq<Word>, ifs: Seq<char>, outputs: Seq<Seq<Seq<char>>>, j: int)
    requires
        0 <= j <= words.len(),
        expand_all(sh, words.subrange(0, j), ifs, outputs) is None,
    ensures
        expand_all(sh, words, ifs, outputs) is None,
    decreases words.len() - j,
{
    if j < words.len() {
        assert(words.subrange(0, j + 1).drop_last() =~= words.subrange(0, j));
        lemma_expand_prefix_none(sh, words, ifs, outputs, j + 1);
    } else {
        assert(words.subrange(0, j) =~= words);
    }
}

/// The fragments of `word`; `outputs` holds what its substitutions printed, in order.
pub fn word_fragments(shell: &Shell, word: &Word, outputs: &Vec<String>) -> (r: Result<Vec<Fragment>, ExpandError>)
    ensures
        match r {
            Ok(fs) => word_frags(*shell, word.0@, views(outputs@)) == Some(frags_view(fs@)),
            Err(_) => word_frags(*shell, word.0@, views(outputs@)) is None,
        },
{
    let spans = &word.0;
    let ghost ov = views(outputs@);
    let mut frags: Vec<Fragment> = Vec::new();
    let mut k: usize = 0;
    let mut i: usize = 0;
    while i < spans.len()
        invariant
            i <= spans@.len(),
            spans == &word.0,
            ov == views(outputs@),
            k == count_commands(spans@.subrange(0, i as int)),
            word_frags(*shell, spans@.subrange(0, i as int), ov) == Some(frags_view(frags@)),
        decreases spans@.len() - i,
    {
        proof {
            assert(spans@.subrange(0, i + 1).drop_last() =~= spans@.subrange(0, i as int));
        }
        let out = if k < outputs.len() {
            Some(&outputs[k])
        } else {
            None
        };
        let is_cmd = match &spans[i] {
            Span::Command { .. } => true,
            _ => false,
        };
        match span_fragment(shell, &spans[i], out) {
            Ok(f) => {
                let ghost prev = frags@;
                frags.push(f);
                assert(frags_view(frags@) =~= frags_view(prev).push(frag_view(f)));
            },
            Err(e) => {
                proof {
                    lemma_frags_prefix_none(*shell, spans@, ov, i + 1);
                }
                return Err(e);
            },
        }
        if is_cmd {
            k = k + 1;
        }
        i += 1;
    }
    assert(spans@.subrange(0, i as int) =~= spans@);
    Ok(frags)
}

/// Expands one word into fields separated by the characters of `ifs`; `outputs` holds
/// what its substitutions printed, in order.
pub fn expand_word_into_vec(shell: &Shell, word: &Word, ifs: &str, outputs: &Vec<String>) -> (r: Result<Vec<String>, ExpandError>)
    ensures
        match r {
            Ok(v) => expand_spec(*shell, word.0@, ifs@, views(outputs@)) == Some(views(v@)),
            Err(_) => expand_spec(*shell, word.0@, ifs@, views(outputs@)) is None,
        },
{
    let frags = word_fragments(shell, word, outputs)?;
    let seps = chars_of(ifs);
    Ok(split_fields(&frags, &seps))
}

/// The fields of `word` joined into one string.
pub fn expand_word_into_string(shell: &Shell, word: &Word, ifs: &str, outputs: &Vec<String>) -> (r: Result<String, ExpandError>)
    ensures
        match r {
            Ok(s) => expand_spec(*shell, word.0@, ifs@, views(outputs@)) matches Some(fs) && s@ == concat(fs),
            Err(_) => expand_spec(*shell, word.0@, ifs@, views(outputs@)) is None,
        },
{
    let fields = expand_word_into_vec(shell, word, ifs, outputs)?;
    let mut s = String::new();
    let mut i: usize = 0;
    while i < fields.len()
        invariant
            i <= fields@.len(),
            s@ == concat(views(fields@).subrange(0, i as int)),
        decreases fields@.len() - i,
    {
        assert(views(fields@).subrange(0, i + 1).drop_last() =~= views(fields@).subrange(0, i as int));
        s = s.concat(fields[i].as_str());
        i += 1;
    }
    assert(views(fields@).subrange(0, i as int) =~= views(fields@));
    Ok(s)
}

pub open spec fn concat(fs: Seq<Seq<char>>) -> Seq<char>
    decreases fs.len(),
{
    if fs.len() == 0 {
        Seq::empty()
    } else {
        concat(fs.drop_last()) + fs.last()
    }
}

/// The arguments a list of words expands to; `outputs[i]` holds what the substitutions of
/// `words[i]` printed.
pub open spec fn expand_all(sh: Shell, words: Seq<Word>, ifs: Seq<char>, outputs: Seq<Seq<Seq<char>>>) -> Option<Seq<Seq<char>>>
    decreases words.len(),
{
    if words.len() == 0 {
        Some(Seq::empty())
    } else {
        match expand_all(sh, words.drop_last(), ifs, outputs) {
            None => None,
            Some(args) => {
                let outs = if words.len() - 1 < outputs.len() {
                    outputs[words.len() - 1]
                } else {
                    Seq::empty()
                };
                match expand_spec(sh, words.last().0@, ifs, outs) {
                    Some(fs) => Some(args + fs),
                    None => None,
                }
            },
        }
    }
}

pub open spec fn outputs_view(o: Seq<Vec<String>>) -> Seq<Seq<Seq<char>>> {
    o.map_values(|v: Vec<String>| views(v@))
}

/// Expands each word in turn and joins the results.
pub fn expand_words(shell: &Shell, words: &Vec<Word>, outputs: &Vec<Vec<String>>) -> (r: Result<Vec<String>, ExpandError>)
    ensures
        match r {
            Ok(v) => expand_all(*shell, words@, shell.spec_ifs(), outputs_view(outputs@)) == Some(views(v@)),
            Err(_) => expand_all(*shell, words@, shell.spec_ifs(), outputs_view(outputs@)) is None,
        },
{
    let ifs = shell.ifs();
    let empty: Vec<String> = Vec::new();
    let mut args: Vec<String> = Vec::new();
    let mut i: usize = 0;
    while i < words.len()
        invariant
            i <= words@.len(),
            ifs@ == shell.spec_ifs(),
            empty@.len() == 0,
            expand_all(*shell, words@.subrange(0, i as int), ifs@, outputs_view(outputs@)) == Some(views(args@)),
        decreases words@.len() - i,
    {
        assert(words@.subrange(0, i + 1).drop_last() =~= words@.subrange(0, i as int));
        let outs = if i < outputs.len() {
            &outputs[i]
        } else {
            &empty
        };
        assert(views(empty@) =~= Seq::<Seq<char>>::empty());
        let mut fs = match expand_word_into_vec(shell, &words[i], ifs.as_str(), outs) {
            Ok(fs) => fs,
            Err(e) => {
                proof {
                    lemma_expand_prefix_none(*shell, words@, ifs@, outputs_view(outputs@), i + 1);
                }
                return Err(e);
            },
        };
        let ghost prev = args@;
        let ghost fv = views(fs@);
        args.append(&mut fs);
        assert(views(args@) =~= views(prev) + fv);
        i += 1;
    }
    assert(words@.subrange(0, i as int) =~= words@);
    Ok(args)
}

/// Drops one trailing newline from a substitution's output, if it ends with one.
pub fn trim_one_newline(s: &str) -> (r: String)
    ensures
        s@.len() > 0 && s@.last() == '\n' ==> r@ == s@.drop_last(),
        !(s@.len() > 0 && s@.last() == '\n') ==> r@ == s@,
{
    let n = s.unicode_len();
    if n > 0 && s.get_char(n - 1) == '\n' {
        let t = s.substring_char(0, n - 1);
        assert(t@ =~= s@.drop_last());
        t.to_owned()
    } else {
        s.to_owned()
    }
}

} // verus!

verus! {

/// The text of a word made of literal spans only.
pub open spec fn literal_text(spans: Seq<Span>) -> Seq<char>
    decreases spans.len(),
{
    if spans.len() == 0 {
        Seq::empty()
    } else {
        literal_text(spans.drop_last()) + match spans.last() {
            Span::Literal(s) => s@,
            _ => Seq::empty(),
        }
    }
}

/// A word of one span whose fragment is `f`, not split, expands to the single field `f`.
proof fn lemma_single_unsplit(frag: Seq<char>, ifs: Seq<char>)
    ensures
        fields(seq![(frag, false)], ifs) == seq![frag],
{
    let fs = seq![(frag, false)];
    assert(fs.drop_last() =~= Seq::<(Seq<char>, bool)>::empty());
    assert(split_fold(fs.drop_last(), ifs) == (Seq::<Seq<char>>::empty(), Seq::<char>::empty(), false));
    assert(fs.last() == (frag, false));
    assert(Seq::<char>::empty() + frag =~= frag);
    assert(Seq::<Seq<char>>::empty().push(frag) =~= seq![frag]);
}

proof fn lemma_single_span(sh: Shell, span: Span, outs: Seq<Seq<char>>)
    requires
        !(span is Command),
    ensures
        word_frags(sh, seq![span], outs) == match span_frag(sh, span, None) {
            Some(f) => Some(seq![f]),
            None => None,
        },
{
    let s = seq![span];
    assert(s.drop_last() =~= Seq::<Span>::empty());
    assert(word_frags(sh, s.drop_last(), outs) == Some(Seq::<(Seq<char>, bool)>::empty()));
    assert(count_commands(s.drop_last()) == 0);
    assert(s.last() == span);
    assert(Seq::<(Seq<char>, bool)>::empty().push((Seq::<char>::empty(), false)) =~= seq![(Seq::<char>::empty(), false)]);
    match span_frag(sh, span, None) {
        Some(f) => {
            assert(Seq::<(Seq<char>, bool)>::empty().push(f) =~= seq![f]);
        },
        None => {},
    }
}

/// A quoted parameter expansion (`"$x"`) gives exactly one field, the variable read as a
/// string, whatever the field separators.
pub proof fn lemma_quoted_parameter_one_field(sh: Shell, span: Span, ifs: Seq<char>, outs: Seq<Seq<char>>)
    requires
        span matches Span::Parameter { name, op: _, quoted } && quoted && param_value(sh, name@) is Some,
    ensures
        expand_spec(sh, seq![span], ifs, outs) == Some(seq![param_value(sh, span->name@)->0]),
{
    lemma_single_span(sh, span, outs);
    lemma_single_unsplit(param_value(sh, span->name@)->0, ifs);
}

/// An unquoted tilde expands to `$HOME`, as one field that is never split.
pub proof fn lemma_tilde_is_home(sh: Shell, user: Option<String>, ifs: Seq<char>, outs: Seq<Seq<char>>)
    requires
        param_value(sh, home_name()) is Some,
    ensures
        expand_spec(sh, seq![Span::Tilde(user)], ifs, outs) == Some(seq![param_value(sh, home_name())->0]),
{
    lemma_single_span(sh, Span::Tilde(user), outs);
    lemma_single_unsplit(param_value(sh, home_name())->0, ifs);
}

proof fn lemma_literal_frags(sh: Shell, spans: Seq<Span>, outs: Seq<Seq<char>>)
    requires
        forall|k: int| 0 <= k < spans.len() ==> #[trigger] spans[k] is Literal,
    ensures
        word_frags(sh, spans, outs) is Some,
        split_fold(word_frags(sh, spans, outs)->0, seq![]) == (Seq::<Seq<char>>::empty(), literal_text(spans), spans.len() > 0),
    decreases spans.len(),
{
    if spans.len() > 0 {
        let init = spans.drop_last();
        assert forall|k: int| 0 <= k < init.len() implies #[trigger] init[k] is Literal by {
            assert(init[k] == spans[k]);
        }
        lemma_literal_frags(sh, init, outs);
        assert(spans.last() == spans[spans.len() - 1]);
        let fi = word_frags(sh, init, outs)->0;
        let f = span_frag(sh, spans.last(), None)->0;
        let text = spans.last()->Literal_0@;
        assert(f == (text, false));
        let fs = word_frags(sh, spans, outs)->0;
        assert(fs == fi.push(f));
        assert(fs.drop_last() =~= fi);
        assert(fs.last() == f);
        assert(split_fold(fs, seq![]) == split_step(split_fold(fi, seq![]), f, seq![]));
        assert(literal_text(spans) == literal_text(init) + text);
        if init.len() == 0 {
            assert(literal_text(init) == Seq::<char>::empty());
        }
    }
}

proof fn lemma_unsplit_fold_any_ifs(frags: Seq<(Seq<char>, bool)>, a: Seq<char>, b: Seq<char>)
    requires
        forall|k: int| 0 <= k < frags.len() ==> !(#[trigger] frags[k]).1,
    ensures
        split_fold(frags, a) == split_fold(frags, b),
    decreases frags.len(),
{
    if frags.len() > 0 {
        let init = frags.drop_last();
        assert forall|k: int| 0 <= k < init.len() implies !(#[trigger] init[k]).1 by {
            assert(init[k] == frags[k]);
        }
        lemma_unsplit_fold_any_ifs(init, a, b);
        assert(!frags[frags.len() - 1].1);
    }
}

proof fn lemma_literal_frags_unsplit(sh: Shell, spans: Seq<Span>, outs: Seq<Seq<char>>)
    requires
        forall|k: int| 0 <= k < spans.len() ==> #[trigger] spans[k] is Literal,
        word_frags(sh, spans, outs) is Some,
    ensures
        forall|k: int| 0 <= k < word_frags(sh, spans, outs)->0.len() ==> !(#[trigger] word_frags(sh, spans, outs)->0[k]).1,
        word_frags(sh, spans, outs)->0.len() == spans.len(),
    decreases spans.len(),
{
    if spans.len() > 0 {
        let init = spans.drop_last();
        assert forall|k: int| 0 <= k < init.len() implies #[trigger] init[k] is Literal by {
            assert(init[k] == spans[k]);
        }
        lemma_literal_frags_unsplit(sh, init, outs);
        assert(spans.last() == spans[spans.len() - 1]);
        let fs = word_frags(sh, spans, outs)->0;
        let fi = word_frags(sh, init, outs)->0;
        assert forall|k: int| 0 <= k < fs.len() implies !(#[trigger] fs[k]).1 by {
            if k < fi.len() {
                assert(fs[k] == fi[k]);
            }
        }
    }
}

/// A word made only of literal text (plain or quoted, as `'a b'` is) expands to exactly
/// one field, its text, whatever the field separators.
pub proof fn lemma_literal_word_fixed(sh: Shell, spans: Seq<Span>, ifs: Seq<char>, outs: Seq<Seq<char>>)
    requires
        spans.len() > 0,
        forall|k: int| 0 <= k < spans.len() ==> #[trigger] spans[k] is Literal,
    ensures
        expand_spec(sh, spans, ifs, outs) == Some(seq![literal_text(spans)]),
{
    lemma_literal_frags(sh, spans, outs);
    lemma_literal_frags_unsplit(sh, spans, outs);
    let fs = word_frags(sh, spans, outs)->0;
    lemma_unsplit_fold_any_ifs(fs, ifs, seq![]);
    assert(Seq::<Seq<char>>::empty().push(literal_text(spans)) =~= seq![literal_text(spans)]);
}

} // verus!
