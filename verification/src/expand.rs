//! Macro expansion: matching a macro's input against a rule, and transcribing what was bound.
//! Hygiene and operator precedence are not modelled, since only items need to be read.
//!
//! Every fragment binds the tokens it matched, whatever its kind: an `$e:expr` used as a
//! constant's value in an expanded item must come out as that value.

use crate::items::DeclarativeMacroItem;
use crate::macro_ast::{
    parse_macro_def, MacroDef, MacroRule, MacroRuleView, accepts_ident, is_punct, lemma_matchers_view, matcher_view, matchers_view, syn_accepts_ident, FragSpec, Matcher,
    MatcherSeq, MatcherView, RepeatKind, lemma_transcribes_view, transcribe_view, transcribes_view, MacroError, Transcribe, TranscribeSeq,
    TranscribeView,
};
use crate::maps::NameTable;
use crate::text::str_eq;
use crate::tokens::{
    render_tokens, respace, respaced, tokens_text, copy_range, dup_tokens, lemma_tokens_view, push_token, push_tokens, token_view, tokens_view,
    Spacing, TokenTree, TokenView,
};
use vstd::prelude::*;

verus! {

/// What a fragment of a matcher bound: the tokens it matched, or, for a fragment inside a
/// repetition, one binding per time the repetition matched.
#[derive(Debug)]
pub enum Binding {
    Leaf(Vec<TokenTree>),
    Repeated(Vec<Binding>),
}

/// A binding, by its tokens' views.
pub enum BindingView {
    Leaf(Seq<TokenView>),
    Repeated(Seq<BindingView>),
}

/// The view of a binding.
pub open spec fn binding_view(b: Binding) -> BindingView
    decreases b,
{
    match b {
        Binding::Leaf(ts) => BindingView::Leaf(tokens_view(ts@)),
        Binding::Repeated(bs) => BindingView::Repeated(bindings_view(bs@)),
    }
}

/// The views of a sequence of bindings.
pub open spec fn bindings_view(bs: Seq<Binding>) -> Seq<BindingView>
    decreases bs,
{
    if bs.len() == 0 {
        Seq::empty()
    } else {
        seq![binding_view(bs[0])] + bindings_view(bs.drop_first())
    }
}

impl View for Binding {
    type V = BindingView;

    open spec fn view(&self) -> BindingView {
        binding_view(*self)
    }
}

/// The views of bindings, element by element.
pub proof fn lemma_bindings_view(bs: Seq<Binding>)
    ensures
        bindings_view(bs).len() == bs.len(),
        forall|i: int| 0 <= i < bs.len() ==> #[trigger] bindings_view(bs)[i] == binding_view(bs[i]),
    decreases bs.len(),
{
    if bs.len() > 0 {
        lemma_bindings_view(bs.drop_first());
        assert forall|i: int| 0 <= i < bs.len() implies #[trigger] bindings_view(bs)[i] == binding_view(bs[i]) by {
            if i > 0 {
                assert(bs.drop_first()[i - 1] == bs[i]);
            }
        }
    }
}

/// The binding reached from `b` by following the repetition indices `path`. A binding made
/// outside a repetition stands for every repetition inside it; `None` where an index is out of
/// range.
pub open spec fn binding_at(b: BindingView, path: Seq<usize>) -> Option<BindingView>
    decreases path.len(),
{
    if path.len() == 0 {
        Some(b)
    } else {
        match b {
            BindingView::Leaf(_) => Some(b),
            BindingView::Repeated(v) => if path[0] < v.len() {
                binding_at(v[path[0] as int], path.drop_first())
            } else {
                None
            },
        }
    }
}

impl Binding {
    /// The binding reached by following the indices of `path` from `from` on.
    pub fn get(&self, path: &Vec<usize>, from: usize) -> (r: Option<&Binding>)
        requires
            from <= path.len(),
        ensures
            match r {
                Some(b) => binding_at(self@, path@.skip(from as int)) == Some(b@),
                None => binding_at(self@, path@.skip(from as int)) is None,
            },
        decreases path.len() - from,
    {
        if from == path.len() {
            return Some(self);
        }
        match self {
            Binding::Leaf(_) => Some(self),
            Binding::Repeated(v) => {
                let i = path[from];
                proof {
                    lemma_bindings_view(v@);
                    assert(path@.skip(from as int)[0] == i);
                    assert(path@.skip(from as int).drop_first() =~= path@.skip(from + 1));
                }
                if i < v.len() {
                    v[i].get(path, from + 1)
                } else {
                    None
                }
            },
        }
    }
}

/// The bindings of a match, by name.
pub type Bindings = NameTable<Binding>;

/// The views of the bindings of a match.
pub open spec fn bindings_map(b: &Bindings) -> Map<Seq<char>, BindingView> {
    bmap(*b)
}

/// The views of the bindings of a match.
pub open spec fn bmap(b: Bindings) -> Map<Seq<char>, BindingView> {
    b.map().map_values(|x: Binding| x@)
}

/// The names of the fragments that a transcription at this level repeats: those of `ts`, and of
/// the groups in it, but not those of nested repetitions.
pub open spec fn level_fragments(ts: Seq<TranscribeView>) -> Seq<Seq<char>>
    decreases ts,
{
    if ts.len() == 0 {
        Seq::empty()
    } else {
        let here = match ts[0] {
            TranscribeView::Fragment(name) => seq![name],
            TranscribeView::Group(_, inner) => level_fragments(inner),
            _ => Seq::empty(),
        };
        here + level_fragments(ts.drop_first())
    }
}

/// Whether the fragment `name` repeats `n` times at the repetition indices `stack`.
pub open spec fn repeats(b: Map<Seq<char>, BindingView>, stack: Seq<usize>, name: Seq<char>, n: nat) -> bool {
    b.contains_key(name) && (binding_at(b[name], stack) matches Some(BindingView::Repeated(v)) && v.len() == n)
}

/// Whether one of the fragments `names` repeats `n` times at the repetition indices `stack`.
pub open spec fn some_repeats(names: Seq<Seq<char>>, b: Map<Seq<char>, BindingView>, stack: Seq<usize>, n: nat) -> bool {
    exists|i: int| 0 <= i < names.len() && #[trigger] repeats(b, stack, names[i], n)
}

/// How many times a repetition whose fragments are `names` repeats: `None` where no fragment
/// repeats at this level, `Some(Err(..))` where two repeat different numbers of times.
pub open spec fn repetition_count(
    names: Seq<Seq<char>>,
    b: Map<Seq<char>, BindingView>,
    stack: Seq<usize>,
) -> Option<Result<nat, MacroError>> {
    if !exists|i: int, n: nat| 0 <= i < names.len() && #[trigger] repeats(b, stack, names[i], n) {
        None
    } else if exists|i: int, j: int, n: nat, m: nat|
        0 <= i < names.len() && 0 <= j < names.len() && n != m && #[trigger] repeats(b, stack, names[i], n)
            && #[trigger] repeats(b, stack, names[j], m) {
        Some(Err(MacroError::MismatchedRepetition))
    } else {
        Some(Ok(choose|n: nat| #[trigger] some_repeats(names, b, stack, n)))
    }
}

/// What a sequence of transcribers gives with the bindings `b`, inside the repetitions `stack`.
pub open spec fn transcription(
    ts: Seq<TranscribeView>,
    b: Map<Seq<char>, BindingView>,
    stack: Seq<usize>,
) -> Result<Seq<TokenView>, MacroError>
    decreases ts, 0nat,
{
    if ts.len() == 0 {
        Ok(Seq::empty())
    } else {
        match transcription_of(ts[0], b, stack) {
            Err(e) => Err(e),
            Ok(first) => match transcription(ts.drop_first(), b, stack) {
                Err(e) => Err(e),
                Ok(rest) => Ok(first + rest),
            },
        }
    }
}

/// What one transcriber gives: a fragment its tokens where it is bound to tokens here (else
/// `$name` itself), a group its transcribed contents, a repetition its contents once per time its
/// fragments repeat, separated.
pub open spec fn transcription_of(
    t: TranscribeView,
    b: Map<Seq<char>, BindingView>,
    stack: Seq<usize>,
) -> Result<Seq<TokenView>, MacroError>
    decreases t, 0nat,
{
    match t {
        TranscribeView::Fragment(name) => if b.contains_key(name) && binding_at(b[name], stack) is Some
            && binding_at(b[name], stack).unwrap() is Leaf {
            Ok(binding_at(b[name], stack).unwrap()->Leaf_0)
        } else {
            Ok(seq![TokenView::Punct('$', Spacing::Alone), TokenView::Ident(name)])
        },
        TranscribeView::Group(d, inner) => match transcription(inner, b, stack) {
            Err(e) => Err(e),
            Ok(out) => Ok(seq![TokenView::Group(d, out)]),
        },
        TranscribeView::Repetition(sep, inner) => match repetition_count(level_fragments(inner), b, stack) {
            None => Ok(Seq::empty()),
            Some(Err(e)) => Err(e),
            Some(Ok(n)) => repetitions(inner, sep, b, stack, 0, n),
        },
        TranscribeView::Ident(s) => Ok(seq![TokenView::Ident(s)]),
        TranscribeView::Literal(s) => Ok(seq![TokenView::Literal(s)]),
        TranscribeView::Punct(c, sp) => Ok(seq![TokenView::Punct(c, sp)]),
    }
}

/// The transcriptions of `inner` for the repetitions `i` to `n`, separated by `sep`.
pub open spec fn repetitions(
    inner: Seq<TranscribeView>,
    sep: Seq<TokenView>,
    b: Map<Seq<char>, BindingView>,
    stack: Seq<usize>,
    i: nat,
    n: nat,
) -> Result<Seq<TokenView>, MacroError>
    decreases inner, n - i,
{
    if i >= n {
        Ok(Seq::empty())
    } else {
        match transcription(inner, b, stack.push(i as usize)) {
            Err(e) => Err(e),
            Ok(once) => match repetitions(inner, sep, b, stack, i + 1, n) {
                Err(e) => Err(e),
                Ok(rest) => Ok(
                    if i + 1 < n {
                        once + sep + rest
                    } else {
                        once + rest
                    },
                ),
            },
        }
    }
}

/// `done` followed by what `r` gives, or `r`'s error.
pub open spec fn chained(done: Seq<TokenView>, r: Result<Seq<TokenView>, MacroError>) -> Result<Seq<TokenView>, MacroError> {
    match r {
        Ok(x) => Ok(done + x),
        Err(e) => Err(e),
    }
}

/// Append the names of the fragments that a repetition of `ts` repeats.
fn push_level_fragments(ts: &Vec<Transcribe>, names: &mut Vec<String>)
    ensures
        final(names).deep_view() == old(names).deep_view() + level_fragments(transcribes_view(ts@)),
    decreases ts,
{
    let ghost tv = transcribes_view(ts@);
    let ghost n0 = names.deep_view();
    proof {
        lemma_transcribes_view(ts@);
        assert(tv.skip(0) =~= tv);
        assert(n0 + level_fragments(tv) =~= n0 + level_fragments(tv.skip(0)));
    }
    let mut i: usize = 0;
    while i < ts.len()
        invariant
            i <= ts.len(),
            tv == transcribes_view(ts@),
            tv.len() == ts.len(),
            forall|j: int| 0 <= j < ts.len() ==> #[trigger] tv[j] == transcribe_view(ts@[j]),
            n0 + level_fragments(tv) == names.deep_view() + level_fragments(tv.skip(i as int)),
        decreases ts.len() - i,
    {
        let ghost before = names.deep_view();
        proof {
            assert(decreases_to!(ts => ts@[i as int]));
            assert(tv.skip(i as int)[0] == tv[i as int]);
            assert(tv.skip(i as int).drop_first() =~= tv.skip(i + 1));
        }
        match &ts[i] {
            Transcribe::Fragment(f) => {
                names.push(f.0.clone());
                proof {
                    assert(names.deep_view() =~= before + seq![f.0@]);
                }
            },
            Transcribe::Group(g) => {
                push_level_fragments(&g.inner.0, names);
            },
            _ => {
                proof {
                    assert(before + Seq::<Seq<char>>::empty() =~= before);
                }
            },
        }
        proof {
            let here = match tv[i as int] {
                TranscribeView::Fragment(name) => seq![name],
                TranscribeView::Group(_, inner) => level_fragments(inner),
                _ => Seq::empty(),
            };
            assert(names.deep_view() == before + here);
            assert(level_fragments(tv.skip(i as int)) == here + level_fragments(tv.skip(i + 1)));
            assert(before + (here + level_fragments(tv.skip(i + 1))) =~= (before + here) + level_fragments(
                tv.skip(i + 1),
            ));
        }
        i = i + 1;
    }
    proof {
        assert(tv.skip(i as int).len() == 0);
        assert(names.deep_view() + Seq::<Seq<char>>::empty() =~= names.deep_view());
    }
}

/// How many times the fragments `names` repeat at the repetition indices `stack`.
fn count_repetitions(names: &Vec<String>, b: &Bindings, stack: &Vec<usize>) -> (r: Option<
    Result<usize, MacroError>,
>)
    requires
        b.wf(),
    ensures
        match repetition_count(names.deep_view(), bindings_map(b), stack@) {
            None => r is None,
            Some(Err(e)) => r == Some(Err::<usize, MacroError>(e)),
            Some(Ok(n)) => r matches Some(Ok(c)) && c == n,
        },
{
    let ghost ns = names.deep_view();
    let ghost bm = bindings_map(b);
    let mut reps: Option<usize> = None;
    let ghost mut w: int = 0;
    let mut i: usize = 0;
    while i < names.len()
        invariant
            i <= names.len(),
            ns == names.deep_view(),
            ns.len() == names.len(),
            bm == bindings_map(b),
            b.wf(),
            reps is None ==> forall|j: int, n: nat| 0 <= j < i ==> !#[trigger] repeats(bm, stack@, ns[j], n),
            reps matches Some(c) ==> 0 <= w < i && repeats(bm, stack@, ns[w], c as nat)
                && forall|j: int, n: nat| 0 <= j < i && #[trigger] repeats(bm, stack@, ns[j], n) ==> n == c,
        decreases names.len() - i,
    {
        proof {
            assert(ns[i as int] == names@[i as int]@);
        }
        match b.get(names[i].as_str()) {
            None => {
                proof {
                    assert forall|n: nat| !#[trigger] repeats(bm, stack@, ns[i as int], n) by {}
                }
            },
            Some(binding) => {
                proof {
                    assert(bm[ns[i as int]] == binding@);
                }
                match binding.get(stack, 0) {
                    Some(Binding::Repeated(v)) => {
                        let count = v.len();
                        proof {
                            assert(stack@.skip(0) =~= stack@);
                            lemma_bindings_view(v@);
                            assert(repeats(bm, stack@, ns[i as int], count as nat));
                            assert forall|n: nat| #[trigger] repeats(bm, stack@, ns[i as int], n) implies n == count by {}
                        }
                        match reps {
                            Some(c) => {
                                if c != count {
                                    proof {
                                        assert(repeats(bm, stack@, ns[w], c as nat) && repeats(bm, stack@, ns[i as int], count as nat));
                                    }
                                    return Some(Err(MacroError::MismatchedRepetition));
                                }
                            },
                            None => {
                                reps = Some(count);
                                proof {
                                    w = i as int;
                                }
                            },
                        }
                    },
                    _ => {
                        proof {
                            assert(stack@.skip(0) =~= stack@);
                            assert forall|n: nat| !#[trigger] repeats(bm, stack@, ns[i as int], n) by {}
                        }
                    },
                }
            },
        }
        i = i + 1;
    }
    match reps {
        None => {
            proof {
                assert(!exists|j: int, n: nat| 0 <= j < ns.len() && #[trigger] repeats(bm, stack@, ns[j], n));
            }
            None
        },
        Some(c) => {
            proof {
                assert(repeats(bm, stack@, ns[w], c as nat));
                assert(some_repeats(ns, bm, stack@, c as nat));
                assert(!exists|j: int, k: int, n: nat, m: nat|
                    0 <= j < ns.len() && 0 <= k < ns.len() && n != m && #[trigger] repeats(bm, stack@, ns[j], n)
                        && #[trigger] repeats(bm, stack@, ns[k], m));
                let chosen = choose|n: nat| #[trigger] some_repeats(ns, bm, stack@, n);
                assert(chosen == c);
            }
            Some(Ok(c))
        },
    }
}

/// Append what the transcribers `ts` give with the bindings `b` inside the repetitions `stack`;
/// on an error, what was appended is unspecified.
#[verifier::loop_isolation(false)]
fn transcribe_into(ts: &Vec<Transcribe>, b: &Bindings, stack: &mut Vec<usize>, out: &mut Vec<TokenTree>) -> (r:
    Result<(), MacroError>)
    requires
        b.wf(),
    ensures
        final(stack)@ == old(stack)@,
        match transcription(transcribes_view(ts@), bindings_map(b), old(stack)@) {
            Ok(o) => r is Ok && tokens_view(final(out)@) == tokens_view(old(out)@) + o,
            Err(e) => r == Err::<(), MacroError>(e),
        },
    decreases ts,
{
    let ghost tv = transcribes_view(ts@);
    let ghost bm = bindings_map(b);
    let ghost st = stack@;
    let ghost start = tokens_view(out@);
    proof {
        lemma_transcribes_view(ts@);
        assert(tv.skip(0) =~= tv);
        match transcription(tv, bm, st) {
            Ok(x) => {
                assert(start + x =~= tokens_view(out@) + x);
                assert(Seq::<TokenView>::empty() + x =~= x);
            },
            Err(_) => {},
        }
    }
    let mut i: usize = 0;
    let ghost mut done: Seq<TokenView> = Seq::empty();
    while i < ts.len()
        invariant
            i <= ts.len(),
            b.wf(),
            tv == transcribes_view(ts@),
            tv.len() == ts.len(),
            forall|j: int| 0 <= j < ts.len() ==> #[trigger] tv[j] == transcribe_view(ts@[j]),
            bm == bindings_map(b),
            stack@ == st,
            tokens_view(out@) == start + done,
            transcription(tv, bm, st) == chained(done, transcription(tv.skip(i as int), bm, st)),
        decreases ts.len() - i,
    {
        let ghost before = tokens_view(out@);
        proof {
            assert(decreases_to!(ts => ts@[i as int]));
            assert(tv.skip(i as int)[0] == tv[i as int]);
            assert(tv.skip(i as int).drop_first() =~= tv.skip(i + 1));
        }
        let r = transcribe_one_into(&ts[i], b, stack, out);
        match r {
            Err(e) => {
                return Err(e);
            },
            Ok(()) => {},
        }
        proof {
            let once = transcription_of(tv[i as int], bm, st)->Ok_0;
            assert(tokens_view(out@) == before + once);
            match transcription(tv.skip(i + 1), bm, st) {
                Ok(rest) => {
                    assert(done + (once + rest) =~= (done + once) + rest);
                },
                Err(_) => {},
            }
            assert(start + (done + once) =~= before + once);
            done = done + once;
        }
        i = i + 1;
    }
    proof {
        assert(tv.skip(i as int).len() == 0);
        assert(done + Seq::<TokenView>::empty() =~= done);
    }
    Ok(())
}

/// Append what one transcriber gives.
#[verifier::loop_isolation(false)]
fn transcribe_one_into(t: &Transcribe, b: &Bindings, stack: &mut Vec<usize>, out: &mut Vec<TokenTree>) -> (r:
    Result<(), MacroError>)
    requires
        b.wf(),
    ensures
        final(stack)@ == old(stack)@,
        match transcription_of(transcribe_view(*t), bindings_map(b), old(stack)@) {
            Ok(o) => r is Ok && tokens_view(final(out)@) == tokens_view(old(out)@) + o,
            Err(e) => r == Err::<(), MacroError>(e),
        },
    decreases t,
{
    let ghost bm = bindings_map(b);
    let ghost st = stack@;
    let ghost start = tokens_view(out@);
    match t {
        Transcribe::Fragment(f) => {
            let found = match b.get(f.0.as_str()) {
                Some(binding) => binding.get(stack, 0),
                None => None,
            };
            proof {
                assert(stack@.skip(0) =~= stack@);
            }
            match found {
                Some(Binding::Leaf(tokens)) => {
                    push_tokens(out, tokens);
                },
                _ => {
                    push_token(out, TokenTree::Punct('$', Spacing::Alone));
                    push_token(out, TokenTree::Ident(f.0.clone()));
                    proof {
                        assert(start.push(TokenView::Punct('$', Spacing::Alone)).push(TokenView::Ident(f.0@))
                            =~= start + seq![TokenView::Punct('$', Spacing::Alone), TokenView::Ident(f.0@)]);
                    }
                },
            }
            Ok(())
        },
        Transcribe::Group(g) => {
            let mut inner: Vec<TokenTree> = Vec::new();
            match transcribe_into(&g.inner.0, b, stack, &mut inner) {
                Err(e) => return Err(e),
                Ok(()) => {},
            }
            proof {
                assert(tokens_view(Seq::<TokenTree>::empty()) =~= Seq::<TokenView>::empty());
                let o = transcription(transcribes_view(g.inner.0@), bm, st)->Ok_0;
                assert(tokens_view(inner@) =~= o);
            }
            push_token(out, TokenTree::Group(g.delimiter, inner));
            proof {
                assert(start.push(TokenView::Group(g.delimiter, tokens_view(inner@))) =~= start + seq![
                    TokenView::Group(g.delimiter, tokens_view(inner@)),
                ]);
            }
            Ok(())
        },
        Transcribe::Repetition(rep) => {
            let ghost inner_v = transcribes_view(rep.inner.0@);
            let ghost sep_v = tokens_view(rep.sep.0@);
            let mut names: Vec<String> = Vec::new();
            push_level_fragments(&rep.inner.0, &mut names);
            proof {
                assert(names.deep_view() =~= level_fragments(inner_v));
            }
            let n = match count_repetitions(&names, b, stack) {
                None => {
                    proof {
                        assert(start + Seq::<TokenView>::empty() =~= start);
                    }
                    return Ok(());
                },
                Some(Err(e)) => return Err(e),
                Some(Ok(n)) => n,
            };
            let mut i: usize = 0;
            let ghost mut done: Seq<TokenView> = Seq::empty();
            proof {
                match repetitions(inner_v, sep_v, bm, st, 0, n as nat) {
                    Ok(x) => {
                        assert(Seq::<TokenView>::empty() + x =~= x);
                    },
                    Err(_) => {},
                }
                assert(start + done =~= start);
            }
            while i < n
                invariant
                    i <= n,
                    b.wf(),
                    bm == bindings_map(b),
                    stack@ == st,
                    inner_v == transcribes_view(rep.inner.0@),
                    sep_v == tokens_view(rep.sep.0@),
                    tokens_view(out@) == start + done,
                    repetitions(inner_v, sep_v, bm, st, 0, n as nat) == chained(
                        done,
                        repetitions(inner_v, sep_v, bm, st, i as nat, n as nat),
                    ),
                decreases n - i,
            {
                let ghost before = tokens_view(out@);
                stack.push(i);
                let r = transcribe_into(&rep.inner.0, b, stack, out);
                stack.pop();
                proof {
                    assert(stack@ == st);
                }
                let ghost after_once = tokens_view(out@);
                if i + 1 < n {
                    push_tokens(out, &rep.sep.0);
                }
                match r {
                    Err(e) => return Err(e),
                    Ok(()) => {},
                }
                proof {
                    let once = transcription(inner_v, bm, st.push(i))->Ok_0;
                    assert(after_once == before + once);
                    let piece = if i + 1 < n {
                        once + sep_v
                    } else {
                        once
                    };
                    assert(tokens_view(out@) =~= before + piece);
                    match repetitions(inner_v, sep_v, bm, st, (i + 1) as nat, n as nat) {
                        Ok(rest) => {
                            assert(repetitions(inner_v, sep_v, bm, st, i as nat, n as nat) == Ok::<
                                Seq<TokenView>,
                                MacroError,
                            >(piece + rest));
                            assert(done + (piece + rest) =~= (done + piece) + rest);
                        },
                        Err(_) => {},
                    }
                    assert(start + (done + piece) =~= before + piece);
                    done = done + piece;
                }
                i = i + 1;
            }
            proof {
                assert(done + Seq::<TokenView>::empty() =~= done);
            }
            Ok(())
        },
        Transcribe::Ident(s) => {
            push_token(out, TokenTree::Ident(s.clone()));
            proof {
                assert(start.push(TokenView::Ident(s@)) =~= start + seq![TokenView::Ident(s@)]);
            }
            Ok(())
        },
        Transcribe::Literal(s) => {
            push_token(out, TokenTree::Literal(s.clone()));
            proof {
                assert(start.push(TokenView::Literal(s@)) =~= start + seq![TokenView::Literal(s@)]);
            }
            Ok(())
        },
        Transcribe::Punct(c, sp) => {
            push_token(out, TokenTree::Punct(*c, *sp));
            proof {
                assert(start.push(TokenView::Punct(*c, *sp)) =~= start + seq![TokenView::Punct(*c, *sp)]);
            }
            Ok(())
        },
    }
}

/// Transcribe a rule's transcriber with the bindings of a match; the output is spaced as
/// reading its written-out text again would space it.
pub fn transcribe(bindings: &Bindings, rule: &TranscribeSeq) -> (r: Result<Vec<TokenTree>, MacroError>)
    requires
        bindings.wf(),
    ensures
        match transcription(rule@, bindings_map(bindings), Seq::empty()) {
            Ok(o) => r matches Ok(out) && tokens_view(out@) == respaced(o),
            Err(e) => r == Err::<Vec<TokenTree>, MacroError>(e),
        },
{
    let mut out: Vec<TokenTree> = Vec::new();
    let mut stack: Vec<usize> = Vec::new();
    proof {
        assert(stack@ =~= Seq::<usize>::empty());
        assert(tokens_view(out@) =~= Seq::<TokenView>::empty());
    }
    match transcribe_into(&rule.0, bindings, &mut stack, &mut out) {
        Ok(()) => {
            proof {
                match transcription(rule@, bindings_map(bindings), Seq::empty()) {
                    Ok(o) => {
                        assert(Seq::<TokenView>::empty() + o =~= o);
                    },
                    Err(_) => {},
                }
            }
            Ok(respace(out))
        },
        Err(e) => Err(e),
    }
}

/// Whether `syn` parses the whole of `text` as a block (`syn::Block`).
pub uninterp spec fn syn_parses_block(text: Seq<char>) -> bool;

/// `syn::parse_str::<syn::Block>(text)`, whether it succeeds.
#[verifier::external_body]
fn parses_as_block(text: &str) -> (r: bool)
    ensures
        r == syn_parses_block(text@),
{
    syn::parse_str::<syn::Block>(text).is_ok()
}

/// Whether `syn` parses the whole of `text` as an expression (`syn::Expr`).
pub uninterp spec fn syn_parses_expr(text: Seq<char>) -> bool;

/// `syn::parse_str::<syn::Expr>(text)`, whether it succeeds.
#[verifier::external_body]
fn parses_as_expr(text: &str) -> (r: bool)
    ensures
        r == syn_parses_expr(text@),
{
    syn::parse_str::<syn::Expr>(text).is_ok()
}

/// Whether `syn` parses the whole of `text` as an item (`syn::Item`).
pub uninterp spec fn syn_parses_item(text: Seq<char>) -> bool;

/// `syn::parse_str::<syn::Item>(text)`, whether it succeeds.
#[verifier::external_body]
fn parses_as_item(text: &str) -> (r: bool)
    ensures
        r == syn_parses_item(text@),
{
    syn::parse_str::<syn::Item>(text).is_ok()
}

/// Whether `syn` parses the whole of `text` as a lifetime (`syn::Lifetime`).
pub uninterp spec fn syn_parses_lifetime(text: Seq<char>) -> bool;

/// `syn::parse_str::<syn::Lifetime>(text)`, whether it succeeds.
#[verifier::external_body]
fn parses_as_lifetime(text: &str) -> (r: bool)
    ensures
        r == syn_parses_lifetime(text@),
{
    syn::parse_str::<syn::Lifetime>(text).is_ok()
}

/// Whether `syn` parses the whole of `text` as a literal (`syn::Lit`).
pub uninterp spec fn syn_parses_literal(text: Seq<char>) -> bool;

/// `syn::parse_str::<syn::Lit>(text)`, whether it succeeds.
#[verifier::external_body]
fn parses_as_literal(text: &str) -> (r: bool)
    ensures
        r == syn_parses_literal(text@),
{
    syn::parse_str::<syn::Lit>(text).is_ok()
}

/// Whether `syn` parses the whole of `text` as an attribute's meta item (`syn::Meta`).
pub uninterp spec fn syn_parses_meta(text: Seq<char>) -> bool;

/// `syn::parse_str::<syn::Meta>(text)`, whether it succeeds.
#[verifier::external_body]
fn parses_as_meta(text: &str) -> (r: bool)
    ensures
        r == syn_parses_meta(text@),
{
    syn::parse_str::<syn::Meta>(text).is_ok()
}

/// Whether `syn` parses the whole of `text` as a pattern (`syn::Pat`).
pub uninterp spec fn syn_parses_pat(text: Seq<char>) -> bool;

/// `syn::Pat::parse_single` on the whole of `text`, whether it succeeds.
#[verifier::external_body]
fn parses_as_pat(text: &str) -> (r: bool)
    ensures
        r == syn_parses_pat(text@),
{
    syn::parse::Parser::parse_str(syn::Pat::parse_single, text).is_ok()
}

/// Whether `syn` parses the whole of `text` as a path (`syn::Path`).
pub uninterp spec fn syn_parses_path(text: Seq<char>) -> bool;

/// `syn::parse_str::<syn::Path>(text)`, whether it succeeds.
#[verifier::external_body]
fn parses_as_path(text: &str) -> (r: bool)
    ensures
        r == syn_parses_path(text@),
{
    syn::parse_str::<syn::Path>(text).is_ok()
}

/// Whether `syn` parses the whole of `text` as a statement (`syn::Stmt`).
pub uninterp spec fn syn_parses_stmt(text: Seq<char>) -> bool;

/// `syn::parse_str::<syn::Stmt>(text)`, whether it succeeds.
#[verifier::external_body]
fn parses_as_stmt(text: &str) -> (r: bool)
    ensures
        r == syn_parses_stmt(text@),
{
    syn::parse_str::<syn::Stmt>(text).is_ok()
}

/// Whether `syn` parses the whole of `text` as a type (`syn::Type`).
pub uninterp spec fn syn_parses_ty(text: Seq<char>) -> bool;

/// `syn::parse_str::<syn::Type>(text)`, whether it succeeds.
#[verifier::external_body]
fn parses_as_ty(text: &str) -> (r: bool)
    ensures
        r == syn_parses_ty(text@),
{
    syn::parse_str::<syn::Type>(text).is_ok()
}

/// Whether `syn` parses the whole of `text` as a visibility (`syn::Visibility`).
pub uninterp spec fn syn_parses_vis(text: Seq<char>) -> bool;

/// `syn::parse_str::<syn::Visibility>(text)`, whether it succeeds.
#[verifier::external_body]
fn parses_as_vis(text: &str) -> (r: bool)
    ensures
        r == syn_parses_vis(text@),
{
    syn::parse_str::<syn::Visibility>(text).is_ok()
}

/// Whether `syn` parses the whole of `text` as the syntax of a fragment specifier other than
/// `tt` and `ident`.
pub open spec fn syn_parses_fragment(spec: FragSpec, text: Seq<char>) -> bool {
    match spec {
        FragSpec::Block => syn_parses_block(text),
        FragSpec::Expr => syn_parses_expr(text),
        FragSpec::Item => syn_parses_item(text),
        FragSpec::Lifetime => syn_parses_lifetime(text),
        FragSpec::Literal => syn_parses_literal(text),
        FragSpec::Meta => syn_parses_meta(text),
        FragSpec::Pattern => syn_parses_pat(text),
        FragSpec::Path => syn_parses_path(text),
        FragSpec::Statement => syn_parses_stmt(text),
        FragSpec::Type => syn_parses_ty(text),
        FragSpec::Visibility => syn_parses_vis(text),
        _ => false,
    }
}

/// The longest run, of at most `k` token trees from `pos`, that parses as the fragment.
pub open spec fn longest_parse(spec: FragSpec, ts: Seq<TokenView>, pos: nat, k: nat) -> Option<nat>
    decreases k,
{
    if syn_parses_fragment(spec, tokens_text(ts.subrange(pos as int, (pos + k) as int))) {
        Some(k)
    } else if k == 0 {
        None
    } else {
        longest_parse(spec, ts, pos, (k - 1) as nat)
    }
}

/// How many token trees from `pos` a fragment takes: `tt` one token tree, `ident` one identifier
/// that `syn` accepts, and any other the longest run that `syn` parses as its syntax.
pub open spec fn fragment_len(spec: FragSpec, ts: Seq<TokenView>, pos: nat) -> Option<nat> {
    if pos > ts.len() {
        None
    } else {
        match spec {
            FragSpec::TokenTree => if pos < ts.len() {
                Some(1nat)
            } else {
                None
            },
            FragSpec::Ident => if pos < ts.len() && ts[pos as int] is Ident && syn_accepts_ident(
                ts[pos as int]->Ident_0,
            ) {
                Some(1nat)
            } else {
                None
            },
            _ => longest_parse(spec, ts, pos, (ts.len() - pos) as nat),
        }
    }
}

/// Whether the token `t` is matched by the separator token `s`: identifiers and literals by
/// their text, punctuation by its character; never by a group.
pub open spec fn token_matches(s: TokenView, t: TokenView) -> bool {
    match s {
        TokenView::Ident(a) => t == TokenView::Ident(a),
        TokenView::Literal(a) => t == TokenView::Literal(a),
        TokenView::Punct(c, _) => is_punct(t, c),
        TokenView::Group(..) => false,
    }
}

/// Where matching the separator `sep` at `pos` ends.
pub open spec fn sep_match(sep: Seq<TokenView>, ts: Seq<TokenView>, pos: nat) -> Option<nat> {
    if pos + sep.len() <= ts.len() && forall|i: int| 0 <= i < sep.len() ==> #[trigger] token_matches(sep[i], ts[pos + i]) {
        Some(pos + sep.len())
    } else {
        None
    }
}

/// The bindings made by matches: name to binding.
pub type BindMap = Map<Seq<char>, BindingView>;

/// The names of all the fragments of matchers, nested ones included.
pub open spec fn fragment_names(ms: Seq<MatcherView>) -> Seq<Seq<char>>
    decreases ms,
{
    if ms.len() == 0 {
        Seq::empty()
    } else {
        let here = match ms[0] {
            MatcherView::Fragment(name, _) => seq![name],
            MatcherView::Group(_, inner) => fragment_names(inner),
            MatcherView::Repetition(inner, _, _) => fragment_names(inner),
            _ => Seq::empty(),
        };
        here + fragment_names(ms.drop_first())
    }
}

/// The bindings of a repetition that matched with the bindings `iters`, one per time: each
/// fragment of the repetition bound to what it bound each time.
pub open spec fn repeated_bindings(names: Seq<Seq<char>>, iters: Seq<BindMap>) -> BindMap {
    Map::new(
        |k: Seq<char>| names.contains(k),
        |k: Seq<char>| BindingView::Repeated(iters.map_values(|m: BindMap| m[k])),
    )
}

/// Match the matchers `ms` against the token trees `ts` from `pos` on, as far as they go: where
/// the match ends, and what it bound.
pub open spec fn match_seq(ms: Seq<MatcherView>, ts: Seq<TokenView>, pos: nat) -> Option<(nat, BindMap)>
    decreases ms, 0nat,
{
    if ms.len() == 0 {
        Some((pos, Map::empty()))
    } else {
        match match_one(ms[0], ts, pos) {
            None => None,
            Some((p, b)) => match match_seq(ms.drop_first(), ts, p) {
                None => None,
                Some((q, c)) => Some((q, b.union_prefer_right(c))),
            },
        }
    }
}

/// Match one matcher against the token trees `ts` at `pos`.
pub open spec fn match_one(m: MatcherView, ts: Seq<TokenView>, pos: nat) -> Option<(nat, BindMap)>
    decreases m, 0nat,
{
    if pos > ts.len() {
        None
    } else {
        match m {
            MatcherView::Fragment(name, spec) => match fragment_len(spec, ts, pos) {
                None => None,
                Some(k) => Some(
                    (
                        pos + k,
                        Map::empty().insert(name, BindingView::Leaf(ts.subrange(pos as int, (pos + k) as int))),
                    ),
                ),
            },
            MatcherView::Ident(s) => if pos < ts.len() && ts[pos as int] == TokenView::Ident(s) {
                Some((pos + 1, Map::empty()))
            } else {
                None
            },
            MatcherView::Literal(s) => if pos < ts.len() && ts[pos as int] == TokenView::Literal(s) {
                Some((pos + 1, Map::empty()))
            } else {
                None
            },
            MatcherView::Punct(c, _) => if pos < ts.len() && is_punct(ts[pos as int], c) {
                Some((pos + 1, Map::empty()))
            } else {
                None
            },
            MatcherView::Group(d, inner) => if pos < ts.len() && ts[pos as int] is Group && ts[pos as int]->Group_0
                == d {
                match match_seq(inner, ts[pos as int]->Group_1, 0) {
                    Some((q, b)) => if q == ts[pos as int]->Group_1.len() {
                        Some((pos + 1, b))
                    } else {
                        None
                    },
                    None => None,
                }
            } else {
                None
            },
            MatcherView::Repetition(inner, sep, kind) => {
                let (end, iters) = repeat_match(inner, sep, kind, ts, pos, Seq::empty());
                if kind == RepeatKind::Plus && iters.len() == 0 {
                    None
                } else {
                    Some((end, repeated_bindings(fragment_names(inner), iters)))
                }
            },
        }
    }
}

/// Match a repetition greedily from `pos`, after the matches `iters`: the separator (from the
/// second time on), then the repetition's matchers, for as long as both match and the match
/// moves on (at most once for `?`). Where the repetition ends, and the bindings of each time.
pub open spec fn repeat_match(
    inner: Seq<MatcherView>,
    sep: Seq<TokenView>,
    kind: RepeatKind,
    ts: Seq<TokenView>,
    pos: nat,
    iters: Seq<BindMap>,
) -> (nat, Seq<BindMap>)
    decreases inner, ts.len() + 1 - pos,
{
    if pos > ts.len() || (kind == RepeatKind::Question && iters.len() >= 1) {
        (pos, iters)
    } else {
        let start = if iters.len() > 0 {
            sep_match(sep, ts, pos)
        } else {
            Some(pos)
        };
        match start {
            None => (pos, iters),
            Some(p) => match match_seq(inner, ts, p) {
                None => (pos, iters),
                Some((q, b)) => if pos < q <= ts.len() {
                    repeat_match(inner, sep, kind, ts, q, iters.push(b))
                } else {
                    (pos, iters)
                },
            },
        }
    }
}

impl Binding {
    /// A copy, with the same view.
    pub fn dup(&self) -> (r: Binding)
        ensures
            r@ == self@,
        decreases self,
    {
        match self {
            Binding::Leaf(ts) => Binding::Leaf(dup_tokens(ts)),
            Binding::Repeated(bs) => Binding::Repeated(dup_bindings(bs)),
        }
    }
}

/// Copies of bindings, with the same views.
fn dup_bindings(bs: &Vec<Binding>) -> (r: Vec<Binding>)
    ensures
        bindings_view(r@) == bindings_view(bs@),
    decreases bs,
{
    let mut out: Vec<Binding> = Vec::new();
    let mut i: usize = 0;
    while i < bs.len()
        invariant
            i <= bs.len(),
            out@.len() == i,
            forall|j: int| 0 <= j < i ==> binding_view(#[trigger] out@[j]) == binding_view(bs@[j]),
        decreases bs.len() - i,
    {
        proof {
            assert(decreases_to!(bs => bs@[i as int]));
        }
        out.push(bs[i].dup());
        i = i + 1;
    }
    proof {
        lemma_bindings_view(out@);
        lemma_bindings_view(bs@);
        assert(bindings_view(out@) =~= bindings_view(bs@));
    }
    out
}

/// What a successful match binds: exactly the fragments of its matchers.
proof fn lemma_match_seq_names(ms: Seq<MatcherView>, ts: Seq<TokenView>, pos: nat)
    ensures
        match_seq(ms, ts, pos) matches Some((q, b)) ==> forall|k: Seq<char>|
            b.contains_key(k) <==> #[trigger] fragment_names(ms).contains(k),
    decreases ms, 0nat,
{
    if ms.len() > 0 {
        lemma_match_one_names(ms[0], ts, pos);
        if let Some((p, b)) = match_one(ms[0], ts, pos) {
            lemma_match_seq_names(ms.drop_first(), ts, p);
            if let Some((q, c)) = match_seq(ms.drop_first(), ts, p) {
                let here = fragment_names(seq![ms[0]]);
                assert(seq![ms[0]].drop_first() =~= Seq::<MatcherView>::empty());
                assert(here =~= here + fragment_names(Seq::<MatcherView>::empty()));
                assert forall|k: Seq<char>| b.union_prefer_right(c).contains_key(k) <==> #[trigger] fragment_names(
                    ms,
                ).contains(k) by {
                    assert(fragment_names(ms) == here + fragment_names(ms.drop_first()));
                    if here.contains(k) {
                        let i = choose|i: int| 0 <= i < here.len() && here[i] == k;
                        assert(fragment_names(ms)[i] == k);
                    }
                    if fragment_names(ms.drop_first()).contains(k) {
                        let i = choose|i: int| 0 <= i < fragment_names(ms.drop_first()).len()
                            && fragment_names(ms.drop_first())[i] == k;
                        assert(fragment_names(ms)[here.len() + i] == k);
                    }
                    if fragment_names(ms).contains(k) {
                        let i = choose|i: int| 0 <= i < fragment_names(ms).len() && fragment_names(ms)[i] == k;
                        if i < here.len() {
                            assert(here[i] == k);
                        } else {
                            assert(fragment_names(ms.drop_first())[i - here.len()] == k);
                        }
                    }
                }
            }
        }
    }
}

/// What a successful match of one matcher binds: exactly its fragments.
proof fn lemma_match_one_names(m: MatcherView, ts: Seq<TokenView>, pos: nat)
    ensures
        match_one(m, ts, pos) matches Some((q, b)) ==> forall|k: Seq<char>|
            b.contains_key(k) <==> #[trigger] fragment_names(seq![m]).contains(k),
    decreases m, 0nat,
{
    let here = match m {
        MatcherView::Fragment(name, _) => seq![name],
        MatcherView::Group(_, inner) => fragment_names(inner),
        MatcherView::Repetition(inner, _, _) => fragment_names(inner),
        _ => Seq::empty(),
    };
    assert(seq![m].drop_first() =~= Seq::<MatcherView>::empty());
    assert(seq![m][0] == m);
    assert(fragment_names(Seq::<MatcherView>::empty()) == Seq::<Seq<char>>::empty());
    assert(fragment_names(seq![m]) == here + fragment_names(seq![m].drop_first()));
    assert(fragment_names(seq![m]) =~= here);
    if pos <= ts.len() {
        match m {
            MatcherView::Group(d, inner) => {
                if pos < ts.len() && ts[pos as int] is Group {
                    lemma_match_seq_names(inner, ts[pos as int]->Group_1, 0);
                }
            },
            MatcherView::Fragment(name, _) => {
                if let Some((q, b)) = match_one(m, ts, pos) {
                    assert forall|k: Seq<char>| b.contains_key(k) <==> #[trigger] here.contains(k) by {
                        if here.contains(k) {
                            assert(here[0] == name);
                        }
                        if k == name {
                            assert(here[0] == k);
                        }
                    }
                }
            },
            _ => {},
        }
    }
}

/// Whether the fragment's syntax parses from `text`, by the fragment specifier's `syn` type.
fn parses_fragment(spec: FragSpec, text: &str) -> (r: bool)
    ensures
        r == syn_parses_fragment(spec, text@),
{
    match spec {
        FragSpec::Block => parses_as_block(text),
        FragSpec::Expr => parses_as_expr(text),
        FragSpec::Item => parses_as_item(text),
        FragSpec::Lifetime => parses_as_lifetime(text),
        FragSpec::Literal => parses_as_literal(text),
        FragSpec::Meta => parses_as_meta(text),
        FragSpec::Pattern => parses_as_pat(text),
        FragSpec::Path => parses_as_path(text),
        FragSpec::Statement => parses_as_stmt(text),
        FragSpec::Type => parses_as_ty(text),
        FragSpec::Visibility => parses_as_vis(text),
        _ => false,
    }
}

/// How many token trees from `pos` the fragment takes.
fn fragment_len_at(spec: FragSpec, ts: &Vec<TokenTree>, pos: usize) -> (r: Option<usize>)
    requires
        pos <= ts.len(),
    ensures
        match fragment_len(spec, tokens_view(ts@), pos as nat) {
            None => r is None,
            Some(k) => r == Some(k as usize) && pos + k <= ts.len(),
        },
{
    let ghost tv = tokens_view(ts@);
    proof {
        lemma_tokens_view(ts@);
    }
    match spec {
        FragSpec::TokenTree => {
            return if pos < ts.len() {
                Some(1)
            } else {
                None
            };
        },
        FragSpec::Ident => {
            if pos < ts.len() {
                proof {
                    assert(tv[pos as int] == token_view(ts@[pos as int]));
                }
                if let TokenTree::Ident(s) = &ts[pos] {
                    if accepts_ident(s.as_str()) {
                        return Some(1);
                    }
                }
            }
            return None;
        },
        _ => {},
    }
    let mut k: usize = ts.len() - pos;
    loop
        invariant
            pos <= ts.len(),
            pos + k <= ts.len(),
            tv == tokens_view(ts@),
            tv.len() == ts.len(),
            spec != FragSpec::TokenTree && spec != FragSpec::Ident,
            fragment_len(spec, tv, pos as nat) == longest_parse(spec, tv, pos as nat, k as nat),
        decreases k,
    {
        let mut text = String::new();
        render_tokens(ts, pos, pos + k, &mut text);
        proof {
            assert(text@ =~= tokens_text(tv.subrange(pos as int, (pos + k) as int)));
        }
        if parses_fragment(spec, text.as_str()) {
            return Some(k);
        }
        if k == 0 {
            return None;
        }
        k = k - 1;
    }
}

/// Where matching the separator `sep` at `pos` ends.
fn sep_match_at(sep: &Vec<TokenTree>, ts: &Vec<TokenTree>, pos: usize) -> (r: Option<usize>)
    requires
        pos <= ts.len(),
    ensures
        match sep_match(tokens_view(sep@), tokens_view(ts@), pos as nat) {
            None => r is None,
            Some(q) => r == Some(q as usize) && q <= ts.len(),
        },
{
    let ghost sv = tokens_view(sep@);
    let ghost tv = tokens_view(ts@);
    proof {
        lemma_tokens_view(sep@);
        lemma_tokens_view(ts@);
    }
    if ts.len() - pos < sep.len() {
        return None;
    }
    let mut i: usize = 0;
    while i < sep.len()
        invariant
            i <= sep.len(),
            pos + sep.len() <= ts.len(),
            sv == tokens_view(sep@),
            tv == tokens_view(ts@),
            sv.len() == sep.len(),
            tv.len() == ts.len(),
            forall|j: int| 0 <= j < sep.len() ==> #[trigger] sv[j] == token_view(sep@[j]),
            forall|j: int| 0 <= j < ts.len() ==> #[trigger] tv[j] == token_view(ts@[j]),
            forall|j: int| 0 <= j < i ==> #[trigger] token_matches(sv[j], tv[pos + j]),
        decreases sep.len() - i,
    {
        let ok = match (&sep[i], &ts[pos + i]) {
            (TokenTree::Ident(a), TokenTree::Ident(b)) => str_eq(a.as_str(), b.as_str()),
            (TokenTree::Literal(a), TokenTree::Literal(b)) => str_eq(a.as_str(), b.as_str()),
            (TokenTree::Punct(a, _), TokenTree::Punct(b, _)) => *a == *b,
            _ => false,
        };
        proof {
            assert(sv[i as int] == token_view(sep@[i as int]));
            assert(tv[pos + i] == token_view(ts@[pos + i]));
        }
        if !ok {
            proof {
                assert(!token_matches(sv[i as int], tv[pos + i]));
            }
            return None;
        }
        i = i + 1;
    }
    Some(pos + sep.len())
}

/// Add the bindings of `b2` to `b1`, replacing those of the same names.
fn merge_into(b1: &mut Bindings, b2: &Bindings)
    requires
        old(b1).wf(),
        b2.wf(),
    ensures
        final(b1).wf(),
        bmap(*final(b1)) == bmap(*old(b1)).union_prefer_right(bmap(*b2)),
{
    let ghost m0 = bmap(*b1);
    let entries = b2.entry_slice();
    proof {
        b2.lemma_entries();
    }
    let mut i: usize = 0;
    while i < entries.len()
        invariant
            i <= entries.len(),
            b1.wf(),
            b2.wf(),
            entries@ == b2.entries(),
            entries@.len() == b2.keys().len(),
            forall|j: int|
                0 <= j < b2.keys().len() ==> #[trigger] b2.entries()[j].0@ == b2.keys()[j] && b2.map().contains_key(
                    b2.keys()[j],
                ) && b2.map()[b2.keys()[j]] == b2.entries()[j].1,
            forall|k: Seq<char>| #[trigger] b2.map().contains_key(k) <==> b2.keys().contains(k),
            forall|j: int, l: int| 0 <= j < l < b2.keys().len() ==> b2.keys()[j] != b2.keys()[l],
            forall|k: Seq<char>|
                #[trigger] bmap(*b1).contains_key(k) <==> (m0.contains_key(k) || exists|j: int|
                    0 <= j < i && b2.keys()[j] == k),
            forall|j: int| 0 <= j < i ==> #[trigger] bmap(*b1)[b2.keys()[j]] == b2.entries()[j].1@,
            forall|k: Seq<char>|
                m0.contains_key(k) && !(exists|j: int| 0 <= j < i && b2.keys()[j] == k) ==> #[trigger] bmap(
                    *b1,
                )[k] == m0[k],
        decreases entries.len() - i,
    {
        let ghost before = bmap(*b1);
        let key = entries[i].0.clone();
        let value = entries[i].1.dup();
        b1.set(key, value);
        proof {
            let ki = b2.keys()[i as int];
            assert(entries@[i as int].0@ == ki);
            assert(bmap(*b1) == before.insert(ki, entries@[i as int].1@));
            assert forall|k: Seq<char>| #[trigger] bmap(*b1).contains_key(k) <==> (m0.contains_key(k) || exists|j: int|
                0 <= j < i + 1 && b2.keys()[j] == k) by {
                if k == ki {
                    assert(b2.keys()[i as int] == k);
                }
                if exists|j: int| 0 <= j < i + 1 && b2.keys()[j] == k {
                    let j = choose|j: int| 0 <= j < i + 1 && b2.keys()[j] == k;
                    if j < i {
                        assert(before.contains_key(k));
                    }
                }
            }
            assert forall|j: int| 0 <= j < i + 1 implies #[trigger] bmap(*b1)[b2.keys()[j]] == b2.entries()[j].1@ by {
                if j < i {
                    assert(b2.keys()[j] != ki);
                }
            }
        }
        i = i + 1;
    }
    proof {
        let u = m0.union_prefer_right(bmap(*b2));
        assert forall|k: Seq<char>| #[trigger] bmap(*b1).contains_key(k) <==> u.contains_key(k) by {
            if exists|j: int| 0 <= j < i && b2.keys()[j] == k {
                let j = choose|j: int| 0 <= j < i && b2.keys()[j] == k;
                assert(b2.map().contains_key(k));
            }
            if b2.map().contains_key(k) {
                assert(b2.keys().contains(k));
                let j = choose|j: int| 0 <= j < b2.keys().len() && b2.keys()[j] == k;
            }
        }
        assert(i == b2.keys().len());
        assert forall|k: Seq<char>| #[trigger] bmap(*b1).contains_key(k) implies bmap(*b1)[k] == u[k] by {
            if b2.map().contains_key(k) {
                assert(b2.keys().contains(k));
                let j = choose|j: int| 0 <= j < b2.keys().len() && b2.keys()[j] == k;
                assert(bmap(*b1)[b2.keys()[j]] == b2.entries()[j].1@);
                assert(b2.entries()[j].0@ == b2.keys()[j]);
                assert(b2.map()[b2.keys()[j]] == b2.entries()[j].1);
                assert(bmap(*b2)[k] == b2.map()[k]@);
                assert(u[k] == bmap(*b2)[k]);
            } else {
                if exists|j: int| 0 <= j < i && b2.keys()[j] == k {
                    let j = choose|j: int| 0 <= j < i && b2.keys()[j] == k;
                    assert(b2.map().contains_key(b2.keys()[j]));
                }
                assert(!bmap(*b2).contains_key(k));
                assert(m0.contains_key(k));
                assert(u[k] == m0[k]);
            }
        }
        assert(bmap(*b1) =~= u);
    }
}

/// The bindings of a repetition whose fragments are `names`, from the bindings of each time it
/// matched.
fn repeat_bindings(names: &Vec<String>, iters: &Vec<Bindings>) -> (r: Bindings)
    requires
        forall|j: int| 0 <= j < iters@.len() ==> (#[trigger] iters@[j]).wf(),
        forall|j: int, k: Seq<char>|
            0 <= j < iters@.len() ==> (#[trigger] iters@[j].map().contains_key(k) <==> names.deep_view().contains(k)),
    ensures
        r.wf(),
        bmap(r) == repeated_bindings(names.deep_view(), iters@.map_values(|b: Bindings| bmap(b))),
{
    let ghost nv = names.deep_view();
    let ghost iv = iters@.map_values(|b: Bindings| bmap(b));
    let ghost target = repeated_bindings(nv, iv);
    let mut r: Bindings = NameTable::new();
    let mut i: usize = 0;
    while i < names.len()
        invariant
            i <= names.len(),
            nv == names.deep_view(),
            iv == iters@.map_values(|b: Bindings| bmap(b)),
            target == repeated_bindings(nv, iv),
            forall|j: int| 0 <= j < iters@.len() ==> (#[trigger] iters@[j]).wf(),
            forall|j: int, k: Seq<char>|
                0 <= j < iters@.len() ==> (#[trigger] iters@[j].map().contains_key(k) <==> nv.contains(k)),
            r.wf(),
            forall|k: Seq<char>| #[trigger] bmap(r).contains_key(k) <==> (exists|j: int| 0 <= j < i && nv[j] == k),
            forall|k: Seq<char>| #[trigger] bmap(r).contains_key(k) ==> bmap(r)[k] == target[k],
        decreases names.len() - i,
    {
        let ghost name = nv[i as int];
        proof {
            assert(names@[i as int]@ == name);
            assert(nv.contains(name));
        }
        let mut each: Vec<Binding> = Vec::new();
        let mut j: usize = 0;
        while j < iters.len()
            invariant
                j <= iters.len(),
                i < names.len(),
                nv == names.deep_view(),
                each@.len() == j,
                nv.contains(name),
                name == names@[i as int]@,
                forall|l: int| 0 <= l < iters@.len() ==> (#[trigger] iters@[l]).wf(),
                forall|l: int, k: Seq<char>|
                    0 <= l < iters@.len() ==> (#[trigger] iters@[l].map().contains_key(k) <==> nv.contains(k)),
                forall|l: int| 0 <= l < j ==> binding_view(#[trigger] each@[l]) == bmap(iters@[l])[name],
            decreases iters.len() - j,
        {
            proof {
                assert(iters@[j as int].map().contains_key(name));
            }
            let found = iters[j].get(names[i].as_str());
            match found {
                Some(b) => {
                    each.push(b.dup());
                },
                None => {
                    proof {
                        assert(false);
                    }
                },
            }
            j = j + 1;
        }
        proof {
            lemma_bindings_view(each@);
            assert(bindings_view(each@) =~= iv.map_values(|m: BindMap| m[name]));
            assert(target[name] == BindingView::Repeated(iv.map_values(|m: BindMap| m[name])));
        }
        let ghost r0 = bmap(r);
        let entry = Binding::Repeated(each);
        proof {
            assert(entry@ == target[name]);
        }
        r.set(names[i].clone(), entry);
        proof {
            assert(bmap(r) == r0.insert(name, entry@));
            assert forall|k: Seq<char>| #[trigger] bmap(r).contains_key(k) <==> (exists|j: int| 0 <= j < i + 1 && nv[j] == k) by {
                if k == name {
                    assert(nv[i as int] == k);
                }
                if exists|j: int| 0 <= j < i + 1 && nv[j] == k {
                    let j = choose|j: int| 0 <= j < i + 1 && nv[j] == k;
                    if j < i {
                        assert(r0.contains_key(k));
                    }
                }
            }
            assert forall|k: Seq<char>| #[trigger] bmap(r).contains_key(k) implies bmap(r)[k] == target[k] by {
                if k != name {
                    assert(r0.contains_key(k));
                }
            }
        }
        i = i + 1;
    }
    proof {
        assert forall|k: Seq<char>| #[trigger] bmap(r).contains_key(k) <==> target.contains_key(k) by {
            if nv.contains(k) {
                let j = choose|j: int| 0 <= j < nv.len() && nv[j] == k;
            }
        }
        assert(bmap(r) =~= target);
    }
    r
}

/// Append the names of the fragments of `ms`, nested ones included.
fn push_fragment_names(ms: &Vec<Matcher>, names: &mut Vec<String>)
    ensures
        final(names).deep_view() == old(names).deep_view() + fragment_names(matchers_view(ms@)),
    decreases ms,
{
    let ghost mv = matchers_view(ms@);
    let ghost n0 = names.deep_view();
    proof {
        lemma_matchers_view(ms@);
        assert(mv.skip(0) =~= mv);
    }
    let mut i: usize = 0;
    while i < ms.len()
        invariant
            i <= ms.len(),
            mv == matchers_view(ms@),
            mv.len() == ms.len(),
            forall|j: int| 0 <= j < ms.len() ==> #[trigger] mv[j] == matcher_view(ms@[j]),
            n0 + fragment_names(mv) == names.deep_view() + fragment_names(mv.skip(i as int)),
        decreases ms.len() - i,
    {
        let ghost before = names.deep_view();
        proof {
            assert(decreases_to!(ms => ms@[i as int]));
            assert(mv.skip(i as int)[0] == mv[i as int]);
            assert(mv.skip(i as int).drop_first() =~= mv.skip(i + 1));
        }
        match &ms[i] {
            Matcher::Fragment(f) => {
                names.push(f.ident.clone());
                proof {
                    assert(names.deep_view() =~= before + seq![f.ident@]);
                }
            },
            Matcher::Group(g) => {
                push_fragment_names(&g.inner.0, names);
            },
            Matcher::Repetition(r) => {
                push_fragment_names(&r.inner.0, names);
            },
            _ => {
                proof {
                    assert(before + Seq::<Seq<char>>::empty() =~= before);
                }
            },
        }
        proof {
            let here = match mv[i as int] {
                MatcherView::Fragment(name, _) => seq![name],
                MatcherView::Group(_, inner) => fragment_names(inner),
                MatcherView::Repetition(inner, _, _) => fragment_names(inner),
                _ => Seq::empty(),
            };
            assert(names.deep_view() == before + here);
            assert(fragment_names(mv.skip(i as int)) == here + fragment_names(mv.skip(i + 1)));
            assert(before + (here + fragment_names(mv.skip(i + 1))) =~= (before + here) + fragment_names(
                mv.skip(i + 1),
            ));
        }
        i = i + 1;
    }
    proof {
        assert(mv.skip(i as int).len() == 0);
        assert(names.deep_view() + Seq::<Seq<char>>::empty() =~= names.deep_view());
    }
}

/// The bindings `a`, then what a match that follows them gives.
pub open spec fn after_bindings(a: BindMap, r: Option<(nat, BindMap)>) -> Option<(nat, BindMap)> {
    match r {
        None => None,
        Some((q, c)) => Some((q, a.union_prefer_right(c))),
    }
}

/// The views of the bindings of each time a repetition matched.
pub open spec fn iters_view(iters: Seq<Bindings>) -> Seq<BindMap> {
    iters.map_values(|b: Bindings| bmap(b))
}

/// Match the matchers `ms` against the token trees of `ts` from `pos` on, as far as they go.
#[verifier::loop_isolation(false)]
fn match_seq_at(ms: &Vec<Matcher>, ts: &Vec<TokenTree>, pos: usize) -> (r: Option<(usize, Bindings)>)
    requires
        pos <= ts.len(),
    ensures
        match match_seq(matchers_view(ms@), tokens_view(ts@), pos as nat) {
            None => r is None,
            Some((q, b)) => r matches Some((rq, rb)) && rq == q && rb.wf() && bmap(rb) == b && q <= ts.len(),
        },
    decreases ms,
{
    let ghost mv = matchers_view(ms@);
    let ghost tv = tokens_view(ts@);
    proof {
        lemma_matchers_view(ms@);
        assert(mv.skip(0) =~= mv);
    }
    let mut acc: Bindings = NameTable::new();
    let mut cur: usize = pos;
    let mut i: usize = 0;
    proof {
        assert(bmap(acc) =~= Map::<Seq<char>, BindingView>::empty());
        match match_seq(mv, tv, pos as nat) {
            Some((q, c)) => {
                assert(Map::<Seq<char>, BindingView>::empty().union_prefer_right(c) =~= c);
            },
            None => {},
        }
    }
    while i < ms.len()
        invariant
            i <= ms.len(),
            cur <= ts.len(),
            acc.wf(),
            mv == matchers_view(ms@),
            tv == tokens_view(ts@),
            mv.len() == ms.len(),
            forall|j: int| 0 <= j < ms.len() ==> #[trigger] mv[j] == matcher_view(ms@[j]),
            match_seq(mv, tv, pos as nat) == after_bindings(bmap(acc), match_seq(mv.skip(i as int), tv, cur as nat)),
        decreases ms.len() - i,
    {
        proof {
            assert(decreases_to!(ms => ms@[i as int]));
            assert(mv.skip(i as int)[0] == mv[i as int]);
            assert(mv.skip(i as int).drop_first() =~= mv.skip(i + 1));
        }
        match match_one_at(&ms[i], ts, cur) {
            None => {
                return None;
            },
            Some((p, b)) => {
                let ghost a0 = bmap(acc);
                merge_into(&mut acc, &b);
                proof {
                    match match_seq(mv.skip(i + 1), tv, p as nat) {
                        Some((q, c)) => {
                            assert(a0.union_prefer_right(bmap(b).union_prefer_right(c)) =~= a0.union_prefer_right(
                                bmap(b),
                            ).union_prefer_right(c));
                        },
                        None => {},
                    }
                }
                cur = p;
            },
        }
        i = i + 1;
    }
    proof {
        assert(mv.skip(i as int).len() == 0);
        assert(bmap(acc).union_prefer_right(Map::<Seq<char>, BindingView>::empty()) =~= bmap(acc));
    }
    Some((cur, acc))
}

/// Match one matcher against the token trees of `ts` at `pos`.
#[verifier::loop_isolation(false)]
fn match_one_at(m: &Matcher, ts: &Vec<TokenTree>, pos: usize) -> (r: Option<(usize, Bindings)>)
    requires
        pos <= ts.len(),
    ensures
        match match_one(matcher_view(*m), tokens_view(ts@), pos as nat) {
            None => r is None,
            Some((q, b)) => r matches Some((rq, rb)) && rq == q && rb.wf() && bmap(rb) == b && q <= ts.len(),
        },
    decreases m,
{
    let ghost tv = tokens_view(ts@);
    proof {
        lemma_tokens_view(ts@);
    }
    match m {
        Matcher::Fragment(f) => {
            match fragment_len_at(f.spec, ts, pos) {
                None => None,
                Some(k) => {
                    let toks = copy_range(ts, pos, pos + k);
                    let mut b: Bindings = NameTable::new();
                    b.insert_new(f.ident.clone(), Binding::Leaf(toks));
                    proof {
                        assert(bmap(b) =~= Map::<Seq<char>, BindingView>::empty().insert(
                            f.ident@,
                            BindingView::Leaf(tv.subrange(pos as int, (pos + k) as int)),
                        ));
                    }
                    Some((pos + k, b))
                },
            }
        },
        Matcher::Ident(s) => {
            if pos < ts.len() {
                proof {
                    assert(tv[pos as int] == token_view(ts@[pos as int]));
                }
                if let TokenTree::Ident(t) = &ts[pos] {
                    if str_eq(s.as_str(), t.as_str()) {
                        let b: Bindings = NameTable::new();
                        proof {
                            assert(bmap(b) =~= Map::<Seq<char>, BindingView>::empty());
                        }
                        return Some((pos + 1, b));
                    }
                }
            }
            None
        },
        Matcher::Literal(s) => {
            if pos < ts.len() {
                proof {
                    assert(tv[pos as int] == token_view(ts@[pos as int]));
                }
                if let TokenTree::Literal(t) = &ts[pos] {
                    if str_eq(s.as_str(), t.as_str()) {
                        let b: Bindings = NameTable::new();
                        proof {
                            assert(bmap(b) =~= Map::<Seq<char>, BindingView>::empty());
                        }
                        return Some((pos + 1, b));
                    }
                }
            }
            None
        },
        Matcher::Punct(c, _) => {
            if pos < ts.len() {
                proof {
                    assert(tv[pos as int] == token_view(ts@[pos as int]));
                }
                if let TokenTree::Punct(d, _) = &ts[pos] {
                    if *c == *d {
                        let b: Bindings = NameTable::new();
                        proof {
                            assert(bmap(b) =~= Map::<Seq<char>, BindingView>::empty());
                        }
                        return Some((pos + 1, b));
                    }
                }
            }
            None
        },
        Matcher::Group(g) => {
            if pos < ts.len() {
                proof {
                    assert(tv[pos as int] == token_view(ts@[pos as int]));
                }
                if let TokenTree::Group(d, inner) = &ts[pos] {
                    if *d == g.delimiter {
                        proof {
                            assert(tv[pos as int]->Group_1 == tokens_view(inner@));
                        }
                        match match_seq_at(&g.inner.0, inner, 0) {
                            Some((q, b)) => {
                                if q == inner.len() {
                                    proof {
                                        lemma_tokens_view(inner@);
                                    }
                                    return Some((pos + 1, b));
                                }
                                proof {
                                    lemma_tokens_view(inner@);
                                }
                            },
                            None => {},
                        }
                    }
                }
            }
            None
        },
        Matcher::Repetition(rep) => {
            let ghost iv = matchers_view(rep.inner.0@);
            let ghost sv = tokens_view(rep.sep.0@);
            let kind = rep.kind;
            let mut names: Vec<String> = Vec::new();
            push_fragment_names(&rep.inner.0, &mut names);
            proof {
                assert(names.deep_view() =~= fragment_names(iv));
            }
            let mut cur: usize = pos;
            let mut iters: Vec<Bindings> = Vec::new();
            proof {
                assert(iters_view(iters@) =~= Seq::<BindMap>::empty());
            }
            loop
                invariant
                    pos <= cur <= ts.len(),
                    iv == matchers_view(rep.inner.0@),
                    sv == tokens_view(rep.sep.0@),
                    tv == tokens_view(ts@),
                    names.deep_view() == fragment_names(iv),
                    repeat_match(iv, sv, kind, tv, pos as nat, Seq::empty()) == repeat_match(
                        iv,
                        sv,
                        kind,
                        tv,
                        cur as nat,
                        iters_view(iters@),
                    ),
                    forall|j: int| 0 <= j < iters@.len() ==> (#[trigger] iters@[j]).wf(),
                    forall|j: int, k: Seq<char>|
                        0 <= j < iters@.len() ==> (#[trigger] iters@[j].map().contains_key(k)
                            <==> names.deep_view().contains(k)),
                decreases ts.len() - cur, (if iters.len() == 0 { 1nat } else { 0nat }),
            {
                if let RepeatKind::Question = kind {
                    if iters.len() >= 1 {
                        break ;
                    }
                }
                let start = if iters.len() > 0 {
                    sep_match_at(&rep.sep.0, ts, cur)
                } else {
                    Some(cur)
                };
                let p = match start {
                    None => break ,
                    Some(p) => p,
                };
                match match_seq_at(&rep.inner.0, ts, p) {
                    None => break ,
                    Some((q, b)) => {
                        if cur < q && q <= ts.len() {
                            proof {
                                lemma_match_seq_names(iv, tv, p as nat);
                                assert forall|k: Seq<char>| #[trigger] b.map().contains_key(k) <==> names.deep_view().contains(
                                    k,
                                ) by {
                                    assert(b.map().contains_key(k) <==> bmap(b).contains_key(k));
                                }
                            }
                            let ghost before = iters@;
                            iters.push(b);
                            proof {
                                assert(iters_view(iters@) =~= iters_view(before).push(bmap(b)));
                            }
                            cur = q;
                        } else {
                            break ;
                        }
                    },
                }
            }
            if let RepeatKind::Plus = kind {
                if iters.len() == 0 {
                    return None;
                }
            }
            let b = repeat_bindings(&names, &iters);
            Some((cur, b))
        },
    }
}

/// Match a macro's whole input against a rule's matchers: the bindings, where every token is
/// matched.
pub fn consume(input: &Vec<TokenTree>, matcher: &MatcherSeq) -> (r: Option<Bindings>)
    ensures
        match match_seq(matcher@, tokens_view(input@), 0) {
            Some((q, b)) => if q == input.len() {
                r matches Some(rb) && rb.wf() && bmap(rb) == b
            } else {
                r is None
            },
            None => r is None,
        },
{
    match match_seq_at(&matcher.0, input, 0) {
        Some((q, b)) => {
            if q == input.len() {
                Some(b)
            } else {
                None
            }
        },
        None => None,
    }
}

/// What the first rule of `rules` that matches the whole of `input` transcribes it to.
pub open spec fn first_expansion(rules: Seq<MacroRuleView>, input: Seq<TokenView>) -> Result<Seq<TokenView>, MacroError>
    decreases rules.len(),
{
    if rules.len() == 0 {
        Err(MacroError::NoRuleMatched)
    } else {
        match match_seq(rules[0].matcher, input, 0) {
            Some((q, b)) => if q == input.len() {
                match transcription(rules[0].transcriber, b, Seq::empty()) {
                    Ok(o) => Ok(respaced(o)),
                    Err(e) => Err(e),
                }
            } else {
                first_expansion(rules.drop_first(), input)
            },
            None => first_expansion(rules.drop_first(), input),
        }
    }
}

/// What invoking the macro defined by the token trees `def` on `input` gives.
pub open spec fn expansion(def: Seq<TokenView>, input: Seq<TokenView>) -> Result<Seq<TokenView>, MacroError> {
    match parse_macro_def(def) {
        Err(e) => Err(e),
        Ok(d) => first_expansion(d.rules, input),
    }
}

/// Invoke a macro once: its definition is read, and the first rule that matches the whole
/// input is transcribed.
#[verifier::loop_isolation(false)]
pub fn apply_once(macro_: &DeclarativeMacroItem, tokens: &Vec<TokenTree>) -> (r: Result<Vec<TokenTree>, MacroError>)
    ensures
        match expansion(tokens_view(macro_.tokens@), tokens_view(tokens@)) {
            Ok(o) => r matches Ok(out) && tokens_view(out@) == o,
            Err(e) => r == Err::<Vec<TokenTree>, MacroError>(e),
        },
{
    let def = match MacroDef::parse(&macro_.tokens) {
        Ok(d) => d,
        Err(e) => return Err(e),
    };
    let ghost rules = def@.rules;
    let ghost input = tokens_view(tokens@);
    let mut i: usize = 0;
    proof {
        assert(rules.skip(0) =~= rules);
        assert(expansion(tokens_view(macro_.tokens@), input) == first_expansion(rules, input));
    }
    while i < def.rules.len()
        invariant
            i <= def.rules.len(),
            rules == def.rules@.map_values(|m: MacroRule| m@),
            input == tokens_view(tokens@),
            first_expansion(rules, input) == first_expansion(rules.skip(i as int), input),
        decreases def.rules.len() - i,
    {
        proof {
            assert(rules.skip(i as int)[0] == def.rules@[i as int]@);
            assert(rules.skip(i as int).drop_first() =~= rules.skip(i + 1));
        }
        let ghost rule = rules.skip(i as int)[0];
        proof {
            assert(rule.matcher == def.rules@[i as int].matcher@);
            assert(rule.transcriber == def.rules@[i as int].transcriber@);
        }
        match consume(tokens, &def.rules[i].matcher) {
            Some(bindings) => {
                proof {
                    lemma_tokens_view(tokens@);
                    let (q, b) = match_seq(rule.matcher, input, 0)->Some_0;
                    assert(q == input.len());
                    assert(first_expansion(rules.skip(i as int), input) == match transcription(
                        rule.transcriber,
                        b,
                        Seq::empty(),
                    ) {
                        Ok(o) => Ok(respaced(o)),
                        Err(e) => Err(e),
                    });
                }
                return transcribe(&bindings, &def.rules[i].transcriber);
            },
            None => {
                proof {
                    lemma_tokens_view(tokens@);
                }
            },
        }
        i = i + 1;
    }
    Err(MacroError::NoRuleMatched)
}

} // verus!
