//! Token trees: the model of Rust's token streams that macro expansion works on.

use crate::text::push_char;
use vstd::prelude::*;
use vstd::string::*;

verus! {

/// How a group is delimited.
#[derive(Debug, Clone, Copy, PartialEq, Eq, Structural)]
pub enum Delimiter {
    /// `( .. )`
    Parenthesis,
    /// `{ .. }`
    Brace,
    /// `[ .. ]`
    Bracket,
    /// No visible delimiter, as around a fragment passed on by a macro.
    Invisible,
}

/// Whether a punctuation character is followed immediately by another one, as `=` in `=>`.
#[derive(Debug, Clone, Copy, PartialEq, Eq, Structural)]
pub enum Spacing {
    Alone,
    Joint,
}

/// A token tree: a delimited group of token trees, or a single token.
#[derive(Debug)]
pub enum TokenTree {
    Group(Delimiter, Vec<TokenTree>),
    Ident(String),
    Punct(char, Spacing),
    Literal(String),
}

/// A token tree, by its characters.
pub enum TokenView {
    Group(Delimiter, Seq<TokenView>),
    Ident(Seq<char>),
    Punct(char, Spacing),
    Literal(Seq<char>),
}

/// The view of a token tree.
pub open spec fn token_view(t: TokenTree) -> TokenView
    decreases t,
{
    match t {
        TokenTree::Group(d, inner) => TokenView::Group(d, tokens_view(inner@)),
        TokenTree::Ident(s) => TokenView::Ident(s@),
        TokenTree::Punct(c, s) => TokenView::Punct(c, s),
        TokenTree::Literal(s) => TokenView::Literal(s@),
    }
}

/// The views of a sequence of token trees.
pub open spec fn tokens_view(ts: Seq<TokenTree>) -> Seq<TokenView>
    decreases ts,
{
    if ts.len() == 0 {
        Seq::empty()
    } else {
        seq![token_view(ts[0])] + tokens_view(ts.drop_first())
    }
}

impl View for TokenTree {
    type V = TokenView;

    open spec fn view(&self) -> TokenView {
        token_view(*self)
    }
}

/// The views of token trees, element by element.
pub proof fn lemma_tokens_view(ts: Seq<TokenTree>)
    ensures
        tokens_view(ts).len() == ts.len(),
        forall|i: int| 0 <= i < ts.len() ==> #[trigger] tokens_view(ts)[i] == token_view(ts[i]),
    decreases ts.len(),
{
    if ts.len() > 0 {
        lemma_tokens_view(ts.drop_first());
        assert forall|i: int| 0 <= i < ts.len() implies #[trigger] tokens_view(ts)[i] == token_view(ts[i]) by {
            if i > 0 {
                assert(ts.drop_first()[i - 1] == ts[i]);
            }
        }
    }
}

/// Sequences of token trees with the same views element by element have the same view.
pub proof fn lemma_tokens_view_eq(a: Seq<TokenTree>, b: Seq<TokenView>)
    requires
        a.len() == b.len(),
        forall|i: int| 0 <= i < a.len() ==> token_view(#[trigger] a[i]) == b[i],
    ensures
        tokens_view(a) == b,
{
    lemma_tokens_view(a);
    assert(tokens_view(a) =~= b);
}

impl TokenTree {
    /// A copy, with the same view.
    pub fn dup(&self) -> (r: TokenTree)
        ensures
            r@ == self@,
        decreases self,
    {
        match self {
            TokenTree::Group(d, inner) => {
                let copied = dup_tokens(inner);
                TokenTree::Group(*d, copied)
            },
            TokenTree::Ident(s) => TokenTree::Ident(s.clone()),
            TokenTree::Punct(c, s) => TokenTree::Punct(*c, *s),
            TokenTree::Literal(s) => TokenTree::Literal(s.clone()),
        }
    }
}

/// A copy of a sequence of token trees, with the same view.
pub fn dup_tokens(ts: &Vec<TokenTree>) -> (r: Vec<TokenTree>)
    ensures
        tokens_view(r@) == tokens_view(ts@),
    decreases ts,
{
    let mut out: Vec<TokenTree> = Vec::new();
    let mut i: usize = 0;
    while i < ts.len()
        invariant
            i <= ts.len(),
            out@.len() == i,
            forall|j: int| 0 <= j < i ==> token_view(#[trigger] out@[j]) == token_view(ts@[j]),
        decreases ts.len() - i,
    {
        proof {
            assert(decreases_to!(ts => ts@[i as int]));
        }
        let t = ts[i].dup();
        out.push(t);
        i = i + 1;
    }
    proof {
        lemma_tokens_view(ts@);
        lemma_tokens_view_eq(out@, tokens_view(ts@));
    }
    out
}

/// A copy of the token trees of `ts` from `from` up to `to`.
pub fn copy_range(ts: &Vec<TokenTree>, from: usize, to: usize) -> (r: Vec<TokenTree>)
    requires
        from <= to <= ts.len(),
    ensures
        tokens_view(r@) == tokens_view(ts@).subrange(from as int, to as int),
{
    let mut out: Vec<TokenTree> = Vec::new();
    let mut i: usize = from;
    while i < to
        invariant
            from <= i <= to <= ts.len(),
            out@.len() == i - from,
            forall|j: int| 0 <= j < out@.len() ==> token_view(#[trigger] out@[j]) == token_view(ts@[from + j]),
        decreases to - i,
    {
        out.push(ts[i].dup());
        i = i + 1;
    }
    proof {
        lemma_tokens_view(ts@);
        lemma_tokens_view_eq(out@, tokens_view(ts@).subrange(from as int, to as int));
    }
    out
}

/// The view of a concatenation is the concatenation of the views.
pub proof fn lemma_tokens_view_add(a: Seq<TokenTree>, b: Seq<TokenTree>)
    ensures
        tokens_view(a + b) == tokens_view(a) + tokens_view(b),
{
    lemma_tokens_view(a);
    lemma_tokens_view(b);
    lemma_tokens_view(a + b);
    assert(tokens_view(a + b) =~= tokens_view(a) + tokens_view(b)) by {
        assert forall|i: int| 0 <= i < (a + b).len() implies #[trigger] tokens_view(a + b)[i] == (tokens_view(a)
            + tokens_view(b))[i] by {
            if i < a.len() {
                assert((a + b)[i] == a[i]);
            } else {
                assert((a + b)[i] == b[i - a.len()]);
            }
        }
    }
}

/// Append copies of the token trees of `ts` to `out`.
pub fn push_tokens(out: &mut Vec<TokenTree>, ts: &Vec<TokenTree>)
    ensures
        tokens_view(final(out)@) == tokens_view(old(out)@) + tokens_view(ts@),
{
    let mut copied = dup_tokens(ts);
    let ghost o0 = out@;
    let ghost c0 = copied@;
    out.append(&mut copied);
    proof {
        assert(out@ == o0 + c0);
        lemma_tokens_view_add(o0, c0);
    }
}

/// Append one token tree to `out`.
pub fn push_token(out: &mut Vec<TokenTree>, t: TokenTree)
    ensures
        tokens_view(final(out)@) == tokens_view(old(out)@).push(t@),
{
    let ghost o0 = out@;
    out.push(t);
    proof {
        lemma_tokens_view_add(o0, seq![t]);
        assert(o0 + seq![t] =~= out@);
        assert(tokens_view(seq![t]) =~= seq![t@]) by {
            lemma_tokens_view(seq![t]);
        }
    }
}

/// The opening and closing text of a delimiter.
pub open spec fn delimiter_text(d: Delimiter) -> (Seq<char>, Seq<char>) {
    match d {
        Delimiter::Parenthesis => (seq!['('], seq![')']),
        Delimiter::Brace => (seq!['{'], seq!['}']),
        Delimiter::Bracket => (seq!['['], seq![']']),
        Delimiter::Invisible => (Seq::empty(), Seq::empty()),
    }
}

/// The source text of a token tree.
pub open spec fn token_text(t: TokenView) -> Seq<char>
    decreases t,
{
    match t {
        TokenView::Group(d, inner) => delimiter_text(d).0 + seq![' '] + tokens_text(inner) + delimiter_text(d).1,
        TokenView::Ident(s) => s,
        TokenView::Punct(c, _) => seq![c],
        TokenView::Literal(s) => s,
    }
}

/// The source text of token trees: each followed by a space, but for a joint punctuation
/// character, which the next follows directly.
pub open spec fn tokens_text(ts: Seq<TokenView>) -> Seq<char>
    decreases ts,
{
    if ts.len() == 0 {
        Seq::empty()
    } else {
        let gap = if ts[0] matches TokenView::Punct(_, Spacing::Joint) {
            Seq::empty()
        } else {
            seq![' ']
        };
        token_text(ts[0]) + gap + tokens_text(ts.drop_first())
    }
}

/// The source text of the token trees of `ts` from `from` up to `to`, appended to `out`.
pub fn render_tokens(ts: &Vec<TokenTree>, from: usize, to: usize, out: &mut String)
    requires
        from <= to <= ts.len(),
    ensures
        final(out)@ == old(out)@ + tokens_text(tokens_view(ts@).subrange(from as int, to as int)),
    decreases ts, to - from,
{
    let ghost tv = tokens_view(ts@);
    proof {
        lemma_tokens_view(ts@);
    }
    if from == to {
        proof {
            assert(tv.subrange(from as int, to as int).len() == 0);
            assert(out@ + Seq::<char>::empty() =~= out@);
        }
        return;
    }
    let ghost o0 = out@;
    proof {
        assert(decreases_to!(ts => ts@[from as int]));
    }
    let joint = match &ts[from] {
        TokenTree::Group(d, inner) => {
            let (open, close) = match d {
                Delimiter::Parenthesis => ("(", ")"),
                Delimiter::Brace => ("{", "}"),
                Delimiter::Bracket => ("[", "]"),
                Delimiter::Invisible => ("", ""),
            };
            proof {
                reveal_strlit("(");
                reveal_strlit(")");
                reveal_strlit("{");
                reveal_strlit("}");
                reveal_strlit("[");
                reveal_strlit("]");
                reveal_strlit("");
                reveal_strlit(" ");
                assert((open@, close@) == delimiter_text(*d));
            }
            out.append(open);
            out.append(" ");
            render_tokens(inner, 0, inner.len(), out);
            out.append(close);
            proof {
                lemma_tokens_view(inner@);
                assert(tokens_view(inner@).subrange(0, inner@.len() as int) =~= tokens_view(inner@));
            }
            false
        },
        TokenTree::Ident(s) => {
            out.append(s.as_str());
            false
        },
        TokenTree::Literal(s) => {
            out.append(s.as_str());
            false
        },
        TokenTree::Punct(c, spacing) => {
            push_char(out, *c);
            match spacing {
                Spacing::Joint => true,
                Spacing::Alone => false,
            }
        },
    };
    let ghost o1 = out@;
    if !joint {
        out.append(" ");
        proof {
            reveal_strlit(" ");
        }
    }
    let ghost o2 = out@;
    render_tokens(ts, from + 1, to, out);
    proof {
        let sub = tv.subrange(from as int, to as int);
        assert(sub[0] == tv[from as int]);
        assert(sub.drop_first() =~= tv.subrange(from + 1, to as int));
        assert(o1 == o0 + token_text(tv[from as int]));
        let gap: Seq<char> = if sub[0] matches TokenView::Punct(_, Spacing::Joint) {
            Seq::empty()
        } else {
            seq![' ']
        };
        assert(o2 =~= o1 + gap);
        assert(out@ =~= o0 + (token_text(sub[0]) + gap + tokens_text(sub.drop_first())));
    }
}

/// A token tree as reading its written-out text again spaces it, given whether a punctuation
/// character follows it: a punctuation character is joint only where another follows it (a `'`
/// keeps its spacing, since it starts a lifetime); groups are respaced throughout.
pub open spec fn respaced_token(t: TokenView, punct_follows: bool) -> TokenView
    decreases t,
{
    match t {
        TokenView::Punct(c, Spacing::Joint) => if c != '\'' && !punct_follows {
            TokenView::Punct(c, Spacing::Alone)
        } else {
            t
        },
        TokenView::Group(d, inner) => TokenView::Group(d, respaced(inner)),
        _ => t,
    }
}

/// Token trees as reading their written-out text again spaces them.
pub open spec fn respaced(ts: Seq<TokenView>) -> Seq<TokenView>
    decreases ts,
{
    if ts.len() == 0 {
        Seq::empty()
    } else {
        seq![respaced_token(ts[0], ts.len() > 1 && ts[1] is Punct)] + respaced(ts.drop_first())
    }
}

/// Respacing keeps the length and the kind of each token tree.
pub proof fn lemma_respaced_kinds(ts: Seq<TokenView>)
    ensures
        respaced(ts).len() == ts.len(),
        forall|i: int| 0 <= i < ts.len() ==> (#[trigger] respaced(ts)[i] is Punct) == (ts[i] is Punct),
    decreases ts.len(),
{
    if ts.len() > 0 {
        lemma_respaced_kinds(ts.drop_first());
        assert forall|i: int| 0 <= i < ts.len() implies (#[trigger] respaced(ts)[i] is Punct) == (ts[i] is Punct) by {
            if i > 0 {
                assert(respaced(ts)[i] == respaced(ts.drop_first())[i - 1]);
                assert(ts.drop_first()[i - 1] == ts[i]);
            } else {
                assert(respaced(ts)[0] == respaced_token(ts[0], ts.len() > 1 && ts[1] is Punct));
            }
        }
    }
}

/// Respace token trees as reading their written-out text again does.
#[verifier::loop_isolation(false)]
pub fn respace(ts: Vec<TokenTree>) -> (r: Vec<TokenTree>)
    ensures
        tokens_view(r@) == respaced(tokens_view(ts@)),
    decreases ts,
{
    let ghost all = ts@;
    let ghost orig = ts;
    let ghost tv = tokens_view(all);
    proof {
        lemma_tokens_view(all);
        assert(tv.skip(0) =~= tv);
        assert(Seq::<TokenView>::empty() + respaced(tv) =~= respaced(tv));
        assert(all.len() == ts.len());
    }
    let mut rest = ts;
    let mut out: Vec<TokenTree> = Vec::new();
    let mut k: usize = 0;
    while rest.len() > 0
        invariant
            k + rest@.len() == all.len(),
            all.len() <= usize::MAX,
            all == orig@,
            rest@ == all.skip(k as int),
            tv == tokens_view(all),
            tv.len() == all.len(),
            forall|j: int| 0 <= j < all.len() ==> #[trigger] tv[j] == token_view(all[j]),
            respaced(tv) == tokens_view(out@) + respaced(tv.skip(k as int)),
        decreases rest@.len(),
    {
        let t = rest.remove(0);
        proof {
            assert(t == all[k as int]);
            assert(rest@ =~= all.skip(k + 1));
            assert(tv.skip(k as int)[0] == tv[k as int]);
            assert(tv.skip(k as int).drop_first() =~= tv.skip(k + 1));
            assert(decreases_to!(all => all[k as int]));
        }
        let punct_follows = rest.len() > 0 && match &rest[0] {
            TokenTree::Punct(..) => true,
            _ => false,
        };
        proof {
            if rest.len() > 0 {
                assert(rest@[0] == all[k + 1]);
                assert(tv.skip(k as int)[1] == tv[k + 1]);
            }
        }
        let spaced = match t {
            TokenTree::Punct(c, Spacing::Joint) => {
                if c != '\'' && !punct_follows {
                    TokenTree::Punct(c, Spacing::Alone)
                } else {
                    TokenTree::Punct(c, Spacing::Joint)
                }
            },
            TokenTree::Group(d, inner) => {
                proof {
                    assert(decreases_to!(orig => orig@));
                    assert(decreases_to!(orig@ => orig@[k as int]));
                    assert(decreases_to!(orig => inner));
                }
                TokenTree::Group(d, respace(inner))
            },
            other => other,
        };
        proof {
            assert(spaced@ == respaced_token(tv[k as int], tv.skip(k as int).len() > 1 && tv.skip(k as int)[1] is Punct));
        }
        let ghost before = out@;
        out.push(spaced);
        proof {
            lemma_tokens_view_add(before, seq![spaced]);
            assert(before + seq![spaced] =~= out@);
            lemma_tokens_view(seq![spaced]);
            assert(tokens_view(seq![spaced]) =~= seq![spaced@]);
            assert(tokens_view(out@) + respaced(tv.skip(k + 1)) =~= tokens_view(before) + respaced(tv.skip(k as int)));
        }
        k = k + 1;
    }
    proof {
        assert(tv.skip(k as int).len() == 0);
        assert(tokens_view(out@) + Seq::<TokenView>::empty() =~= tokens_view(out@));
    }
    out
}

} // verus!
