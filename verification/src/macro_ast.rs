//! The syntax of `macro_rules!` definitions, read from token trees.
//!
//!>    MacroRulesDefinition :
//!>       macro_rules ! IDENTIFIER MacroRulesDef
//!>    MacroRulesDef :
//!>          ( MacroRules ) ;
//!>       | [ MacroRules ] ;
//!>       | { MacroRules }
//!>    MacroRules :
//!>       MacroRule ( ; MacroRule )* ;?
//!>    MacroRule :
//!>       MacroMatcher => MacroTranscriber
//!>    MacroMatcher :
//!>          ( MacroMatch* )
//!>       | [ MacroMatch* ]
//!>       | { MacroMatch* }
//!>    MacroMatch :
//!>          Token[except $ and delimiters]
//!>       | MacroMatcher
//!>       | $ IDENTIFIER : MacroFragSpec
//!>       | $ ( MacroMatch+ ) MacroRepSep? MacroRepOp
//!>    MacroFragSpec :
//!>          block | expr | ident | item | lifetime | literal
//!>       | meta | pat | path | stmt | tt | ty | vis
//!>    MacroRepSep :
//!>       Token[except delimiters and repetition operators]
//!>    MacroRepOp :
//!>       * | + | ?
//!>    MacroTranscriber :
//!>       DelimTokenTree

use crate::tokens::{copy_range, lemma_tokens_view, token_view, tokens_view, Delimiter, Spacing, TokenTree, TokenView};
use vstd::prelude::*;
use crate::text::str_eq;
use vstd::string::*;

verus! {

/// A fragment specifier: `expr`, `stmt`, `block`, `tt`, etc.
#[derive(Debug, Clone, Copy, PartialEq, Eq, Structural)]
pub enum FragSpec {
    Block,
    Expr,
    Ident,
    Item,
    Lifetime,
    Literal,
    Meta,
    Pattern,
    Path,
    Statement,
    TokenTree,
    Type,
    Visibility,
}

/// The fragment specifier that `name` names.
pub open spec fn frag_spec_named(name: Seq<char>) -> Option<FragSpec> {
    if name == "block"@ {
        Some(FragSpec::Block)
    } else if name == "expr"@ {
        Some(FragSpec::Expr)
    } else if name == "ident"@ {
        Some(FragSpec::Ident)
    } else if name == "item"@ {
        Some(FragSpec::Item)
    } else if name == "lifetime"@ {
        Some(FragSpec::Lifetime)
    } else if name == "literal"@ {
        Some(FragSpec::Literal)
    } else if name == "meta"@ {
        Some(FragSpec::Meta)
    } else if name == "pat"@ {
        Some(FragSpec::Pattern)
    } else if name == "path"@ {
        Some(FragSpec::Path)
    } else if name == "stmt"@ {
        Some(FragSpec::Statement)
    } else if name == "tt"@ {
        Some(FragSpec::TokenTree)
    } else if name == "ty"@ {
        Some(FragSpec::Type)
    } else if name == "vis"@ {
        Some(FragSpec::Visibility)
    } else {
        None
    }
}

impl FragSpec {
    /// The fragment specifier that an identifier names; `None` for an unknown one.
    pub fn parse(name: &str) -> (r: Option<FragSpec>)
        ensures
            r == frag_spec_named(name@),
    {
        if str_eq(name, "block") {
            Some(FragSpec::Block)
        } else if str_eq(name, "expr") {
            Some(FragSpec::Expr)
        } else if str_eq(name, "ident") {
            Some(FragSpec::Ident)
        } else if str_eq(name, "item") {
            Some(FragSpec::Item)
        } else if str_eq(name, "lifetime") {
            Some(FragSpec::Lifetime)
        } else if str_eq(name, "literal") {
            Some(FragSpec::Literal)
        } else if str_eq(name, "meta") {
            Some(FragSpec::Meta)
        } else if str_eq(name, "pat") {
            Some(FragSpec::Pattern)
        } else if str_eq(name, "path") {
            Some(FragSpec::Path)
        } else if str_eq(name, "stmt") {
            Some(FragSpec::Statement)
        } else if str_eq(name, "tt") {
            Some(FragSpec::TokenTree)
        } else if str_eq(name, "ty") {
            Some(FragSpec::Type)
        } else if str_eq(name, "vis") {
            Some(FragSpec::Visibility)
        } else {
            None
        }
    }
}

/// Kind of macro repetition: `+`, `*`, or `?`.
#[derive(Debug, Clone, Copy, PartialEq, Eq, Structural)]
pub enum RepeatKind {
    Plus,
    Star,
    Question,
}

/// A macro repetition separator: the tokens between a repetition's parentheses and its
/// operator (strictly one token, but more are accepted).
#[derive(Debug)]
pub struct Sep(pub Vec<TokenTree>);

/// A binding fragment: `$x:ident`, `$type:ty`, `$next:tt`, etc.
#[derive(Debug)]
pub struct Fragment {
    pub ident: String,
    pub spec: FragSpec,
}

/// A macro repetition `$(...),+`.
#[derive(Debug)]
pub struct Repetition {
    pub inner: MatcherSeq,
    pub sep: Sep,
    pub kind: RepeatKind,
}

/// A group delimited by some delimiter: `(...)`, `{...}`, `[...]`. Not a repetition.
#[derive(Debug)]
pub struct Group {
    pub delimiter: Delimiter,
    pub inner: MatcherSeq,
}

/// All of the possible elements that can be matched in a macro.
#[derive(Debug)]
pub enum Matcher {
    Repetition(Repetition),
    Fragment(Fragment),
    Group(Group),
    Ident(String),
    Literal(String),
    Punct(char, Spacing),
}

/// A sequence of matchers.
#[derive(Debug)]
pub struct MatcherSeq(pub Vec<Matcher>);

/// A matcher, by its characters.
pub enum MatcherView {
    Repetition(Seq<MatcherView>, Seq<TokenView>, RepeatKind),
    Fragment(Seq<char>, FragSpec),
    Group(Delimiter, Seq<MatcherView>),
    Ident(Seq<char>),
    Literal(Seq<char>),
    Punct(char, Spacing),
}

/// The view of a matcher.
pub open spec fn matcher_view(m: Matcher) -> MatcherView
    decreases m,
{
    match m {
        Matcher::Repetition(r) => MatcherView::Repetition(
            matchers_view(r.inner.0@),
            tokens_view(r.sep.0@),
            r.kind,
        ),
        Matcher::Fragment(f) => MatcherView::Fragment(f.ident@, f.spec),
        Matcher::Group(g) => MatcherView::Group(g.delimiter, matchers_view(g.inner.0@)),
        Matcher::Ident(s) => MatcherView::Ident(s@),
        Matcher::Literal(s) => MatcherView::Literal(s@),
        Matcher::Punct(c, s) => MatcherView::Punct(c, s),
    }
}

/// The views of a sequence of matchers.
pub open spec fn matchers_view(ms: Seq<Matcher>) -> Seq<MatcherView>
    decreases ms,
{
    if ms.len() == 0 {
        Seq::empty()
    } else {
        seq![matcher_view(ms[0])] + matchers_view(ms.drop_first())
    }
}

impl View for MatcherSeq {
    type V = Seq<MatcherView>;

    open spec fn view(&self) -> Seq<MatcherView> {
        matchers_view(self.0@)
    }
}

/// The views of matchers, element by element.
pub proof fn lemma_matchers_view(ms: Seq<Matcher>)
    ensures
        matchers_view(ms).len() == ms.len(),
        forall|i: int| 0 <= i < ms.len() ==> #[trigger] matchers_view(ms)[i] == matcher_view(ms[i]),
    decreases ms.len(),
{
    if ms.len() > 0 {
        lemma_matchers_view(ms.drop_first());
        assert forall|i: int| 0 <= i < ms.len() implies #[trigger] matchers_view(ms)[i] == matcher_view(ms[i]) by {
            if i > 0 {
                assert(ms.drop_first()[i - 1] == ms[i]);
            }
        }
    }
}

/// Whether `t` is the punctuation character `c`, however it is spaced.
pub open spec fn is_punct(t: TokenView, c: char) -> bool {
    t matches TokenView::Punct(p, _) && p == c
}

/// Whether `t` is a repetition operator: `*`, `+` or `?`.
pub open spec fn is_rep_op(t: TokenView) -> bool {
    is_punct(t, '*') || is_punct(t, '+') || is_punct(t, '?')
}

/// The kind of repetition that an operator stands for.
pub open spec fn rep_kind_of(t: TokenView) -> RepeatKind {
    if is_punct(t, '?') {
        RepeatKind::Question
    } else if is_punct(t, '*') {
        RepeatKind::Star
    } else {
        RepeatKind::Plus
    }
}

/// The length of a repetition's separator: the tokens before the first repetition operator;
/// `None` where a group, or the end, comes first.
pub open spec fn sep_len(ts: Seq<TokenView>) -> Option<nat>
    decreases ts.len(),
{
    if ts.len() == 0 {
        None
    } else if is_rep_op(ts[0]) {
        Some(0)
    } else if ts[0] is Group {
        None
    } else {
        match sep_len(ts.drop_first()) {
            Some(n) => Some(n + 1),
            None => None,
        }
    }
}

/// The matchers that the token trees `ts` spell, all of them used; `None` where they spell none.
pub open spec fn parse_matchers(ts: Seq<TokenView>) -> Option<Seq<MatcherView>>
    decreases ts, 1nat,
{
    if ts.len() == 0 {
        Some(Seq::empty())
    } else {
        match parse_matcher(ts) {
            None => None,
            Some((m, n)) => if 1 <= n <= ts.len() {
                match parse_matchers(ts.subrange(n as int, ts.len() as int)) {
                    None => None,
                    Some(rest) => Some(seq![m] + rest),
                }
            } else {
                None
            },
        }
    }
}

/// The first matcher that the non-empty `ts` spells, and how many token trees it takes.
pub open spec fn parse_matcher(ts: Seq<TokenView>) -> Option<(MatcherView, nat)>
    decreases ts, 0nat,
{
    if ts.len() == 0 {
        None
    } else if is_punct(ts[0], '$') {
        if ts.len() > 1 && ts[1] matches TokenView::Group(Delimiter::Parenthesis, _) {
            match parse_matchers(ts[1]->Group_1) {
                None => None,
                Some(ms) => {
                    let rest = ts.subrange(2, ts.len() as int);
                    match sep_len(rest) {
                        None => None,
                        Some(k) => Some(
                            (MatcherView::Repetition(ms, rest.take(k as int), rep_kind_of(rest[k as int])), k + 3),
                        ),
                    }
                },
            }
        } else if ts.len() > 3 && ts[1] is Ident && is_punct(ts[2], ':') && ts[3] is Ident && frag_spec_named(
            ts[3]->Ident_0,
        ) is Some {
            Some((MatcherView::Fragment(ts[1]->Ident_0, frag_spec_named(ts[3]->Ident_0).unwrap()), 4))
        } else {
            None
        }
    } else {
        match ts[0] {
            TokenView::Ident(s) => Some((MatcherView::Ident(s), 1)),
            TokenView::Literal(s) => Some((MatcherView::Literal(s), 1)),
            TokenView::Punct(c, sp) => Some((MatcherView::Punct(c, sp), 1)),
            TokenView::Group(d, inner) => match parse_matchers(inner) {
                None => None,
                Some(ms) => Some((MatcherView::Group(d, ms), 1)),
            },
        }
    }
}

/// The first repetition operator of `s` comes after `k` tokens that are neither operators nor
/// groups.
proof fn lemma_sep_len_skip(s: Seq<TokenView>, k: int)
    requires
        0 <= k <= s.len(),
        forall|j: int| 0 <= j < k ==> !is_rep_op(#[trigger] s[j]) && !(s[j] is Group),
    ensures
        sep_len(s) == match sep_len(s.subrange(k, s.len() as int)) {
            Some(n) => Some((n + k) as nat),
            None => None::<nat>,
        },
    decreases k,
{
    if k == 0 {
        assert(s.subrange(0, s.len() as int) =~= s);
        match sep_len(s) {
            Some(n) => {},
            None => {},
        }
    } else {
        let t = s.drop_first();
        assert forall|j: int| 0 <= j < k - 1 implies !is_rep_op(#[trigger] t[j]) && !(t[j] is Group) by {
            assert(t[j] == s[j + 1]);
        }
        lemma_sep_len_skip(t, k - 1);
        assert(t.subrange(k - 1, t.len() as int) =~= s.subrange(k, s.len() as int));
        assert(!is_rep_op(s[0]) && !(s[0] is Group));
    }
}

/// Where the separator that starts at `from` ends: the position of the repetition operator after
/// it.
fn sep_end(ts: &Vec<TokenTree>, from: usize) -> (r: Option<usize>)
    requires
        from <= ts.len(),
    ensures
        ({
            let s = tokens_view(ts@).subrange(from as int, ts.len() as int);
            match sep_len(s) {
                None => r is None,
                Some(k) => r is Some && r->0 == from + k,
            }
        }),
        r matches Some(e) ==> from <= e < ts.len(),
{
    let ghost tv = tokens_view(ts@);
    let ghost s = tv.subrange(from as int, ts.len() as int);
    proof {
        lemma_tokens_view(ts@);
    }
    let mut i: usize = from;
    while i < ts.len()
        invariant
            from <= i <= ts.len(),
            tv == tokens_view(ts@),
            tv.len() == ts.len(),
            s == tv.subrange(from as int, ts.len() as int),
            forall|j: int| 0 <= j < ts.len() ==> #[trigger] tv[j] == token_view(ts@[j]),
            forall|j: int| 0 <= j < i - from ==> !is_rep_op(#[trigger] s[j]) && !(s[j] is Group),
        decreases ts.len() - i,
    {
        proof {
            assert(s[i - from] == tv[i as int]);
            assert(tv[i as int] == token_view(ts@[i as int]));
        }
        match &ts[i] {
            TokenTree::Punct(c, _) => {
                if *c == '*' || *c == '+' || *c == '?' {
                    proof {
                        lemma_sep_len_skip(s, i - from);
                        let rest = s.subrange(i - from, s.len() as int);
                        assert(rest[0] == s[i - from]);
                        assert(sep_len(rest) == Some(0nat));
                    }
                    return Some(i);
                }
            },
            TokenTree::Group(..) => {
                proof {
                    lemma_sep_len_skip(s, i - from);
                    let rest = s.subrange(i - from, s.len() as int);
                    assert(rest[0] == s[i - from]);
                }
                return None;
            },
            _ => {},
        }
        i = i + 1;
    }
    proof {
        lemma_sep_len_skip(s, i - from);
        assert(s.subrange(i - from, s.len() as int).len() == 0);
    }
    None
}

/// `Some(a + b)` where `b` is `Some(b)`.
pub open spec fn prepended<A>(a: Seq<A>, b: Option<Seq<A>>) -> Option<Seq<A>> {
    match b {
        None => None,
        Some(b) => Some(a + b),
    }
}

/// The view of a parsed matcher sequence.
pub open spec fn opt_matchers_view(r: Option<MatcherSeq>) -> Option<Seq<MatcherView>> {
    match r {
        None => None,
        Some(m) => Some(m@),
    }
}

/// Parse the matchers that `ts` spells, all of `ts` used.
pub fn parse_matcher_seq(ts: &Vec<TokenTree>) -> (r: Option<MatcherSeq>)
    ensures
        opt_matchers_view(r) == parse_matchers(tokens_view(ts@)),
    decreases ts, 1nat,
{
    let ghost tv = tokens_view(ts@);
    proof {
        lemma_tokens_view(ts@);
        assert(tv.subrange(0, tv.len() as int) =~= tv);
        assert(matchers_view(Seq::<Matcher>::empty()) =~= Seq::<MatcherView>::empty());
        match parse_matchers(tv) {
            Some(x) => {
                assert(Seq::<MatcherView>::empty() + x =~= x);
            },
            None => {},
        }
    }
    let mut out: Vec<Matcher> = Vec::new();
    let mut pos: usize = 0;
    while pos < ts.len()
        invariant
            pos <= ts.len(),
            tv == tokens_view(ts@),
            tv.len() == ts.len(),
            parse_matchers(tv) == prepended(matchers_view(out@), parse_matchers(tv.subrange(pos as int, tv.len() as int))),
        decreases ts.len() - pos,
    {
        let ghost s = tv.subrange(pos as int, tv.len() as int);
        match parse_matcher_at(ts, pos) {
            None => {
                return None;
            },
            Some((m, n)) => {
                proof {
                    assert(s.subrange(n as int, s.len() as int) =~= tv.subrange(pos + n, tv.len() as int));
                    lemma_matchers_view(out@);
                    lemma_matchers_view(out@.push(m));
                    assert(matchers_view(out@.push(m)) =~= matchers_view(out@) + seq![matcher_view(m)]);
                    match parse_matchers(tv.subrange(pos + n, tv.len() as int)) {
                        Some(x) => {
                            assert(matchers_view(out@) + (seq![matcher_view(m)] + x) =~= matchers_view(out@.push(m)) + x);
                        },
                        None => {},
                    }
                }
                out.push(m);
                pos = pos + n;
            },
        }
    }
    proof {
        assert(tv.subrange(pos as int, tv.len() as int).len() == 0);
        assert(matchers_view(out@) + Seq::<MatcherView>::empty() =~= matchers_view(out@));
    }
    Some(MatcherSeq(out))
}

/// Parse the first matcher that the token trees of `ts` from `pos` spell, and how many it takes.
fn parse_matcher_at(ts: &Vec<TokenTree>, pos: usize) -> (r: Option<(Matcher, usize)>)
    requires
        pos < ts.len(),
    ensures
        ({
            let s = tokens_view(ts@).subrange(pos as int, ts.len() as int);
            match parse_matcher(s) {
                None => r is None,
                Some((m, n)) => r matches Some((rm, rn)) && matcher_view(rm) == m && rn == n && 1 <= n
                    && pos + n <= ts.len(),
            }
        }),
    decreases ts, 0nat,
{
    let ghost tv = tokens_view(ts@);
    let ghost s = tv.subrange(pos as int, ts.len() as int);
    proof {
        lemma_tokens_view(ts@);
        assert(s[0] == token_view(ts@[pos as int]));
        assert(decreases_to!(ts => ts@[pos as int]));
    }
    let is_dollar = match &ts[pos] {
        TokenTree::Punct(c, _) => *c == '$',
        _ => false,
    };
    if is_dollar {
        if pos + 1 < ts.len() {
            proof {
                assert(s[1] == token_view(ts@[pos + 1]));
                assert(decreases_to!(ts => ts@[pos + 1]));
            }
            if let TokenTree::Group(Delimiter::Parenthesis, inner) = &ts[pos + 1] {
                let inner_ms = match parse_matcher_seq(inner) {
                    Some(m) => m,
                    None => return None,
                };
                let end = match sep_end(ts, pos + 2) {
                    Some(e) => e,
                    None => {
                        proof {
                            assert(s.subrange(2, s.len() as int) =~= tv.subrange(pos + 2, ts.len() as int));
                        }
                        return None;
                    },
                };
                let sep = copy_range(ts, pos + 2, end);
                let kind = match &ts[end] {
                    TokenTree::Punct('?', _) => RepeatKind::Question,
                    TokenTree::Punct('*', _) => RepeatKind::Star,
                    _ => RepeatKind::Plus,
                };
                proof {
                    let rest = s.subrange(2, s.len() as int);
                    assert(rest =~= tv.subrange(pos + 2, ts.len() as int));
                    let k = (end - pos - 2) as int;
                    assert(rest[k] == tv[end as int]);
                    assert(tv[end as int] == token_view(ts@[end as int]));
                    assert(rest.take(k) =~= tv.subrange(pos + 2, end as int));
                    assert(rep_kind_of(rest[k]) == kind);
                    assert(sep_len(rest) == Some(k as nat));
                    assert(s[1]->Group_1 == tokens_view(inner@));
                    assert(parse_matchers(s[1]->Group_1) == Some(inner_ms@));
                }
                let result = Matcher::Repetition(Repetition { inner: inner_ms, sep: Sep(sep), kind });
                proof {
                    let k = (end - pos - 2) as int;
                    let rest = s.subrange(2, s.len() as int);
                    assert(matcher_view(result) == MatcherView::Repetition(inner_ms@, rest.take(k), kind));
                    assert(parse_matcher(s) == Some((matcher_view(result), (k + 3) as nat)));
                }
                return Some((result, end - pos + 1));
            }
        }
        if ts.len() - pos > 3 {
            proof {
                assert(s[1] == token_view(ts@[pos + 1]));
                assert(s[2] == token_view(ts@[pos + 2]));
                assert(s[3] == token_view(ts@[pos + 3]));
            }
            if let TokenTree::Ident(name) = &ts[pos + 1] {
                if let TokenTree::Punct(':', _) = &ts[pos + 2] {
                    if let TokenTree::Ident(spec_name) = &ts[pos + 3] {
                        if let Some(spec) = FragSpec::parse(spec_name.as_str()) {
                            return Some((Matcher::Fragment(Fragment { ident: name.clone(), spec }), 4));
                        }
                    }
                }
            }
        }
        return None;
    }
    match &ts[pos] {
        TokenTree::Ident(name) => Some((Matcher::Ident(name.clone()), 1)),
        TokenTree::Literal(text) => Some((Matcher::Literal(text.clone()), 1)),
        TokenTree::Punct(c, spacing) => Some((Matcher::Punct(*c, *spacing), 1)),
        TokenTree::Group(d, inner) => match parse_matcher_seq(inner) {
            Some(m) => Some((Matcher::Group(Group { delimiter: *d, inner: m }), 1)),
            None => None,
        },
    }
}

/// Whether `syn` takes the identifier `s` as an `Ident`: true of identifiers that are not
/// keywords (nor `_`).
pub uninterp spec fn syn_accepts_ident(s: Seq<char>) -> bool;

/// `syn::parse_str::<syn::Ident>(s)`, whether it succeeds.
#[verifier::external_body]
pub(crate) fn accepts_ident(s: &str) -> (r: bool)
    ensures
        r == syn_accepts_ident(s@),
{
    syn::parse_str::<syn::Ident>(s).is_ok()
}

/// A fragment transcription, `$thing`.
#[derive(Debug)]
pub struct TranscribeFragment(pub String);

/// A repeated transcription, `$(...)+`.
#[derive(Debug)]
pub struct TranscribeRepetition {
    pub sep: Sep,
    pub inner: TranscribeSeq,
}

/// A transcription of a delimited token tree, `(...)`, `[...]`, `{...}`.
#[derive(Debug)]
pub struct TranscribeGroup {
    pub delimiter: Delimiter,
    pub inner: TranscribeSeq,
}

/// Everything that a macro can transcribe.
#[derive(Debug)]
pub enum Transcribe {
    Fragment(TranscribeFragment),
    Repetition(TranscribeRepetition),
    Group(TranscribeGroup),
    Ident(String),
    Literal(String),
    Punct(char, Spacing),
}

/// A sequence of transcribers.
#[derive(Debug)]
pub struct TranscribeSeq(pub Vec<Transcribe>);

/// A transcriber, by its characters.
pub enum TranscribeView {
    Fragment(Seq<char>),
    Repetition(Seq<TokenView>, Seq<TranscribeView>),
    Group(Delimiter, Seq<TranscribeView>),
    Ident(Seq<char>),
    Literal(Seq<char>),
    Punct(char, Spacing),
}

/// The view of a transcriber.
pub open spec fn transcribe_view(t: Transcribe) -> TranscribeView
    decreases t,
{
    match t {
        Transcribe::Fragment(f) => TranscribeView::Fragment(f.0@),
        Transcribe::Repetition(r) => TranscribeView::Repetition(tokens_view(r.sep.0@), transcribes_view(r.inner.0@)),
        Transcribe::Group(g) => TranscribeView::Group(g.delimiter, transcribes_view(g.inner.0@)),
        Transcribe::Ident(s) => TranscribeView::Ident(s@),
        Transcribe::Literal(s) => TranscribeView::Literal(s@),
        Transcribe::Punct(c, s) => TranscribeView::Punct(c, s),
    }
}

/// The views of a sequence of transcribers.
pub open spec fn transcribes_view(ts: Seq<Transcribe>) -> Seq<TranscribeView>
    decreases ts,
{
    if ts.len() == 0 {
        Seq::empty()
    } else {
        seq![transcribe_view(ts[0])] + transcribes_view(ts.drop_first())
    }
}

impl View for TranscribeSeq {
    type V = Seq<TranscribeView>;

    open spec fn view(&self) -> Seq<TranscribeView> {
        transcribes_view(self.0@)
    }
}

/// The views of transcribers, element by element.
pub proof fn lemma_transcribes_view(ts: Seq<Transcribe>)
    ensures
        transcribes_view(ts).len() == ts.len(),
        forall|i: int| 0 <= i < ts.len() ==> #[trigger] transcribes_view(ts)[i] == transcribe_view(ts[i]),
    decreases ts.len(),
{
    if ts.len() > 0 {
        lemma_transcribes_view(ts.drop_first());
        assert forall|i: int| 0 <= i < ts.len() implies #[trigger] transcribes_view(ts)[i] == transcribe_view(ts[i]) by {
            if i > 0 {
                assert(ts.drop_first()[i - 1] == ts[i]);
            }
        }
    }
}

/// The transcribers that the token trees `ts` spell, all of them used; `None` where they spell
/// none.
pub open spec fn parse_transcribers(ts: Seq<TokenView>) -> Option<Seq<TranscribeView>>
    decreases ts, 1nat,
{
    if ts.len() == 0 {
        Some(Seq::empty())
    } else {
        match parse_transcriber(ts) {
            None => None,
            Some((t, n)) => if 1 <= n <= ts.len() {
                match parse_transcribers(ts.subrange(n as int, ts.len() as int)) {
                    None => None,
                    Some(rest) => Some(seq![t] + rest),
                }
            } else {
                None
            },
        }
    }
}

/// The first transcriber that the non-empty `ts` spells, and how many token trees it takes: a
/// `$` followed by a parenthesized group is a repetition, by an identifier (a keyword too) a
/// fragment; any other `$` is transcribed as it is.
pub open spec fn parse_transcriber(ts: Seq<TokenView>) -> Option<(TranscribeView, nat)>
    decreases ts, 0nat,
{
    if ts.len() == 0 {
        None
    } else if is_punct(ts[0], '$') && ts.len() > 1 && ts[1] matches TokenView::Group(Delimiter::Parenthesis, _) {
        match parse_transcribers(ts[1]->Group_1) {
            None => None,
            Some(inner) => {
                let rest = ts.subrange(2, ts.len() as int);
                match sep_len(rest) {
                    None => None,
                    Some(k) => Some((TranscribeView::Repetition(rest.take(k as int), inner), k + 3)),
                }
            },
        }
    } else if is_punct(ts[0], '$') && ts.len() > 1 && ts[1] is Ident {
        Some((TranscribeView::Fragment(ts[1]->Ident_0), 2))
    } else {
        match ts[0] {
            TokenView::Ident(s) => Some((TranscribeView::Ident(s), 1)),
            TokenView::Literal(s) => Some((TranscribeView::Literal(s), 1)),
            TokenView::Punct(c, sp) => Some((TranscribeView::Punct(c, sp), 1)),
            TokenView::Group(d, inner) => match parse_transcribers(inner) {
                None => None,
                Some(tr) => Some((TranscribeView::Group(d, tr), 1)),
            },
        }
    }
}

/// The view of a parsed transcriber sequence.
pub open spec fn opt_transcribes_view(r: Option<TranscribeSeq>) -> Option<Seq<TranscribeView>> {
    match r {
        None => None,
        Some(t) => Some(t@),
    }
}

/// Parse the transcribers that `ts` spells, all of `ts` used.
pub fn parse_transcribe_seq(ts: &Vec<TokenTree>) -> (r: Option<TranscribeSeq>)
    ensures
        opt_transcribes_view(r) == parse_transcribers(tokens_view(ts@)),
    decreases ts, 1nat,
{
    let ghost tv = tokens_view(ts@);
    proof {
        lemma_tokens_view(ts@);
        assert(tv.subrange(0, tv.len() as int) =~= tv);
        assert(transcribes_view(Seq::<Transcribe>::empty()) =~= Seq::<TranscribeView>::empty());
        match parse_transcribers(tv) {
            Some(x) => {
                assert(Seq::<TranscribeView>::empty() + x =~= x);
            },
            None => {},
        }
    }
    let mut out: Vec<Transcribe> = Vec::new();
    let mut pos: usize = 0;
    while pos < ts.len()
        invariant
            pos <= ts.len(),
            tv == tokens_view(ts@),
            tv.len() == ts.len(),
            parse_transcribers(tv) == prepended(
                transcribes_view(out@),
                parse_transcribers(tv.subrange(pos as int, tv.len() as int)),
            ),
        decreases ts.len() - pos,
    {
        let ghost s = tv.subrange(pos as int, tv.len() as int);
        match parse_transcribe_at(ts, pos) {
            None => {
                return None;
            },
            Some((t, n)) => {
                proof {
                    assert(s.subrange(n as int, s.len() as int) =~= tv.subrange(pos + n, tv.len() as int));
                    lemma_transcribes_view(out@);
                    lemma_transcribes_view(out@.push(t));
                    assert(transcribes_view(out@.push(t)) =~= transcribes_view(out@) + seq![transcribe_view(t)]);
                    match parse_transcribers(tv.subrange(pos + n, tv.len() as int)) {
                        Some(x) => {
                            assert(transcribes_view(out@) + (seq![transcribe_view(t)] + x) =~= transcribes_view(out@.push(t)) + x);
                        },
                        None => {},
                    }
                }
                out.push(t);
                pos = pos + n;
            },
        }
    }
    proof {
        assert(tv.subrange(pos as int, tv.len() as int).len() == 0);
        assert(transcribes_view(out@) + Seq::<TranscribeView>::empty() =~= transcribes_view(out@));
    }
    Some(TranscribeSeq(out))
}

/// Parse the first transcriber that the token trees of `ts` from `pos` spell, and how many it
/// takes.
fn parse_transcribe_at(ts: &Vec<TokenTree>, pos: usize) -> (r: Option<(Transcribe, usize)>)
    requires
        pos < ts.len(),
    ensures
        ({
            let s = tokens_view(ts@).subrange(pos as int, ts.len() as int);
            match parse_transcriber(s) {
                None => r is None,
                Some((t, n)) => r matches Some((rt, rn)) && transcribe_view(rt) == t && rn == n && 1 <= n
                    && pos + n <= ts.len(),
            }
        }),
    decreases ts, 0nat,
{
    let ghost tv = tokens_view(ts@);
    let ghost s = tv.subrange(pos as int, ts.len() as int);
    proof {
        lemma_tokens_view(ts@);
        assert(s[0] == token_view(ts@[pos as int]));
        assert(decreases_to!(ts => ts@[pos as int]));
    }
    let is_dollar = match &ts[pos] {
        TokenTree::Punct(c, _) => *c == '$',
        _ => false,
    };
    if is_dollar && pos + 1 < ts.len() {
        proof {
            assert(s[1] == token_view(ts@[pos + 1]));
            assert(decreases_to!(ts => ts@[pos + 1]));
        }
        if let TokenTree::Group(Delimiter::Parenthesis, inner) = &ts[pos + 1] {
            let inner_tr = match parse_transcribe_seq(inner) {
                Some(t) => t,
                None => return None,
            };
            let end = match sep_end(ts, pos + 2) {
                Some(e) => e,
                None => {
                    proof {
                        assert(s.subrange(2, s.len() as int) =~= tv.subrange(pos + 2, ts.len() as int));
                    }
                    return None;
                },
            };
            let sep = copy_range(ts, pos + 2, end);
            let result = Transcribe::Repetition(TranscribeRepetition { sep: Sep(sep), inner: inner_tr });
            proof {
                let rest = s.subrange(2, s.len() as int);
                assert(rest =~= tv.subrange(pos + 2, ts.len() as int));
                let k = (end - pos - 2) as int;
                assert(rest.take(k) =~= tv.subrange(pos + 2, end as int));
                assert(sep_len(rest) == Some(k as nat));
                assert(s[1]->Group_1 == tokens_view(inner@));
                assert(transcribe_view(result) == TranscribeView::Repetition(rest.take(k), inner_tr@));
                assert(parse_transcriber(s) == Some((transcribe_view(result), (k + 3) as nat)));
            }
            return Some((result, end - pos + 1));
        }
        if let TokenTree::Ident(name) = &ts[pos + 1] {
            return Some((Transcribe::Fragment(TranscribeFragment(name.clone())), 2));
        }
    }
    match &ts[pos] {
        TokenTree::Ident(name) => Some((Transcribe::Ident(name.clone()), 1)),
        TokenTree::Literal(text) => Some((Transcribe::Literal(text.clone()), 1)),
        TokenTree::Punct(c, spacing) => Some((Transcribe::Punct(*c, *spacing), 1)),
        TokenTree::Group(d, inner) => match parse_transcribe_seq(inner) {
            Some(t) => Some((Transcribe::Group(TranscribeGroup { delimiter: *d, inner: t }), 1)),
            None => None,
        },
    }
}

/// An individual macro rule: a matcher and a transcriber.
#[derive(Debug)]
pub struct MacroRule {
    pub matcher: MatcherSeq,
    pub transcriber: TranscribeSeq,
}

/// A macro rule, by its characters.
pub struct MacroRuleView {
    pub matcher: Seq<MatcherView>,
    pub transcriber: Seq<TranscribeView>,
}

impl View for MacroRule {
    type V = MacroRuleView;

    open spec fn view(&self) -> MacroRuleView {
        MacroRuleView { matcher: self.matcher@, transcriber: self.transcriber@ }
    }
}

/// Whether `t` is a group with a visible delimiter.
pub open spec fn is_delimited(t: TokenView) -> bool {
    t matches TokenView::Group(d, _) && d != Delimiter::Invisible
}

/// The first rule that the non-empty `ts` spells, and how many token trees it takes: a
/// delimited matcher, `=>`, a delimited transcriber, and a `;` where one follows.
pub open spec fn parse_rule(ts: Seq<TokenView>) -> Option<(MacroRuleView, nat)> {
    if ts.len() >= 4 && is_delimited(ts[0]) && ts[1] == TokenView::Punct('=', Spacing::Joint) && is_punct(
        ts[2],
        '>',
    ) && is_delimited(ts[3]) {
        match (parse_matchers(ts[0]->Group_1), parse_transcribers(ts[3]->Group_1)) {
            (Some(m), Some(t)) => Some(
                (
                    MacroRuleView { matcher: m, transcriber: t },
                    if ts.len() > 4 && is_punct(ts[4], ';') {
                        5nat
                    } else {
                        4nat
                    },
                ),
            ),
            _ => None,
        }
    } else {
        None
    }
}

/// The rules that `ts` spells, all of it used.
pub open spec fn parse_rules(ts: Seq<TokenView>) -> Option<Seq<MacroRuleView>>
    decreases ts.len(),
{
    if ts.len() == 0 {
        Some(Seq::empty())
    } else {
        match parse_rule(ts) {
            None => None,
            Some((r, n)) => if 1 <= n <= ts.len() {
                match parse_rules(ts.subrange(n as int, ts.len() as int)) {
                    None => None,
                    Some(rest) => Some(seq![r] + rest),
                }
            } else {
                None
            },
        }
    }
}

/// Parse the first rule of the token trees of `ts` from `pos`, and how many it takes.
fn parse_rule_at(ts: &Vec<TokenTree>, pos: usize) -> (r: Option<(MacroRule, usize)>)
    requires
        pos < ts.len(),
    ensures
        ({
            let s = tokens_view(ts@).subrange(pos as int, ts.len() as int);
            match parse_rule(s) {
                None => r is None,
                Some((rule, n)) => r matches Some((rr, rn)) && rr@ == rule && rn == n && 1 <= n && pos + n
                    <= ts.len(),
            }
        }),
{
    let ghost tv = tokens_view(ts@);
    let ghost s = tv.subrange(pos as int, ts.len() as int);
    proof {
        lemma_tokens_view(ts@);
    }
    if ts.len() - pos < 4 {
        return None;
    }
    proof {
        assert(s[0] == token_view(ts@[pos as int]));
        assert(s[1] == token_view(ts@[pos + 1]));
        assert(s[2] == token_view(ts@[pos + 2]));
        assert(s[3] == token_view(ts@[pos + 3]));
    }
    let matcher = match &ts[pos] {
        TokenTree::Group(d, inner) => {
            if let Delimiter::Invisible = d {
                return None;
            }
            match parse_matcher_seq(inner) {
                Some(m) => m,
                None => return None,
            }
        },
        _ => return None,
    };
    let arrow = match (&ts[pos + 1], &ts[pos + 2]) {
        (TokenTree::Punct('=', Spacing::Joint), TokenTree::Punct('>', _)) => true,
        _ => false,
    };
    if !arrow {
        return None;
    }
    let transcriber = match &ts[pos + 3] {
        TokenTree::Group(d, inner) => {
            if let Delimiter::Invisible = d {
                return None;
            }
            match parse_transcribe_seq(inner) {
                Some(t) => t,
                None => return None,
            }
        },
        _ => return None,
    };
    let mut n: usize = 4;
    if ts.len() - pos > 4 {
        proof {
            assert(s[4] == token_view(ts@[pos + 4]));
        }
        if let TokenTree::Punct(';', _) = &ts[pos + 4] {
            n = 5;
        }
    }
    Some((MacroRule { matcher, transcriber }, n))
}

/// The view of parsed rules.
pub open spec fn opt_rules_view(r: Option<Vec<MacroRule>>) -> Option<Seq<MacroRuleView>> {
    match r {
        None => None,
        Some(v) => Some(v@.map_values(|m: MacroRule| m@)),
    }
}

/// Parse the rules that `ts` spells, all of `ts` used.
pub fn parse_rule_seq(ts: &Vec<TokenTree>) -> (r: Option<Vec<MacroRule>>)
    ensures
        opt_rules_view(r) == parse_rules(tokens_view(ts@)),
{
    let ghost tv = tokens_view(ts@);
    proof {
        lemma_tokens_view(ts@);
        assert(tv.subrange(0, tv.len() as int) =~= tv);
        match parse_rules(tv) {
            Some(x) => {
                assert(Seq::<MacroRuleView>::empty() + x =~= x);
            },
            None => {},
        }
    }
    let mut out: Vec<MacroRule> = Vec::new();
    let mut pos: usize = 0;
    proof {
        assert(out@.map_values(|m: MacroRule| m@) =~= Seq::<MacroRuleView>::empty());
    }
    while pos < ts.len()
        invariant
            pos <= ts.len(),
            tv == tokens_view(ts@),
            tv.len() == ts.len(),
            parse_rules(tv) == prepended(
                out@.map_values(|m: MacroRule| m@),
                parse_rules(tv.subrange(pos as int, tv.len() as int)),
            ),
        decreases ts.len() - pos,
    {
        let ghost s = tv.subrange(pos as int, tv.len() as int);
        match parse_rule_at(ts, pos) {
            None => {
                return None;
            },
            Some((rule, n)) => {
                proof {
                    assert(s.subrange(n as int, s.len() as int) =~= tv.subrange(pos + n, tv.len() as int));
                    let before = out@.map_values(|m: MacroRule| m@);
                    assert(out@.push(rule).map_values(|m: MacroRule| m@) =~= before.push(rule@));
                    match parse_rules(tv.subrange(pos + n, tv.len() as int)) {
                        Some(x) => {
                            assert(before + (seq![rule@] + x) =~= before.push(rule@) + x);
                        },
                        None => {},
                    }
                }
                out.push(rule);
                pos = pos + n;
            },
        }
    }
    proof {
        assert(tv.subrange(pos as int, tv.len() as int).len() == 0);
        assert(out@.map_values(|m: MacroRule| m@) + Seq::<MacroRuleView>::empty() =~= out@.map_values(
            |m: MacroRule| m@,
        ));
    }
    Some(out)
}

/// Why a macro definition could not be read or applied.
#[derive(Debug, Clone, Copy, PartialEq, Eq, Structural)]
pub enum MacroError {
    /// The tokens are not of the expected form.
    Parse,
    /// The definition is a macro invocation, but not of `macro_rules!`.
    NotMacroRules,
    /// The `macro_rules!` has no name.
    NoMacroName,
    /// No rule matches the macro's input.
    NoRuleMatched,
    /// Fragments repeated together were matched different numbers of times.
    MismatchedRepetition,
}

/// How many token trees the outer attributes (`#[..]`) at the start of `ts` take; `None` where a
/// `#` is not followed by a bracketed group.
pub open spec fn attrs_len(ts: Seq<TokenView>) -> Option<nat>
    decreases ts.len(),
{
    if ts.len() > 0 && is_punct(ts[0], '#') {
        if ts.len() > 1 && ts[1] matches TokenView::Group(Delimiter::Bracket, _) {
            match attrs_len(ts.subrange(2, ts.len() as int)) {
                Some(n) => Some(n + 2),
                None => None,
            }
        } else {
            None
        }
    } else {
        Some(0)
    }
}

/// A `macro_rules!` definition, by its characters.
pub struct MacroDefView {
    pub attrs: Seq<TokenView>,
    pub ident: Seq<char>,
    pub rules: Seq<MacroRuleView>,
}

/// The bracketed groups of the first `n` attributes of `ts`.
pub open spec fn attr_groups(ts: Seq<TokenView>, n: nat) -> Seq<TokenView> {
    Seq::new(n, |i: int| ts[2 * i + 1])
}

/// What the token trees of a whole `macro_rules!` item spell: its outer attributes, the path
/// `macro_rules`, `!`, the macro's name, its delimited rules, and a `;` unless they are in braces.
pub open spec fn parse_macro_def(ts: Seq<TokenView>) -> Result<MacroDefView, MacroError> {
    match attrs_len(ts) {
        None => Err(MacroError::Parse),
        Some(a) => {
            let r = ts.subrange(a as int, ts.len() as int);
            if !(r.len() >= 2 && r[0] == TokenView::Ident("macro_rules"@) && is_punct(r[1], '!')) {
                Err(MacroError::NotMacroRules)
            } else {
                let named = r.len() > 2 && r[2] is Ident && syn_accepts_ident(r[2]->Ident_0);
                let g: int = if named {
                    3
                } else {
                    2
                };
                if !(r.len() > g && is_delimited(r[g])) {
                    Err(MacroError::Parse)
                } else {
                    let braced = r[g]->Group_0 == Delimiter::Brace;
                    let used: int = if braced {
                        g + 1
                    } else {
                        g + 2
                    };
                    if (!braced && !(r.len() > g + 1 && is_punct(r[g + 1], ';'))) || used != r.len() {
                        Err(MacroError::Parse)
                    } else if !named {
                        Err(MacroError::NoMacroName)
                    } else {
                        match parse_rules(r[g]->Group_1) {
                            None => Err(MacroError::Parse),
                            Some(rules) => Ok(
                                MacroDefView {
                                    attrs: attr_groups(ts, a / 2),
                                    ident: r[2]->Ident_0,
                                    rules,
                                },
                            ),
                        }
                    }
                }
            }
        },
    }
}

/// A full `macro_rules!` definition.
#[derive(Debug)]
pub struct MacroDef {
    /// The bracketed group of each outer attribute.
    pub attrs: Vec<TokenTree>,
    pub ident: String,
    pub rules: Vec<MacroRule>,
}

impl View for MacroDef {
    type V = MacroDefView;

    open spec fn view(&self) -> MacroDefView {
        MacroDefView {
            attrs: tokens_view(self.attrs@),
            ident: self.ident@,
            rules: self.rules@.map_values(|m: MacroRule| m@),
        }
    }
}

/// The view of a parsed definition.
pub open spec fn def_result_view(r: Result<MacroDef, MacroError>) -> Result<MacroDefView, MacroError> {
    match r {
        Ok(d) => Ok(d@),
        Err(e) => Err(e),
    }
}

/// Attributes take an even number of token trees, and what follows them is no attribute.
proof fn lemma_attrs_len(ts: Seq<TokenView>)
    ensures
        attrs_len(ts) matches Some(a) ==> a % 2 == 0 && a <= ts.len() && !(a < ts.len() && is_punct(
            ts[a as int],
            '#',
        )) && forall|i: int| 0 <= i < a / 2 ==> is_punct(#[trigger] ts[2 * i], '#') && ts[2 * i + 1] is Group,
    decreases ts.len(),
{
    if ts.len() > 0 && is_punct(ts[0], '#') && ts.len() > 1 && ts[1] is Group {
        let rest = ts.subrange(2, ts.len() as int);
        lemma_attrs_len(rest);
        if let Some(a) = attrs_len(ts) {
            assert forall|i: int| 0 <= i < a / 2 implies is_punct(#[trigger] ts[2 * i], '#') && ts[2 * i + 1] is Group by {
                if i > 0 {
                    assert(ts[2 * i] == rest[2 * (i - 1)]);
                    assert(ts[2 * i + 1] == rest[2 * (i - 1) + 1]);
                }
            }
            if a < ts.len() {
                assert(ts[a as int] == rest[a - 2]);
            }
        }
    }
}

impl MacroDef {
    /// Read a `macro_rules!` definition from the token trees of the whole item.
    pub fn parse(ts: &Vec<TokenTree>) -> (r: Result<MacroDef, MacroError>)
        ensures
            def_result_view(r) == parse_macro_def(tokens_view(ts@)),
    {
        let ghost tv = tokens_view(ts@);
        proof {
            lemma_tokens_view(ts@);
        }
        let mut attrs: Vec<TokenTree> = Vec::new();
        let mut pos: usize = 0;
        proof {
            assert(tv.subrange(0, tv.len() as int) =~= tv);
            match attrs_len(tv) {
                Some(n) => {},
                None => {},
            }
        }
        loop
            invariant
                pos <= ts.len(),
                pos % 2 == 0,
                tv == tokens_view(ts@),
                tv.len() == ts.len(),
                forall|j: int| 0 <= j < ts.len() ==> #[trigger] tv[j] == token_view(ts@[j]),
                attrs_len(tv) == match attrs_len(tv.subrange(pos as int, tv.len() as int)) {
                    Some(n) => Some((n + pos) as nat),
                    None => None::<nat>,
                },
                attrs@.len() == pos / 2,
                forall|i: int| 0 <= i < pos / 2 ==> token_view(#[trigger] attrs@[i]) == tv[2 * i + 1],
            ensures
                attrs_len(tv) == Some(pos as nat),
                pos <= ts.len(),
                attrs@.len() == pos / 2,
                forall|i: int| 0 <= i < pos / 2 ==> token_view(#[trigger] attrs@[i]) == tv[2 * i + 1],
            decreases ts.len() - pos,
        {
            let ghost s = tv.subrange(pos as int, tv.len() as int);
            let hash = pos < ts.len() && match &ts[pos] {
                TokenTree::Punct('#', _) => true,
                _ => false,
            };
            if !hash {
                proof {
                    if pos < ts.len() {
                        assert(s[0] == tv[pos as int]);
                    }
                    assert(attrs_len(s) == Some(0nat));
                }
                break ;
            }
            proof {
                assert(s[0] == tv[pos as int]);
            }
            let bracketed = pos + 1 < ts.len() && match &ts[pos + 1] {
                TokenTree::Group(Delimiter::Bracket, _) => true,
                _ => false,
            };
            if !bracketed {
                proof {
                    if pos + 1 < ts.len() {
                        assert(s[1] == tv[pos + 1]);
                    }
                    assert(attrs_len(s) is None);
                }
                return Err(MacroError::Parse);
            }
            proof {
                assert(s[1] == tv[pos + 1]);
                assert(s.subrange(2, s.len() as int) =~= tv.subrange(pos + 2, tv.len() as int));
            }
            attrs.push(ts[pos + 1].dup());
            pos = pos + 2;
        }
        let ghost a = pos as nat;
        proof {
            assert(attrs_len(tv) == Some(a));
            assert(tokens_view(attrs@) =~= attr_groups(tv, a / 2)) by {
                lemma_tokens_view(attrs@);
            }
        }
        let ghost r = tv.subrange(pos as int, tv.len() as int);
        let n = ts.len();
        let head = n - pos >= 2 && match (&ts[pos], &ts[pos + 1]) {
            (TokenTree::Ident(name), TokenTree::Punct('!', _)) => str_eq(name.as_str(), "macro_rules"),
            _ => false,
        };
        if !head {
            proof {
                if n - pos >= 2 {
                    assert(r[0] == tv[pos as int]);
                    assert(r[1] == tv[pos + 1]);
                }
            }
            return Err(MacroError::NotMacroRules);
        }
        proof {
            assert(r[0] == tv[pos as int]);
            assert(r[1] == tv[pos + 1]);
        }
        let mut name: Option<String> = None;
        if n - pos > 2 {
            proof {
                assert(r[2] == tv[pos + 2]);
            }
            if let TokenTree::Ident(id) = &ts[pos + 2] {
                if accepts_ident(id.as_str()) {
                    name = Some(id.clone());
                }
            }
        }
        let g: usize = match name {
            Some(_) => pos + 3,
            None => pos + 2,
        };
        if g >= n {
            return Err(MacroError::Parse);
        }
        proof {
            assert(r[g - pos] == tv[g as int]);
        }
        let (delim, body) = match &ts[g] {
            TokenTree::Group(d, inner) => (*d, inner),
            _ => return Err(MacroError::Parse),
        };
        if let Delimiter::Invisible = delim {
            return Err(MacroError::Parse);
        }
        let braced = match delim {
            Delimiter::Brace => true,
            _ => false,
        };
        let used = if braced {
            g + 1
        } else {
            if g + 1 >= n {
                return Err(MacroError::Parse);
            }
            proof {
                assert(r[g + 1 - pos] == tv[g + 1]);
            }
            match &ts[g + 1] {
                TokenTree::Punct(';', _) => {},
                _ => return Err(MacroError::Parse),
            }
            g + 2
        };
        if used != n {
            return Err(MacroError::Parse);
        }
        let ident = match name {
            Some(id) => id,
            None => return Err(MacroError::NoMacroName),
        };
        match parse_rule_seq(body) {
            Some(rules) => Ok(MacroDef { attrs, ident, rules }),
            None => Err(MacroError::Parse),
        }
    }
}

} // verus!
