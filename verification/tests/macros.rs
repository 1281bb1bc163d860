use std::str::FromStr;

use proc_macro2::{
    Delimiter as PmDelimiter, Group as PmGroup, Ident as PmIdent, Literal as PmLiteral, Punct as PmPunct,
    Spacing as PmSpacing, Span as PmSpan, TokenStream as PmStream, TokenTree as PmTree,
};
use tendon::attributes::{Attribute, Meta, Metadata};
use tendon::expand::{apply_once, consume, transcribe, Binding};
use tendon::items::DeclarativeMacroItem;
use tendon::lower::{lower_macro_rules, LowerError};
use tendon::macro_ast::{
    parse_matcher_seq, parse_transcribe_seq, FragSpec, MacroDef, MacroError, Matcher, RepeatKind, Transcribe,
};
use tendon::paths::UnresolvedPath;
use tendon::tokens::{Delimiter, Spacing, TokenTree};

fn convert(stream: PmStream) -> Vec<TokenTree> {
    stream
        .into_iter()
        .map(|tt| match tt {
            PmTree::Group(g) => {
                let d = match g.delimiter() {
                    PmDelimiter::Parenthesis => Delimiter::Parenthesis,
                    PmDelimiter::Brace => Delimiter::Brace,
                    PmDelimiter::Bracket => Delimiter::Bracket,
                    PmDelimiter::None => Delimiter::Invisible,
                };
                TokenTree::Group(d, convert(g.stream()))
            }
            PmTree::Ident(i) => TokenTree::Ident(i.to_string()),
            PmTree::Punct(p) => TokenTree::Punct(
                p.as_char(),
                match p.spacing() {
                    PmSpacing::Alone => Spacing::Alone,
                    PmSpacing::Joint => Spacing::Joint,
                },
            ),
            PmTree::Literal(l) => TokenTree::Literal(l.to_string()),
        })
        .collect()
}

fn lex(s: &str) -> Vec<TokenTree> {
    convert(PmStream::from_str(s).unwrap())
}

fn back(ts: &[TokenTree]) -> PmStream {
    ts.iter()
        .map(|t| match t {
            TokenTree::Group(d, inner) => {
                let d = match d {
                    Delimiter::Parenthesis => PmDelimiter::Parenthesis,
                    Delimiter::Brace => PmDelimiter::Brace,
                    Delimiter::Bracket => PmDelimiter::Bracket,
                    Delimiter::Invisible => PmDelimiter::None,
                };
                PmTree::Group(PmGroup::new(d, back(inner)))
            }
            TokenTree::Ident(s) => {
                if let Some(raw) = s.strip_prefix("r#") {
                    PmTree::Ident(PmIdent::new_raw(raw, PmSpan::call_site()))
                } else {
                    PmTree::Ident(PmIdent::new(s, PmSpan::call_site()))
                }
            }
            TokenTree::Punct(c, s) => PmTree::Punct(PmPunct::new(
                *c,
                match s {
                    Spacing::Alone => PmSpacing::Alone,
                    Spacing::Joint => PmSpacing::Joint,
                },
            )),
            TokenTree::Literal(text) => PmTree::Literal(PmLiteral::from_str(text).unwrap()),
        })
        .collect()
}

fn render(ts: &[TokenTree]) -> String {
    back(ts).to_string()
}

fn expected(s: &str) -> String {
    PmStream::from_str(s).unwrap().to_string()
}

fn rules(text: &str) -> DeclarativeMacroItem {
    let tokens = lex(text);
    lower_macro_rules(Metadata::fake("m"), &UnresolvedPath::fake("macro_rules"), Some("m".to_string()), tokens).unwrap()
}

#[test]
fn ast_frag() {
    let seq = parse_matcher_seq(&lex("$elem:block")).unwrap();
    match &seq.0[0] {
        Matcher::Fragment(frag) => {
            assert_eq!(frag.spec, FragSpec::Block);
            assert_eq!(frag.ident, "elem");
        }
        other => panic!("unexpected: {:?}", other),
    }
}

#[test]
fn ast_frag_spec() {
    assert_eq!(FragSpec::parse("block"), Some(FragSpec::Block));
    assert_eq!(FragSpec::parse("expr"), Some(FragSpec::Expr));
    assert_eq!(FragSpec::parse("ident"), Some(FragSpec::Ident));
    assert_eq!(FragSpec::parse("item"), Some(FragSpec::Item));
    assert_eq!(FragSpec::parse("lifetime"), Some(FragSpec::Lifetime));
    assert_eq!(FragSpec::parse("literal"), Some(FragSpec::Literal));
    assert_eq!(FragSpec::parse("meta"), Some(FragSpec::Meta));
    assert_eq!(FragSpec::parse("pat"), Some(FragSpec::Pattern));
    assert_eq!(FragSpec::parse("path"), Some(FragSpec::Path));
    assert_eq!(FragSpec::parse("stmt"), Some(FragSpec::Statement));
    assert_eq!(FragSpec::parse("tt"), Some(FragSpec::TokenTree));
    assert_eq!(FragSpec::parse("ty"), Some(FragSpec::Type));
    assert_eq!(FragSpec::parse("vis"), Some(FragSpec::Visibility));
    assert!(FragSpec::parse("bees").is_none());
    assert!(parse_matcher_seq(&lex("$x:bees")).is_none());
}

fn check_matcher(text: &str, frog_has_group: bool) {
    let seq = parse_matcher_seq(&lex(text)).unwrap();
    match &seq.0[0] {
        Matcher::Ident(ident) => assert_eq!(ident, "ocelot"),
        other => panic!("unexpected: {:?}", other),
    }
    match &seq.0[1] {
        Matcher::Punct(c, s) => assert_eq!((*c, *s), ('+', Spacing::Alone)),
        other => panic!("unexpected: {:?}", other),
    }
    match &seq.0[2] {
        Matcher::Punct(c, s) => assert_eq!((*c, *s), ('=', Spacing::Joint)),
        other => panic!("unexpected: {:?}", other),
    }
    match &seq.0[3] {
        Matcher::Punct(c, s) => assert_eq!((*c, *s), ('>', Spacing::Alone)),
        other => panic!("unexpected: {:?}", other),
    }
    match &seq.0[4] {
        Matcher::Fragment(frag) => {
            assert_eq!(frag.ident, "bees");
            assert_eq!(frag.spec, FragSpec::Type);
        }
        other => panic!("unexpected: {:?}", other),
    }
    match &seq.0[5] {
        Matcher::Group(group) => {
            assert_eq!(group.delimiter, Delimiter::Brace);
            match &group.inner.0[0] {
                Matcher::Ident(ident) => assert_eq!(ident, "frog"),
                other => panic!("unexpected: {:?}", other),
            }
            if frog_has_group {
                match &group.inner.0[1] {
                    Matcher::Group(group) => {
                        assert_eq!(group.delimiter, Delimiter::Bracket);
                        assert_eq!(group.inner.0.len(), 0);
                    }
                    other => panic!("unexpected: {:?}", other),
                }
            }
        }
        other => panic!("unexpected: {:?}", other),
    }
    match &seq.0[6] {
        Matcher::Repetition(rep) => {
            match &rep.inner.0[0] {
                Matcher::Ident(ident) => assert_eq!(ident, "tapir"),
                other => panic!("unexpected: {:?}", other),
            }
            match &rep.inner.0[1] {
                Matcher::Punct(c, _) => assert_eq!(*c, '*'),
                other => panic!("unexpected: {:?}", other),
            }
            match &rep.sep.0[0] {
                TokenTree::Punct(c, s) => assert_eq!((*c, *s), ('=', Spacing::Joint)),
                other => panic!("unexpected: {:?}", other),
            }
            match &rep.sep.0[1] {
                TokenTree::Punct(c, s) => assert_eq!((*c, *s), ('>', Spacing::Joint)),
                other => panic!("unexpected: {:?}", other),
            }
            assert_eq!(rep.kind, RepeatKind::Plus);
        }
        other => panic!("unexpected: {:?}", other),
    }
    match &seq.0[7] {
        Matcher::Repetition(rep) => {
            match &rep.inner.0[0] {
                Matcher::Punct(c, _) => assert_eq!(*c, '*'),
                other => panic!("unexpected: {:?}", other),
            }
            match &rep.sep.0[0] {
                TokenTree::Ident(ident) => assert_eq!(ident, "coati"),
                other => panic!("unexpected: {:?}", other),
            }
            assert_eq!(rep.kind, RepeatKind::Star);
        }
        other => panic!("unexpected: {:?}", other),
    }
}

#[test]
fn ast_matcher() {
    check_matcher("ocelot + => $bees:ty { frog [] } $(tapir *)=>+ $(*)coati*", true);
    check_matcher("ocelot + => $bees:ty { frog } $(tapir *)=>+ $(*)coati*", false);
}

#[test]
fn transcriber() {
    let seq = parse_transcribe_seq(&lex("ocelot + => $bees { frog [] } $(tapir *)=>+ $(*)coati*")).unwrap();
    match &seq.0[0] {
        Transcribe::Ident(ident) => assert_eq!(ident, "ocelot"),
        other => panic!("unexpected: {:?}", other),
    }
    match &seq.0[1] {
        Transcribe::Punct(c, s) => assert_eq!((*c, *s), ('+', Spacing::Alone)),
        other => panic!("unexpected: {:?}", other),
    }
    match &seq.0[2] {
        Transcribe::Punct(c, s) => assert_eq!((*c, *s), ('=', Spacing::Joint)),
        other => panic!("unexpected: {:?}", other),
    }
    match &seq.0[3] {
        Transcribe::Punct(c, s) => assert_eq!((*c, *s), ('>', Spacing::Alone)),
        other => panic!("unexpected: {:?}", other),
    }
    match &seq.0[4] {
        Transcribe::Fragment(frag) => assert_eq!(frag.0, "bees"),
        other => panic!("unexpected: {:?}", other),
    }
    match &seq.0[5] {
        Transcribe::Group(group) => {
            assert_eq!(group.delimiter, Delimiter::Brace);
            match &group.inner.0[0] {
                Transcribe::Ident(ident) => assert_eq!(ident, "frog"),
                other => panic!("unexpected: {:?}", other),
            }
            match &group.inner.0[1] {
                Transcribe::Group(group) => {
                    assert_eq!(group.delimiter, Delimiter::Bracket);
                    assert_eq!(group.inner.0.len(), 0);
                }
                other => panic!("unexpected: {:?}", other),
            }
        }
        other => panic!("unexpected: {:?}", other),
    }
    match &seq.0[6] {
        Transcribe::Repetition(rep) => {
            match &rep.inner.0[0] {
                Transcribe::Ident(ident) => assert_eq!(ident, "tapir"),
                other => panic!("unexpected: {:?}", other),
            }
            match &rep.inner.0[1] {
                Transcribe::Punct(c, _) => assert_eq!(*c, '*'),
                other => panic!("unexpected: {:?}", other),
            }
            match &rep.sep.0[0] {
                TokenTree::Punct(c, s) => assert_eq!((*c, *s), ('=', Spacing::Joint)),
                other => panic!("unexpected: {:?}", other),
            }
            match &rep.sep.0[1] {
                TokenTree::Punct(c, s) => assert_eq!((*c, *s), ('>', Spacing::Joint)),
                other => panic!("unexpected: {:?}", other),
            }
        }
        other => panic!("unexpected: {:?}", other),
    }
    match &seq.0[7] {
        Transcribe::Repetition(rep) => {
            match &rep.inner.0[0] {
                Transcribe::Punct(c, _) => assert_eq!(*c, '*'),
                other => panic!("unexpected: {:?}", other),
            }
            match &rep.sep.0[0] {
                TokenTree::Ident(ident) => assert_eq!(ident, "coati"),
                other => panic!("unexpected: {:?}", other),
            }
        }
        other => panic!("unexpected: {:?}", other),
    }
}

const ASSERT_MATCH: &str = r#"
    macro_rules! assert_match {
        ($(($input:expr) $binding:pat => $then:expr),+) => {{
            $(match &$input {
                $binding => $then,
                ref other => panic!("unexpected: {:?}", other),
            })+
        }};
    }
"#;

#[test]
fn full() {
    let mac = MacroDef::parse(&lex(ASSERT_MATCH)).unwrap();
    assert_eq!(mac.ident, "assert_match");
    assert_eq!(mac.attrs.len(), 0);
    assert_eq!(mac.rules.len(), 1);
    match &mac.rules[0].matcher.0[0] {
        Matcher::Repetition(rep) => {
            match &rep.sep.0[0] {
                TokenTree::Punct(c, _) => assert_eq!(*c, ','),
                other => panic!("unexpected: {:?}", other),
            }
            match &rep.inner.0[0] {
                Matcher::Group(group) => {
                    assert_eq!(group.delimiter, Delimiter::Parenthesis);
                    match &group.inner.0[0] {
                        Matcher::Fragment(frag) => {
                            assert_eq!(frag.ident, "input");
                            assert_eq!(frag.spec, FragSpec::Expr);
                        }
                        other => panic!("unexpected: {:?}", other),
                    }
                }
                other => panic!("unexpected: {:?}", other),
            }
        }
        other => panic!("unexpected: {:?}", other),
    }
}

#[test]
fn definitions_that_are_refused() {
    assert_eq!(MacroDef::parse(&lex("foo! { () => () }")).err(), Some(MacroError::NotMacroRules));
    assert_eq!(MacroDef::parse(&lex("macro_rules! { () => () }")).err(), Some(MacroError::NoMacroName));
    assert_eq!(MacroDef::parse(&lex("macro_rules! m ( () => () )")).err(), Some(MacroError::Parse));
    assert_eq!(MacroDef::parse(&lex("macro_rules! m { () => }")).err(), Some(MacroError::Parse));
    let with_attr = MacroDef::parse(&lex("#[macro_export] macro_rules! m ( () => () );")).unwrap();
    assert_eq!(with_attr.attrs.len(), 1);
    assert_eq!(with_attr.rules.len(), 1);
}

#[test]
fn transcribe_full_macro() {
    let mac = MacroDef::parse(&lex("macro_rules! test_macro { ($($x:ident $y:ident),+) => ([$($x)+] [$($y)+]); }")).unwrap();
    let bindings = consume(&lex("a b, c d, e f"), &mac.rules[0].matcher).unwrap();
    match bindings.get("x") {
        Some(Binding::Repeated(each)) => assert_eq!(each.len(), 3),
        other => panic!("unexpected: {:?}", other),
    }
    let output = transcribe(&bindings, &mac.rules[0].transcriber).unwrap();
    assert_eq!(render(&output), expected("[a c e] [b d f]"));
}

#[test]
fn expand_full_macro() {
    let rules = rules("macro_rules! test_macro { ($($x:ident $y:ident),+) => ([$($x)+] [$($y)+]); }");
    let output = apply_once(&rules, &lex("a b, c d, e f")).unwrap();
    assert_eq!(render(&output), expected("[a c e] [b d f]"));
}

#[test]
fn empty_macro() {
    let rules = rules("macro_rules! test_macro { () => (hooray); }");
    let output = apply_once(&rules, &lex("")).unwrap();
    assert_eq!(render(&output), expected("hooray"));
}

#[test]
fn keyword_frag() {
    let rules = rules(
        "macro_rules ! wacky_levels {
            ( $ ( $ name : ident ) ,+ | $ ( $ type : ty ) ,+ | $ ( $ expr : expr ) ,+ ) =>
                { $ ( pub const $ name : $ type = $ expr ; ) + }
        }",
    );
    let output = apply_once(&rules, &lex("hello, world | i32, i64 | 1, 2")).unwrap();
    assert_eq!(render(&output), expected("pub const hello: i32 = 1; pub const world: i64 = 2;"));
}

#[test]
fn multiple_rules() {
    let rules = rules(
        "macro_rules! expands_to_item {
            ($(($x:ty)) 'f +) => {
                ExpandedAlt {
                    thing: &'static std::option::Option<i32>,
                    stuff: ($($x),+)
                }
            };
            () => {
                Expanded {
                    thing: &'static std::option::Option<i32>
                }
            }
        }",
    );
    let output = apply_once(&rules, &lex("")).unwrap();
    assert_eq!(render(&output), expected("Expanded { thing: &'static std::option::Option<i32> }"));
    let output = apply_once(&rules, &lex("(i32) 'f (i32) 'f (f64)")).unwrap();
    assert_eq!(
        render(&output),
        expected("ExpandedAlt { thing: &'static std::option::Option<i32>, stuff: (i32, i32, f64) }")
    );
}

#[test]
fn simple_frag() {
    let rules = rules("macro_rules ! wacky_levels { ($i:ident) => ($i); }");
    let output = apply_once(&rules, &lex("hello")).unwrap();
    assert_eq!(render(&output), expected("hello"));
}

#[test]
fn rand() {
    let rules = rules(
        "macro_rules! impl_as_byte_slice {
            ($t:ty) => {
                impl AsByteSliceMut for [$t] {
                    fn as_byte_slice_mut(&mut self) -> &mut [u8] {
                        if self.len() == 0 {
                            unsafe {
                                // must not use null pointer
                                slice::from_raw_parts_mut(0x1 as *mut u8, 0)
                            }
                        } else {
                            unsafe {
                                slice::from_raw_parts_mut(&mut self[0]
                                    as *mut $t
                                    as *mut u8,
                                    self.len() * mem::size_of::<$t>()
                                )
                            }
                        }
                    }

                    fn to_le(&mut self) {
                        for x in self {
                            *x = x.to_le();
                        }
                    }
                }
            }
        }",
    );
    let output = apply_once(&rules, &lex("i32")).unwrap();
    assert_eq!(
        render(&output),
        expected(
            "impl AsByteSliceMut for [i32] {
                fn as_byte_slice_mut(&mut self) -> &mut [u8] {
                    if self.len() == 0 {
                        unsafe {
                            slice::from_raw_parts_mut(0x1 as *mut u8, 0)
                        }
                    } else {
                        unsafe {
                            slice::from_raw_parts_mut(&mut self[0]
                                as *mut i32
                                as *mut u8,
                                self.len() * mem::size_of::<i32>()
                            )
                        }
                    }
                }

                fn to_le(&mut self) {
                    for x in self {
                        *x = x.to_le();
                    }
                }
            }"
        )
    );
}

#[test]
fn no_rule_matches() {
    let rules = rules("macro_rules! m { (a) => (b); }");
    assert_eq!(apply_once(&rules, &lex("c")).err(), Some(MacroError::NoRuleMatched));
    assert_eq!(apply_once(&rules, &lex("a a")).err(), Some(MacroError::NoRuleMatched));
}

#[test]
fn mismatched_repetitions_are_refused() {
    let rules = rules("macro_rules! m { ($($a:ident)* ; $($b:ident)*) => ($(($a $b))*); }");
    assert_eq!(apply_once(&rules, &lex("x y ; z")).err(), Some(MacroError::MismatchedRepetition));
    let output = apply_once(&rules, &lex("x y ; z w")).unwrap();
    assert_eq!(render(&output), expected("(x z) (y w)"));
}

#[test]
fn unbound_fragments_are_kept() {
    let rules = rules("macro_rules! m { ($a:tt) => ($a $crate $zzz); }");
    let output = apply_once(&rules, &lex("q")).unwrap();
    assert_eq!(render(&output), expected("q $crate $zzz"));
}

#[test]
fn optional_and_separated_repetitions() {
    let rules = rules("macro_rules! m { ($($a:ident),* $(; $b:literal)?) => ([$($a)-*] $($b)?); }");
    let output = apply_once(&rules, &lex("x, y, z ; 3")).unwrap();
    assert_eq!(render(&output), expected("[x - y - z] 3"));
    let output = apply_once(&rules, &lex("")).unwrap();
    assert_eq!(render(&output), expected("[]"));
}

#[test]
fn macro_rules_lowering() {
    let mut meta = Metadata::fake("m");
    meta.extra_attributes.push(Attribute::Meta(Meta::Path(UnresolvedPath::fake("macro_export"))));
    let item = lower_macro_rules(meta, &UnresolvedPath::fake("macro_rules"), Some("m".to_string()), lex("x")).unwrap();
    assert!(item.macro_export);
    assert_eq!(item.metadata.extra_attributes.len(), 0);
    let not = lower_macro_rules(Metadata::fake("m"), &UnresolvedPath::fake("foo"), Some("m".to_string()), vec![]);
    assert!(matches!(not, Err(LowerError::NotAMacroDeclaration)));
    let unnamed = lower_macro_rules(Metadata::fake("m"), &UnresolvedPath::fake("macro_rules"), None, vec![]);
    assert!(matches!(unnamed, Err(LowerError::NotAMacroDeclaration)));
}

#[test]
fn respacing_twice_changes_nothing() {
    let once = tendon::tokens::respace(lex("a +=> b ('x :: y) $(c),+"));
    let twice = tendon::tokens::respace(lex(&render(&once)));
    assert_eq!(render(&once), render(&twice));
    assert_eq!(render(&once), expected("a +=> b ('x :: y) $(c),+"));
    let joint_then_ident = tendon::tokens::respace(vec![
        TokenTree::Punct('<', Spacing::Joint),
        TokenTree::Ident("T".to_string()),
    ]);
    match &joint_then_ident[0] {
        TokenTree::Punct(c, s) => assert_eq!((*c, *s), ('<', Spacing::Alone)),
        other => panic!("unexpected: {:?}", other),
    }
}

#[test]
fn each_fragment_kind_is_matched() {
    let rules = rules(
        "macro_rules! m {
            (block $x:block) => (B $x);
            (expr $x:expr ;) => (E $x);
            (item $x:item) => (I $x);
            (lifetime $x:lifetime) => (L $x);
            (literal $x:literal) => (N $x);
            (meta $x:meta) => (M $x);
            (pat $x:pat =>) => (P $x);
            (path $x:path ;) => (Q $x);
            (stmt $x:stmt) => (S $x);
            (ty $x:ty ;) => (T $x);
            (vis $x:vis fn) => (V $x);
        }",
    );
    let cases = [
        ("block { a }", "B { a }"),
        ("expr 1 + 2 ;", "E 1 + 2"),
        ("item struct S ;", "I struct S ;"),
        ("lifetime 'a", "L 'a"),
        ("literal 3", "N 3"),
        ("meta a = 1", "M a = 1"),
        ("pat Some(x) =>", "P Some(x)"),
        ("path a::b ;", "Q a::b"),
        ("stmt let x = 1 ;", "S let x = 1 ;"),
        ("ty Vec<u8> ;", "T Vec<u8>"),
        ("vis pub(crate) fn", "V pub(crate)"),
    ];
    for (input, output) in cases.iter() {
        let got = apply_once(&rules, &lex(input)).unwrap();
        assert_eq!(render(&got), expected(output), "input {}", input);
    }
    assert_eq!(apply_once(&rules, &lex("expr ;")).err(), Some(MacroError::NoRuleMatched));
    assert_eq!(apply_once(&rules, &lex("lifetime a")).err(), Some(MacroError::NoRuleMatched));
}

#[test]
fn text_after_the_last_space_is_kept() {
    assert_eq!(tendon::rustdoc::remove_upto_space("Struct std::vec::Vec"), "std::vec::Vec");
    assert_eq!(tendon::rustdoc::remove_upto_space("a  b c"), "c");
    assert_eq!(tendon::rustdoc::remove_upto_space("nospace"), "nospace");
    assert_eq!(tendon::rustdoc::remove_upto_space("ends "), "");
}

#[test]
fn c_string_literals_are_matched() {
    let rules = rules("macro_rules! m { (literal $x:literal) => (N $x); (expr $x:expr) => (E $x); (ty $x:ty) => (T $x); }");
    let output = apply_once(&rules, &lex("literal c\"x\"")).unwrap();
    assert_eq!(render(&output), expected("N c\"x\""));
    let output = apply_once(&rules, &lex("expr c\"x\"")).unwrap();
    assert_eq!(render(&output), expected("E c\"x\""));
    let output = apply_once(&rules, &lex("ty [u8; c\"x\"]")).unwrap();
    assert_eq!(render(&output), expected("T [u8; c\"x\"]"));
}
