//! Inspecting save-analysis definitions: their signatures, colored by nesting.

use vstd::prelude::*;
use crate::defs::DefId;
use vstd::string::*;

verus! {

/// The terminal color escape with index `k`: reset, blue, magenta, cyan.
pub open spec fn color(k: int) -> Seq<char> {
    if k == 0 {
        "\x1b[0m"@
    } else if k == 1 {
        "\x1b[34m"@
    } else if k == 2 {
        "\x1b[35m"@
    } else {
        "\x1b[36m"@
    }
}

/// The terminal color escape with index `k`.
fn color_code(k: usize) -> (r: &'static str)
    requires
        k < 4,
    ensures
        r@ == color(k as int),
{
    if k == 0 {
        "\x1b[0m"
    } else if k == 1 {
        "\x1b[34m"
    } else if k == 2 {
        "\x1b[35m"
    } else {
        "\x1b[36m"
    }
}

/// A stack of colors, one per open nesting level, and the color last handed out.
pub struct Colorstack(Vec<usize>, usize);

/// What a color stack holds: the open colors, innermost last, and the color last handed out.
pub struct ColorstackView {
    pub stack: Seq<usize>,
    pub current: usize,
}

impl View for Colorstack {
    type V = ColorstackView;

    closed spec fn view(&self) -> ColorstackView {
        ColorstackView { stack: self.0@, current: self.1 }
    }
}

/// The colors cycle through 1, 2, 3; color 0 resets.
pub open spec fn next_color(current: usize) -> usize {
    if current + 1 >= 4 {
        1
    } else {
        (current + 1) as usize
    }
}

/// A color stack is well formed: every color and the current one are escapes.
pub open spec fn colors_ok(v: ColorstackView) -> bool {
    &&& v.current < 4
    &&& forall|i: int| 0 <= i < v.stack.len() ==> #[trigger] v.stack[i] < 4
}

impl Colorstack {
    /// A stack holding the reset color.
    pub fn new() -> (r: Colorstack)
        ensures
            r@ == (ColorstackView { stack: seq![0usize], current: 1 }),
    {
        let r = Colorstack(vec![0], 1);
        proof {
            assert(r@.stack =~= seq![0usize]);
        }
        r
    }

    /// The innermost color.
    pub fn last(&self) -> (r: usize)
        requires
            self@.stack.len() > 0,
        ensures
            r == self@.stack.last(),
    {
        self.0[self.0.len() - 1]
    }

    /// Open a level with the next color, and write its escape to `out`.
    pub fn push(&mut self, out: &mut String)
        requires
            colors_ok(old(self)@),
        ensures
            final(self)@ == (ColorstackView {
                stack: old(self)@.stack.push(next_color(old(self)@.current)),
                current: next_color(old(self)@.current),
            }),
            colors_ok(final(self)@),
            final(out)@ == old(out)@ + color(next_color(old(self)@.current) as int),
    {
        self.1 = self.1 + 1;
        if self.1 >= 4 {
            self.1 = 1;
        }
        let ghost before = self.0@;
        assert(before == old(self)@.stack);
        self.0.push(self.1);
        proof {
            assert(self.0@ == before.push(self.1));
            assert forall|i: int| 0 <= i < self.0@.len() implies #[trigger] self.0@[i] < 4 by {
                if i < before.len() {
                    assert(self.0@[i] == before[i]);
                    assert(old(self)@.stack[i] < 4);
                }
            }
        }
        let c = self.last();
        out.append(color_code(c));
    }

    /// Close the innermost level, and write the escape of the level around it to `out`. There
    /// must be a level around it.
    pub fn pop(&mut self, out: &mut String)
        requires
            colors_ok(old(self)@),
            old(self)@.stack.len() >= 2,
        ensures
            final(self)@ == (ColorstackView { stack: old(self)@.stack.drop_last(), ..old(self)@ }),
            colors_ok(final(self)@),
            final(out)@ == old(out)@ + color(old(self)@.stack.drop_last().last() as int),
    {
        self.0.pop();
        proof {
            assert(self@.stack =~= old(self)@.stack.drop_last());
        }
        let c = self.last();
        out.append(color_code(c));
    }
}

/// A highlighted element of a signature: a definition or a reference, by its character span
/// and the id of what it names.
#[derive(Debug, Clone, Copy)]
pub struct SigElement {
    pub start: usize,
    pub end: usize,
    pub id: DefId,
}

/// A signature: its text, and the definitions and references within it.
pub struct Signature {
    pub text: String,
    pub defs: Vec<SigElement>,
    pub refs: Vec<SigElement>,
}

/// Builds a signature piece by piece, recording where each definition and reference lands.
pub struct SigBuilder {
    pub text: String,
    pub refs: Vec<SigElement>,
    pub defs: Vec<SigElement>,
}

impl SigBuilder {
    /// An empty signature.
    pub fn new() -> (r: SigBuilder)
        ensures
            r.text@ == Seq::<char>::empty(),
            r.refs@ == Seq::<SigElement>::empty(),
            r.defs@ == Seq::<SigElement>::empty(),
    {
        SigBuilder { text: String::new(), refs: Vec::new(), defs: Vec::new() }
    }

    /// Append plain text.
    pub fn text(&mut self, s: &str)
        ensures
            final(self).text@ == old(self).text@ + s@,
            final(self).refs@ == old(self).refs@,
            final(self).defs@ == old(self).defs@,
    {
        self.text.append(s);
    }

    /// Append the text of an element and the element spanning it.
    fn element(&mut self, id: DefId, s: &str) -> (e: SigElement)
        ensures
            final(self).text@ == old(self).text@ + s@,
            final(self).refs@ == old(self).refs@,
            final(self).defs@ == old(self).defs@,
            e == (SigElement { start: old(self).text@.len() as usize, end: (old(self).text@.len() + s@.len()) as usize, id }),
            old(self).text@.len() + s@.len() <= usize::MAX,
    {
        let start = self.text.as_str().unicode_len();
        self.text.append(s);
        let end = self.text.as_str().unicode_len();
        SigElement { start, end, id }
    }

    /// Append the text of a definition, and record it.
    pub fn def(&mut self, id: DefId, s: &str)
        ensures
            final(self).text@ == old(self).text@ + s@,
            final(self).refs@ == old(self).refs@,
            final(self).defs@ == old(self).defs@.push(
                SigElement { start: old(self).text@.len() as usize, end: (old(self).text@.len() + s@.len()) as usize, id },
            ),
    {
        let e = self.element(id, s);
        self.defs.push(e);
    }

    /// Append the text of a reference, and record it.
    pub fn reference(&mut self, id: DefId, s: &str)
        ensures
            final(self).text@ == old(self).text@ + s@,
            final(self).defs@ == old(self).defs@,
            final(self).refs@ == old(self).refs@.push(
                SigElement { start: old(self).text@.len() as usize, end: (old(self).text@.len() + s@.len()) as usize, id },
            ),
    {
        let e = self.element(id, s);
        self.refs.push(e);
    }

    /// The signature built.
    pub fn build(self) -> (r: Signature)
        ensures
            r.text@ == self.text@,
            r.refs@ == self.refs@,
            r.defs@ == self.defs@,
    {
        Signature { text: self.text, defs: self.defs, refs: self.refs }
    }
}

/// The state of printing a signature: the color stack, the text written, and whether a level
/// was closed that was never opened.
pub struct PrintState {
    pub colors: ColorstackView,
    pub out: Seq<char>,
    pub failed: bool,
}

/// Open a level.
pub open spec fn state_push(s: PrintState) -> PrintState {
    let c = next_color(s.colors.current);
    PrintState {
        colors: ColorstackView { stack: s.colors.stack.push(c), current: c },
        out: s.out + color(c as int),
        ..s
    }
}

/// Close a level; closing the outermost one fails.
pub open spec fn state_pop(s: PrintState) -> PrintState {
    if s.colors.stack.len() < 2 {
        PrintState { failed: true, ..s }
    } else {
        let stack = s.colors.stack.drop_last();
        PrintState {
            colors: ColorstackView { stack, ..s.colors },
            out: s.out + color(stack.last() as int),
            ..s
        }
    }
}

/// At position `i`, open a level where each element starts and close one where it ends.
pub open spec fn elems_at(s: PrintState, es: Seq<SigElement>, i: int) -> PrintState
    decreases es.len(),
{
    if es.len() == 0 || s.failed {
        s
    } else {
        let s1 = elems_at(s, es.drop_last(), i);
        if s1.failed {
            s1
        } else {
            let e = es.last();
            let s2 = if e.start == i {
                state_push(s1)
            } else {
                s1
            };
            if e.end == i {
                state_pop(s2)
            } else {
                s2
            }
        }
    }
}

/// Print a signature up to position `n`: at each position, the definitions then the
/// references open and close their levels, then the character there is written.
pub open spec fn printed(sig: Signature, n: nat) -> PrintState
    decreases n,
{
    if n == 0 {
        PrintState { colors: ColorstackView { stack: seq![0usize], current: 1 }, out: Seq::empty(), failed: false }
    } else {
        let i = n - 1;
        let s0 = printed(sig, (n - 1) as nat);
        let s1 = elems_at(s0, sig.defs@, i);
        let s2 = elems_at(s1, sig.refs@, i);
        if s2.failed || i >= sig.text@.len() {
            s2
        } else {
            PrintState { out: s2.out.push(sig.text@[i]), ..s2 }
        }
    }
}

/// The colors stay escapes as levels open and close.
proof fn lemma_elems_colors(s: PrintState, es: Seq<SigElement>, i: int)
    requires
        colors_ok(s.colors),
    ensures
        colors_ok(elems_at(s, es, i).colors),
        s.failed ==> elems_at(s, es, i) == s,
    decreases es.len(),
{
    if es.len() > 0 && !s.failed {
        lemma_elems_colors(s, es.drop_last(), i);
    }
}

/// Open and close the levels of the elements at position `i`.
fn print_elems(stack: &mut Colorstack, out: &mut String, es: &Vec<SigElement>, i: usize) -> (ok: bool)
    requires
        colors_ok(old(stack)@),
    ensures
        ({
            let s = elems_at(
                PrintState { colors: old(stack)@, out: old(out)@, failed: false },
                es@,
                i as int,
            );
            &&& ok == !s.failed
            &&& ok ==> final(stack)@ == s.colors && final(out)@ == s.out
            &&& colors_ok(final(stack)@)
        }),
{
    let ghost s0 = PrintState { colors: stack@, out: out@, failed: false };
    let mut k: usize = 0;
    proof {
        assert(es@.take(0) =~= Seq::<SigElement>::empty());
    }
    while k < es.len()
        invariant
            k <= es.len(),
            colors_ok(stack@),
            s0 == (PrintState { colors: old(stack)@, out: old(out)@, failed: false }),
            ({
                let s = elems_at(s0, es@.take(k as int), i as int);
                &&& !s.failed
                &&& stack@ == s.colors
                &&& out@ == s.out
            }),
        decreases es.len() - k,
    {
        let e = es[k];
        let ghost sk = elems_at(s0, es@.take(k as int), i as int);
        proof {
            assert(es@.take(k + 1).drop_last() =~= es@.take(k as int));
            assert(es@.take(k + 1).last() == e);
        }
        if e.start == i {
            stack.push(out);
        }
        if e.end == i {
            if stack.0.len() < 2 {
                proof {
                    assert(stack@.stack.len() < 2);
                    let s2 = if e.start == i {
                        state_push(sk)
                    } else {
                        sk
                    };
                    assert(stack@ == s2.colors);
                    assert(elems_at(s0, es@.take(k + 1), i as int).failed);
                    lemma_elems_rest_failed(s0, es@, k as int + 1, i as int);
                    assert(es@.take(es@.len() as int) =~= es@);
                }
                return false;
            }
            stack.pop(out);
        }
        k = k + 1;
    }
    proof {
        assert(es@.take(es@.len() as int) =~= es@);
    }
    true
}

/// Once printing has failed, later elements leave it failed.
proof fn lemma_elems_rest_failed(s: PrintState, es: Seq<SigElement>, k: int, i: int)
    requires
        0 <= k <= es.len(),
        elems_at(s, es.take(k), i).failed,
    ensures
        elems_at(s, es, i).failed,
    decreases es.len() - k,
{
    if k < es.len() {
        let t = es.take(k + 1);
        assert(t.drop_last() =~= es.take(k));
        lemma_elems_rest_failed(s, es, k + 1, i);
    } else {
        assert(es.take(k) =~= es);
    }
}

/// The signature's text, with an escape opening each definition and reference and one
/// restoring the enclosing color where it ends. Every element must end inside an element that
/// is still open.
pub fn print_sig(sig: &Signature) -> (r: String)
    requires
        sig.text@.len() < usize::MAX,
        !printed(*sig, (sig.text@.len() + 1) as nat).failed,
    ensures
        r@ == printed(*sig, (sig.text@.len() + 1) as nat).out,
{
    let mut stack = Colorstack::new();
    let mut out = String::new();
    let n = sig.text.unicode_len();
    let mut i: usize = 0;
    proof {
        assert(out@ =~= Seq::<char>::empty());
    }
    while i <= n
        invariant
            n == sig.text@.len(),
            n < usize::MAX,
            i <= n + 1,
            colors_ok(stack@),
            !printed(*sig, (n + 1) as nat).failed,
            !printed(*sig, i as nat).failed,
            stack@ == printed(*sig, i as nat).colors,
            out@ == printed(*sig, i as nat).out,
        decreases n + 1 - i,
    {
        let ghost s0 = printed(*sig, i as nat);
        let ok1 = print_elems(&mut stack, &mut out, &sig.defs, i);
        if !ok1 {
            proof {
                lemma_printed_failed(*sig, (i + 1) as nat, (n + 1) as nat);
            }
            return out;
        }
        let ok2 = print_elems(&mut stack, &mut out, &sig.refs, i);
        if !ok2 {
            proof {
                lemma_printed_failed(*sig, (i + 1) as nat, (n + 1) as nat);
            }
            return out;
        }
        if i < n {
            let ghost before = out@;
            out.append(sig.text.as_str().substring_char(i, i + 1));
            proof {
                assert(out@ =~= before.push(sig.text@[i as int]));
            }
        }
        i = i + 1;
    }
    out
}

/// Once printing has failed, printing further still fails.
proof fn lemma_printed_failed(sig: Signature, m: nat, n: nat)
    requires
        m <= n,
        printed(sig, m).failed,
    ensures
        printed(sig, n).failed,
    decreases n - m,
{
    if m < n {
        let s1 = elems_at(printed(sig, m), sig.defs@, m as int);
        lemma_elems_failed_stays(printed(sig, m), sig.defs@, m as int);
        lemma_elems_failed_stays(s1, sig.refs@, m as int);
        lemma_printed_failed(sig, m + 1, n);
    }
}

/// Elements leave a failed print failed.
proof fn lemma_elems_failed_stays(s: PrintState, es: Seq<SigElement>, i: int)
    requires
        s.failed,
    ensures
        elems_at(s, es, i).failed,
{
}

/// Something that can describe itself as text.
pub trait Inspect {
    /// Whether the value can be described.
    spec fn inspectable(&self) -> bool;

    /// What the description says.
    spec fn description(&self) -> Seq<char>;

    /// The description.
    fn inspect(&self) -> (r: String)
        requires
            self.inspectable(),
        ensures
            r@ == self.description(),
    ;
}

/// A definition from save-analysis: its signature, if it has one.
pub struct Def {
    pub sig: Option<Signature>,
}

impl Inspect for Def {
    /// A definition is described by its signature, whose elements must nest.
    open spec fn inspectable(&self) -> bool {
        match self.sig {
            Some(sig) => sig.text@.len() < usize::MAX && !printed(sig, (sig.text@.len() + 1) as nat).failed,
            None => true,
        }
    }

    /// The colored signature of the definition; nothing where it has none.
    open spec fn description(&self) -> Seq<char> {
        match self.sig {
            Some(sig) => printed(sig, (sig.text@.len() + 1) as nat).out,
            None => Seq::empty(),
        }
    }

    fn inspect(&self) -> (r: String) {
        match &self.sig {
            Some(sig) => print_sig(sig),
            None => String::new(),
        }
    }
}

/// A value shown through its `Inspect` description.
pub struct Inspected<'a, T: Inspect>(pub &'a T);

impl<'a, T: Inspect> Inspected<'a, T> {
    /// The description of the value.
    pub fn display(&self) -> (r: String)
        requires
            self.0.inspectable(),
        ensures
            r@ == self.0.description(),
    {
        self.0.inspect()
    }
}

/// A signature under construction.
pub struct Sig {}

} // verus!
