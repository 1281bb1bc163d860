//! Small string utilities: the `::` path separator, decimal numbers, and joining.

use vstd::prelude::*;
use vstd::string::*;

verus! {

/// Whether `s` holds the path separator `::` starting at position `i`.
pub open spec fn sep_at(s: Seq<char>, i: int) -> bool {
    0 <= i && i + 1 < s.len() && s[i] == ':' && s[i + 1] == ':'
}

/// Whether `s` contains the path separator `::` anywhere.
pub open spec fn has_path_sep(s: Seq<char>) -> bool {
    exists|i: int| #[trigger] sep_at(s, i)
}

/// The position of the leftmost `::` in `s`, or `s.len()` if there is none.
pub open spec fn first_sep_index(s: Seq<char>) -> int
    decreases s.len(),
{
    if s.len() < 2 {
        s.len() as int
    } else if s[0] == ':' && s[1] == ':' {
        0
    } else {
        1 + first_sep_index(s.drop_first())
    }
}

/// `s` split on `::`, scanning left to right, as `str::split("::")` does.
pub open spec fn split_on_sep(s: Seq<char>) -> Seq<Seq<char>>
    decreases s.len(),
{
    let i = first_sep_index(s);
    if i >= s.len() {
        seq![s]
    } else {
        proof {
            lemma_first_sep_index_bounds(s);
        }
        seq![s.take(i)] + split_on_sep(s.skip(i + 2))
    }
}

/// `first_sep_index` lies within the string, and is the leftmost separator when it is not its end.
pub proof fn lemma_first_sep_index_bounds(s: Seq<char>)
    ensures
        0 <= first_sep_index(s) <= s.len(),
        first_sep_index(s) < s.len() ==> sep_at(s, first_sep_index(s)),
        forall|j: int| 0 <= j < first_sep_index(s) ==> !sep_at(s, j),
    decreases s.len(),
{
    if s.len() >= 2 && !(s[0] == ':' && s[1] == ':') {
        lemma_first_sep_index_bounds(s.drop_first());
        assert forall|j: int| 0 <= j < first_sep_index(s) implies !sep_at(s, j) by {
            if j > 0 {
                assert(!sep_at(s.drop_first(), j - 1));
            }
        }
    }
}

/// The position of the leftmost `::` at or after `from` is found by scanning from `from`.
proof fn lemma_first_sep_scan(s: Seq<char>, from: int)
    requires
        0 <= from <= s.len(),
        forall|j: int| 0 <= j < from ==> !sep_at(s, j),
    ensures
        first_sep_index(s) == from + first_sep_index(s.skip(from)),
    decreases from,
{
    if from > 0 {
        assert(s.len() >= 1);
        if s.len() < 2 {
            assert(s.skip(from).len() == s.len() - from);
        } else {
            assert(!sep_at(s, 0));
            let t = s.drop_first();
            assert forall|j: int| 0 <= j < from - 1 implies !sep_at(t, j) by {
                assert(!sep_at(s, j + 1));
            }
            lemma_first_sep_scan(t, from - 1);
            assert(t.skip(from - 1) =~= s.skip(from));
        }
    } else {
        assert(s.skip(0) =~= s);
    }
}

/// Splitting gives at least one piece.
pub proof fn lemma_split_nonempty(s: Seq<char>)
    ensures
        split_on_sep(s).len() >= 1,
{
    lemma_first_sep_index_bounds(s);
}

/// Whether the string `s` contains `::`.
pub fn contains_path_sep(s: &str) -> (r: bool)
    ensures
        r == has_path_sep(s@),
{
    let n = s.unicode_len();
    if n < 2 {
        return false;
    }
    let mut i: usize = 0;
    while i + 1 < n
        invariant
            n == s@.len(),
            n >= 2,
            i + 1 <= n,
            forall|j: int| 0 <= j < i ==> !sep_at(s@, j),
        decreases n - i,
    {
        if s.get_char(i) == ':' && s.get_char(i + 1) == ':' {
            assert(sep_at(s@, i as int));
            return true;
        }
        i = i + 1;
    }
    assert forall|j: int| !sep_at(s@, j) by {
        if 0 <= j < i {
        }
    }
    false
}

/// Splits `s` on `::`, as `str::split("::")` does, collecting the pieces as owned strings.
pub fn split_path_str(s: &str) -> (r: Vec<String>)
    ensures
        r.deep_view() == split_on_sep(s@),
{
    let n = s.unicode_len();
    let mut out: Vec<String> = Vec::new();
    let mut start: usize = 0;
    let mut i: usize = 0;
    proof {
        assert(s@.skip(0) =~= s@);
        assert(out.deep_view() + split_on_sep(s@) =~= split_on_sep(s@));
    }
    while i < n
        invariant
            n == s@.len(),
            start <= i <= n,
            forall|j: int| start <= j < i ==> !sep_at(s@, j),
            out.deep_view() + split_on_sep(s@.skip(start as int)) == split_on_sep(s@),
        decreases n - i,
    {
        if i + 1 < n && s.get_char(i) == ':' && s.get_char(i + 1) == ':' {
            let piece = s.substring_char(start, i).to_string();
            proof {
                let rest = s@.skip(start as int);
                assert forall|j: int| 0 <= j < i - start implies !sep_at(rest, j) by {
                    assert(!sep_at(s@, start + j));
                }
                assert(sep_at(rest, i - start));
                lemma_first_sep_scan(rest, i - start);
                assert(first_sep_index(rest.skip(i - start)) == 0);
                assert(rest.take(i - start) =~= s@.subrange(start as int, i as int));
                assert(rest.skip(i - start + 2) =~= s@.skip(i + 2));
                assert(split_on_sep(rest) == seq![rest.take(i - start)] + split_on_sep(
                    rest.skip(i - start + 2),
                ));
                assert(out.deep_view().push(piece@) + split_on_sep(s@.skip(i + 2))
                    =~= out.deep_view() + split_on_sep(rest));
            }
            out.push(piece);
            i = i + 2;
            start = i;
        } else {
            proof {
                if i + 1 < n {
                    assert(!sep_at(s@, i as int));
                } else {
                    assert(!sep_at(s@, i as int));
                }
            }
            i = i + 1;
        }
    }
    let last = s.substring_char(start, n).to_string();
    proof {
        let rest = s@.skip(start as int);
        assert forall|j: int| 0 <= j < n - start implies !sep_at(rest, j) by {
            assert(!sep_at(s@, start + j));
        }
        lemma_first_sep_scan(rest, n - start);
        assert(rest.skip(n - start).len() == 0);
        assert(first_sep_index(rest) == rest.len());
        assert(rest =~= s@.subrange(start as int, n as int));
        assert(split_on_sep(rest) == seq![rest]);
        assert(out.deep_view().push(last@) =~= out.deep_view() + split_on_sep(rest));
    }
    out.push(last);
    out
}

/// The decimal digits of `n`, most significant first.
pub open spec fn decimal(n: nat) -> Seq<char>
    decreases n,
{
    if n < 10 {
        seq![digit_char(n)]
    } else {
        decimal(n / 10).push(digit_char(n % 10))
    }
}

/// The character of a single decimal digit.
pub open spec fn digit_char(d: nat) -> char {
    if d == 0 {
        '0'
    } else if d == 1 {
        '1'
    } else if d == 2 {
        '2'
    } else if d == 3 {
        '3'
    } else if d == 4 {
        '4'
    } else if d == 5 {
        '5'
    } else if d == 6 {
        '6'
    } else if d == 7 {
        '7'
    } else if d == 8 {
        '8'
    } else {
        '9'
    }
}

/// The one-character string of a decimal digit.
fn digit_str(d: u32) -> (r: &'static str)
    requires
        d < 10,
    ensures
        r@ == seq![digit_char(d as nat)],
{
    if d == 0 {
        proof { reveal_strlit("0"); }
        "0"
    } else if d == 1 {
        proof { reveal_strlit("1"); }
        "1"
    } else if d == 2 {
        proof { reveal_strlit("2"); }
        "2"
    } else if d == 3 {
        proof { reveal_strlit("3"); }
        "3"
    } else if d == 4 {
        proof { reveal_strlit("4"); }
        "4"
    } else if d == 5 {
        proof { reveal_strlit("5"); }
        "5"
    } else if d == 6 {
        proof { reveal_strlit("6"); }
        "6"
    } else if d == 7 {
        proof { reveal_strlit("7"); }
        "7"
    } else if d == 8 {
        proof { reveal_strlit("8"); }
        "8"
    } else {
        proof { reveal_strlit("9"); }
        "9"
    }
}

/// Appends the decimal representation of `n` to `out`.
pub fn push_decimal(out: &mut String, n: u32)
    ensures
        final(out)@ == old(out)@ + decimal(n as nat),
    decreases n,
{
    if n < 10 {
        out.append(digit_str(n));
    } else {
        push_decimal(out, n / 10);
        out.append(digit_str(n % 10));
        proof {
            assert(decimal(n as nat) == decimal((n / 10) as nat).push(digit_char((n % 10) as nat)));
        }
    }
}

/// Appends `::` followed by each segment, in order.
pub open spec fn joined_segments(segs: Seq<Seq<char>>) -> Seq<char>
    decreases segs.len(),
{
    if segs.len() == 0 {
        Seq::empty()
    } else {
        joined_segments(segs.drop_last()) + "::"@ + segs.last()
    }
}

/// Appends `::` and each segment of `segs` to `out`.
pub fn push_joined_segments(out: &mut String, segs: &Vec<String>)
    ensures
        final(out)@ == old(out)@ + joined_segments(segs.deep_view()),
{
    let n = segs.len();
    let mut i: usize = 0;
    proof { reveal_strlit("::"); }
    while i < n
        invariant
            n == segs.len(),
            i <= n,
            out@ == old(out)@ + joined_segments(segs.deep_view().take(i as int)),
        decreases n - i,
    {
        out.append("::");
        out.append(segs[i].as_str());
        proof {
            let t = segs.deep_view().take(i + 1);
            assert(t.drop_last() =~= segs.deep_view().take(i as int));
            assert(t.last() == segs[i as int]@);
        }
        i = i + 1;
    }
    proof {
        assert(segs.deep_view().take(n as int) =~= segs.deep_view());
    }
}

/// Element-wise equality of two lists of strings.
pub fn same_strings(a: &Vec<String>, b: &Vec<String>) -> (r: bool)
    ensures
        r == (a.deep_view() == b.deep_view()),
{
    if a.len() != b.len() {
        proof {
            assert(a.deep_view().len() != b.deep_view().len());
        }
        return false;
    }
    let n = a.len();
    let mut i: usize = 0;
    while i < n
        invariant
            n == a.len(),
            n == b.len(),
            i <= n,
            forall|j: int| 0 <= j < i ==> a[j]@ == b[j]@,
        decreases n - i,
    {
        if a[i] != b[i] {
            proof {
                assert(a.deep_view()[i as int] != b.deep_view()[i as int]);
            }
            return false;
        }
        i = i + 1;
    }
    proof {
        assert(a.deep_view() =~= b.deep_view());
    }
    true
}

/// A copy of a list of strings.
pub fn copy_strings(a: &Vec<String>) -> (r: Vec<String>)
    ensures
        r.deep_view() == a.deep_view(),
        r@ == a@,
{
    let r = a.clone();
    proof {
        assert(r@ =~= a@);
        assert(r.deep_view() =~= a.deep_view());
    }
    r
}

/// Owned strings of each of `parts`.
pub fn owned_strings(parts: &[&str]) -> (r: Vec<String>)
    ensures
        r.len() == parts@.len(),
        forall|i: int| 0 <= i < parts@.len() ==> #[trigger] r[i]@ == parts@[i]@,
{
    let mut out: Vec<String> = Vec::new();
    let n = parts.len();
    let mut i: usize = 0;
    while i < n
        invariant
            n == parts@.len(),
            i <= n,
            out.len() == i,
            forall|j: int| 0 <= j < i ==> #[trigger] out[j]@ == parts@[j]@,
        decreases n - i,
    {
        out.push(parts[i].to_string());
        i = i + 1;
    }
    out
}

/// Whether two strings hold the same characters.
pub fn str_eq(a: &str, b: &str) -> (r: bool)
    ensures
        r == (a@ == b@),
{
    a.to_string() == b.to_string()
}

/// `String::push`: appends the character to the end of the string.
#[verifier::external_body]
pub(crate) fn push_char(s: &mut String, c: char)
    ensures
        final(s)@ == old(s)@.push(c),
{
    s.push(c)
}

} // verus!
