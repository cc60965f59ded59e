use vstd::prelude::*;
use vstd::string::StrSliceExecFns;

verus! {

/// Index of the first element that satisfies `p`, or -1.
pub open spec fn first_index<A>(rows: Seq<A>, p: spec_fn(A) -> bool) -> int
    decreases rows.len(),
{
    if rows.len() == 0 {
        -1
    } else if p(rows[0]) {
        0
    } else {
        let i = first_index(rows.skip(1), p);
        if i < 0 {
            -1
        } else {
            i + 1
        }
    }
}

pub proof fn lemma_first_index<A>(rows: Seq<A>, p: spec_fn(A) -> bool)
    ensures
        first_index(rows, p) == -1 <==> (forall|j: int| 0 <= j < rows.len() ==> !p(#[trigger] rows[j])),
        first_index(rows, p) != -1 ==> {
            let i = first_index(rows, p);
            &&& 0 <= i < rows.len()
            &&& p(rows[i])
            &&& forall|j: int| 0 <= j < i ==> !p(#[trigger] rows[j])
        },
    decreases rows.len(),
{
    if rows.len() > 0 {
        let tail = rows.skip(1);
        lemma_first_index(tail, p);
        assert forall|j: int| 1 <= j < rows.len() implies rows[j] == tail[j - 1] by {}
        if !p(rows[0]) && first_index(tail, p) == -1 {
            assert forall|j: int| 0 <= j < rows.len() implies !p(#[trigger] rows[j]) by {
                if j > 0 {
                    assert(rows[j] == tail[j - 1]);
                }
            }
        }
        if !p(rows[0]) && first_index(tail, p) != -1 {
            let i = first_index(tail, p);
            assert(rows[i + 1] == tail[i]);
            assert forall|j: int| 0 <= j < i + 1 implies !p(#[trigger] rows[j]) by {
                if j > 0 {
                    assert(rows[j] == tail[j - 1]);
                }
            }
        }
    }
}

/// Appending an element that satisfies `p` to a sequence where none does
/// makes it the first match.
pub proof fn lemma_first_index_push<A>(rows: Seq<A>, x: A, p: spec_fn(A) -> bool)
    requires
        first_index(rows, p) == -1,
        p(x),
    ensures
        first_index(rows.push(x), p) == rows.len(),
{
    let r = rows.push(x);
    lemma_first_index(rows, p);
    lemma_first_index(r, p);
    assert(r[rows.len() as int] == x);
    assert forall|j: int| 0 <= j < rows.len() implies !p(#[trigger] r[j]) by {
        assert(r[j] == rows[j]);
    }
}

/// Appending an element that does not satisfy `p` keeps the first match.
pub proof fn lemma_first_index_push_other<A>(rows: Seq<A>, x: A, p: spec_fn(A) -> bool)
    requires
        !p(x),
    ensures
        first_index(rows.push(x), p) == first_index(rows, p),
{
    let r = rows.push(x);
    lemma_first_index(rows, p);
    lemma_first_index(r, p);
    assert forall|j: int| 0 <= j < rows.len() implies r[j] == rows[j] by {}
    if first_index(r, p) != -1 {
        assert(p(r[first_index(r, p)]));
    }
    if first_index(rows, p) != -1 {
        assert(p(r[first_index(rows, p)]));
    }
}

/// Appending anything keeps a match that was already there.
pub proof fn lemma_first_index_push_found<A>(rows: Seq<A>, x: A, p: spec_fn(A) -> bool)
    requires
        first_index(rows, p) != -1,
    ensures
        first_index(rows.push(x), p) == first_index(rows, p),
{
    let r = rows.push(x);
    let i = first_index(rows, p);
    lemma_first_index(rows, p);
    lemma_first_index(r, p);
    assert(r[i] == rows[i]);
    let k = first_index(r, p);
    if k != -1 && k < i {
        assert(r[k] == rows[k]);
    }
}

/// Character-wise equality of two strings.
pub fn str_eq(a: &str, b: &str) -> (r: bool)
    ensures
        r == (a@ == b@),
{
    let n = a.unicode_len();
    if n != b.unicode_len() {
        return false;
    }
    let mut i: usize = 0;
    while i < n
        invariant
            n == a@.len() == b@.len(),
            i <= n,
            forall|j: int| 0 <= j < i ==> a@[j] == b@[j],
        decreases n - i,
    {
        if a.get_char(i) != b.get_char(i) {
            return false;
        }
        i = i + 1;
    }
    assert(a@ =~= b@);
    true
}

/// Whether `p` occurs in `s` starting at position `i`.
pub open spec fn occurs_at(s: Seq<char>, p: Seq<char>, i: int) -> bool {
    0 <= i && i + p.len() <= s.len() && s.subrange(i, i + p.len()) == p
}

/// Number of matches of `p` in `s` from position `i` on, taken leftmost
/// first and without overlap; an empty pattern matches at every position,
/// the end included.
pub open spec fn matches_from(s: Seq<char>, p: Seq<char>, i: int) -> nat
    decreases s.len() + 1 - i,
{
    if i < 0 || i > s.len() {
        0
    } else if occurs_at(s, p, i) {
        1 + matches_from(
            s,
            p,
            i + if p.len() == 0 {
                1
            } else {
                p.len() as int
            },
        )
    } else {
        matches_from(s, p, i + 1)
    }
}

/// `s` from position `i` on, with each of those matches of `from` replaced
/// by `to`.
pub open spec fn replaced_from(s: Seq<char>, from: Seq<char>, to: Seq<char>, i: int) -> Seq<char>
    decreases s.len() + 1 - i,
{
    if i < 0 || i > s.len() {
        Seq::empty()
    } else if occurs_at(s, from, i) {
        if from.len() == 0 {
            to + if i < s.len() {
                seq![s[i]] + replaced_from(s, from, to, i + 1)
            } else {
                Seq::empty()
            }
        } else {
            to + replaced_from(s, from, to, i + from.len())
        }
    } else if i < s.len() {
        seq![s[i]] + replaced_from(s, from, to, i + 1)
    } else {
        Seq::empty()
    }
}

/// The lower-case hex digit of a value below 16.
pub open spec fn hex_digit(n: u8) -> char {
    seq!['0', '1', '2', '3', '4', '5', '6', '7', '8', '9', 'a', 'b', 'c', 'd', 'e', 'f'][n as int]
}

/// The one-character text of a hex digit.
pub fn hex_digit_str(n: u8) -> (r: &'static str)
    requires
        n < 16,
    ensures
        r@ == seq![hex_digit(n)],
{
    proof {
        reveal_strlit("0");
        reveal_strlit("1");
        reveal_strlit("2");
        reveal_strlit("3");
        reveal_strlit("4");
        reveal_strlit("5");
        reveal_strlit("6");
        reveal_strlit("7");
        reveal_strlit("8");
        reveal_strlit("9");
        reveal_strlit("a");
        reveal_strlit("b");
        reveal_strlit("c");
        reveal_strlit("d");
        reveal_strlit("e");
        reveal_strlit("f");
    }
    match n {
        0u8 => "0",
        1u8 => "1",
        2u8 => "2",
        3u8 => "3",
        4u8 => "4",
        5u8 => "5",
        6u8 => "6",
        7u8 => "7",
        8u8 => "8",
        9u8 => "9",
        10u8 => "a",
        11u8 => "b",
        12u8 => "c",
        13u8 => "d",
        14u8 => "e",
        _ => "f",
    }
}

fn occurs_here(s: &str, n: usize, p: &str, m: usize, i: usize) -> (r: bool)
    requires
        n == s@.len(),
        m == p@.len(),
        i <= n,
    ensures
        r == occurs_at(s@, p@, i as int),
{
    if m > n - i {
        return false;
    }
    str_eq(s.substring_char(i, i + m), p)
}

/// Number of matches of `pattern` in `s`, leftmost first and without
/// overlap; an empty pattern matches at every position, the end included.
pub fn count_matches(s: &str, pattern: &str) -> (r: usize)
    requires
        s@.len() < usize::MAX,
    ensures
        r == matches_from(s@, pattern@, 0),
{
    let n = s.unicode_len();
    let m = pattern.unicode_len();
    let mut count: usize = 0;
    let mut i: usize = 0;
    while i < n
        invariant
            n == s@.len() < usize::MAX,
            m == pattern@.len(),
            i <= n,
            count <= i,
            count + matches_from(s@, pattern@, i as int) == matches_from(s@, pattern@, 0),
        decreases n - i,
    {
        if occurs_here(s, n, pattern, m, i) {
            count = count + 1;
            i = if m == 0 { i + 1 } else { i + m };
        } else {
            i = i + 1;
        }
    }
    assert(matches_from(s@, pattern@, n + 1) == 0);
    if occurs_here(s, n, pattern, m, n) {
        assert(m == 0);
        count = count + 1;
    }
    count
}

/// `s` with each match of `from`, leftmost first and without overlap,
/// replaced by `to`.
pub fn replace_matches(s: &str, from: &str, to: &str) -> (r: String)
    ensures
        r@ == replaced_from(s@, from@, to@, 0),
{
    let n = s.unicode_len();
    let m = from.unicode_len();
    let mut out = String::new();
    let mut i: usize = 0;
    while i < n
        invariant
            n == s@.len(),
            m == from@.len(),
            i <= n,
            out@ + replaced_from(s@, from@, to@, i as int) == replaced_from(s@, from@, to@, 0),
        decreases n - i,
    {
        let ghost before = out@;
        let ghost rest = replaced_from(s@, from@, to@, i as int);
        if occurs_here(s, n, from, m, i) {
            out.append(to);
            if m == 0 {
                let c = s.substring_char(i, i + 1);
                assert(c@ =~= seq![s@[i as int]]);
                out.append(c);
                i = i + 1;
            } else {
                i = i + m;
            }
        } else {
            let c = s.substring_char(i, i + 1);
            assert(c@ =~= seq![s@[i as int]]);
            out.append(c);
            i = i + 1;
        }
        assert(out@ + replaced_from(s@, from@, to@, i as int) =~= before + rest);
    }
    let ghost before = out@;
    if occurs_here(s, n, from, m, n) {
        out.append(to);
    }
    assert(out@ =~= before + replaced_from(s@, from@, to@, n as int));
    out
}

} // verus!
