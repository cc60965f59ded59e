use vstd::prelude::*;
use vstd::string::*;

use crate::search::{count_matches, matches_from};

verus! {

/// Columns of `x` as rows: every row of `x` must be at least as long as the
/// first one.
pub fn transpose(x: Vec<Vec<u32>>) -> (r: Vec<Vec<u32>>)
    requires
        x@.len() > 0,
        forall|j: int| 0 <= j < x@.len() ==> #[trigger] x@[j]@.len() >= x@[0]@.len(),
    ensures
        r@.len() == x@[0]@.len(),
        forall|i: int| 0 <= i < r@.len() ==> #[trigger] r@[i]@.len() == x@.len(),
        forall|i: int, j: int| 0 <= i < r@.len() && 0 <= j < x@.len() ==> #[trigger] r@[i]@[j] == x@[j]@[i],
{
    let mut temp: Vec<Vec<u32>> = Vec::new();
    let width = x[0].len();
    let mut i: usize = 0;
    while i < width
        invariant
            width == x@[0]@.len(),
            x@.len() > 0,
            forall|j: int| 0 <= j < x@.len() ==> #[trigger] x@[j]@.len() >= width,
            i <= width,
            temp@.len() == i,
            forall|a: int| 0 <= a < i ==> #[trigger] temp@[a]@.len() == x@.len(),
            forall|a: int, j: int| 0 <= a < i && 0 <= j < x@.len() ==> #[trigger] temp@[a]@[j] == x@[j]@[a],
        decreases width - i,
    {
        let mut column: Vec<u32> = Vec::new();
        let mut j: usize = 0;
        while j < x.len()
            invariant
                i < width,
                forall|k: int| 0 <= k < x@.len() ==> #[trigger] x@[k]@.len() >= width,
                j <= x@.len(),
                column@.len() == j,
                forall|k: int| 0 <= k < j ==> #[trigger] column@[k] == x@[k]@[i as int],
            decreases x@.len() - j,
        {
            column.push(x[j][i]);
            j = j + 1;
        }
        temp.push(column);
        i = i + 1;
    }
    temp
}

/// Whether (i, j, k) is a triple that `find_sum` looks at and whose values
/// add up to 2020. The middle and last indices both start after `i`.
pub open spec fn is_2020_triple(x: Seq<i32>, i: int, j: int, k: int) -> bool {
    &&& 0 <= i < x.len() - 2
    &&& i < j < x.len() - 1
    &&& i < k < x.len()
    &&& x[i] + x[j] + x[k] == 2020
}

pub open spec fn lex_before(a: (int, int, int), b: (int, int, int)) -> bool {
    a.0 < b.0 || (a.0 == b.0 && a.1 < b.1) || (a.0 == b.0 && a.1 == b.1 && a.2 < b.2)
}

/// The product of the first triple, in the order the search visits them,
/// whose values add up to 2020.
pub fn find_sum(x: &Vec<i32>) -> (r: i32)
    requires
        exists|i: int, j: int, k: int| is_2020_triple(x@, i, j, k),
        forall|i: int, j: int, k: int|
            is_2020_triple(x@, i, j, k) ==> i32::MIN <= #[trigger] (x@[i] * x@[j] * x@[k]) <= i32::MAX,
    ensures
        exists|i: int, j: int, k: int|
            #[trigger] is_2020_triple(x@, i, j, k) && r == x@[i] * x@[j] * x@[k] && forall|a: int, b: int, c: int|
                #[trigger] is_2020_triple(x@, a, b, c) ==> !lex_before((a, b, c), (i, j, k)),
{
    let n = x.len();
    let mut i: usize = 0;
    while i + 2 < n
        invariant
            n == x@.len(),
            i <= n,
            exists|i: int, j: int, k: int| is_2020_triple(x@, i, j, k),
            forall|a: int, b: int, c: int|
                is_2020_triple(x@, a, b, c) ==> i32::MIN <= #[trigger] (x@[a] * x@[b] * x@[c]) <= i32::MAX,
            forall|a: int, b: int, c: int| #[trigger] is_2020_triple(x@, a, b, c) ==> a >= i,
        decreases n - i,
    {
        let mut j: usize = i + 1;
        while j + 1 < n
            invariant
                n == x@.len(),
                i + 2 < n,
                i < j,
                j < n,
                forall|a: int, b: int, c: int|
                    is_2020_triple(x@, a, b, c) ==> i32::MIN <= #[trigger] (x@[a] * x@[b] * x@[c]) <= i32::MAX,
                forall|a: int, b: int, c: int| #[trigger] is_2020_triple(x@, a, b, c) ==> a > i || (a == i && b >= j),
            decreases n - j,
        {
            let mut k: usize = i + 1;
            while k < n
                invariant
                    n == x@.len(),
                    i + 2 < n,
                    i < j,
                    j + 1 < n,
                    i < k,
                    k <= n,
                    forall|a: int, b: int, c: int|
                        is_2020_triple(x@, a, b, c) ==> i32::MIN <= #[trigger] (x@[a] * x@[b] * x@[c]) <= i32::MAX,
                    forall|a: int, b: int, c: int|
                        #[trigger] is_2020_triple(x@, a, b, c) ==> a > i || (a == i && b > j) || (a == i && b == j && c >= k),
                decreases n - k,
            {
                if x[i] as i64 + x[j] as i64 + x[k] as i64 == 2020 {
                    assert(is_2020_triple(x@, i as int, j as int, k as int));
                    let (xi, xj, xk) = (x[i] as i64, x[j] as i64, x[k] as i64);
                    assert(i32::MIN <= x@[i as int] * x@[j as int] * x@[k as int] <= i32::MAX);
                    assert(-0x4000_0000_0000_0000 <= xi * xj <= 0x4000_0000_0000_0000) by (nonlinear_arith)
                        requires
                            i32::MIN <= xi <= i32::MAX,
                            i32::MIN <= xj <= i32::MAX;
                    let p = xi * xj;
                    assert(p * xk == x@[i as int] * x@[j as int] * x@[k as int]);
                    let r = (p * xk) as i32;
                    return r;
                }
                k = k + 1;
            }
            j = j + 1;
        }
        i = i + 1;
    }
    proof {
        let (a, b, c) = choose|a: int, b: int, c: int| is_2020_triple(x@, a, b, c);
        assert(is_2020_triple(x@, a, b, c));
    }
    0
}

pub open spec fn is_sorted(s: Seq<i32>) -> bool {
    forall|a: int, b: int| 0 <= a < b < s.len() ==> s[a] <= s[b]
}

/// Whether `s` holds the value that adds up to 2020 with `a`.
pub open spec fn has_partner(s: Seq<i32>, a: i32) -> bool {
    i32::MIN <= 2020 - a <= i32::MAX && s.contains((2020 - a) as i32)
}

/// Relies on `slice::sort`: the same values, in ascending order.
#[verifier::external_body]
fn sort_values(v: &mut Vec<i32>)
    ensures
        final(v)@.to_multiset() == old(v)@.to_multiset(),
        is_sorted(final(v)@),
{
    v.sort();
}

/// Relies on `slice::binary_search` on a sorted slice: the index of an
/// element equal to `target` when there is one.
#[verifier::external_body]
fn search_sorted(v: &Vec<i32>, target: i32) -> (r: Result<usize, usize>)
    requires
        is_sorted(v@),
    ensures
        match r {
            Ok(j) => j < v@.len() && v@[j as int] == target,
            Err(_) => !v@.contains(target),
        },
{
    v.binary_search(&target)
}

/// The product of two entries that add up to 2020: of the smallest value
/// that has such a partner, and that partner.
pub fn find_sum_better_answer(x: &Vec<i32>) -> (r: i32)
    requires
        exists|i: int, j: int| 0 <= i < x@.len() && 0 <= j < x@.len() && x@[i] + x@[j] == 2020 && x@[i] != x@[j],
        forall|i: int, j: int|
            0 <= i < x@.len() && 0 <= j < x@.len() && x@[i] + x@[j] == 2020 ==> i32::MIN <= #[trigger] (x@[i] * x@[j])
                <= i32::MAX,
    ensures
        exists|i: int, j: int|
            0 <= i < x@.len() && 0 <= j < x@.len() && x@[i] + x@[j] == 2020 && x@[i] < x@[j] && r == #[trigger] (x@[i]
                * x@[j]) && forall|k: int| 0 <= k < x@.len() && x@[k] < x@[i] ==> !has_partner(x@, #[trigger] x@[k]),
{
    broadcast use vstd::seq_lib::group_to_multiset_ensures;

    let mut xtemp = x.clone();
    assert(xtemp@ =~= x@);
    sort_values(&mut xtemp);
    let ghost xs = xtemp@;
    assert forall|v: i32| xs.contains(v) <==> x@.contains(v) by {
        assert(xs.to_multiset().count(v) == x@.to_multiset().count(v));
    }
    let n = xtemp.len();
    let ghost (s0, t0) = choose|i: int, j: int|
        0 <= i < x@.len() && 0 <= j < x@.len() && x@[i] + x@[j] == 2020 && x@[i] != x@[j];
    let ghost small: i32 = if x@[s0] < x@[t0] { x@[s0] } else { x@[t0] };
    proof {
        assert(x@.contains(x@[s0]) && x@.contains(x@[t0]));
        assert(small < 1010 && has_partner(x@, small));
    }
    assert(xs.contains(small));
    let mut i: usize = 0;
    while i < n - 1
        invariant
            n == xs.len(),
            n >= 1,
            i <= n - 1,
            xs == xtemp@,
            is_sorted(xs),
            forall|v: i32| xs.contains(v) <==> x@.contains(v),
            small < 1010,
            has_partner(x@, small),
            x@.contains(small),
            forall|k: int| 0 <= k < i && k < n ==> xs[k] == 1010 || !has_partner(xs, #[trigger] xs[k]),
            forall|i: int, j: int|
                0 <= i < x@.len() && 0 <= j < x@.len() && x@[i] + x@[j] == 2020 ==> i32::MIN <= #[trigger] (x@[i]
                    * x@[j]) <= i32::MAX,
        decreases n - i,
    {
        let a = xtemp[i];
        if a > i32::MIN + 2020 {
            match search_sorted(&xtemp, 2020 - a) {
                Ok(j) => {
                    if i != j {
                        let b = xtemp[j];
                        proof {
                            // the smallest value with a partner sits before i
                            assert(xs.contains(small));
                            if a >= 1010 {
                                let q = choose|q: int| 0 <= q < xs.len() && xs[q] == small;
                                if q >= i {
                                    assert(xs[q] >= xs[i as int]);
                                }
                                assert(has_partner(xs, xs[q]));
                            }
                            assert(xs[i as int] == a && xs[j as int] == b);
                            assert(xs.contains(a) && xs.contains(b));
                            assert(x@.contains(a) && x@.contains(b));
                        }
                        let ghost (ia, ib) = (
                            choose|k: int| 0 <= k < x@.len() && x@[k] == a,
                            choose|k: int| 0 <= k < x@.len() && x@[k] == b,
                        );
                        proof {
                            assert(x@[ia] == a && x@[ib] == b);
                            assert(i32::MIN <= x@[ia] * x@[ib] <= i32::MAX);
                            assert forall|k: int| 0 <= k < x@.len() && x@[k] < x@[ia] implies !has_partner(
                                x@,
                                #[trigger] x@[k],
                            ) by {
                                assert(x@.contains(x@[k]));
                                assert(xs.contains(x@[k]));
                                let q = choose|q: int| 0 <= q < xs.len() && xs[q] == x@[k];
                                if q >= i {
                                    assert(xs[q] >= xs[i as int]);
                                }
                                if has_partner(x@, x@[k]) {
                                    assert(xs.contains((2020 - x@[k]) as i32));
                                }
                            }
                        }
                        return a * b;
                    }
                },
                Err(_) => {},
            }
        }
        proof {
            if has_partner(xs, xs[i as int]) && xs[i as int] != 1010 {
                let c = (2020 - xs[i as int]) as i32;
                assert(xs.contains(c));
            }
        }
        i = i + 1;
    }
    proof {
        // the smaller value of the required pair has its partner
        assert(xs.contains(small));
        let q = choose|q: int| 0 <= q < xs.len() && xs[q] == small;
        if q == n - 1 {
            assert(xs.contains((2020 - small) as i32));
            let m = choose|m: int| 0 <= m < xs.len() && xs[m] == (2020 - small) as i32;
            assert(xs[m] <= xs[q]);
        }
        assert(has_partner(xs, xs[q]));
    }
    0
}

/// Number of occurrences of `pattern` in `s`, counted as `str::matches`
/// does: leftmost first, without overlap.
pub open spec fn match_count(s: Seq<char>, pattern: Seq<char>) -> nat {
    matches_from(s, pattern, 0)
}

/// Whether a count lies within `limit[0]..=limit[1]`.
pub fn is_valid_count(limit: &Vec<usize>, matched: usize) -> (r: bool)
    requires
        limit@.len() >= 2,
    ensures
        r == (limit@[0] <= matched && matched <= limit@[1]),
{
    matched >= limit[0] && matched <= limit[1]
}

/// Whether `pass` holds `chars` between `limit[0]` and `limit[1]` times.
pub fn is_valid(limit: &Vec<usize>, chars: &str, pass: &str) -> (r: bool)
    requires
        limit@.len() >= 2,
        pass@.len() < usize::MAX,
    ensures
        r == (limit@[0] <= match_count(pass@, chars@) && match_count(pass@, chars@) <= limit@[1]),
{
    let matched = count_matches(pass, chars);
    is_valid_count(limit, matched)
}

/// The character position that a 1-based limit points at; a limit one past
/// the end points at the last character.
pub open spec fn limit_position(l: int, len: int) -> int {
    if l > len {
        l - 2
    } else {
        l - 1
    }
}

pub open spec fn limit_is_usable(l: int, len: int) -> bool {
    if l > len {
        2 <= l <= len + 1
    } else {
        l >= 1
    }
}

/// Whether exactly one of the two positions named by `limit` holds the
/// first character of `chars`.
pub fn is_valid_2(limit: &Vec<usize>, chars: &str, pass: &str) -> (r: bool)
    requires
        limit@.len() >= 2,
        chars@.len() >= 1,
        limit_is_usable(limit@[0] as int, pass@.len() as int),
        limit_is_usable(limit@[1] as int, pass@.len() as int),
    ensures
        r == ((pass@[limit_position(limit@[0] as int, pass@.len() as int)] == chars@[0]) != (
        pass@[limit_position(limit@[1] as int, pass@.len() as int)] == chars@[0])),
{
    let len = pass.unicode_len();
    let first = chars.get_char(0);
    let mut total: usize = 0;
    let mut i: usize = 0;
    while i < 2
        invariant
            len == pass@.len(),
            limit@.len() >= 2,
            first == chars@[0],
            limit_is_usable(limit@[0] as int, len as int),
            limit_is_usable(limit@[1] as int, len as int),
            i <= 2,
            total == (if i >= 1 && pass@[limit_position(limit@[0] as int, len as int)] == first { 1usize } else { 0 })
                + (if i >= 2 && pass@[limit_position(limit@[1] as int, len as int)] == first { 1usize } else { 0 }),
        decreases 2 - i,
    {
        let l = limit[i];
        if l > len {
            if first == pass.get_char(l - 2) {
                total = total + 1;
            }
        } else if first == pass.get_char(l - 1) {
            total = total + 1;
        }
        i = i + 1;
    }
    total == 1
}

/// Column reached after `steps` moves of `right` columns on lines that wrap
/// every `width` characters.
pub open spec fn column_after(right: nat, width: nat, steps: nat) -> nat
    decreases steps,
{
    if steps == 0 {
        0
    } else {
        (column_after(right, width, (steps - 1) as nat) + right) % width
    }
}

/// Trees (`#`) met on the first `steps` moves of `right` columns and `down`
/// lines from the top left corner.
pub open spec fn trees_met(input: Seq<Seq<char>>, right: nat, down: nat, width: nat, steps: nat) -> nat
    decreases steps,
{
    if steps == 0 {
        0
    } else {
        trees_met(input, right, down, width, (steps - 1) as nat) + if input[(steps * down) as int][column_after(
            right,
            width,
            steps,
        ) as int] == '#' {
            1nat
        } else {
            0nat
        }
    }
}

pub open spec fn line_views(input: Seq<String>) -> Seq<Seq<char>> {
    input.map_values(|s: String| s@)
}

/// Trees met going `r` right and `d` down at each move, until the next move
/// would leave the map; the map repeats to the right with the width of its
/// first line.
pub fn count_trees(input: &Vec<String>, r: usize, d: usize) -> (trees: usize)
    requires
        input@.len() > 0,
        1 <= d <= input@.len(),
        input@[0]@.len() > 0,
        forall|j: int| 0 <= j < input@.len() ==> #[trigger] input@[j]@.len() >= input@[0]@.len(),
    ensures
        trees == trees_met(line_views(input@), r as nat, d as nat, input@[0]@.len(), ((input@.len() - 1) / (d as int)) as nat),
{
    let line_c = input.len();
    let line_l = input[0].as_str().unicode_len();
    let ghost lines = line_views(input@);
    let step = r % line_l;
    let mut trees: usize = 0;
    let mut current: usize = 0;
    let mut pos: usize = 0;
    let ghost mut steps: nat = 0;
    while current < line_c - d
        invariant
            line_c == input@.len(),
            line_l == input@[0]@.len(),
            lines == line_views(input@),
            forall|j: int| 0 <= j < input@.len() ==> #[trigger] input@[j]@.len() >= line_l,
            1 <= d <= line_c,
            line_l > 0,
            step == r % line_l,
            current == steps * d,
            current < line_c,
            pos == column_after(r as nat, line_l as nat, steps),
            pos < line_l,
            trees == trees_met(lines, r as nat, d as nat, line_l as nat, steps),
            trees <= steps,
            steps <= current,
        decreases line_c - current,
    {
        current = current + d;
        pos = if step >= line_l - pos {
            pos - (line_l - step)
        } else {
            pos + step
        };
        proof {
            let p0 = column_after(r as nat, line_l as nat, steps) as int;
            let s0 = (r % line_l) as int;
            let l = line_l as int;
            steps = steps + 1;
            assert(current == steps * d) by (nonlinear_arith)
                requires
                    current == (steps - 1) * d + d;
            assert(steps <= current) by (nonlinear_arith)
                requires
                    current == steps * d,
                    d >= 1;
            vstd::arithmetic::div_mod::lemma_add_mod_noop(p0, r as int, l);
            vstd::arithmetic::div_mod::lemma_small_mod(p0 as nat, l as nat);
            if p0 + s0 >= l {
                vstd::arithmetic::div_mod::lemma_mod_add_multiples_vanish(p0 + s0 - l, l);
                vstd::arithmetic::div_mod::lemma_small_mod((p0 + s0 - l) as nat, l as nat);
            } else {
                vstd::arithmetic::div_mod::lemma_small_mod((p0 + s0) as nat, l as nat);
            }
            assert(pos == column_after(r as nat, line_l as nat, steps));
        }
        assert(lines[current as int] == input@[current as int]@);
        let item = input[current].as_str().get_char(pos);
        if item == '#' {
            trees = trees + 1;
        }
    }
    proof {
        assert(steps == (line_c - 1) / (d as int)) by (nonlinear_arith)
            requires
                current == steps * d,
                current < line_c,
                current >= line_c - d,
                d >= 1;
    }
    trees
}

} // verus!
