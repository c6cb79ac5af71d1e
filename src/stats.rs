//! Order statistics of a list of amounts.
use vstd::prelude::*;

verus! {

/// How many entries of `s` are below `v`.
pub open spec fn count_below(s: Seq<u128>, v: u128) -> nat
    decreases s.len(),
{
    if s.len() == 0 {
        0
    } else {
        count_below(s.drop_last(), v) + if s.last() < v {
            1nat
        } else {
            0nat
        }
    }
}

/// How many entries of `s` are at most `v`.
pub open spec fn count_up_to(s: Seq<u128>, v: u128) -> nat
    decreases s.len(),
{
    if s.len() == 0 {
        0
    } else {
        count_up_to(s.drop_last(), v) + if s.last() <= v {
            1nat
        } else {
            0nat
        }
    }
}

/// `m` is the lower median of a non-empty `s`: the entry at position
/// `(len - 1) / 2` once `s` is sorted in ascending order.
pub open spec fn is_lower_median(s: Seq<u128>, m: u128) -> bool {
    let k = (s.len() - 1) / 2;
    &&& s.contains(m)
    &&& count_below(s, m) <= k
    &&& k < count_up_to(s, m)
}

/// `m` is the largest entry of `s`.
pub open spec fn is_max(s: Seq<u128>, m: u128) -> bool {
    s.contains(m) && forall|i: int| 0 <= i < s.len() ==> #[trigger] s[i] <= m
}

proof fn lemma_all_up_to(s: Seq<u128>, v: u128)
    requires
        forall|i: int| 0 <= i < s.len() ==> #[trigger] s[i] <= v,
    ensures
        count_up_to(s, v) == s.len(),
    decreases s.len(),
{
    if s.len() > 0 {
        assert(s.last() == s[s.len() - 1]);
        assert forall|i: int| 0 <= i < s.drop_last().len() implies #[trigger] s.drop_last()[i]
            <= v by {
            assert(s.drop_last()[i] == s[i]);
        }
        lemma_all_up_to(s.drop_last(), v);
    }
}

proof fn lemma_none_below(s: Seq<u128>, v: u128)
    requires
        forall|i: int| 0 <= i < s.len() ==> #[trigger] s[i] >= v,
    ensures
        count_below(s, v) == 0,
    decreases s.len(),
{
    if s.len() > 0 {
        assert(s.last() == s[s.len() - 1]);
        assert forall|i: int| 0 <= i < s.drop_last().len() implies #[trigger] s.drop_last()[i]
            >= v by {
            assert(s.drop_last()[i] == s[i]);
        }
        lemma_none_below(s.drop_last(), v);
    }
}

proof fn lemma_no_entry_between(s: Seq<u128>, v: u128, w: u128)
    requires
        forall|i: int| 0 <= i < s.len() ==> (#[trigger] s[i] < w <==> s[i] <= v),
    ensures
        count_below(s, w) == count_up_to(s, v),
    decreases s.len(),
{
    if s.len() > 0 {
        assert(s.last() == s[s.len() - 1]);
        assert forall|i: int| 0 <= i < s.drop_last().len() implies (#[trigger] s.drop_last()[i]
            < w <==> s.drop_last()[i] <= v) by {
            assert(s.drop_last()[i] == s[i]);
        }
        lemma_no_entry_between(s.drop_last(), v, w);
    }
}

fn count_up_to_exec(s: &Vec<u128>, v: u128) -> (r: usize)
    ensures
        r == count_up_to(s@, v),
{
    let mut c: usize = 0;
    let mut i: usize = 0;
    while i < s.len()
        invariant
            i <= s.len(),
            c <= i,
            c == count_up_to(s@.take(i as int), v),
        decreases s.len() - i,
    {
        assert(s@.take(i as int + 1).drop_last() =~= s@.take(i as int));
        if s[i] <= v {
            c = c + 1;
        }
        i = i + 1;
    }
    assert(s@.take(i as int) =~= s@);
    c
}

/// The largest entry of a non-empty list.
pub fn max_of(s: &Vec<u128>) -> (m: u128)
    requires
        s.len() > 0,
    ensures
        is_max(s@, m),
{
    let mut m = s[0];
    let mut i: usize = 1;
    while i < s.len()
        invariant
            1 <= i <= s.len(),
            s@.contains(m),
            forall|j: int| 0 <= j < i ==> #[trigger] s@[j] <= m,
        decreases s.len() - i,
    {
        if s[i] > m {
            m = s[i];
        }
        i = i + 1;
    }
    m
}

/// The smallest entry of `s` above `v`, if there is one.
fn least_above(s: &Vec<u128>, v: u128) -> (r: Option<u128>)
    ensures
        r is None ==> forall|i: int| 0 <= i < s.len() ==> #[trigger] s@[i] <= v,
        r matches Some(w) ==> v < w && s@.contains(w) && forall|i: int|
            0 <= i < s.len() ==> (#[trigger] s@[i] < w <==> s@[i] <= v),
{
    let mut best: Option<u128> = None;
    let mut i: usize = 0;
    while i < s.len()
        invariant
            i <= s.len(),
            best is None ==> forall|j: int| 0 <= j < i ==> #[trigger] s@[j] <= v,
            best matches Some(w) ==> v < w && s@.contains(w) && forall|j: int|
                0 <= j < i ==> (#[trigger] s@[j] < w <==> s@[j] <= v),
        decreases s.len() - i,
    {
        let x = s[i];
        if x > v {
            match best {
                None => best = Some(x),
                Some(w) => if x < w {
                    best = Some(x);
                },
            }
        }
        i = i + 1;
    }
    best
}

/// The lower median of a non-empty list: the entry at position
/// `(len - 1) / 2` in ascending order.
pub fn lower_median(s: &Vec<u128>) -> (m: u128)
    requires
        s.len() > 0,
    ensures
        is_lower_median(s@, m),
{
    let k = (s.len() - 1) / 2;
    let mut cur = s[0];
    let mut j: usize = 1;
    while j < s.len()
        invariant
            1 <= j <= s.len(),
            s@.contains(cur),
            forall|i: int| 0 <= i < j ==> #[trigger] s@[i] >= cur,
        decreases s.len() - j,
    {
        if s[j] < cur {
            cur = s[j];
        }
        j = j + 1;
    }
    proof {
        lemma_none_below(s@, cur);
    }
    loop
        invariant
            k == (s@.len() - 1) / 2,
            s@.contains(cur),
            count_below(s@, cur) <= k,
        decreases u128::MAX - cur,
    {
        let c = count_up_to_exec(s, cur);
        if c > k {
            return cur;
        }
        match least_above(s, cur) {
            None => {
                proof {
                    lemma_all_up_to(s@, cur);
                }
                return cur;
            },
            Some(w) => {
                proof {
                    lemma_no_entry_between(s@, cur, w);
                }
                cur = w;
            },
        }
    }
}


pub open spec fn sum_of(s: Seq<u128>) -> int
    decreases s.len(),
{
    if s.len() == 0 {
        0
    } else {
        sum_of(s.drop_last()) + s.last()
    }
}

pub open spec fn sum_of_squares(s: Seq<u128>) -> int
    decreases s.len(),
{
    if s.len() == 0 {
        0
    } else {
        sum_of_squares(s.drop_last()) + s.last() * s.last()
    }
}

/// `n` times the sum of squared deviations from the mean, where `n` is the
/// length: `n * Σx² - (Σx)²`. The population standard deviation is its
/// square root divided by `n`.
pub open spec fn spread(s: Seq<u128>) -> int {
    s.len() * sum_of_squares(s) - sum_of(s) * sum_of(s)
}

/// The spread of a list of equal amounts is zero: its standard deviation
/// is exactly 0.
pub proof fn constant_list_has_no_spread(s: Seq<u128>, c: u128)
    requires
        forall|i: int| 0 <= i < s.len() ==> #[trigger] s[i] == c,
    ensures
        spread(s) == 0,
{
    lemma_constant_sums(s, c);
    let n = s.len() as int;
    assert(n * (n * (c * c)) == (n * c) * (n * c)) by (nonlinear_arith);
}

proof fn lemma_constant_sums(s: Seq<u128>, c: u128)
    requires
        forall|i: int| 0 <= i < s.len() ==> #[trigger] s[i] == c,
    ensures
        sum_of(s) == s.len() * c,
        sum_of_squares(s) == s.len() * (c * c),
    decreases s.len(),
{
    if s.len() > 0 {
        assert(s.last() == s[s.len() - 1]);
        assert forall|i: int| 0 <= i < s.drop_last().len() implies #[trigger] s.drop_last()[i]
            == c by {
            assert(s.drop_last()[i] == s[i]);
        }
        lemma_constant_sums(s.drop_last(), c);
        let m = s.drop_last().len() as int;
        assert(m * c + c == (m + 1) * c) by (nonlinear_arith);
        assert(m * (c * c) + c * c == (m + 1) * (c * c)) by (nonlinear_arith);
    }
}

/// The sum of `(y - x)²` over the entries `y` of `t`.
pub open spec fn deviation_to(t: Seq<u128>, x: int) -> int
    decreases t.len(),
{
    if t.len() == 0 {
        0
    } else {
        deviation_to(t.drop_last(), x) + (t.last() - x) * (t.last() - x)
    }
}

/// The sum of `(s[i] - s[j])²` over all pairs `i < j`.
pub open spec fn pair_spread(s: Seq<u128>) -> int
    decreases s.len(),
{
    if s.len() == 0 {
        0
    } else {
        pair_spread(s.drop_last()) + deviation_to(s.drop_last(), s.last() as int)
    }
}

proof fn lemma_deviation_expanded(t: Seq<u128>, x: int)
    ensures
        deviation_to(t, x) == sum_of_squares(t) - 2 * x * sum_of(t) + t.len() * (x * x),
    decreases t.len(),
{
    if t.len() > 0 {
        let u = t.drop_last();
        lemma_deviation_expanded(u, x);
        let l = t.last() as int;
        let q = sum_of_squares(u);
        let a = sum_of(u);
        let m = u.len() as int;
        assert(q - 2 * x * a + m * (x * x) + (l - x) * (l - x) == (q + l * l) - 2 * x * (a + l) + (
        m + 1) * (x * x)) by (nonlinear_arith);
    }
}

/// The spread equals the sum of squared differences over all pairs.
proof fn lemma_spread_is_pairwise(s: Seq<u128>)
    ensures
        spread(s) == pair_spread(s),
    decreases s.len(),
{
    if s.len() > 0 {
        let u = s.drop_last();
        let l = s.last() as int;
        lemma_spread_is_pairwise(u);
        lemma_deviation_expanded(u, l);
        let q = sum_of_squares(u);
        let a = sum_of(u);
        let m = u.len() as int;
        assert((m + 1) * (q + l * l) - (a + l) * (a + l) == (m * q - a * a) + (q - 2 * l * a + m * (
        l * l))) by (nonlinear_arith);
    }
}

proof fn lemma_deviation_prefix(t: Seq<u128>, x: int, j: int)
    requires
        0 <= j <= t.len(),
    ensures
        0 <= deviation_to(t.take(j), x) <= deviation_to(t, x),
    decreases t.len(),
{
    if j == t.len() {
        assert(t.take(j) =~= t);
        lemma_deviation_nonneg(t, x);
    } else {
        lemma_deviation_prefix(t.drop_last(), x, j);
        assert(t.drop_last().take(j) =~= t.take(j));
        assert((t.last() - x) * (t.last() - x) >= 0) by (nonlinear_arith);
    }
}

proof fn lemma_deviation_nonneg(t: Seq<u128>, x: int)
    ensures
        deviation_to(t, x) >= 0,
    decreases t.len(),
{
    if t.len() > 0 {
        lemma_deviation_nonneg(t.drop_last(), x);
        assert((t.last() - x) * (t.last() - x) >= 0) by (nonlinear_arith);
    }
}

proof fn lemma_pair_prefix(s: Seq<u128>, i: int)
    requires
        0 <= i <= s.len(),
    ensures
        0 <= pair_spread(s.take(i)) <= pair_spread(s),
    decreases s.len(),
{
    if i == s.len() {
        assert(s.take(i) =~= s);
        lemma_pair_nonneg(s);
    } else {
        lemma_pair_prefix(s.drop_last(), i);
        assert(s.drop_last().take(i) =~= s.take(i));
        lemma_deviation_nonneg(s.drop_last(), s.last() as int);
    }
}

proof fn lemma_pair_nonneg(s: Seq<u128>)
    ensures
        pair_spread(s) >= 0,
    decreases s.len(),
{
    if s.len() > 0 {
        lemma_pair_nonneg(s.drop_last());
        lemma_deviation_nonneg(s.drop_last(), s.last() as int);
    }
}

/// `Some` of the spread where it fits in a `u128`, else `None`.
pub open spec fn spread_if_fits(s: Seq<u128>) -> Option<u128> {
    if 0 <= spread(s) <= u128::MAX {
        Some(spread(s) as u128)
    } else {
        None
    }
}

/// `spread` of the list, which is never negative, where it fits in a
/// `u128`. It is summed as the squared differences of all pairs, so no
/// intermediate value exceeds the spread itself.
pub fn spread_of(s: &Vec<u128>) -> (r: Option<u128>)
    ensures
        spread(s@) >= 0,
        r == spread_if_fits(s@),
{
    proof {
        lemma_spread_is_pairwise(s@);
        lemma_pair_nonneg(s@);
    }
    let mut acc: u128 = 0;
    let mut i: usize = 0;
    while i < s.len()
        invariant
            i <= s.len(),
            spread(s@) == pair_spread(s@),
            acc == pair_spread(s@.take(i as int)),
        decreases s.len() - i,
    {
        let x = s[i];
        let ghost before = s@.take(i as int);
        let ghost next = s@.take(i as int + 1);
        assert(next.drop_last() =~= before);
        assert(next.last() == x);
        let mut j: usize = 0;
        while j < i
            invariant
                j <= i < s.len(),
                before == s@.take(i as int),
                next == s@.take(i as int + 1),
                spread(s@) == pair_spread(s@),
                pair_spread(next) == pair_spread(before) + deviation_to(before, x as int),
                acc == pair_spread(before) + deviation_to(s@.take(j as int), x as int),
            decreases i - j,
        {
            let y = s[j];
            let d = if y >= x {
                y - x
            } else {
                x - y
            };
            let ghost step = s@.take(j as int + 1);
            assert(step.drop_last() =~= s@.take(j as int));
            assert(step.last() == y);
            assert(d * d == (y - x) * (y - x)) by (nonlinear_arith)
                requires
                    d == y - x || d == x - y,
            ;
            proof {
                assert(before.take(j as int + 1) =~= step);
                lemma_deviation_prefix(before, x as int, j as int + 1);
                lemma_pair_prefix(s@, i as int + 1);
                lemma_deviation_nonneg(s@.take(j as int), x as int);
            }
            let sq = match d.checked_mul(d) {
                Some(v) => v,
                None => return None,
            };
            acc = match acc.checked_add(sq) {
                Some(v) => v,
                None => return None,
            };
            j = j + 1;
        }
        assert(s@.take(j as int) =~= before);
        i = i + 1;
    }
    assert(s@.take(i as int) =~= s@);
    Some(acc)
}

} // verus!

