//! Aggregation of a sample set into summary statistics.

use vstd::prelude::*;

use crate::sample::{is_success_status, Sample};
use vstd::arithmetic::div_mod::lemma_fundamental_div_mod;

verus! {

/// The latency of each sample, in the order of the samples.
pub open spec fn latencies(samples: Seq<Sample>) -> Seq<u64> {
    samples.map_values(|s: Sample| s.latency_ms)
}

/// The samples that carry a 2xx status, in their order.
pub open spec fn successes(samples: Seq<Sample>) -> Seq<Sample> {
    samples.filter(|s: Sample| is_success_status(s.status))
}

/// Sum of a sequence of latencies.
pub open spec fn sum_of(v: Seq<u64>) -> int
    decreases v.len(),
{
    if v.len() == 0 {
        0
    } else {
        sum_of(v.drop_last()) + v.last()
    }
}

/// Smallest element; zero for an empty sequence.
pub open spec fn min_of(v: Seq<u64>) -> u64
    decreases v.len(),
{
    if v.len() == 0 {
        0
    } else if v.len() == 1 {
        v[0]
    } else {
        let m = min_of(v.drop_last());
        if v.last() < m { v.last() } else { m }
    }
}

/// Largest element; zero for an empty sequence.
pub open spec fn max_of(v: Seq<u64>) -> u64
    decreases v.len(),
{
    if v.len() == 0 {
        0
    } else {
        let m = max_of(v.drop_last());
        if v.last() > m { v.last() } else { m }
    }
}

/// Ascending order.
pub open spec fn is_ascending(v: Seq<u64>) -> bool {
    forall|i: int, j: int| 0 <= i <= j < v.len() ==> v[i] <= v[j]
}

proof fn lemma_successes_step(samples: Seq<Sample>, i: int)
    requires
        0 <= i < samples.len(),
    ensures
        successes(samples.take(i + 1)) == if is_success_status(samples[i].status) {
            successes(samples.take(i)).push(samples[i])
        } else {
            successes(samples.take(i))
        },
{
    let t = samples.take(i + 1);
    assert(t.drop_last() =~= samples.take(i));
    assert(t.last() == samples[i]);
    reveal_with_fuel(Seq::filter, 1);
    assert(t.filter(|s: Sample| is_success_status(s.status)) == if is_success_status(t.last().status) {
        t.drop_last().filter(|s: Sample| is_success_status(s.status)).push(t.last())
    } else {
        t.drop_last().filter(|s: Sample| is_success_status(s.status))
    });
}

/// Relies on `slice::sort_unstable`: the slice ends up in ascending order and
/// holds the same elements as before.
#[verifier::external_body]
pub(crate) fn sort_ascending(v: Vec<u64>) -> (r: Vec<u64>)
    ensures
        is_ascending(r@),
        r@.to_multiset() == v@.to_multiset(),
{
    let mut v = v;
    v.sort_unstable();
    v
}

/// The latencies of the samples, in the order of the samples.
pub fn latency_values(samples: &Vec<Sample>) -> (r: Vec<u64>)
    ensures
        r@ == latencies(samples@),
{
    let mut r: Vec<u64> = Vec::new();
    let mut i: usize = 0;
    while i < samples.len()
        invariant
            i <= samples@.len(),
            r@ == latencies(samples@.take(i as int)),
        decreases samples@.len() - i,
    {
        assert(latencies(samples@.take(i as int + 1)) =~= latencies(samples@.take(i as int)).push(
            samples@[i as int].latency_ms,
        ));
        r.push(samples[i].latency_ms);
        i = i + 1;
    }
    assert(samples@.take(i as int) =~= samples@);
    r
}

/// The latencies of the 2xx samples, in the order of the samples.
pub fn success_latency_values(samples: &Vec<Sample>) -> (r: Vec<u64>)
    ensures
        r@ == latencies(successes(samples@)),
{
    let mut r: Vec<u64> = Vec::new();
    let mut i: usize = 0;
    while i < samples.len()
        invariant
            i <= samples@.len(),
            r@ == latencies(successes(samples@.take(i as int))),
        decreases samples@.len() - i,
    {
        let ghost pre = samples@.take(i as int);
        proof { lemma_successes_step(samples@, i as int); }
        if samples[i].is_success() {
            assert(latencies(successes(pre).push(samples@[i as int])) =~= latencies(
                successes(pre),
            ).push(samples@[i as int].latency_ms));
            r.push(samples[i].latency_ms);
        }
        i = i + 1;
    }
    assert(samples@.take(i as int) =~= samples@);
    r
}

/// Number of 2xx samples.
pub fn count_successful(samples: &Vec<Sample>) -> (r: usize)
    ensures
        r == successes(samples@).len(),
        r <= samples@.len(),
{
    let mut r: usize = 0;
    let mut i: usize = 0;
    while i < samples.len()
        invariant
            i <= samples@.len(),
            r == successes(samples@.take(i as int)).len(),
            r <= i,
        decreases samples@.len() - i,
    {
        proof { lemma_successes_step(samples@, i as int); }
        if samples[i].is_success() {
            r = r + 1;
        }
        i = i + 1;
    }
    assert(samples@.take(i as int) =~= samples@);
    r
}

/// Sum of the values; exact, since `len` values of at most `u64::MAX` fit in
/// a `u128`.
pub fn total_of(v: &Vec<u64>) -> (r: u128)
    ensures
        r == sum_of(v@),
        r <= v@.len() * 0xFFFF_FFFF_FFFF_FFFFu64,
{
    let mut r: u128 = 0;
    let mut i: usize = 0;
    while i < v.len()
        invariant
            i <= v@.len(),
            r == sum_of(v@.take(i as int)),
            r <= i * 0xFFFF_FFFF_FFFF_FFFFu64,
        decreases v@.len() - i,
    {
        assert(v@.take(i as int + 1).drop_last() =~= v@.take(i as int));
        let x = v[i];
        assert(r + x <= (i + 1) * 0xFFFF_FFFF_FFFF_FFFFu64) by (nonlinear_arith)
            requires
                r <= i * 0xFFFF_FFFF_FFFF_FFFFu64,
                x <= 0xFFFF_FFFF_FFFF_FFFFu64,
        ;
        assert((i + 1) * 0xFFFF_FFFF_FFFF_FFFFu64 < 0x1_0000_0000_0000_0000_0000_0000_0000_0000)
            by (nonlinear_arith)
            requires
                i < 0x1_0000_0000_0000_0000,
        ;
        r = r + x as u128;
        i = i + 1;
    }
    assert(v@.take(i as int) =~= v@);
    r
}

/// Smallest value; zero when `v` is empty.
pub fn min_value(v: &Vec<u64>) -> (r: u64)
    ensures
        r == min_of(v@),
{
    if v.len() == 0 {
        return 0;
    }
    let mut r: u64 = v[0];
    let mut i: usize = 1;
    while i < v.len()
        invariant
            1 <= i <= v@.len(),
            r == min_of(v@.take(i as int)),
        decreases v@.len() - i,
    {
        assert(v@.take(i as int + 1).drop_last() =~= v@.take(i as int));
        if v[i] < r {
            r = v[i];
        }
        i = i + 1;
    }
    assert(v@.take(i as int) =~= v@);
    r
}

/// Largest value; zero when `v` is empty.
pub fn max_value(v: &Vec<u64>) -> (r: u64)
    ensures
        r == max_of(v@),
{
    let mut r: u64 = 0;
    let mut i: usize = 0;
    while i < v.len()
        invariant
            i <= v@.len(),
            r == max_of(v@.take(i as int)),
        decreases v@.len() - i,
    {
        assert(v@.take(i as int + 1).drop_last() =~= v@.take(i as int));
        if v[i] > r {
            r = v[i];
        }
        i = i + 1;
    }
    assert(v@.take(i as int) =~= v@);
    r
}

/// Position of the `k`-th percentile among `n` ascending values:
/// `floor(k * n / 100)`, clamped to the last position.
pub open spec fn percentile_position(k: int, n: int) -> int {
    if n == 0 {
        0
    } else if k * n / 100 >= n {
        n - 1
    } else {
        k * n / 100
    }
}

/// Index of the `k`-th percentile among `n` ascending values; 0 when `n` is 0.
pub fn percentile_index(k: u64, n: usize) -> (r: usize)
    ensures
        r == percentile_position(k as int, n as int),
        n > 0 ==> r < n,
{
    if n == 0 {
        return 0;
    }
    assert(k * n < 0x1_0000_0000_0000_0000_0000_0000_0000_0000) by (nonlinear_arith)
        requires
            k < 0x1_0000_0000_0000_0000,
            n < 0x1_0000_0000_0000_0000,
    ;
    let pos: u128 = (k as u128 * n as u128) / 100;
    if pos >= n as u128 {
        n - 1
    } else {
        pos as usize
    }
}

/// The `k`-th percentile of ascending values: the value at
/// `percentile_index(k, len)`; 0 when there is none.
pub fn percentile(sorted: &Vec<u64>, k: u64) -> (r: u64)
    ensures
        r == if sorted@.len() == 0 {
            0
        } else {
            sorted@[percentile_position(k as int, sorted@.len() as int)]
        },
{
    if sorted.len() == 0 {
        0
    } else {
        sorted[percentile_index(k, sorted.len())]
    }
}

/// Number of samples with status `code`.
pub open spec fn status_count(samples: Seq<Sample>, code: u16) -> nat
    decreases samples.len(),
{
    if samples.len() == 0 {
        0
    } else {
        status_count(samples.drop_last(), code) + if samples.last().status == code {
            1nat
        } else {
            0nat
        }
    }
}

/// Sum of the counts of a histogram.
pub open spec fn histogram_total(h: Seq<(u16, usize)>) -> int
    decreases h.len(),
{
    if h.len() == 0 {
        0
    } else {
        histogram_total(h.drop_last()) + h.last().1
    }
}

/// Whether `code` has an entry in `h`.
pub open spec fn has_code(h: Seq<(u16, usize)>, code: u16) -> bool {
    exists|j: int| 0 <= j < h.len() && h[j].0 == code
}

/// `h` is the status histogram of `samples`: one entry per distinct status,
/// each with the number of samples that carry it.
pub open spec fn is_histogram_of(h: Seq<(u16, usize)>, samples: Seq<Sample>) -> bool {
    &&& forall|j: int| 0 <= j < h.len() ==> #[trigger] h[j].1 == status_count(samples, h[j].0)
    &&& forall|j: int| 0 <= j < h.len() ==> #[trigger] h[j].1 > 0
    &&& forall|j: int, l: int| 0 <= j < l < h.len() ==> h[j].0 != h[l].0
    &&& forall|code: u16| !has_code(h, code) ==> #[trigger] status_count(samples, code) == 0
}

proof fn lemma_status_count_step(samples: Seq<Sample>, i: int, code: u16)
    requires
        0 <= i < samples.len(),
    ensures
        status_count(samples.take(i + 1), code) == status_count(samples.take(i), code) + if
            samples[i].status == code {
            1nat
        } else {
            0nat
        },
{
    assert(samples.take(i + 1).drop_last() =~= samples.take(i));
}

proof fn lemma_histogram_total_update(h: Seq<(u16, usize)>, j: int, e: (u16, usize))
    requires
        0 <= j < h.len(),
    ensures
        histogram_total(h.update(j, e)) == histogram_total(h) - h[j].1 + e.1,
    decreases h.len(),
{
    let u = h.update(j, e);
    if j == h.len() - 1 {
        assert(u.drop_last() =~= h.drop_last());
    } else {
        assert(u.drop_last() =~= h.drop_last().update(j, e));
        lemma_histogram_total_update(h.drop_last(), j, e);
    }
}

fn find_code(h: &Vec<(u16, usize)>, code: u16) -> (r: Option<usize>)
    ensures
        match r {
            Some(j) => j < h@.len() && h@[j as int].0 == code,
            None => !has_code(h@, code),
        },
{
    let mut j: usize = 0;
    while j < h.len()
        invariant
            j <= h@.len(),
            forall|l: int| 0 <= l < j ==> h@[l].0 != code,
        decreases h@.len() - j,
    {
        if h[j].0 == code {
            return Some(j);
        }
        j = j + 1;
    }
    None
}

/// Status-code histogram: one `(code, count)` entry per distinct status, in
/// the order in which each code first occurs; the counts sum to the number
/// of samples.
pub fn status_histogram(samples: &Vec<Sample>) -> (r: Vec<(u16, usize)>)
    ensures
        is_histogram_of(r@, samples@),
        histogram_total(r@) == samples@.len(),
{
    let mut h: Vec<(u16, usize)> = Vec::new();
    let mut i: usize = 0;
    while i < samples.len()
        invariant
            i <= samples@.len(),
            is_histogram_of(h@, samples@.take(i as int)),
            histogram_total(h@) == i,
            forall|j: int| 0 <= j < h@.len() ==> h@[j].1 <= i,
        decreases samples@.len() - i,
    {
        let code = samples[i].status;
        let ghost pre = samples@.take(i as int);
        let ghost next = samples@.take(i as int + 1);
        let ghost old_h = h@;
        proof {
            assert forall|c: u16| true implies status_count(next, c) == status_count(pre, c) + if
                samples@[i as int].status == c {
                1nat
            } else {
                0nat
            } by {
                lemma_status_count_step(samples@, i as int, c);
            }
        }
        match find_code(&h, code) {
            Some(j) => {
                let k = h[j].1;
                h.set(j, (code, k + 1));
                proof {
                    lemma_histogram_total_update(old_h, j as int, (code, (k + 1) as usize));
                    assert forall|c: u16| !has_code(h@, c) implies status_count(next, c) == 0 by {
                        if has_code(old_h, c) {
                            let l = choose|l: int| 0 <= l < old_h.len() && old_h[l].0 == c;
                            assert(h@[l].0 == c);
                        }
                    }
                }
            },
            None => {
                h.push((code, 1));
                proof {
                    assert(h@.drop_last() =~= old_h);
                    assert(status_count(pre, code) == 0);
                    assert forall|c: u16| !has_code(h@, c) implies status_count(next, c) == 0 by {
                        if has_code(old_h, c) {
                            let l = choose|l: int| 0 <= l < old_h.len() && old_h[l].0 == c;
                            assert(h@[l].0 == c);
                        }
                        assert(h@[h@.len() - 1].0 == code);
                    }
                }
            },
        }
        i = i + 1;
    }
    assert(samples@.take(i as int) =~= samples@);
    h
}

/// `r` is `100 * num / den` rounded to the nearest integer, halves upward.
pub open spec fn is_rounded_centis(r: int, num: int, den: int) -> bool {
    2 * den * r <= 200 * num + den < 2 * den * (r + 1)
}

/// A ratio in hundredths: `100 * num / den`, rounded to the nearest integer
/// (halves upward).
pub fn ratio_centis(num: u128, den: u128) -> (r: u128)
    requires
        0 < den <= 0x0100_0000_0000_0000_0000_0000_0000_0000,
        num <= den * 0x0100_0000_0000_0000_0000_0000_0000_0000,
    ensures
        is_rounded_centis(r as int, num as int, den as int),
{
    let q = num / den;
    let rem = num % den;
    assert(q <= 0x0100_0000_0000_0000_0000_0000_0000_0000) by (nonlinear_arith)
        requires
            den > 0,
            num <= den * 0x0100_0000_0000_0000_0000_0000_0000_0000,
            q == num / den,
    ;
    assert(100 * rem < 100 * den);
    let frac_num: u128 = 100 * rem;
    let t = frac_num / den;
    let trem = frac_num % den;
    proof {
        lemma_fundamental_div_mod(num as int, den as int);
        lemma_fundamental_div_mod(frac_num as int, den as int);
    }
    assert(t < 100) by (nonlinear_arith)
        requires
            den > 0,
            frac_num < 100 * den,
            t == frac_num / den,
    ;
    let up: u128 = if trem >= den - trem { 1 } else { 0 };
    let r = 100 * q + t + up;
    assert(is_rounded_centis(r as int, num as int, den as int)) by (nonlinear_arith)
        requires
            num == den * q + rem,
            frac_num == 100 * rem,
            frac_num == den * t + trem,
            0 <= trem < den,
            up == (if 2 * trem >= den { 1int } else { 0int }),
            r == 100 * q + t + up,
    ;
    r
}

/// Every value lies between `min_of` and `max_of`, and both occur in a
/// non-empty sequence.
pub proof fn lemma_min_max_bound(v: Seq<u64>)
    ensures
        forall|i: int| 0 <= i < v.len() ==> min_of(v) <= #[trigger] v[i] <= max_of(v),
        v.len() > 0 ==> v.contains(min_of(v)) && v.contains(max_of(v)),
    decreases v.len(),
{
    if v.len() > 1 {
        let w = v.drop_last();
        lemma_min_max_bound(w);
        assert forall|i: int| 0 <= i < v.len() implies min_of(v) <= #[trigger] v[i] <= max_of(
            v,
        ) by {
            if i < w.len() {
                assert(v[i] == w[i]);
            }
        }
        let a = choose|k: int| 0 <= k < w.len() && w[k] == min_of(w);
        let b = choose|k: int| 0 <= k < w.len() && w[k] == max_of(w);
        assert(v[a] == w[a]);
        assert(v[b] == w[b]);
        let last = v.len() - 1;
        assert(v[last] == v.last());
        if v.last() < min_of(w) {
            assert(v[last] == min_of(v));
        } else {
            assert(v[a] == min_of(v));
        }
        if v.last() > max_of(w) {
            assert(v[last] == max_of(v));
        } else {
            assert(v[b] == max_of(v));
        }
    } else if v.len() == 1 {
        assert(v.drop_last().len() == 0);
        assert(max_of(v.drop_last()) == 0);
        assert(v[0] == v.last());
        assert(v[0] == min_of(v));
        assert(v[0] == max_of(v));
    }
}

/// Two ascending sequences that hold the same values the same number of
/// times are equal: sorting determines its result.
pub proof fn lemma_ascending_unique(a: Seq<u64>, b: Seq<u64>)
    requires
        is_ascending(a),
        is_ascending(b),
        a.to_multiset() == b.to_multiset(),
    ensures
        a == b,
    decreases a.len(),
{
    broadcast use vstd::seq_lib::group_to_multiset_ensures;

    a.to_multiset_ensures();
    b.to_multiset_ensures();
    assert(a.len() == b.len());
    if a.len() > 0 {
        let n = a.len() as int;
        assert(b.contains(b[n - 1]));
        assert(a.to_multiset().count(b.last()) > 0);
        assert(a.contains(b.last()));
        assert(a.contains(a[n - 1]));
        assert(b.to_multiset().count(a.last()) > 0);
        assert(b.contains(a.last()));
        let i = choose|i: int| 0 <= i < n && a[i] == b.last();
        let j = choose|j: int| 0 <= j < n && b[j] == a.last();
        assert(a.last() == b.last());
        let x = a.last();
        let a2 = a.drop_last();
        let b2 = b.drop_last();
        assert(a2.push(x) =~= a);
        assert(b2.push(x) =~= b);
        assert(a2.to_multiset().insert(x) == b2.to_multiset().insert(x));
        assert(a2.to_multiset() =~= b2.to_multiset()) by {
            assert forall|y: u64| a2.to_multiset().count(y) == b2.to_multiset().count(y) by {
                assert(a2.to_multiset().insert(x).count(y) == b2.to_multiset().insert(x).count(y));
            }
        }
        lemma_ascending_unique(a2, b2);
        assert(a =~= b);
    }
}

} // verus!
