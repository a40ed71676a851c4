//! The latency histogram: millisecond samples held in ascending order,
//! answering min, max, mean and exact order-statistic percentiles.

use vstd::arithmetic::div_mod::*;
use vstd::arithmetic::mul::*;
use vstd::prelude::*;

verus! {

/// Ascending order of samples.
pub open spec fn sorted(s: Seq<u64>) -> bool {
    forall|i: int, j: int| 0 <= i <= j < s.len() ==> s[i] <= s[j]
}

/// The sum of a sequence of samples.
pub open spec fn sample_sum(s: Seq<u64>) -> int
    decreases s.len(),
{
    if s.len() == 0 {
        0
    } else {
        sample_sum(s.drop_last()) + s.last()
    }
}

/// `s` with `v` placed before the first element not below it.
pub open spec fn insert_sorted(s: Seq<u64>, v: u64) -> Seq<u64>
    decreases s.len(),
{
    if s.len() == 0 {
        seq![v]
    } else if v <= s[0] {
        seq![v] + s
    } else {
        seq![s[0]] + insert_sorted(s.drop_first(), v)
    }
}

/// The sample index answering for percentile `p` among `n` samples: the
/// rank `p * n / 100`, capped at the last sample.
pub open spec fn pct_index(p: int, n: int) -> int
    recommends
        n >= 1,
{
    if p * n / 100 >= n {
        n - 1
    } else {
        p * n / 100
    }
}

proof fn lemma_insert_sorted_at(s: Seq<u64>, v: u64, i: int)
    requires
        sorted(s),
        0 <= i <= s.len(),
        forall|j: int| 0 <= j < i ==> s[j] < v,
        i < s.len() ==> v <= s[i],
    ensures
        insert_sorted(s, v) == s.insert(i, v),
    decreases s.len(),
{
    if s.len() == 0 {
        assert(seq![v] =~= s.insert(0, v));
    } else if v <= s[0] {
        assert(i == 0);
        assert(seq![v] + s =~= s.insert(0, v));
    } else {
        assert(forall|j: int| 0 <= j < i - 1 ==> s.drop_first()[j] < v);
        lemma_insert_sorted_at(s.drop_first(), v, i - 1);
        assert(seq![s[0]] + s.drop_first().insert(i - 1, v) =~= s.insert(i, v));
    }
}

proof fn lemma_sample_sum_insert(s: Seq<u64>, v: u64, i: int)
    requires
        0 <= i <= s.len(),
    ensures
        sample_sum(s.insert(i, v)) == sample_sum(s) + v,
    decreases s.len(),
{
    if i == s.len() {
        assert(s.insert(i, v) =~= s.push(v));
        assert(s.push(v).drop_last() =~= s);
    } else {
        lemma_sample_sum_insert(s.drop_last(), v, i);
        assert(s.insert(i, v).drop_last() =~= s.drop_last().insert(i, v));
        assert(s.insert(i, v).last() == s.last());
    }
}

proof fn lemma_sample_sum_bound(s: Seq<u64>)
    ensures
        0 <= sample_sum(s) <= s.len() * (u64::MAX as int),
    decreases s.len(),
{
    if s.len() > 0 {
        lemma_sample_sum_bound(s.drop_last());
        assert(s.len() * (u64::MAX as int) == (s.len() - 1) * (u64::MAX as int) + u64::MAX as int)
            by (nonlinear_arith);
    }
}

/// The bucketless latency record: every millisecond sample is kept, in
/// ascending order, together with the running sum for the mean.
pub struct LatencyHistogram {
    samples: Vec<u64>,
    total: u128,
}

impl View for LatencyHistogram {
    type V = Seq<u64>;

    closed spec fn view(&self) -> Seq<u64> {
        self.samples@
    }
}

impl LatencyHistogram {
    /// The sum of all recorded samples.
    pub closed spec fn total_ms(self) -> int {
        self.total as int
    }

    /// Samples are ascending, none is below one millisecond, and the
    /// running sum is the sum of the samples.
    pub open spec fn wf(self) -> bool {
        &&& sorted(self@)
        &&& forall|i: int| 0 <= i < self@.len() ==> self@[i] >= 1
        &&& self.total_ms() == sample_sum(self@)
    }

    /// An empty histogram.
    pub fn new() -> (r: LatencyHistogram)
        ensures
            r@ == Seq::<u64>::empty(),
            r.wf(),
    {
        LatencyHistogram { samples: Vec::new(), total: 0 }
    }

    /// The number of recorded samples.
    pub fn len(&self) -> (r: usize)
        ensures
            r == self@.len(),
    {
        self.samples.len()
    }

    /// Records one sample, keeping the samples in ascending order.
    pub fn record(&mut self, v: u64)
        requires
            old(self).wf(),
            v >= 1,
            old(self)@.len() < usize::MAX,
        ensures
            final(self).wf(),
            final(self)@ == insert_sorted(old(self)@, v),
            final(self)@.len() == old(self)@.len() + 1,
            final(self).total_ms() == old(self).total_ms() + v,
    {
        proof {
            lemma_sample_sum_bound(self@);
            assert(self@.len() * (u64::MAX as int) + (u64::MAX as int) <= (u64::MAX as int) * (
            u64::MAX as int)) by (nonlinear_arith)
                requires
                    self@.len() < u64::MAX,
            ;
            assert((u64::MAX as int) * (u64::MAX as int) < u128::MAX as int);
        }
        let mut i: usize = 0;
        let n = self.samples.len();
        while i < n && self.samples[i] < v
            invariant
                i <= n,
                n == self.samples@.len(),
                self.samples@ == old(self).samples@,
                self.total == old(self).total,
                forall|j: int| 0 <= j < i ==> self.samples@[j] < v,
            decreases n - i,
        {
            i = i + 1;
        }
        let ghost prev = self.samples@;
        self.samples.insert(i, v);
        self.total = self.total + v as u128;
        proof {
            lemma_insert_sorted_at(prev, v, i as int);
            lemma_sample_sum_insert(prev, v, i as int);
            assert forall|p: int, q: int| 0 <= p <= q < self@.len() implies self@[p]
                <= self@[q] by {
                assert(self@ == prev.insert(i as int, v));
            }
        }
    }

    /// The smallest recorded sample.
    pub fn min_ms(&self) -> (r: u64)
        requires
            self.wf(),
            self@.len() > 0,
        ensures
            r == self@[0],
            forall|i: int| 0 <= i < self@.len() ==> r <= self@[i],
    {
        self.samples[0]
    }

    /// The largest recorded sample.
    pub fn max_ms(&self) -> (r: u64)
        requires
            self.wf(),
            self@.len() > 0,
        ensures
            r == self@[self@.len() - 1],
            forall|i: int| 0 <= i < self@.len() ==> r >= self@[i],
    {
        self.samples[self.samples.len() - 1]
    }

    /// The mean of the recorded samples, rounded down to a millisecond.
    pub fn mean_ms(&self) -> (r: u64)
        requires
            self.wf(),
            self@.len() > 0,
        ensures
            r == sample_sum(self@) / (self@.len() as int),
    {
        proof {
            lemma_sample_sum_bound(self@);
            lemma_div_is_ordered(
                sample_sum(self@),
                self@.len() * (u64::MAX as int),
                self@.len() as int,
            );
            lemma_div_multiples_vanish(u64::MAX as int, self@.len() as int);
            lemma_div_pos_is_pos(sample_sum(self@), self@.len() as int);
        }
        (self.total / (self.samples.len() as u128)) as u64
    }

    /// The latency at percentile `p`: the sample at rank `p * n / 100`
    /// of the ascending samples, capped at the largest.
    pub fn value_at_percentile(&self, p: u64) -> (r: u64)
        requires
            self.wf(),
            self@.len() > 0,
            p <= 100,
        ensures
            r == self@[pct_index(p as int, self@.len() as int)],
    {
        let n = self.samples.len();
        proof {
            assert((p as int) * (n as int) <= 100 * (u64::MAX as int)) by (nonlinear_arith)
                requires
                    p <= 100,
                    n <= u64::MAX,
            ;
            lemma_mul_nonnegative(p as int, n as int);
            lemma_div_pos_is_pos((p as int) * (n as int), 100);
        }
        let raw: u128 = (p as u128) * (n as u128) / 100;
        if raw >= n as u128 {
            self.samples[n - 1]
        } else {
            self.samples[raw as usize]
        }
    }
}

/// Percentile queries are monotone: a lower percentile rank never
/// reports a larger latency than a higher one.
pub proof fn lemma_percentile_monotone(s: Seq<u64>, p1: int, p2: int)
    requires
        sorted(s),
        s.len() >= 1,
        0 <= p1 <= p2,
    ensures
        s[pct_index(p1, s.len() as int)] <= s[pct_index(p2, s.len() as int)],
{
    let n = s.len() as int;
    lemma_mul_inequality(p1, p2, n);
    lemma_div_is_ordered(p1 * n, p2 * n, 100);
    lemma_mul_nonnegative(p1, n);
    lemma_div_pos_is_pos(p1 * n, 100);
    assert(0 <= pct_index(p1, n) <= pct_index(p2, n) < n);
}

proof fn lemma_insert_sorted_multiset(s: Seq<u64>, v: u64)
    requires
        sorted(s),
    ensures
        insert_sorted(s, v).to_multiset() == s.to_multiset().insert(v),
        sorted(insert_sorted(s, v)),
    decreases s.len(),
{
    broadcast use vstd::seq_lib::group_to_multiset_ensures;
    broadcast use vstd::multiset::group_multiset_axioms;

    if s.len() == 0 {
        assert(seq![v] =~= s.insert(0, v));
        assert(s.insert(0, v).to_multiset() == s.to_multiset().insert(v));
    } else if v <= s[0] {
        assert(seq![v] + s =~= s.insert(0, v));
        assert(s.insert(0, v).to_multiset() == s.to_multiset().insert(v));
    } else {
        let rest = s.drop_first();
        lemma_insert_sorted_multiset(rest, v);
        let x = insert_sorted(rest, v);
        let r = seq![s[0]] + x;
        assert(r =~= x.insert(0, s[0]));
        assert(x.insert(0, s[0]).to_multiset() == x.to_multiset().insert(s[0]));
        assert(s =~= rest.insert(0, s[0]));
        assert(rest.insert(0, s[0]).to_multiset() == rest.to_multiset().insert(s[0]));
        assert(rest.to_multiset().insert(v).insert(s[0]) =~= rest.to_multiset().insert(
            s[0],
        ).insert(v));
        assert forall|i: int, j: int| 0 <= i <= j < r.len() implies r[i] <= r[j] by {
            if i == 0 && j > 0 {
                let e = x[j - 1];
                assert(x.contains(e));
                if e != v {
                    assert(x.to_multiset().count(e) > 0);
                    assert(rest.to_multiset().count(e) > 0);
                    assert(rest.contains(e));
                    let k = choose|k: int| 0 <= k < rest.len() && rest[k] == e;
                    assert(s[0] <= s[k + 1]);
                }
            } else if i > 0 {
                assert(x[i - 1] <= x[j - 1]);
            }
        }
    }
}

proof fn lemma_sorted_multiset_unique(a: Seq<u64>, b: Seq<u64>)
    requires
        sorted(a),
        sorted(b),
        a.to_multiset() == b.to_multiset(),
    ensures
        a == b,
    decreases a.len(),
{
    broadcast use vstd::seq_lib::group_to_multiset_ensures;
    broadcast use vstd::multiset::group_multiset_axioms;

    assert(a.len() == a.to_multiset().len());
    assert(b.len() == b.to_multiset().len());
    assert(a.len() == b.len());
    if a.len() == 0 {
        assert(a =~= b);
    } else {
        assert(a.contains(a[0]));
        assert(b.to_multiset().count(a[0]) > 0);
        assert(b.contains(a[0]));
        let i = choose|i: int| 0 <= i < b.len() && b[i] == a[0];
        assert(b[0] <= b[i]);
        assert(b.contains(b[0]));
        assert(a.to_multiset().count(b[0]) > 0);
        assert(a.contains(b[0]));
        let j = choose|j: int| 0 <= j < a.len() && a[j] == b[0];
        assert(a[0] <= a[j]);
        assert(a[0] == b[0]);
        assert(a.remove(0) =~= a.drop_first());
        assert(a.remove(0).to_multiset() == a.to_multiset().remove(a[0]));
        assert(b.remove(0) =~= b.drop_first());
        assert(b.remove(0).to_multiset() == b.to_multiset().remove(b[0]));
        assert(a.drop_first().to_multiset() == b.drop_first().to_multiset());
        lemma_sorted_multiset_unique(a.drop_first(), b.drop_first());
        assert forall|k: int| 0 <= k < a.len() implies a[k] == b[k] by {
            if k > 0 {
                assert(a[k] == a.drop_first()[k - 1]);
                assert(b[k] == b.drop_first()[k - 1]);
            }
        }
        assert(a =~= b);
    }
}

/// Recording is commutative: two samples land in the same histogram
/// whichever of them arrives first, so the final histogram cannot
/// depend on how the workers' results interleave.
pub proof fn lemma_record_commutes(s: Seq<u64>, a: u64, b: u64)
    requires
        sorted(s),
    ensures
        insert_sorted(insert_sorted(s, a), b) == insert_sorted(insert_sorted(s, b), a),
{
    broadcast use vstd::multiset::group_multiset_axioms;

    lemma_insert_sorted_multiset(s, a);
    lemma_insert_sorted_multiset(insert_sorted(s, a), b);
    lemma_insert_sorted_multiset(s, b);
    lemma_insert_sorted_multiset(insert_sorted(s, b), a);
    assert(s.to_multiset().insert(a).insert(b) =~= s.to_multiset().insert(b).insert(a));
    lemma_sorted_multiset_unique(
        insert_sorted(insert_sorted(s, a), b),
        insert_sorted(insert_sorted(s, b), a),
    );
}

} // verus!
