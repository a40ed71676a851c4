//! The single consumer of all worker results: running success and
//! failure counts, the latency histogram, the status-code tally and the
//! error-message tally. Results may arrive in any interleaving; each is
//! folded in by exactly one owner, so no lock is needed.

use crate::histogram::{insert_sorted, LatencyHistogram};
use crate::outcome::RequestResult;
use vstd::prelude::*;
use vstd::string::*;

verus! {

/// The histogram's value domain starts at one millisecond: a faster
/// completion is recorded as one millisecond, never dropped.
pub open spec fn clamp_ms(d: u64) -> u64 {
    if d == 0 {
        1
    } else {
        d
    }
}

/// Status tallies are held strictly ascending by code.
pub open spec fn status_sorted(s: Seq<(u16, usize)>) -> bool {
    forall|i: int, j: int| 0 <= i < j < s.len() ==> s[i].0 < s[j].0
}

/// A status tally after counting one more occurrence of `code`.
pub open spec fn bump_status(s: Seq<(u16, usize)>, code: u16) -> Seq<(u16, usize)>
    decreases s.len(),
{
    if s.len() == 0 {
        seq![(code, 1usize)]
    } else if code < s[0].0 {
        seq![(code, 1usize)] + s
    } else if code == s[0].0 {
        seq![(code, (s[0].1 + 1) as usize)] + s.drop_first()
    } else {
        seq![s[0]] + bump_status(s.drop_first(), code)
    }
}

/// Error tallies never hold the same message twice.
pub open spec fn error_keys_unique(s: Seq<(Seq<char>, usize)>) -> bool {
    forall|i: int, j: int| 0 <= i < j < s.len() ==> s[i].0 != s[j].0
}

/// An error tally after counting one more occurrence of `key`: an
/// already seen message is counted in place, a new one goes to the end,
/// so the tally keeps the order of first appearance.
pub open spec fn bump_error(s: Seq<(Seq<char>, usize)>, key: Seq<char>) -> Seq<(Seq<char>, usize)>
    decreases s.len(),
{
    if s.len() == 0 {
        seq![(key, 1usize)]
    } else if s[0].0 == key {
        seq![(key, (s[0].1 + 1) as usize)] + s.drop_first()
    } else {
        seq![s[0]] + bump_error(s.drop_first(), key)
    }
}

/// The occurrence count a status tally holds for `code`.
pub open spec fn status_count(s: Seq<(u16, usize)>, code: u16) -> int
    decreases s.len(),
{
    if s.len() == 0 {
        0
    } else if s[0].0 == code {
        s[0].1 as int
    } else {
        status_count(s.drop_first(), code)
    }
}

proof fn lemma_status_count_small(s: Seq<(u16, usize)>, code: u16)
    requires
        status_sorted(s),
        s.len() > 0 ==> code < s[0].0,
    ensures
        status_count(s, code) == 0,
    decreases s.len(),
{
    if s.len() > 0 {
        lemma_status_count_small(s.drop_first(), code);
    }
}

/// Tallying `code` raises exactly its own count by one and no other.
pub proof fn lemma_bump_status_count(s: Seq<(u16, usize)>, code: u16, q: u16)
    requires
        status_sorted(s),
        forall|i: int| 0 <= i < s.len() ==> #[trigger] s[i].1 < usize::MAX,
    ensures
        status_count(bump_status(s, code), code) == status_count(s, code) + 1,
        q != code ==> status_count(bump_status(s, code), q) == status_count(s, q),
    decreases s.len(),
{
    if s.len() == 0 {
        let b = bump_status(s, code);
        assert(b =~= seq![(code, 1usize)]);
        assert(b.drop_first().len() == 0);
        assert(status_count(b.drop_first(), q) == 0);
        if q != code {
            assert(status_count(b, q) == 0);
        }
    } else if code < s[0].0 {
        lemma_status_count_small(s, code);
        assert((seq![(code, 1usize)] + s).drop_first() =~= s);
        assert(status_count(bump_status(s, code), code) == 1);
        if q != code {
            assert(status_count(bump_status(s, code), q) == status_count(s, q));
        }
    } else if code == s[0].0 {
        let b = seq![(code, (s[0].1 + 1) as usize)] + s.drop_first();
        assert(b.drop_first() =~= s.drop_first());
        assert(status_count(b, code) == s[0].1 + 1);
        if q != code {
            assert(status_count(b, q) == status_count(s.drop_first(), q));
            assert(status_count(s, q) == status_count(s.drop_first(), q));
        }
    } else {
        lemma_bump_status_count(s.drop_first(), code, q);
        lemma_bump_status_count(s.drop_first(), code, code);
        let b = seq![s[0]] + bump_status(s.drop_first(), code);
        assert(b.drop_first() =~= bump_status(s.drop_first(), code));
        assert(b[0] == s[0]);
        assert(status_count(b, code) == status_count(s.drop_first(), code) + 1);
        assert(status_count(s, code) == status_count(s.drop_first(), code));
        if q != code {
            if q == s[0].0 {
                assert(status_count(b, q) == s[0].1);
                assert(status_count(s, q) == s[0].1);
            } else {
                assert(status_count(b, q) == status_count(s.drop_first(), q));
                assert(status_count(s, q) == status_count(s.drop_first(), q));
            }
        }
    }
}

proof fn lemma_status_tally_unique(s: Seq<(u16, usize)>, t: Seq<(u16, usize)>)
    requires
        status_sorted(s),
        status_sorted(t),
        forall|i: int| 0 <= i < s.len() ==> #[trigger] s[i].1 >= 1,
        forall|i: int| 0 <= i < t.len() ==> #[trigger] t[i].1 >= 1,
        forall|q: u16| status_count(s, q) == status_count(t, q),
    ensures
        s == t,
    decreases s.len() + t.len(),
{
    if s.len() == 0 && t.len() == 0 {
        assert(s =~= t);
    } else if s.len() == 0 {
        assert(status_count(t, t[0].0) == t[0].1);
        assert(status_count(s, t[0].0) == 0);
    } else if t.len() == 0 {
        assert(status_count(s, s[0].0) == s[0].1);
        assert(status_count(t, s[0].0) == 0);
    } else {
        assert(status_count(s, s[0].0) == s[0].1);
        assert(status_count(t, t[0].0) == t[0].1);
        if s[0].0 < t[0].0 {
            lemma_status_count_small(t, s[0].0);
            assert(false);
        }
        if t[0].0 < s[0].0 {
            lemma_status_count_small(s, t[0].0);
            assert(false);
        }
        assert(s[0] == t[0]);
        assert forall|q: u16|
            status_count(s.drop_first(), q) == status_count(t.drop_first(), q) by {
            if q == s[0].0 {
                if s.len() > 1 {
                    lemma_status_count_small(s.drop_first(), q);
                } else {
                    assert(s.drop_first().len() == 0);
                }
                if t.len() > 1 {
                    lemma_status_count_small(t.drop_first(), q);
                } else {
                    assert(t.drop_first().len() == 0);
                }
            } else {
                assert(status_count(s, q) == status_count(s.drop_first(), q));
                assert(status_count(t, q) == status_count(t.drop_first(), q));
            }
        }
        lemma_status_tally_unique(s.drop_first(), t.drop_first());
        assert(s.len() == t.len());
        assert forall|k: int| 0 <= k < s.len() implies s[k] == t[k] by {
            if k > 0 {
                assert(s[k] == s.drop_first()[k - 1]);
                assert(t[k] == t.drop_first()[k - 1]);
            }
        }
        assert(s =~= t);
    }
}

/// Tallying is commutative: two status codes land in the same tally
/// whichever of them arrives first, so the distribution cannot depend
/// on how the workers' results interleave.
pub proof fn lemma_tally_commutes(s: Seq<(u16, usize)>, a: u16, b: u16)
    requires
        status_sorted(s),
        forall|i: int| 0 <= i < s.len() ==> 1 <= #[trigger] s[i].1 < usize::MAX - 1,
    ensures
        bump_status(bump_status(s, a), b) == bump_status(bump_status(s, b), a),
{
    lemma_bump_status_props(s, a, (usize::MAX - 2) as int);
    lemma_bump_status_props(s, b, (usize::MAX - 2) as int);
    lemma_bump_status_props(bump_status(s, a), b, (usize::MAX - 1) as int);
    lemma_bump_status_props(bump_status(s, b), a, (usize::MAX - 1) as int);
    let ab = bump_status(bump_status(s, a), b);
    let ba = bump_status(bump_status(s, b), a);
    assert forall|q: u16| status_count(ab, q) == status_count(ba, q) by {
        lemma_bump_status_count(s, a, q);
        lemma_bump_status_count(s, b, q);
        lemma_bump_status_count(bump_status(s, a), b, q);
        lemma_bump_status_count(bump_status(s, b), a, q);
    }
    lemma_status_tally_unique(ab, ba);
}

/// The error tally as the sequence of message texts with their counts.
pub open spec fn errs_view(s: Seq<(String, usize)>) -> Seq<(Seq<char>, usize)> {
    s.map_values(|p: (String, usize)| (p.0@, p.1))
}

proof fn lemma_bump_status_update(s: Seq<(u16, usize)>, code: u16, i: int)
    requires
        status_sorted(s),
        0 <= i < s.len(),
        s[i].0 == code,
        forall|j: int| 0 <= j < i ==> s[j].0 < code,
    ensures
        bump_status(s, code) == s.update(i, (code, (s[i].1 + 1) as usize)),
    decreases i,
{
    if i == 0 {
        assert(seq![(code, (s[0].1 + 1) as usize)] + s.drop_first() =~= s.update(
            0,
            (code, (s[0].1 + 1) as usize),
        ));
    } else {
        lemma_bump_status_update(s.drop_first(), code, i - 1);
        assert(seq![s[0]] + s.drop_first().update(i - 1, (code, (s[i].1 + 1) as usize)) =~= s.update(
            i,
            (code, (s[i].1 + 1) as usize),
        ));
    }
}

proof fn lemma_bump_status_insert(s: Seq<(u16, usize)>, code: u16, i: int)
    requires
        status_sorted(s),
        0 <= i <= s.len(),
        forall|j: int| 0 <= j < i ==> s[j].0 < code,
        i < s.len() ==> code < s[i].0,
    ensures
        bump_status(s, code) == s.insert(i, (code, 1usize)),
    decreases s.len(),
{
    if s.len() == 0 {
        assert(seq![(code, 1usize)] =~= s.insert(0, (code, 1usize)));
    } else if i == 0 {
        assert(seq![(code, 1usize)] + s =~= s.insert(0, (code, 1usize)));
    } else {
        lemma_bump_status_insert(s.drop_first(), code, i - 1);
        assert(seq![s[0]] + s.drop_first().insert(i - 1, (code, 1usize)) =~= s.insert(
            i,
            (code, 1usize),
        ));
    }
}

proof fn lemma_bump_error_update(s: Seq<(Seq<char>, usize)>, key: Seq<char>, i: int)
    requires
        0 <= i < s.len(),
        s[i].0 == key,
        forall|j: int| 0 <= j < i ==> s[j].0 != key,
    ensures
        bump_error(s, key) == s.update(i, (key, (s[i].1 + 1) as usize)),
    decreases i,
{
    if i == 0 {
        assert(seq![(key, (s[0].1 + 1) as usize)] + s.drop_first() =~= s.update(
            0,
            (key, (s[0].1 + 1) as usize),
        ));
    } else {
        lemma_bump_error_update(s.drop_first(), key, i - 1);
        assert(seq![s[0]] + s.drop_first().update(i - 1, (key, (s[i].1 + 1) as usize)) =~= s.update(
            i,
            (key, (s[i].1 + 1) as usize),
        ));
    }
}

proof fn lemma_bump_error_push(s: Seq<(Seq<char>, usize)>, key: Seq<char>)
    requires
        forall|j: int| 0 <= j < s.len() ==> s[j].0 != key,
    ensures
        bump_error(s, key) == s.push((key, 1usize)),
    decreases s.len(),
{
    if s.len() == 0 {
        assert(seq![(key, 1usize)] =~= s.push((key, 1usize)));
    } else {
        lemma_bump_error_push(s.drop_first(), key);
        assert(seq![s[0]] + s.drop_first().push((key, 1usize)) =~= s.push((key, 1usize)));
    }
}

proof fn lemma_bump_status_props(s: Seq<(u16, usize)>, code: u16, bound: int)
    requires
        status_sorted(s),
        forall|i: int| 0 <= i < s.len() ==> 1 <= #[trigger] s[i].1 <= bound,
        0 <= bound < usize::MAX,
    ensures
        status_sorted(bump_status(s, code)),
        forall|i: int|
            0 <= i < bump_status(s, code).len() ==> 1 <= #[trigger] bump_status(s, code)[i].1
                <= bound + 1,
        forall|i: int|
            0 <= i < bump_status(s, code).len() ==> (#[trigger] bump_status(s, code)[i].0 == code
                || (exists|j: int| 0 <= j < s.len() && s[j].0 == bump_status(s, code)[i].0)),
    decreases s.len(),
{
    if s.len() == 0 {
    } else if code < s[0].0 {
        let b = bump_status(s, code);
        assert forall|i: int| 0 <= i < b.len() implies 1 <= #[trigger] b[i].1 <= bound + 1 by {
            if i > 0 {
                assert(b[i].1 == s[i - 1].1);
            }
        }
    } else if code == s[0].0 {
        let b = bump_status(s, code);
        assert forall|i: int| 0 <= i < b.len() implies 1 <= #[trigger] b[i].1 <= bound + 1 by {
            if i > 0 {
                assert(b[i].1 == s[i].1);
            }
        }
    } else {
        lemma_bump_status_props(s.drop_first(), code, bound);
        let b = bump_status(s, code);
        let br = bump_status(s.drop_first(), code);
        assert forall|i: int| 0 <= i < b.len() implies 1 <= #[trigger] b[i].1 <= bound + 1 by {
            if i > 0 {
                assert(b[i].1 == br[i - 1].1);
            } else {
                assert(b[0].1 == s[0].1);
            }
        }
        assert forall|i: int, j: int| 0 <= i < j < b.len() implies b[i].0 < b[j].0 by {
            if i == 0 {
                assert(b[j].0 == br[j - 1].0);
                if br[j - 1].0 != code {
                    let ghost w = choose|w: int|
                        0 <= w < s.drop_first().len() && s.drop_first()[w].0 == br[j - 1].0;
                    assert(s[w + 1].0 == br[j - 1].0);
                }
            } else {
                assert(b[i].0 == br[i - 1].0 && b[j].0 == br[j - 1].0);
            }
        }
        assert forall|i: int| 0 <= i < b.len() implies (b[i].0 == code || (exists|j: int|
            0 <= j < s.len() && s[j].0 == b[i].0)) by {
            if i > 0 && br[i - 1].0 != code {
                let ghost w = choose|w: int|
                    0 <= w < s.drop_first().len() && s.drop_first()[w].0 == br[i - 1].0;
                assert(s[w + 1].0 == b[i].0);
            }
        }
    }
}

proof fn lemma_bump_error_props(s: Seq<(Seq<char>, usize)>, key: Seq<char>, bound: int)
    requires
        error_keys_unique(s),
        forall|i: int| 0 <= i < s.len() ==> 1 <= #[trigger] s[i].1 <= bound,
        0 <= bound < usize::MAX,
    ensures
        error_keys_unique(bump_error(s, key)),
        forall|i: int|
            0 <= i < bump_error(s, key).len() ==> 1 <= #[trigger] bump_error(s, key)[i].1 <= bound
                + 1,
        forall|i: int|
            0 <= i < bump_error(s, key).len() ==> (#[trigger] bump_error(s, key)[i].0 == key || (
            exists|j: int| 0 <= j < s.len() && s[j].0 == bump_error(s, key)[i].0)),
    decreases s.len(),
{
    if s.len() == 0 {
    } else if s[0].0 == key {
        let b = bump_error(s, key);
        assert forall|i: int| 0 <= i < b.len() implies 1 <= #[trigger] b[i].1 <= bound + 1 by {
            if i > 0 {
                assert(b[i].1 == s[i].1);
            }
        }
    } else {
        lemma_bump_error_props(s.drop_first(), key, bound);
        let b = bump_error(s, key);
        let br = bump_error(s.drop_first(), key);
        assert forall|i: int| 0 <= i < b.len() implies 1 <= #[trigger] b[i].1 <= bound + 1 by {
            if i > 0 {
                assert(b[i].1 == br[i - 1].1);
            } else {
                assert(b[0].1 == s[0].1);
            }
        }
        assert forall|i: int| 0 <= i < b.len() implies (b[i].0 == key || (exists|j: int|
            0 <= j < s.len() && s[j].0 == b[i].0)) by {
            if i > 0 && br[i - 1].0 != key {
                let ghost w = choose|w: int|
                    0 <= w < s.drop_first().len() && s.drop_first()[w].0 == br[i - 1].0;
                assert(s[w + 1].0 == b[i].0);
            }
        }
        assert forall|i: int, j: int| 0 <= i < j < b.len() implies b[i].0 != b[j].0 by {
            if i == 0 {
                if br[j - 1].0 != key {
                    let ghost w = choose|w: int|
                        0 <= w < s.drop_first().len() && s.drop_first()[w].0 == br[j - 1].0;
                    assert(s[w + 1].0 == br[j - 1].0);
                }
            } else {
                assert(b[i].0 == br[i - 1].0 && b[j].0 == br[j - 1].0);
            }
        }
    }
}

fn tally_status(v: &mut Vec<(u16, usize)>, code: u16)
    requires
        status_sorted(old(v)@),
        forall|i: int| 0 <= i < old(v)@.len() ==> old(v)@[i].1 < usize::MAX,
    ensures
        final(v)@ == bump_status(old(v)@, code),
{
    let n = v.len();
    let mut i: usize = 0;
    while i < n && v[i].0 < code
        invariant
            i <= n,
            n == v@.len(),
            v@ == old(v)@,
            forall|j: int| 0 <= j < i ==> v@[j].0 < code,
        decreases n - i,
    {
        i = i + 1;
    }
    if i < n && v[i].0 == code {
        let c = v[i].1;
        v[i] = (code, c + 1);
        proof {
            lemma_bump_status_update(old(v)@, code, i as int);
        }
    } else {
        v.insert(i, (code, 1));
        proof {
            lemma_bump_status_insert(old(v)@, code, i as int);
        }
    }
}

fn tally_error(v: &mut Vec<(String, usize)>, key: &String)
    requires
        forall|i: int| 0 <= i < old(v)@.len() ==> old(v)@[i].1 < usize::MAX,
    ensures
        errs_view(final(v)@) == bump_error(errs_view(old(v)@), key@),
{
    let n = v.len();
    let mut i: usize = 0;
    while i < n && !(v[i].0 == *key)
        invariant
            i <= n,
            n == v@.len(),
            v@ == old(v)@,
            forall|j: int| 0 <= j < i ==> v@[j].0@ != key@,
        decreases n - i,
    {
        i = i + 1;
    }
    if i < n {
        let c = v[i].1;
        v[i] = (key.clone(), c + 1);
        proof {
            lemma_bump_error_update(errs_view(old(v)@), key@, i as int);
            assert(errs_view(v@) =~= errs_view(old(v)@).update(
                i as int,
                (key@, (old(v)@[i as int].1 + 1) as usize),
            ));
        }
    } else {
        v.push((key.clone(), 1));
        proof {
            lemma_bump_error_push(errs_view(old(v)@), key@);
            assert(errs_view(v@) =~= errs_view(old(v)@).push((key@, 1usize)));
        }
    }
}

/// The aggregate over all results received so far. The ghost counters
/// remember how many results were folded in and how many abnormal
/// worker terminations were noted, so the accounting can be stated.
pub struct AggregateState {
    pub hist: LatencyHistogram,
    pub statuses: Vec<(u16, usize)>,
    pub errors: Vec<(String, usize)>,
    pub success_count: usize,
    pub failure_count: usize,
    pub results_seen: Ghost<int>,
    pub task_failures: Ghost<int>,
}

impl AggregateState {
    /// The error tally's message texts with their counts.
    pub open spec fn errors_view(self) -> Seq<(Seq<char>, usize)> {
        errs_view(self.errors@)
    }

    /// The executed total: every success or failure counted so far.
    pub open spec fn total(self) -> int {
        self.success_count + self.failure_count
    }

    /// The aggregate invariant: one histogram sample per success, the
    /// status tally strictly ascending, the error tally without a
    /// repeated message, every tally bounded by what was counted, and
    /// the executed total accounting exactly for the results received
    /// plus the abnormal terminations noted.
    pub open spec fn wf(self) -> bool {
        &&& self.hist.wf()
        &&& self.hist@.len() == self.success_count
        &&& status_sorted(self.statuses@)
        &&& forall|i: int|
            0 <= i < self.statuses@.len() ==> 1 <= #[trigger] self.statuses@[i].1 <= self.total()
        &&& error_keys_unique(self.errors_view())
        &&& forall|i: int|
            0 <= i < self.errors@.len() ==> 1 <= #[trigger] self.errors@[i].1
                <= self.failure_count
        &&& self.results_seen@ >= 0
        &&& self.task_failures@ >= 0
        &&& self.total() == self.results_seen@ + self.task_failures@
    }

    /// An aggregate that has seen nothing.
    pub fn new() -> (r: AggregateState)
        ensures
            r.wf(),
            r.hist@ == Seq::<u64>::empty(),
            r.statuses@ == Seq::<(u16, usize)>::empty(),
            r.errors_view() == Seq::<(Seq<char>, usize)>::empty(),
            r.success_count == 0,
            r.failure_count == 0,
            r.results_seen@ == 0,
            r.task_failures@ == 0,
    {
        let r = AggregateState {
            hist: LatencyHistogram::new(),
            statuses: Vec::new(),
            errors: Vec::new(),
            success_count: 0,
            failure_count: 0,
            results_seen: Ghost(0),
            task_failures: Ghost(0),
        };
        proof {
            assert(r.errors_view() =~= Seq::<(Seq<char>, usize)>::empty());
        }
        r
    }

    /// Folds one received result into the aggregate: a success records
    /// its clamped latency, a failure its message tally; a present
    /// status code is tallied either way.
    pub fn record(&mut self, r: &RequestResult)
        requires
            old(self).wf(),
            old(self).total() < usize::MAX,
        ensures
            final(self).wf(),
            final(self).results_seen@ == old(self).results_seen@ + 1,
            final(self).task_failures@ == old(self).task_failures@,
            r.success ==> {
                &&& final(self).success_count == old(self).success_count + 1
                &&& final(self).failure_count == old(self).failure_count
                &&& final(self).hist@ == insert_sorted(old(self).hist@, clamp_ms(r.duration_ms))
                &&& final(self).errors_view() == old(self).errors_view()
            },
            !r.success ==> {
                &&& final(self).failure_count == old(self).failure_count + 1
                &&& final(self).success_count == old(self).success_count
                &&& final(self).hist@ == old(self).hist@
                &&& final(self).errors_view() == bump_error(old(self).errors_view(), r.error_key())
            },
            final(self).statuses@ == (match r.status_code {
                Some(code) => bump_status(old(self).statuses@, code),
                None => old(self).statuses@,
            }),
    {
        if r.success {
            let d = if r.duration_ms == 0 {
                1
            } else {
                r.duration_ms
            };
            self.hist.record(d);
            self.success_count = self.success_count + 1;
        } else {
            match &r.error {
                Some(m) => tally_error(&mut self.errors, m),
                None => {
                    let k = String::from_str("unknown error");
                    tally_error(&mut self.errors, &k);
                },
            }
            self.failure_count = self.failure_count + 1;
        }
        match r.status_code {
            Some(code) => tally_status(&mut self.statuses, code),
            None => {},
        }
        proof {
            self.results_seen@ = old(self).results_seen@ + 1;
            if let Some(code) = r.status_code {
                lemma_bump_status_props(old(self).statuses@, code, old(self).total());
            }
            if !r.success {
                lemma_bump_error_props(
                    old(self).errors_view(),
                    r.error_key(),
                    old(self).failure_count as int,
                );
            }
            assert forall|i: int| 0 <= i < self.errors@.len() implies #[trigger] self.errors@[i].1
                == self.errors_view()[i].1 by {
                assert(self.errors_view()[i] == (self.errors@[i].0@, self.errors@[i].1));
            }
            assert forall|i: int|
                0 <= i < old(self).errors@.len() implies #[trigger] old(self).errors@[i].1 == old(
                self,
            ).errors_view()[i].1 by {
                assert(old(self).errors_view()[i] == (old(self).errors@[i].0@, old(
                self,
                ).errors@[i].1));
            }
        }
    }

    /// Notes a worker task that terminated abnormally: exactly one more
    /// failure, with no histogram sample and no tally entry.
    pub fn note_task_failure(&mut self)
        requires
            old(self).wf(),
            old(self).total() < usize::MAX,
        ensures
            final(self).wf(),
            final(self).failure_count == old(self).failure_count + 1,
            final(self).success_count == old(self).success_count,
            final(self).hist@ == old(self).hist@,
            final(self).statuses@ == old(self).statuses@,
            final(self).errors_view() == old(self).errors_view(),
            final(self).results_seen@ == old(self).results_seen@,
            final(self).task_failures@ == old(self).task_failures@ + 1,
    {
        self.failure_count = self.failure_count + 1;
        proof {
            self.task_failures@ = old(self).task_failures@ + 1;
        }
    }
}

/// Every executed work unit is accounted exactly once: the success and
/// failure totals together equal the number of results received plus
/// the number of abnormal worker terminations noted, however the
/// results were interleaved.
pub proof fn lemma_work_conservation(st: AggregateState)
    requires
        st.wf(),
    ensures
        st.success_count + st.failure_count == st.results_seen@ + st.task_failures@,
{
}

/// No histogram sample is ever zero: a measured duration below one
/// millisecond was clamped to one millisecond when it was recorded.
pub proof fn lemma_no_zero_sample(st: AggregateState, i: int)
    requires
        st.wf(),
        0 <= i < st.hist@.len(),
    ensures
        st.hist@[i] >= 1,
        clamp_ms(0) == 1,
{
}

} // verus!
