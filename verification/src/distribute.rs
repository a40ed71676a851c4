//! Fair distribution of the total work over the workers.

use vstd::arithmetic::div_mod::*;
use vstd::arithmetic::mul::*;
use vstd::prelude::*;

verus! {

/// The fatal configuration fault: a run with no work units or no workers
/// is refused before any network activity.
#[derive(Clone, Copy, Debug, PartialEq, Eq, Structural)]
pub enum ConfigurationError {
    ZeroWorkUnits,
    ZeroWorkers,
}

/// The share of `n` work units that the worker at index `i` receives when
/// the work is split over `c` workers: the first `n % c` workers take one
/// unit more than the others.
pub open spec fn share(n: nat, c: nat, i: nat) -> nat
    recommends
        c > 0,
{
    if i < n % c {
        n / c + 1
    } else {
        n / c
    }
}

/// The number of work units in a sequence of per-worker assignments.
pub open spec fn total_units(s: Seq<usize>) -> int
    decreases s.len(),
{
    if s.len() == 0 {
        0
    } else {
        total_units(s.drop_last()) + s.last()
    }
}

/// A sequence of assignments is fair for `n` units over `c` workers when
/// there is one assignment per worker, each worker holds exactly its
/// share, and the shares exhaust the total.
pub open spec fn fair_assignment(n: nat, c: nat, s: Seq<usize>) -> bool {
    &&& s.len() == c
    &&& forall|i: int| 0 <= i < c ==> s[i] == share(n, c, i as nat)
    &&& total_units(s) == n
}

/// The sum of the first `k` shares.
pub open spec fn share_sum(n: nat, c: nat, k: nat) -> int
    decreases k,
{
    if k == 0 {
        0
    } else {
        share_sum(n, c, (k - 1) as nat) + share(n, c, (k - 1) as nat)
    }
}

proof fn lemma_share_sum_closed(n: nat, c: nat, k: nat)
    requires
        c > 0,
        k <= c,
    ensures
        share_sum(n, c, k) == k * (n / c) + (if k <= n % c {
            k as int
        } else {
            (n % c) as int
        }),
    decreases k,
{
    let q = (n / c) as int;
    if k == 0 {
        assert(k * q == 0);
    } else {
        lemma_share_sum_closed(n, c, (k - 1) as nat);
        assert(k * q == (k - 1) * q + q) by (nonlinear_arith);
    }
}

/// All `c` shares together are exactly the `n` requested work units.
proof fn lemma_shares_exhaust(n: nat, c: nat)
    requires
        c > 0,
    ensures
        share_sum(n, c, c) == n,
{
    lemma_share_sum_closed(n, c, c);
    lemma_fundamental_div_mod(n as int, c as int);
    lemma_mod_bound(n as int, c as int);
    lemma_mul_is_commutative(c as int, (n / c) as int);
}

/// Computes the per-worker assignments for `n` work units over `c`
/// workers. The assignments sum to `n` and differ pairwise by at most
/// one unit, the extra units going to the lowest worker indices.
pub fn compute_assignments(n: usize, c: usize) -> (r: Vec<usize>)
    requires
        n >= 1,
        c >= 1,
    ensures
        fair_assignment(n as nat, c as nat, r@),
        forall|i: int, j: int| 0 <= i < c && 0 <= j < c ==> r@[i] <= r@[j] + 1,
{
    let base: usize = n / c;
    let rem: usize = n % c;
    proof {
        lemma_div_nonincreasing(n as int, c as int);
        lemma_fundamental_div_mod(n as int, c as int);
        if n % c >= 1 {
            assert((n / c) as int <= (c as int) * ((n / c) as int)) by (nonlinear_arith)
                requires
                    c >= 1,
                    n / c >= 0,
            ;
        }
    }
    let mut r: Vec<usize> = Vec::new();
    let mut i: usize = 0;
    while i < c
        invariant
            i <= c,
            c >= 1,
            n >= 1,
            base == n as nat / c as nat,
            rem == n as nat % c as nat,
            rem >= 1 ==> base < n,
            r@.len() == i,
            forall|j: int| 0 <= j < i ==> r@[j] == share(n as nat, c as nat, j as nat),
            total_units(r@) == share_sum(n as nat, c as nat, i as nat),
        decreases c - i,
    {
        let units: usize = if i < rem {
            base + 1
        } else {
            base
        };
        let ghost prev = r@;
        r.push(units);
        proof {
            assert(r@.drop_last() =~= prev);
        }
        i = i + 1;
    }
    proof {
        lemma_shares_exhaust(n as nat, c as nat);
    }
    r
}

/// Plans a run: refuses a configuration with zero work units or zero
/// workers before any work starts, and otherwise hands back the fair
/// per-worker assignments.
pub fn plan_run(n: usize, c: usize) -> (r: Result<Vec<usize>, ConfigurationError>)
    ensures
        n == 0 ==> r == Result::<Vec<usize>, ConfigurationError>::Err(
            ConfigurationError::ZeroWorkUnits,
        ),
        n >= 1 && c == 0 ==> r == Result::<Vec<usize>, ConfigurationError>::Err(
            ConfigurationError::ZeroWorkers,
        ),
        r matches Ok(a) ==> n >= 1 && c >= 1 && fair_assignment(n as nat, c as nat, a@),
        r matches Ok(a) ==> forall|i: int, j: int|
            0 <= i < c && 0 <= j < c ==> a@[i] <= a@[j] + 1,
        n >= 1 && c >= 1 ==> r is Ok,
{
    if n == 0 {
        Err(ConfigurationError::ZeroWorkUnits)
    } else if c == 0 {
        Err(ConfigurationError::ZeroWorkers)
    } else {
        Ok(compute_assignments(n, c))
    }
}

} // verus!

