//! Round robin: the candidates take turns.

use vstd::prelude::*;
use crate::config::LoadBalancerAlgorithm;
use crate::load_balancer::algorithm::LoadBalancer;
use crate::proxy::backend::Backend;

verus! {

/// Hands requests to the candidates in turn, by a counter that grows by
/// one with every selection.
pub struct RoundRobinBalancer {
    counter: usize,
}

/// The counter after one more selection; it starts over at zero behind
/// the largest `usize`.
pub open spec fn next_turn(counter: usize) -> usize {
    if counter < usize::MAX {
        (counter + 1) as usize
    } else {
        0
    }
}

impl RoundRobinBalancer {
    /// The number of selections made so far, modulo 2^(bits of `usize`).
    pub closed spec fn counter(&self) -> usize {
        self.counter
    }

    /// A balancer whose first choice is the first candidate.
    pub fn new() -> (b: Self)
        ensures
            b.counter() == 0,
    {
        RoundRobinBalancer { counter: 0 }
    }

    /// The position that the next selection among `n` candidates takes.
    pub fn next_index(&mut self, n: usize) -> (index: usize)
        requires
            n > 0,
        ensures
            index == old(self).counter() % n,
            final(self).counter() == next_turn(old(self).counter()),
    {
        let index = self.counter % n;
        self.counter = self.counter.wrapping_add(1);
        index
    }
}

impl LoadBalancer for RoundRobinBalancer {
    open spec fn algorithm(&self) -> LoadBalancerAlgorithm {
        LoadBalancerAlgorithm::RoundRobin
    }

    fn select_backend<'a>(&mut self, backends: &[&'a Backend], client_addr: Option<&str>) -> (chosen:
        Option<&'a Backend>)
        ensures
            backends@.len() > 0 ==> chosen == Some(
                backends@[(old(self).counter() as int) % (backends@.len() as int)],
            ),
            backends@.len() > 0 ==> final(self).counter() == next_turn(old(self).counter()),
            backends@.len() == 0 ==> *final(self) == *old(self),
    {
        if backends.len() == 0 {
            return None;
        }
        let index = self.next_index(backends.len());
        Some(backends[index])
    }

    fn name(&self) -> (n: &'static str) {
        "round_robin"
    }
}

/// How often position `j` is chosen when `m` selections in a row are made
/// among `n` candidates, the first of them at counter `c`.
pub open spec fn times_chosen(c: nat, n: nat, m: nat, j: nat) -> nat
    decreases m,
{
    if m == 0 {
        0
    } else {
        times_chosen(c, n, (m - 1) as nat, j) + if (c + m - 1) % (n as int) == j {
            1nat
        } else {
            0nat
        }
    }
}

/// The number of integers below `x` that leave the remainder `j` modulo `n`.
spec fn hits_below(x: int, n: int, j: int) -> int {
    (x + n - 1 - j) / n
}

proof fn lemma_hits_step(x: int, n: int, j: int)
    requires
        0 <= x,
        0 <= j < n,
    ensures
        hits_below(x + 1, n, j) - hits_below(x, n, j) == (if x % n == j {
            1int
        } else {
            0int
        }),
{
    let y = x + n - 1 - j;
    let q = y / n;
    let r = y % n;
    let q1 = (y + 1) / n;
    let r1 = (y + 1) % n;
    let qx = x / n;
    let rx = x % n;
    assert(y == n * q + r && 0 <= r < n) by (nonlinear_arith)
        requires
            q == y / n,
            r == y % n,
            n > 0,
    ;
    assert(y + 1 == n * q1 + r1 && 0 <= r1 < n) by (nonlinear_arith)
        requires
            q1 == (y + 1) / n,
            r1 == (y + 1) % n,
            n > 0,
    ;
    assert(x == n * qx + rx && 0 <= rx < n) by (nonlinear_arith)
        requires
            qx == x / n,
            rx == x % n,
            n > 0,
    ;
    // From  n*q + r + 1 == n*q1 + r1  with both remainders in range.
    assert(q1 == q || q1 == q + 1) by (nonlinear_arith)
        requires
            n * q + r + 1 == n * q1 + r1,
            0 <= r < n,
            0 <= r1 < n,
    ;
    if q1 == q + 1 {
        assert(r1 == 0 && r == n - 1) by (nonlinear_arith)
            requires
                n * q + r + 1 == n * q1 + r1,
                q1 == q + 1,
                0 <= r < n,
                0 <= r1 < n,
        ;
        // y = n*q + n - 1, so x - j = n*q: x leaves the remainder j.
        assert(rx == j) by (nonlinear_arith)
            requires
                x == n * qx + rx,
                x + n - 1 - j == n * q + n - 1,
                0 <= rx < n,
                0 <= j < n,
        ;
    } else {
        assert(r1 == r + 1) by (nonlinear_arith)
            requires
                n * q + r + 1 == n * q1 + r1,
                q1 == q,
        ;
        if rx == j {
            assert(r == n - 1) by (nonlinear_arith)
                requires
                    x == n * qx + j,
                    x + n - 1 - j == n * q + r,
                    0 <= r < n,
            ;
        }
    }
}

proof fn lemma_times_chosen_closed_form(c: nat, n: nat, m: nat, j: nat)
    requires
        j < n,
    ensures
        times_chosen(c, n, m, j) == hits_below((c + m) as int, n as int, j as int) - hits_below(
            c as int,
            n as int,
            j as int,
        ),
    decreases m,
{
    if m > 0 {
        lemma_times_chosen_closed_form(c, n, (m - 1) as nat, j);
        lemma_hits_step((c + m - 1) as int, n as int, j as int);
    }
}

/// Round-robin fairness: of `m` selections in a row among `n` candidates
/// that stay the same, each candidate gets the `n`-th part of `m`,
/// rounded down or up, whatever the counter was at the start. (The
/// counter is taken not to start over during the run.)
pub proof fn lemma_round_robin_is_fair(c: nat, n: nat, m: nat, j: nat)
    requires
        j < n,
    ensures
        m / n <= times_chosen(c, n, m, j) <= (m + n - 1) / (n as int),
        m % n == 0 ==> times_chosen(c, n, m, j) == m / n,
{
    lemma_times_chosen_closed_form(c, n, m, j);
    let a: int = c + n - 1 - j;
    let ni = n as int;
    let mi = m as int;
    let qa = a / ni;
    let ra = a % ni;
    let qm = mi / ni;
    let rm = mi % ni;
    let qs = (a + mi) / ni;
    let rs = (a + mi) % ni;
    let qc = (mi + ni - 1) / ni;
    let rc = (mi + ni - 1) % ni;
    assert(a == ni * qa + ra && 0 <= ra < ni) by (nonlinear_arith)
        requires
            qa == a / ni,
            ra == a % ni,
            ni > 0,
    ;
    assert(mi == ni * qm + rm && 0 <= rm < ni) by (nonlinear_arith)
        requires
            qm == mi / ni,
            rm == mi % ni,
            ni > 0,
    ;
    assert(a + mi == ni * qs + rs && 0 <= rs < ni) by (nonlinear_arith)
        requires
            qs == (a + mi) / ni,
            rs == (a + mi) % ni,
            ni > 0,
    ;
    assert(mi + ni - 1 == ni * qc + rc && 0 <= rc < ni) by (nonlinear_arith)
        requires
            qc == (mi + ni - 1) / ni,
            rc == (mi + ni - 1) % ni,
            ni > 0,
    ;
    assert(qs - qa >= qm && qs - qa <= qm + 1 && (rm == 0 ==> qs - qa == qm)) by (nonlinear_arith)
        requires
            a == ni * qa + ra,
            mi == ni * qm + rm,
            a + mi == ni * qs + rs,
            0 <= ra < ni,
            0 <= rm < ni,
            0 <= rs < ni,
    ;
    assert(rm > 0 ==> qc == qm + 1) by (nonlinear_arith)
        requires
            mi == ni * qm + rm,
            mi + ni - 1 == ni * qc + rc,
            0 <= rm < ni,
            0 <= rc < ni,
    ;
    assert(rm == 0 ==> qc == qm) by (nonlinear_arith)
        requires
            mi == ni * qm + rm,
            mi + ni - 1 == ni * qc + rc,
            0 <= rm < ni,
            0 <= rc < ni,
    ;
}

/// While the counter does not start over, it has grown by `k` after `k`
/// selections: the `k`-th selection after counter `c` goes to position
/// `(c + k) mod n`, so the candidates are served in their order, again
/// and again.
pub proof fn lemma_round_robin_order(c: usize, k: nat)
    requires
        c + k <= usize::MAX,
    ensures
        after_turns(c, k) == c + k,
    decreases k,
{
    if k > 0 {
        lemma_round_robin_order(c, (k - 1) as nat);
    }
}

/// The counter after `k` selections.
pub open spec fn after_turns(c: usize, k: nat) -> usize
    decreases k,
{
    if k == 0 {
        c
    } else {
        next_turn(after_turns(c, (k - 1) as nat))
    }
}

} // verus!
