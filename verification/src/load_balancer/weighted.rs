//! Smooth weighted round robin: candidates are chosen in proportion to
//! their weights, and the choices of one candidate are spread out.

use vstd::prelude::*;
use crate::config::LoadBalancerAlgorithm;
use crate::load_balancer::algorithm::{views_of, LoadBalancer};
use crate::proxy::backend::{Backend, BackendView};

verus! {

/// `x`, held to the range of `i64`.
pub open spec fn clamp64(x: int) -> int {
    if x < i64::MIN {
        i64::MIN as int
    } else if x > i64::MAX {
        i64::MAX as int
    } else {
        x
    }
}

/// Entry `i` is the first one kept under `id`.
pub open spec fn first_entry(entries: Seq<(Seq<char>, int)>, id: Seq<char>, i: int) -> bool {
    &&& 0 <= i < entries.len()
    &&& entries[i].0 == id
    &&& forall|j: int| 0 <= j < i ==> (#[trigger] entries[j]).0 != id
}

/// The running weight kept under `id`: that of the first entry with this
/// identifier, zero where there is none.
pub open spec fn stored(entries: Seq<(Seq<char>, int)>, id: Seq<char>) -> int {
    if exists|i: int| first_entry(entries, id, i) {
        entries[choose|i: int| first_entry(entries, id, i)].1
    } else {
        0
    }
}

/// The sum of the candidates' configured weights.
pub open spec fn total_weight(candidates: Seq<BackendView>) -> int
    decreases candidates.len(),
{
    if candidates.len() == 0 {
        0
    } else {
        total_weight(candidates.drop_last()) + candidates.last().weight
    }
}

/// The running weight of each candidate once its configured weight has
/// been added for this round.
pub open spec fn raised(entries: Seq<(Seq<char>, int)>, candidates: Seq<BackendView>) -> Seq<int> {
    Seq::new(
        candidates.len(),
        |i: int| clamp64(stored(entries, candidates[i].id) + candidates[i].weight),
    )
}

/// Position `i` holds the largest of `weights`, and is the first to.
pub open spec fn is_first_max(weights: Seq<int>, i: int) -> bool {
    &&& 0 <= i < weights.len()
    &&& forall|j: int| 0 <= j < weights.len() ==> #[trigger] weights[j] <= weights[i]
    &&& forall|j: int| 0 <= j < i ==> #[trigger] weights[j] < weights[i]
}

/// The running weights that a round leaves behind: every candidate keeps
/// its raised weight, but for the chosen one, which gives up the total.
pub open spec fn settled(
    entries: Seq<(Seq<char>, int)>,
    candidates: Seq<BackendView>,
    chosen: int,
) -> Seq<(Seq<char>, int)> {
    Seq::new(
        candidates.len(),
        |i: int|
            (
                candidates[i].id,
                if i == chosen {
                    clamp64(raised(entries, candidates)[i] - total_weight(candidates))
                } else {
                    raised(entries, candidates)[i]
                },
            ),
    )
}

/// Only one position is the first maximum.
pub proof fn lemma_first_max_unique(weights: Seq<int>, i: int, j: int)
    requires
        is_first_max(weights, i),
        is_first_max(weights, j),
    ensures
        i == j,
{
    if i < j {
        assert(weights[i] < weights[j]);
        assert(weights[j] <= weights[i]);
    } else if j < i {
        assert(weights[j] < weights[i]);
        assert(weights[i] <= weights[j]);
    }
}

/// The total weight of `n` candidates is at most `n` times the largest
/// weight a candidate can have.
pub proof fn lemma_total_weight_bound(candidates: Seq<BackendView>)
    ensures
        0 <= total_weight(candidates) <= candidates.len() * 0xffff_ffff,
    decreases candidates.len(),
{
    if candidates.len() > 0 {
        lemma_total_weight_bound(candidates.drop_last());
        assert((candidates.len() - 1) * 0xffff_ffff + 0xffff_ffff == candidates.len()
            * 0xffff_ffff) by (nonlinear_arith);
    }
}

/// Smooth weighted round robin. Each candidate has a running weight,
/// kept from round to round under its identifier and starting at zero.
pub struct WeightedBalancer {
    running: Vec<RunningWeight>,
}

/// The running weight of one backend.
struct RunningWeight {
    id: String,
    current: i64,
}

impl WeightedBalancer {
    /// The running weights that the last round left, by identifier.
    pub closed spec fn entries(&self) -> Seq<(Seq<char>, int)> {
        Seq::new(self.running@.len(), |i: int| (self.running@[i].id@, self.running@[i].current as int))
    }

    /// A balancer that has not run a round yet.
    pub fn new() -> (b: Self)
        ensures
            b.entries() == Seq::<(Seq<char>, int)>::empty(),
    {
        let b = WeightedBalancer { running: Vec::new() };
        assert(b.entries() =~= Seq::<(Seq<char>, int)>::empty());
        b
    }

    /// The running weight kept under `id`.
    fn lookup(&self, id: &String) -> (w: i64)
        ensures
            w == stored(self.entries(), id@),
    {
        let n = self.running.len();
        let mut i: usize = 0;
        while i < n
            invariant
                i <= n,
                n == self.running@.len(),
                forall|j: int| 0 <= j < i ==> (#[trigger] self.entries()[j]).0 != id@,
            decreases n - i,
        {
            if self.running[i].id == *id {
                proof {
                    assert(first_entry(self.entries(), id@, i as int));
                    let c = choose|c: int| first_entry(self.entries(), id@, c);
                    if c < i {
                        assert(self.entries()[c].0 != id@);
                    } else if i < c {
                        assert(self.entries()[i as int].0 != id@);
                    }
                }
                return self.running[i].current;
            }
            i = i + 1;
        }
        proof {
            assert forall|c: int| !first_entry(self.entries(), id@, c) by {
                if 0 <= c < n {
                    assert(self.entries()[c].0 != id@);
                }
            }
        }
        0
    }

    /// Runs one round over `backends` and returns the position of the
    /// chosen candidate.
    pub fn choose_index(&mut self, backends: &[&Backend]) -> (index: usize)
        requires
            backends@.len() > 0,
        ensures
            is_first_max(raised(old(self).entries(), views_of(backends@)), index as int),
            final(self).entries() == settled(
                old(self).entries(),
                views_of(backends@),
                index as int,
            ),
    {
        let n = backends.len();
        let ghost candidates = views_of(backends@);
        let ghost before = self.entries();
        let ghost up = raised(before, candidates);
        let mut running: Vec<RunningWeight> = Vec::new();
        let mut total: i128 = 0;
        let mut best: usize = 0;
        let mut i: usize = 0;
        assert(candidates.take(0) =~= Seq::<BackendView>::empty());
        while i < n
            invariant
                i <= n,
                n == backends@.len(),
                n == candidates.len(),
                candidates == views_of(backends@),
                before == self.entries(),
                up == raised(before, candidates),
                running@.len() == i,
                forall|k: int| 0 <= k < i ==> (#[trigger] running@[k]).id@ == candidates[k].id,
                forall|k: int| 0 <= k < i ==> (#[trigger] running@[k]).current == up[k],
                total == total_weight(candidates.take(i as int)),
                0 <= total <= i * 0xffff_ffff,
                i == 0 ==> best == 0,
                i > 0 ==> is_first_max(up.take(i as int), best as int),
            decreases n - i,
        {
            let b = backends[i];
            let kept = self.lookup(b.id());
            let sum: i128 = kept as i128 + b.weight() as i128;
            let raised_weight: i64 = if sum > i64::MAX as i128 {
                i64::MAX
            } else {
                sum as i64
            };
            proof {
                assert(b@ == candidates[i as int]);
                assert(raised_weight == up[i as int]);
                assert(candidates.take(i + 1).drop_last() =~= candidates.take(i as int));
                assert(candidates.take(i + 1).last() == candidates[i as int]);
                assert(i * 0xffff_ffff + 0xffff_ffff == (i + 1) * 0xffff_ffff) by (nonlinear_arith);
                assert(i * 0xffff_ffff <= 0xffff_ffff_ffff_ffff * 0xffff_ffff) by (nonlinear_arith)
                    requires
                        i <= 0xffff_ffff_ffff_ffff,
                ;
            }
            total = total + b.weight() as i128;
            if i > 0 && raised_weight > running[best].current {
                proof {
                    let seen = up.take(i as int);
                    let more = up.take(i + 1);
                    assert forall|j: int| 0 <= j < more.len() implies #[trigger] more[j]
                        <= more[i as int] by {
                        if j < i {
                            assert(seen[j] <= seen[best as int]);
                        }
                    }
                    assert forall|j: int| 0 <= j < i implies #[trigger] more[j] < more[i as int] by {
                        assert(seen[j] <= seen[best as int]);
                    }
                }
                best = i;
            } else {
                proof {
                    let seen = up.take(i as int);
                    let more = up.take(i + 1);
                    if i > 0 {
                        assert forall|j: int| 0 <= j < more.len() implies #[trigger] more[j]
                            <= more[best as int] by {
                            if j < i {
                                assert(seen[j] <= seen[best as int]);
                            }
                        }
                        assert forall|j: int| 0 <= j < best implies #[trigger] more[j]
                            < more[best as int] by {
                            assert(seen[j] < seen[best as int]);
                        }
                    }
                }
            }
            running.push(RunningWeight { id: b.id().clone(), current: raised_weight });
            i = i + 1;
        }
        proof {
            assert(candidates.take(n as int) =~= candidates);
            assert(up.take(n as int) =~= up);
        }
        let lowered: i128 = running[best].current as i128 - total;
        let settled_weight: i64 = if lowered < i64::MIN as i128 {
            i64::MIN
        } else {
            lowered as i64
        };
        let id = running[best].id.clone();
        running.set(best, RunningWeight { id, current: settled_weight });
        self.running = running;
        proof {
            assert(self.entries() =~= settled(before, candidates, best as int));
        }
        best
    }
}

impl LoadBalancer for WeightedBalancer {
    open spec fn algorithm(&self) -> LoadBalancerAlgorithm {
        LoadBalancerAlgorithm::Weighted
    }

    fn select_backend<'a>(&mut self, backends: &[&'a Backend], client_addr: Option<&str>) -> (chosen:
        Option<&'a Backend>)
        ensures
            backends@.len() == 0 ==> *final(self) == *old(self),
            backends@.len() > 0 ==> exists|i: int|
                is_first_max(raised(old(self).entries(), views_of(backends@)), i) && chosen == Some(
                    #[trigger] backends@[i],
                ) && final(self).entries() == settled(
                    old(self).entries(),
                    views_of(backends@),
                    i,
                ),
    {
        if backends.len() == 0 {
            return None;
        }
        let index = self.choose_index(backends);
        Some(backends[index])
    }

    fn name(&self) -> (n: &'static str) {
        "weighted"
    }
}

} // verus!
