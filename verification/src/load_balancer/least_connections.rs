//! Least connections: the candidate with the fewest connections in use.

use vstd::prelude::*;
use crate::config::LoadBalancerAlgorithm;
use crate::load_balancer::algorithm::{views_of, LoadBalancer};
use crate::proxy::backend::{Backend, BackendView};

verus! {

/// Picks the candidate that holds the fewest connections, the first of
/// them where several hold as few.
pub struct LeastConnectionsBalancer {}

/// Candidate `i` holds no more connections than any other, and fewer
/// than every candidate before it.
pub open spec fn is_least_loaded(candidates: Seq<BackendView>, i: int) -> bool {
    &&& 0 <= i < candidates.len()
    &&& forall|j: int|
        0 <= j < candidates.len() ==> candidates[i].active_connections <= (
        #[trigger] candidates[j]).active_connections
    &&& forall|j: int|
        0 <= j < i ==> (#[trigger] candidates[j]).active_connections
            > candidates[i].active_connections
}

/// Only one candidate is the least loaded.
pub proof fn lemma_least_loaded_unique(candidates: Seq<BackendView>, i: int, j: int)
    requires
        is_least_loaded(candidates, i),
        is_least_loaded(candidates, j),
    ensures
        i == j,
{
    if i < j {
        assert(candidates[i].active_connections > candidates[j].active_connections);
        assert(candidates[j].active_connections <= candidates[i].active_connections);
    } else if j < i {
        assert(candidates[j].active_connections > candidates[i].active_connections);
        assert(candidates[i].active_connections <= candidates[j].active_connections);
    }
}

impl LeastConnectionsBalancer {
    pub fn new() -> (b: Self)
        ensures
            b.algorithm() == LoadBalancerAlgorithm::LeastConnections,
    {
        LeastConnectionsBalancer {  }
    }

    /// The position of the least loaded candidate.
    pub fn least_loaded(backends: &[&Backend]) -> (index: usize)
        requires
            backends@.len() > 0,
        ensures
            is_least_loaded(views_of(backends@), index as int),
    {
        let n = backends.len();
        let mut best: usize = 0;
        let mut i: usize = 1;
        while i < n
            invariant
                1 <= i <= n,
                n == backends@.len(),
                best < i,
                is_least_loaded(views_of(backends@).take(i as int), best as int),
            decreases n - i,
        {
            let ghost seen = views_of(backends@).take(i as int);
            let ghost more = views_of(backends@).take(i + 1);
            if backends[i].active_connections() < backends[best].active_connections() {
                proof {
                    assert forall|j: int| 0 <= j < more.len() implies more[i as int].active_connections
                        <= (#[trigger] more[j]).active_connections by {
                        if j < i {
                            assert(seen[j] == more[j]);
                        }
                    }
                    assert forall|j: int| 0 <= j < i implies (#[trigger] more[j]).active_connections
                        > more[i as int].active_connections by {
                        assert(seen[j] == more[j]);
                    }
                }
                best = i;
            } else {
                proof {
                    assert forall|j: int| 0 <= j < more.len() implies more[best as int].active_connections
                        <= (#[trigger] more[j]).active_connections by {
                        if j < i {
                            assert(seen[j] == more[j]);
                        }
                    }
                    assert forall|j: int| 0 <= j < best implies (
                    #[trigger] more[j]).active_connections
                        > more[best as int].active_connections by {
                        assert(seen[j] == more[j]);
                    }
                }
            }
            i = i + 1;
        }
        assert(views_of(backends@).take(n as int) =~= views_of(backends@));
        best
    }
}

impl LoadBalancer for LeastConnectionsBalancer {
    open spec fn algorithm(&self) -> LoadBalancerAlgorithm {
        LoadBalancerAlgorithm::LeastConnections
    }

    fn select_backend<'a>(&mut self, backends: &[&'a Backend], client_addr: Option<&str>) -> (chosen:
        Option<&'a Backend>)
        ensures
            chosen is Some ==> exists|i: int|
                is_least_loaded(views_of(backends@), i) && chosen == Some(#[trigger] backends@[i]),
            *final(self) == *old(self),
    {
        if backends.len() == 0 {
            return None;
        }
        let index = Self::least_loaded(backends);
        Some(backends[index])
    }

    fn name(&self) -> (n: &'static str) {
        "least_connections"
    }
}

} // verus!
