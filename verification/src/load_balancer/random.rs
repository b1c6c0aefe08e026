//! Random choice among the candidates.

use vstd::prelude::*;
use crate::config::LoadBalancerAlgorithm;
use crate::load_balancer::algorithm::LoadBalancer;
use crate::outside::random::random_up_to;
use crate::proxy::backend::Backend;

verus! {

/// Picks a candidate by a draw from the thread-local random generator.
pub struct RandomBalancer {}

impl RandomBalancer {
    pub fn new() -> (b: Self)
        ensures
            b.algorithm() == LoadBalancerAlgorithm::Random,
    {
        RandomBalancer {  }
    }

    /// The candidate that a draw of `draw` picks among `backends`.
    pub fn pick<'a>(backends: &[&'a Backend], draw: u64) -> (chosen: &'a Backend)
        requires
            backends@.len() > 0,
            draw < backends@.len(),
        ensures
            chosen == backends@[draw as int],
    {
        backends[draw as usize]
    }
}

impl LoadBalancer for RandomBalancer {
    open spec fn algorithm(&self) -> LoadBalancerAlgorithm {
        LoadBalancerAlgorithm::Random
    }

    fn select_backend<'a>(&mut self, backends: &[&'a Backend], client_addr: Option<&str>) -> (chosen:
        Option<&'a Backend>)
        ensures
            *final(self) == *old(self),
    {
        let n = backends.len();
        if n == 0 {
            return None;
        }
        let draw = random_up_to((n - 1) as u64);
        Some(Self::pick(backends, draw))
    }

    fn name(&self) -> (n: &'static str) {
        "random"
    }
}

} // verus!
