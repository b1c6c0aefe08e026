//! What every selection strategy promises.

use vstd::prelude::*;
use crate::config::LoadBalancerAlgorithm;
use crate::proxy::backend::{Backend, BackendView};

verus! {

/// The candidates as mathematical values, in the caller's order.
pub open spec fn views_of(candidates: Seq<&Backend>) -> Seq<BackendView> {
    Seq::new(candidates.len(), |i: int| candidates[i]@)
}

/// The name of a strategy, as configuration files spell it.
pub open spec fn algorithm_name(algorithm: LoadBalancerAlgorithm) -> Seq<char> {
    match algorithm {
        LoadBalancerAlgorithm::RoundRobin => "round_robin"@,
        LoadBalancerAlgorithm::LeastConnections => "least_connections"@,
        LoadBalancerAlgorithm::Weighted => "weighted"@,
        LoadBalancerAlgorithm::Random => "random"@,
        LoadBalancerAlgorithm::IpHash => "ip_hash"@,
    }
}

/// A selection strategy. Selection looks at the candidates it is given
/// and at nothing else; whether the chosen backend then takes the request
/// is decided elsewhere.
pub trait LoadBalancer: Send + Sync {
    /// The strategy that this balancer follows.
    spec fn algorithm(&self) -> LoadBalancerAlgorithm;

    /// Picks one of `backends` for a request that comes from
    /// `client_addr`. Selection safety: the choice is one of the
    /// candidates, and there is a choice unless there is no candidate.
    fn select_backend<'a>(&mut self, backends: &[&'a Backend], client_addr: Option<&str>) -> (chosen:
        Option<&'a Backend>)
        ensures
            chosen is None <==> backends@.len() == 0,
            chosen is Some ==> backends@.contains(chosen->0),
            final(self).algorithm() == old(self).algorithm(),
    ;

    /// The name of the strategy, as configuration files spell it.
    fn name(&self) -> (n: &'static str)
        ensures
            n@ == algorithm_name(self.algorithm()),
    ;
}

} // verus!
