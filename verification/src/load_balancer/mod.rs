//! Selection strategies: which candidate gets the next request.

use vstd::prelude::*;
use crate::config::LoadBalancerAlgorithm;
use crate::load_balancer::algorithm::views_of;
use crate::load_balancer::least_connections::is_least_loaded;
use crate::load_balancer::round_robin::next_turn;
use crate::load_balancer::ip_hash::fnv1a;
use crate::load_balancer::weighted::{is_first_max, raised, settled};
use crate::proxy::backend::{Backend, BackendView};
use vstd::string::StringSliceAdditionalSpecFns;

pub mod algorithm;
pub mod ip_hash;
pub mod least_connections;
pub mod random;
pub mod round_robin;
pub mod weighted;

pub use algorithm::LoadBalancer;
pub use ip_hash::IpHashBalancer;
pub use least_connections::LeastConnectionsBalancer;
pub use random::RandomBalancer;
pub use round_robin::RoundRobinBalancer;
pub use weighted::WeightedBalancer;

verus! {

/// A balancer of any of the strategies.
pub enum Balancer {
    RoundRobin(RoundRobinBalancer),
    LeastConnections(LeastConnectionsBalancer),
    Weighted(WeightedBalancer),
    Random(RandomBalancer),
    IpHash(IpHashBalancer),
}

impl Balancer {
    /// What it means that this balancer picked candidate `k` for a
    /// request of the client with the address bytes `client_addr`, and
    /// was `after` afterwards. Round robin picks the turn counter modulo
    /// the number of candidates and counts on; least connections picks
    /// the least loaded candidate; weighted picks the first largest
    /// raised weight and settles the weights; the hash picks the hash of
    /// the address modulo the number of candidates, and takes a turn
    /// where there is no address; of the random choice only the range is
    /// known.
    pub open spec fn picks(
        &self,
        after: Balancer,
        candidates: Seq<BackendView>,
        client_addr: Option<Seq<u8>>,
        k: int,
    ) -> bool {
        &&& 0 <= k < candidates.len()
        &&& match *self {
            Balancer::RoundRobin(before) => {
                &&& after matches Balancer::RoundRobin(then)
                &&& k == (before.counter() as int) % (candidates.len() as int)
                &&& then.counter() == next_turn(before.counter())
            },
            Balancer::LeastConnections(_) => after == *self && is_least_loaded(candidates, k),
            Balancer::Weighted(before) => {
                &&& after matches Balancer::Weighted(then)
                &&& is_first_max(raised(before.entries(), candidates), k)
                &&& then.entries() == settled(before.entries(), candidates, k)
            },
            Balancer::Random(_) => after == *self,
            Balancer::IpHash(before) => match client_addr {
                Some(bytes) => after == *self && k == (fnv1a(bytes) as int) % (
                candidates.len() as int),
                None => {
                    &&& after matches Balancer::IpHash(then)
                    &&& k == (before.counter() as int) % (candidates.len() as int)
                    &&& then.counter() == next_turn(before.counter())
                },
            },
        }
    }
}

/// The bytes of a client address, where there is one.
pub open spec fn address_bytes(client_addr: Option<&str>) -> Option<Seq<u8>> {
    match client_addr {
        Some(addr) => Some(addr.spec_bytes()),
        None => None,
    }
}

impl LoadBalancer for Balancer {
    open spec fn algorithm(&self) -> LoadBalancerAlgorithm {
        match self {
            Balancer::RoundRobin(_) => LoadBalancerAlgorithm::RoundRobin,
            Balancer::LeastConnections(_) => LoadBalancerAlgorithm::LeastConnections,
            Balancer::Weighted(_) => LoadBalancerAlgorithm::Weighted,
            Balancer::Random(_) => LoadBalancerAlgorithm::Random,
            Balancer::IpHash(_) => LoadBalancerAlgorithm::IpHash,
        }
    }

    fn select_backend<'a>(&mut self, backends: &[&'a Backend], client_addr: Option<&str>) -> (chosen:
        Option<&'a Backend>)
        ensures
            backends@.len() == 0 ==> *final(self) == *old(self),
            backends@.len() > 0 ==> exists|k: int|
                chosen == Some(#[trigger] backends@[k]) && old(self).picks(
                    *final(self),
                    views_of(backends@),
                    address_bytes(client_addr),
                    k,
                ),
    {
        match self {
            Balancer::RoundRobin(b) => {
                let chosen = b.select_backend(backends, client_addr);
                proof {
                    if backends@.len() > 0 {
                        let k = (old(self)->RoundRobin_0.counter() as int) % (backends@.len() as int);
                        assert(chosen == Some(backends@[k]));
                    }
                }
                chosen
            },
            Balancer::LeastConnections(b) => b.select_backend(backends, client_addr),
            Balancer::Weighted(b) => b.select_backend(backends, client_addr),
            Balancer::Random(b) => {
                let chosen = b.select_backend(backends, client_addr);
                proof {
                    if backends@.len() > 0 {
                        let k = choose|k: int| 0 <= k < backends@.len() && backends@[k] == chosen->0;
                        assert(chosen == Some(backends@[k]));
                    }
                }
                chosen
            },
            Balancer::IpHash(b) => {
                let chosen = b.select_backend(backends, client_addr);
                proof {
                    if backends@.len() > 0 {
                        let k = match client_addr {
                            Some(addr) => (fnv1a(addr.spec_bytes()) as int) % (
                            backends@.len() as int),
                            None => (old(self)->IpHash_0.counter() as int) % (backends@.len() as int),
                        };
                        assert(chosen == Some(backends@[k]));
                    }
                }
                chosen
            },
        }
    }

    fn name(&self) -> (n: &'static str) {
        match self {
            Balancer::RoundRobin(b) => b.name(),
            Balancer::LeastConnections(b) => b.name(),
            Balancer::Weighted(b) => b.name(),
            Balancer::Random(b) => b.name(),
            Balancer::IpHash(b) => b.name(),
        }
    }
}

/// The balancer for a configured strategy, in its initial state.
pub fn create_load_balancer(algorithm: LoadBalancerAlgorithm) -> (b: Balancer)
    ensures
        b.algorithm() == algorithm,
        b matches Balancer::RoundRobin(rr) ==> rr.counter() == 0,
        b matches Balancer::IpHash(ih) ==> ih.counter() == 0,
        b matches Balancer::Weighted(w) ==> w.entries() == Seq::<(Seq<char>, int)>::empty(),
{
    match algorithm {
        LoadBalancerAlgorithm::RoundRobin => Balancer::RoundRobin(RoundRobinBalancer::new()),
        LoadBalancerAlgorithm::LeastConnections => Balancer::LeastConnections(
            LeastConnectionsBalancer::new(),
        ),
        LoadBalancerAlgorithm::Weighted => Balancer::Weighted(WeightedBalancer::new()),
        LoadBalancerAlgorithm::Random => Balancer::Random(RandomBalancer::new()),
        LoadBalancerAlgorithm::IpHash => Balancer::IpHash(IpHashBalancer::new()),
    }
}

} // verus!
