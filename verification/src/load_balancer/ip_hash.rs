//! Hashing of the client address: one client, one backend, for as long
//! as the candidates stay the same.

use vstd::prelude::*;
use crate::config::LoadBalancerAlgorithm;
use vstd::string::StringSliceAdditionalSpecFns;
use crate::load_balancer::algorithm::LoadBalancer;
use crate::load_balancer::round_robin::{next_turn, RoundRobinBalancer};
use crate::proxy::backend::Backend;

verus! {

/// The offset basis of the 64-bit FNV-1a hash.
pub const FNV_OFFSET: u64 = 0xcbf2_9ce4_8422_2325;

/// The prime of the 64-bit FNV-1a hash.
pub const FNV_PRIME: u64 = 0x0000_0100_0000_01b3;

/// One round of FNV-1a: the byte is folded in, then the state is
/// multiplied by the prime modulo 2^64.
pub open spec fn fnv1a_round(state: u64, byte: u8) -> u64 {
    (((state ^ (byte as u64)) as nat * FNV_PRIME as nat) % 0x1_0000_0000_0000_0000nat) as u64
}

/// The 64-bit FNV-1a hash of `bytes`.
pub open spec fn fnv1a(bytes: Seq<u8>) -> u64
    decreases bytes.len(),
{
    if bytes.len() == 0 {
        FNV_OFFSET
    } else {
        fnv1a_round(fnv1a(bytes.drop_last()), bytes.last())
    }
}

/// Computes the 64-bit FNV-1a hash of `bytes`.
pub fn fnv1a_hash(bytes: &[u8]) -> (h: u64)
    ensures
        h == fnv1a(bytes@),
{
    let n = bytes.len();
    let mut h: u64 = FNV_OFFSET;
    let mut i: usize = 0;
    assert(bytes@.take(0) =~= Seq::<u8>::empty());
    while i < n
        invariant
            i <= n,
            n == bytes@.len(),
            h == fnv1a(bytes@.take(i as int)),
        decreases n - i,
    {
        proof {
            assert(bytes@.take(i + 1).drop_last() =~= bytes@.take(i as int));
            assert(bytes@.take(i + 1).last() == bytes@[i as int]);
        }
        h = (h ^ (bytes[i] as u64)).wrapping_mul(FNV_PRIME);
        i = i + 1;
    }
    assert(bytes@.take(n as int) =~= bytes@);
    h
}

/// Sends every request of one client address to the same candidate: the
/// one at the position of the address's hash modulo the number of
/// candidates. Requests without a client address take turns.
pub struct IpHashBalancer {
    fallback: RoundRobinBalancer,
}

impl IpHashBalancer {
    /// The turn counter that serves requests without a client address.
    pub closed spec fn counter(&self) -> usize {
        self.fallback.counter()
    }

    pub fn new() -> (b: Self)
        ensures
            b.counter() == 0,
    {
        IpHashBalancer { fallback: RoundRobinBalancer::new() }
    }

    /// The position that the address `client_addr` maps to among `n`
    /// candidates.
    pub fn index_for(client_addr: &str, n: usize) -> (index: usize)
        requires
            n > 0,
        ensures
            index == fnv1a(client_addr.spec_bytes()) as int % n as int,
    {
        let h = fnv1a_hash(client_addr.as_bytes());
        (h % (n as u64)) as usize
    }
}

impl LoadBalancer for IpHashBalancer {
    open spec fn algorithm(&self) -> LoadBalancerAlgorithm {
        LoadBalancerAlgorithm::IpHash
    }

    fn select_backend<'a>(&mut self, backends: &[&'a Backend], client_addr: Option<&str>) -> (chosen:
        Option<&'a Backend>)
        ensures
            backends@.len() > 0 && client_addr is Some ==> chosen == Some(
                backends@[fnv1a(client_addr->0.spec_bytes()) as int % backends@.len() as int],
            ),
            backends@.len() > 0 && client_addr is None ==> chosen == Some(
                backends@[(old(self).counter() as int) % (backends@.len() as int)],
            ),
            backends@.len() > 0 && client_addr is None ==> final(self).counter() == next_turn(
                old(self).counter(),
            ),
            backends@.len() == 0 || client_addr is Some ==> *final(self) == *old(self),
    {
        if backends.len() == 0 {
            return None;
        }
        match client_addr {
            Some(addr) => {
                let index = Self::index_for(addr, backends.len());
                Some(backends[index])
            },
            None => {
                let index = self.fallback.next_index(backends.len());
                Some(backends[index])
            },
        }
    }

    fn name(&self) -> (n: &'static str) {
        "ip_hash"
    }
}

/// The position of a client address depends on the address and on the
/// number of candidates alone, and it is the position of a candidate: so
/// while the candidates stay the same, a client stays with its backend.
pub proof fn lemma_ip_hash_is_stable(addr: Seq<u8>, n: nat)
    requires
        n > 0,
    ensures
        0 <= fnv1a(addr) as int % n as int,
        (fnv1a(addr) as int % n as int) < n,
{
}

} // verus!
