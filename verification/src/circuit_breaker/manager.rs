//! The breakers of all backends, made on first use.

use vstd::prelude::*;
use crate::circuit_breaker::breaker::{BreakerView, CircuitBreaker};
use crate::config::CircuitBreakerConfig;
use crate::registry::Registry;

verus! {

/// One circuit breaker per backend identifier, all with the same
/// thresholds and cool-down. A breaker comes into being when it is first
/// asked for and lives until its identifier is removed.
pub struct CircuitBreakerManager {
    breakers: Registry<CircuitBreaker>,
    config: CircuitBreakerConfig,
}

/// The breakers registered under `keys`, by identifier.
pub open spec fn breaker_map(keys: Seq<Seq<char>>, items: Seq<CircuitBreaker>) -> Map<
    Seq<char>,
    BreakerView,
> {
    Map::new(|id: Seq<char>| keys.contains(id), |id: Seq<char>| items[keys.index_of(id)]@)
}

/// Changing the breaker in one slot changes the map under that slot's
/// identifier and nowhere else.
proof fn lemma_map_update(
    keys: Seq<Seq<char>>,
    items: Seq<CircuitBreaker>,
    slot: int,
    changed: CircuitBreaker,
)
    requires
        keys.no_duplicates(),
        keys.len() == items.len(),
        0 <= slot < keys.len(),
    ensures
        breaker_map(keys, items.update(slot, changed)) == breaker_map(keys, items).insert(
            keys[slot],
            changed@,
        ),
{
    assert(keys.contains(keys[slot]));
    assert(keys.index_of(keys[slot]) == slot);
    assert forall|id: Seq<char>| keys.contains(id) && id != keys[slot] implies keys.index_of(id)
        != slot by {}
    assert(breaker_map(keys, items.update(slot, changed)) =~= breaker_map(keys, items).insert(
        keys[slot],
        changed@,
    ));
}

/// A breaker pushed under a new identifier is added to the map.
proof fn lemma_map_push(
    keys: Seq<Seq<char>>,
    items: Seq<CircuitBreaker>,
    id: Seq<char>,
    added: CircuitBreaker,
)
    requires
        keys.no_duplicates(),
        keys.len() == items.len(),
        !keys.contains(id),
    ensures
        breaker_map(keys.push(id), items.push(added)) == breaker_map(keys, items).insert(
            id,
            added@,
        ),
        keys.push(id).no_duplicates(),
{
    let keys2 = keys.push(id);
    assert(keys2[keys.len() as int] == id);
    assert forall|k: Seq<char>| keys2.contains(k) implies (k == id || keys.contains(k)) by {
        let i = keys2.index_of(k);
        if i < keys.len() {
            assert(keys[i] == k);
        }
    }
    assert forall|k: Seq<char>| keys.contains(k) implies keys2.contains(k) && keys2.index_of(k)
        == keys.index_of(k) by {
        let i = keys.index_of(k);
        assert(keys2[i] == k);
        let j = keys2.index_of(k);
        assert(j < keys.len());
        assert(keys[j] == k);
    }
    assert(keys2.contains(id));
    assert(keys2.index_of(id) == keys.len());
    assert(breaker_map(keys2, items.push(added)) =~= breaker_map(keys, items).insert(id, added@));
}

impl View for CircuitBreakerManager {
    type V = Map<Seq<char>, BreakerView>;

    /// The breakers that exist, by backend identifier.
    closed spec fn view(&self) -> Map<Seq<char>, BreakerView> {
        breaker_map(self.breakers.keys(), self.breakers.items())
    }
}

impl CircuitBreakerManager {
    /// The configuration that new breakers get.
    pub closed spec fn config(&self) -> CircuitBreakerConfig {
        self.config
    }

    pub closed spec fn wf(&self) -> bool {
        self.breakers.wf()
    }

    /// A manager without breakers.
    pub fn new(config: CircuitBreakerConfig) -> (m: Self)
        ensures
            m.wf(),
            m.config() == config,
            m@ == Map::<Seq<char>, BreakerView>::empty(),
    {
        let m = CircuitBreakerManager { breakers: Registry::new(), config };
        assert(m@ =~= Map::<Seq<char>, BreakerView>::empty());
        m
    }

    /// The breaker of `backend_id`, made new and closed where there was
    /// none. It is handed out for use in place: what is done to it is
    /// what the manager holds afterwards.
    pub fn get_or_create(&mut self, backend_id: &str) -> (breaker: &mut CircuitBreaker)
        requires
            old(self).wf(),
        ensures
            breaker@ == (if old(self)@.contains_key(backend_id@) {
                old(self)@[backend_id@]
            } else {
                BreakerView::initial(old(self).config())
            }),
            final(self)@ == old(self)@.insert(backend_id@, final(breaker)@),
            final(self).config() == old(self).config(),
            final(self).wf(),
    {
        let ghost before = *self;
        proof {
            before.breakers.lemma_wf_keys();
        }
        let slot = match self.breakers.find(backend_id) {
            Some(slot) => {
                proof {
                    assert(before.breakers.keys().index_of(backend_id@) == slot);
                    lemma_map_update(
                        before.breakers.keys(),
                        before.breakers.items(),
                        slot as int,
                        before.breakers.items()[slot as int],
                    );
                    assert(before.breakers.items().update(
                        slot as int,
                        before.breakers.items()[slot as int],
                    ) =~= before.breakers.items());
                }
                slot
            },
            None => {
                let fresh = CircuitBreaker::new(self.config);
                proof {
                    lemma_map_push(
                        before.breakers.keys(),
                        before.breakers.items(),
                        backend_id@,
                        fresh,
                    );
                }
                self.breakers.push(backend_id.to_owned(), fresh)
            },
        };
        let ghost keys = self.breakers.keys();
        let ghost items = self.breakers.items();
        proof {
            self.breakers.lemma_wf_keys();
            assert(keys[slot as int] == backend_id@);
            assert(breaker_map(keys, items) == before@.insert(backend_id@, items[slot as int]@));
        }
        let breaker = self.breakers.get_mut(slot);
        proof {
            lemma_map_update(keys, items, slot as int, *final(breaker));
            assert(before@.insert(backend_id@, items[slot as int]@).insert(
                backend_id@,
                final(breaker)@,
            ) =~= before@.insert(backend_id@, final(breaker)@));
        }
        breaker
    }

    /// The breaker of `backend_id`, if there is one.
    pub fn get(&self, backend_id: &str) -> (found: Option<&CircuitBreaker>)
        requires
            self.wf(),
        ensures
            (match found {
                Some(b) => self@.contains_key(backend_id@) && b@ == self@[backend_id@],
                None => !self@.contains_key(backend_id@),
            }),
    {
        proof {
            self.breakers.lemma_wf_keys();
        }
        match self.breakers.find(backend_id) {
            Some(slot) => {
                proof {
                    assert(self.breakers.keys().index_of(backend_id@) == slot);
                }
                Some(self.breakers.get(slot))
            },
            None => None,
        }
    }

    /// Drops the breaker of `backend_id`, if there is one.
    pub fn remove(&mut self, backend_id: &str)
        requires
            old(self).wf(),
        ensures
            final(self).wf(),
            final(self).config() == old(self).config(),
            final(self)@ == old(self)@.remove(backend_id@),
    {
        let ghost before = *self;
        proof {
            before.breakers.lemma_wf_keys();
        }
        let gone = self.breakers.remove(backend_id);
        proof {
            self.breakers.lemma_wf_keys();
            let old_keys = before.breakers.keys();
            let new_keys = self.breakers.keys();
            if gone is Some {
                let slot = old_keys.index_of(backend_id@);
                assert(new_keys == old_keys.remove(slot));
                assert forall|id: Seq<char>| #[trigger]
                    new_keys.contains(id) implies old_keys.contains(id) && id != backend_id@
                    && self.breakers.items()[new_keys.index_of(id)] == before.breakers.items()[old_keys.index_of(
                    id,
                )] by {
                    let i = new_keys.index_of(id);
                    if i < slot {
                        assert(old_keys[i] == id);
                        assert(old_keys.index_of(id) == i);
                    } else {
                        assert(old_keys[i + 1] == id);
                        assert(old_keys.index_of(id) == i + 1);
                    }
                }
                assert forall|id: Seq<char>| #[trigger]
                    old_keys.contains(id) && id != backend_id@ implies new_keys.contains(id) by {
                    let i = old_keys.index_of(id);
                    if i < slot {
                        assert(new_keys[i] == id);
                    } else {
                        assert(i > slot);
                        assert(new_keys[i - 1] == id);
                    }
                }
            }
            assert(self@ =~= before@.remove(backend_id@));
        }
    }
}

/// A breaker that is asked for again is the one that was left behind:
/// creation happens once per identifier.
pub proof fn lemma_breaker_is_kept(
    breakers: Map<Seq<char>, BreakerView>,
    id: Seq<char>,
    other: Seq<char>,
    v: BreakerView,
)
    ensures
        breakers.insert(id, v).contains_key(id),
        breakers.insert(id, v)[id] == v,
        other != id ==> breakers.insert(id, v).contains_key(other) == breakers.contains_key(other),
        other != id && breakers.contains_key(other) ==> breakers.insert(id, v)[other]
            == breakers[other],
        !breakers.remove(id).contains_key(id),
{
}

} // verus!
