//! The set of backends, with the view of those that are currently
//! selectable.

use vstd::prelude::*;
use crate::config::BackendConfig;
use crate::outside::clock::utc_now_millis;
use crate::proxy::backend::{Backend, BackendView};
use crate::registry::Registry;

verus! {

/// The identifiers of a sequence of backends, in order.
pub open spec fn ids_of(backends: Seq<BackendView>) -> Seq<Seq<char>> {
    Seq::new(backends.len(), |i: int| backends[i].id)
}

/// `backends` with `b` put in: in place of the backend that has `b`'s
/// identifier where there is one, else behind the last.
pub open spec fn upsert(backends: Seq<BackendView>, b: BackendView) -> Seq<BackendView> {
    if ids_of(backends).contains(b.id) {
        backends.update(ids_of(backends).index_of(b.id), b)
    } else {
        backends.push(b)
    }
}

/// The backends that a list of configuration entries gives rise to: one
/// new backend per entry, a later entry taking the place of an earlier
/// one with the same identifier.
pub open spec fn registered(configs: Seq<BackendConfig>) -> Seq<BackendView>
    decreases configs.len(),
{
    if configs.len() == 0 {
        Seq::empty()
    } else {
        upsert(
            registered(configs.drop_last()),
            BackendView::initial(
                configs.last().url,
                configs.last().weight,
                configs.last().max_connections,
            ),
        )
    }
}

/// The identifiers of those of `backends` that are healthy, in order.
pub open spec fn healthy_ids(backends: Seq<BackendView>) -> Seq<Seq<char>>
    decreases backends.len(),
{
    if backends.len() == 0 {
        Seq::empty()
    } else if backends.last().is_healthy() {
        healthy_ids(backends.drop_last()).push(backends.last().id)
    } else {
        healthy_ids(backends.drop_last())
    }
}

/// `ids` with every occurrence of `id` taken out.
pub open spec fn without(ids: Seq<Seq<char>>, id: Seq<char>) -> Seq<Seq<char>>
    decreases ids.len(),
{
    if ids.len() == 0 {
        Seq::empty()
    } else if ids.last() == id {
        without(ids.drop_last(), id)
    } else {
        without(ids.drop_last(), id).push(ids.last())
    }
}

/// `without` keeps what it keeps in order: every kept identifier came
/// from the input and is not the one taken out, and nothing else is lost.
pub proof fn lemma_without(ids: Seq<Seq<char>>, id: Seq<char>)
    ensures
        forall|k: int|
            0 <= k < without(ids, id).len() ==> ids.contains(#[trigger] without(ids, id)[k])
                && without(ids, id)[k] != id,
        forall|k: int|
            0 <= k < ids.len() && ids[k] != id ==> without(ids, id).contains(#[trigger] ids[k]),
        ids.no_duplicates() ==> without(ids, id).no_duplicates(),
        without(ids, id).len() <= ids.len(),
    decreases ids.len(),
{
    if ids.len() > 0 {
        let front = ids.drop_last();
        lemma_without(front, id);
        let w = without(front, id);
        assert forall|k: int| 0 <= k < without(ids, id).len() implies ids.contains(
            #[trigger] without(ids, id)[k],
        ) && without(ids, id)[k] != id by {
            if k < w.len() {
                assert(front.contains(w[k]));
                let j = choose|j: int| 0 <= j < front.len() && front[j] == w[k];
                assert(ids[j] == w[k]);
            } else {
                assert(ids[ids.len() - 1] == ids.last());
            }
        }
        assert forall|k: int| 0 <= k < ids.len() && ids[k] != id implies without(
            ids,
            id,
        ).contains(#[trigger] ids[k]) by {
            if k < front.len() {
                assert(front[k] == ids[k]);
                assert(w.contains(front[k]));
                let j = choose|j: int| 0 <= j < w.len() && w[j] == front[k];
                assert(without(ids, id)[j] == ids[k]);
            } else {
                assert(without(ids, id)[w.len() as int] == ids[k]);
            }
        }
        if ids.no_duplicates() {
            assert(front.no_duplicates());
            if ids.last() != id {
                assert forall|a: int, b: int|
                    0 <= a < w.len() + 1 && 0 <= b < w.len() + 1 && a != b implies w.push(
                    ids.last(),
                )[a] != w.push(ids.last())[b] by {
                    if a < w.len() && b == w.len() {
                        assert(front.contains(w[a]));
                        let j = choose|j: int| 0 <= j < front.len() && front[j] == w[a];
                        assert(ids[j] == w[a]);
                    }
                    if b < w.len() && a == w.len() {
                        assert(front.contains(w[b]));
                        let j = choose|j: int| 0 <= j < front.len() && front[j] == w[b];
                        assert(ids[j] == w[b]);
                    }
                }
            }
        }
    }
}

/// Every healthy identifier belongs to a healthy backend of the input,
/// and where the input's identifiers are distinct, so are the healthy ones.
pub proof fn lemma_healthy_ids(backends: Seq<BackendView>)
    ensures
        forall|k: int|
            0 <= k < healthy_ids(backends).len() ==> exists|i: int|
                0 <= i < backends.len() && backends[i].is_healthy() && backends[i].id
                    == #[trigger] healthy_ids(backends)[k],
        forall|i: int|
            0 <= i < backends.len() && (#[trigger] backends[i]).is_healthy() ==> healthy_ids(
                backends,
            ).contains(backends[i].id),
        ids_of(backends).no_duplicates() ==> healthy_ids(backends).no_duplicates(),
        healthy_ids(backends).len() <= backends.len(),
    decreases backends.len(),
{
    if backends.len() > 0 {
        let front = backends.drop_last();
        let h = healthy_ids(front);
        lemma_healthy_ids(front);
        assert forall|k: int| 0 <= k < healthy_ids(backends).len() implies exists|i: int|
            0 <= i < backends.len() && backends[i].is_healthy() && backends[i].id
                == #[trigger] healthy_ids(backends)[k] by {
            if k < h.len() {
                let i = choose|i: int|
                    0 <= i < front.len() && front[i].is_healthy() && front[i].id == h[k];
                assert(backends[i] == front[i]);
            } else {
                assert(backends[backends.len() - 1].id == healthy_ids(backends)[k]);
            }
        }
        assert forall|i: int|
            0 <= i < backends.len() && (#[trigger] backends[i]).is_healthy() implies healthy_ids(
            backends,
        ).contains(backends[i].id) by {
            if i < front.len() {
                assert(front[i] == backends[i]);
                assert(h.contains(front[i].id));
                let k = choose|k: int| 0 <= k < h.len() && h[k] == front[i].id;
                assert(healthy_ids(backends)[k] == backends[i].id);
            } else {
                assert(healthy_ids(backends)[h.len() as int] == backends[i].id);
            }
        }
        if ids_of(backends).no_duplicates() {
            assert forall|a: int, b: int|
                0 <= a < front.len() && 0 <= b < front.len() && a != b implies ids_of(front)[a]
                != ids_of(front)[b] by {
                assert(ids_of(backends)[a] != ids_of(backends)[b]);
            }
            if backends.last().is_healthy() {
                assert forall|a: int, b: int|
                    0 <= a < h.len() + 1 && 0 <= b < h.len() + 1 && a != b implies h.push(
                    backends.last().id,
                )[a] != h.push(backends.last().id)[b] by {
                    let n = backends.len() - 1;
                    if a < h.len() && b == h.len() {
                        let i = choose|i: int|
                            0 <= i < front.len() && front[i].is_healthy() && front[i].id == h[a];
                        assert(ids_of(backends)[i] != ids_of(backends)[n]);
                    }
                    if b < h.len() && a == h.len() {
                        let i = choose|i: int|
                            0 <= i < front.len() && front[i].is_healthy() && front[i].id == h[b];
                        assert(ids_of(backends)[i] != ids_of(backends)[n]);
                    }
                }
            }
        }
    }
}

/// The backends of the proxy, each under its identifier, together with
/// the healthy view: the identifiers that selection may draw from, as the
/// last rebuild left them.
pub struct BackendPool {
    backends: Registry<Backend>,
    healthy_backends: Vec<String>,
}

impl BackendPool {
    /// The backends, by slot, in the order in which they were added.
    pub closed spec fn backends(&self) -> Seq<BackendView> {
        Seq::new(self.backends.items().len(), |i: int| self.backends.items()[i]@)
    }

    /// The identifiers in the healthy view, in order.
    pub closed spec fn healthy_view(&self) -> Seq<Seq<char>> {
        Seq::new(self.healthy_backends@.len(), |h: int| self.healthy_backends@[h]@)
    }

    /// Every backend is registered under its own identifier and holds no
    /// more connections than its cap; the healthy view names registered
    /// backends only, each at most once.
    pub closed spec fn wf(&self) -> bool {
        &&& self.backends.wf()
        &&& self.backends.keys() == ids_of(self.backends())
        &&& forall|i: int| 0 <= i < self.backends().len() ==> (#[trigger] self.backends()[i]).within_cap()
        &&& forall|h: int|
            0 <= h < self.healthy_view().len() ==> ids_of(self.backends()).contains(
                #[trigger] self.healthy_view()[h],
            )
        &&& self.healthy_view().no_duplicates()
    }

    /// What well-formedness means for the two views of the pool.
    pub proof fn lemma_wf(&self)
        requires
            self.wf(),
        ensures
            ids_of(self.backends()).no_duplicates(),
            forall|i: int|
                0 <= i < self.backends().len() ==> (#[trigger] self.backends()[i]).within_cap(),
            forall|h: int|
                0 <= h < self.healthy_view().len() ==> ids_of(self.backends()).contains(
                    #[trigger] self.healthy_view()[h],
                ),
            self.healthy_view().no_duplicates(),
    {
        self.backends.lemma_wf_keys();
    }

    /// The slot of the backend with identifier `id`, if there is one.
    pub open spec fn slot_of(&self, id: Seq<char>) -> Option<int> {
        if ids_of(self.backends()).contains(id) {
            Some(ids_of(self.backends()).index_of(id))
        } else {
            None
        }
    }

    /// The backends of the healthy view, in the order of the view: what
    /// selection draws from.
    pub open spec fn candidates(&self) -> Seq<BackendView> {
        Seq::new(
            self.healthy_view().len(),
            |h: int| self.backends()[self.slot_of(self.healthy_view()[h])->0],
        )
    }

    /// A pool with one backend per configuration entry. Every backend
    /// starts in the healthy view, its health not yet known.
    pub fn new(configs: Vec<BackendConfig>) -> (p: Self)
        ensures
            p.wf(),
            p.backends() == registered(configs@),
            p.healthy_view() == ids_of(p.backends()),
    {
        let mut pool = BackendPool { backends: Registry::new(), healthy_backends: Vec::new() };
        assert(pool.backends() =~= Seq::<BackendView>::empty());
        assert(pool.healthy_view() =~= Seq::<Seq<char>>::empty());
        assert(pool.backends.keys() =~= ids_of(pool.backends()));
        let mut configs = configs;
        let ghost all = configs@;
        let n = configs.len();
        let mut rest: Vec<BackendConfig> = Vec::new();
        // The entries are taken from the back, so they are put in order first.
        let mut i: usize = 0;
        while i < n
            invariant
                i <= n,
                n == all.len(),
                configs@ == all.take(n - i),
                rest@.len() == i,
                forall|k: int| 0 <= k < i ==> rest@[k] == all[n - 1 - k],
            decreases n - i,
        {
            let c = configs.pop().unwrap();
            rest.push(c);
            i = i + 1;
        }
        let mut done: usize = 0;
        assert(all.take(0) =~= Seq::<BackendConfig>::empty());
        while done < n
            invariant
                done <= n,
                n == all.len(),
                rest@.len() == n - done,
                forall|k: int| 0 <= k < n - done ==> rest@[k] == all[n - 1 - k],
                pool.wf(),
                pool.backends() == registered(all.take(done as int)),
                pool.healthy_view() == ids_of(pool.backends()),
            decreases n - done,
        {
            let c = rest.pop().unwrap();
            assert(c == all[done as int]);
            let backend = Backend::new(c.url, c.weight, c.max_connections);
            proof {
                assert(all.take(done + 1).drop_last() =~= all.take(done as int));
                assert(all.take(done + 1).last() == all[done as int]);
                pool.lemma_wf();
            }
            let ghost before = pool;
            let (slot, fresh) = pool.put(backend);
            if fresh {
                let id = pool.backends.key_at(slot).clone();
                pool.healthy_backends.push(id);
                proof {
                    assert(pool.healthy_view() =~= before.healthy_view().push(id@));
                    assert(pool.healthy_view() =~= ids_of(pool.backends()));
                    pool.backends.lemma_wf_keys();
                }
            } else {
                proof {
                    assert(pool.healthy_view() =~= before.healthy_view());
                    assert(ids_of(pool.backends()) =~= ids_of(before.backends()));
                }
            }
            done = done + 1;
        }
        assert(all.take(n as int) =~= all);
        pool
    }

    /// Puts `backend` into the registry: in place of the one with its
    /// identifier, or in a new slot. The healthy view is left alone.
    fn put(&mut self, backend: Backend) -> (r: (usize, bool))
        requires
            old(self).backends.wf(),
            old(self).backends.keys() == ids_of(old(self).backends()),
        ensures
            final(self).backends.wf(),
            final(self).backends.keys() == ids_of(final(self).backends()),
            final(self).backends() == upsert(old(self).backends(), backend@),
            final(self).healthy_backends == old(self).healthy_backends,
            r.0 < final(self).backends().len(),
            final(self).backends()[r.0 as int] == backend@,
            r.1 == !ids_of(old(self).backends()).contains(backend@.id),
            r.1 ==> r.0 == old(self).backends().len(),
            !r.1 ==> ids_of(final(self).backends()) == ids_of(old(self).backends()),
            forall|i: int|
                0 <= i < final(self).backends().len() && i != r.0 ==> i < old(
                    self,
                ).backends().len() && final(self).backends()[i] == old(self).backends()[i],
    {
        let ghost before = *self;
        proof {
            self.backends.lemma_wf_keys();
        }
        let found = self.backends.find(backend.id().as_str());
        match found {
            Some(slot) => {
                proof {
                    assert(ids_of(before.backends())[slot as int] == backend@.id);
                    assert(ids_of(before.backends()).index_of(backend@.id) == slot);
                }
                let place = self.backends.get_mut(slot);
                *place = backend;
                proof {
                    assert(self.backends() =~= before.backends().update(slot as int, backend@));
                    assert(ids_of(self.backends()) =~= ids_of(before.backends()));
                }
                (slot, false)
            },
            None => {
                let key = backend.id().clone();
                let slot = self.backends.push(key, backend);
                proof {
                    assert(self.backends() =~= before.backends().push(backend@));
                    assert(self.backends.keys() =~= ids_of(self.backends()));
                }
                (slot, true)
            },
        }
    }

    /// The number of backends.
    pub fn len(&self) -> (n: usize)
        requires
            self.wf(),
        ensures
            n == self.backends().len(),
    {
        self.backends.len()
    }

    /// The slot of the backend with identifier `id`, if there is one.
    pub fn find(&self, id: &str) -> (slot: Option<usize>)
        requires
            self.wf(),
        ensures
            (match slot {
                Some(i) => self.slot_of(id@) == Some(i as int) && i < self.backends().len()
                    && self.backends()[i as int].id == id@,
                None => self.slot_of(id@) is None,
            }),
    {
        proof {
            self.backends.lemma_wf_keys();
        }
        let slot = self.backends.find(id);
        proof {
            if let Some(i) = slot {
                assert(ids_of(self.backends())[i as int] == id@);
            }
        }
        slot
    }

    /// The backend in slot `slot`.
    pub fn backend_at(&self, slot: usize) -> (b: &Backend)
        requires
            self.wf(),
            slot < self.backends().len(),
        ensures
            b@ == self.backends()[slot as int],
    {
        self.backends.get(slot)
    }

    /// The backend with identifier `id`, if there is one.
    pub fn get_backend(&self, id: &str) -> (b: Option<&Backend>)
        requires
            self.wf(),
        ensures
            (match b {
                Some(found) => self.slot_of(id@) is Some && found@ == self.backends()[self.slot_of(
                    id@,
                )->0] && found@.id == id@,
                None => self.slot_of(id@) is None,
            }),
    {
        match self.find(id) {
            Some(slot) => Some(self.backends.get(slot)),
            None => None,
        }
    }

    /// Every backend, in slot order.
    pub fn all_backends(&self) -> (all: Vec<&Backend>)
        requires
            self.wf(),
        ensures
            all@.len() == self.backends().len(),
            forall|i: int| 0 <= i < all@.len() ==> (#[trigger] all@[i])@ == self.backends()[i],
    {
        let n = self.backends.len();
        let mut all: Vec<&Backend> = Vec::new();
        let mut i: usize = 0;
        while i < n
            invariant
                i <= n,
                n == self.backends.items().len(),
                all@.len() == i,
                forall|k: int| 0 <= k < i ==> (#[trigger] all@[k])@ == self.backends()[k],
            decreases n - i,
        {
            all.push(self.backends.get(i));
            i = i + 1;
        }
        all
    }

    /// The backends of the healthy view, in the order of the view.
    pub fn get_healthy_backends(&self) -> (healthy: Vec<&Backend>)
        requires
            self.wf(),
        ensures
            healthy@.len() == self.healthy_view().len(),
            forall|h: int|
                0 <= h < healthy@.len() ==> self.slot_of(self.healthy_view()[h]) is Some && (
                #[trigger] healthy@[h])@ == self.backends()[self.slot_of(self.healthy_view()[h])->0],
            forall|h: int|
                0 <= h < healthy@.len() ==> (#[trigger] healthy@[h])@.id == self.healthy_view()[h],
    {
        let n = self.healthy_backends.len();
        let mut healthy: Vec<&Backend> = Vec::new();
        let mut h: usize = 0;
        while h < n
            invariant
                h <= n,
                n == self.healthy_view().len(),
                n == self.healthy_backends@.len(),
                self.wf(),
                healthy@.len() == h,
                forall|k: int|
                    0 <= k < h ==> self.slot_of(self.healthy_view()[k]) is Some && (
                    #[trigger] healthy@[k])@ == self.backends()[self.slot_of(
                        self.healthy_view()[k],
                    )->0],
                forall|k: int| 0 <= k < h ==> (#[trigger] healthy@[k])@.id == self.healthy_view()[k],
            decreases n - h,
        {
            let id = &self.healthy_backends[h];
            assert(id@ == self.healthy_view()[h as int]);
            assert(ids_of(self.backends()).contains(self.healthy_view()[h as int]));
            match self.find(id.as_str()) {
                Some(slot) => {
                    healthy.push(self.backends.get(slot));
                },
                None => {
                    // Never taken: the view names registered backends only.
                    assert(false);
                },
            }
            h = h + 1;
        }
        healthy
    }

    /// The identifiers of the healthy view, in order.
    pub fn healthy_ids(&self) -> (ids: &Vec<String>)
        ensures
            ids@.len() == self.healthy_view().len(),
            forall|h: int| 0 <= h < ids@.len() ==> (#[trigger] ids@[h])@ == self.healthy_view()[h],
    {
        &self.healthy_backends
    }

    /// Asks the backend in slot `slot` for a connection slot.
    pub fn increment_connections(&mut self, slot: usize) -> (granted: bool)
        requires
            old(self).wf(),
            slot < old(self).backends().len(),
        ensures
            final(self).wf(),
            granted == old(self).backends()[slot as int].has_slot(),
            final(self).backends() == old(self).backends().update(
                slot as int,
                old(self).backends()[slot as int].acquire(),
            ),
            final(self).healthy_view() == old(self).healthy_view(),
    {
        let ghost before = *self;
        let backend = self.backends.get_mut(slot);
        let granted = backend.increment_connections();
        proof {
            before.carry_over(*self, slot as int, before.backends()[slot as int].acquire());
        }
        granted
    }

    /// Gives back a connection slot of the backend in slot `slot`.
    pub fn decrement_connections(&mut self, slot: usize)
        requires
            old(self).wf(),
            slot < old(self).backends().len(),
            old(self).backends()[slot as int].active_connections > 0,
        ensures
            final(self).wf(),
            final(self).backends() == old(self).backends().update(
                slot as int,
                old(self).backends()[slot as int].release(),
            ),
            final(self).healthy_view() == old(self).healthy_view(),
    {
        let ghost before = *self;
        proof {
            before.lemma_wf();
        }
        let backend = self.backends.get_mut(slot);
        backend.decrement_connections();
        proof {
            before.carry_over(*self, slot as int, before.backends()[slot as int].release());
        }
    }

    /// Counts a finished request on the backend in slot `slot`.
    pub fn record_request(&mut self, slot: usize, success: bool)
        requires
            old(self).wf(),
            slot < old(self).backends().len(),
        ensures
            final(self).wf(),
            final(self).backends() == old(self).backends().update(
                slot as int,
                old(self).backends()[slot as int].record(success),
            ),
            final(self).healthy_view() == old(self).healthy_view(),
    {
        let ghost before = *self;
        proof {
            before.lemma_wf();
        }
        let backend = self.backends.get_mut(slot);
        backend.record_request(success);
        proof {
            before.carry_over(*self, slot as int, before.backends()[slot as int].record(success));
        }
    }

    /// Records a probe result, obtained at `now`, on the backend in slot
    /// `slot`. The healthy view stays as it is until the next rebuild.
    pub fn observe_probe(&mut self, slot: usize, healthy: bool, now: i64)
        requires
            old(self).wf(),
            slot < old(self).backends().len(),
        ensures
            final(self).wf(),
            final(self).backends() == old(self).backends().update(
                slot as int,
                old(self).backends()[slot as int].probe(healthy, now),
            ),
            final(self).healthy_view() == old(self).healthy_view(),
    {
        let ghost before = *self;
        proof {
            before.lemma_wf();
        }
        let backend = self.backends.get_mut(slot);
        backend.observe_probe(healthy, now);
        proof {
            before.carry_over(
                *self,
                slot as int,
                before.backends()[slot as int].probe(healthy, now),
            );
        }
    }

    /// A pool stays well formed when one backend changes and keeps its
    /// identifier and its cap.
    proof fn carry_over(&self, after: BackendPool, slot: int, changed: BackendView)
        requires
            self.wf(),
            0 <= slot < self.backends().len(),
            after.backends.wf(),
            after.backends.keys() == self.backends.keys(),
            after.backends.items().len() == self.backends.items().len(),
            after.backends.items()[slot]@ == changed,
            forall|i: int|
                0 <= i < self.backends().len() && i != slot ==> after.backends.items()[i]
                    == self.backends.items()[i],
            after.healthy_backends == self.healthy_backends,
            changed.id == self.backends()[slot].id,
            changed.within_cap(),
        ensures
            after.wf(),
            after.backends() == self.backends().update(slot, changed),
            after.healthy_view() == self.healthy_view(),
    {
        assert(after.backends() =~= self.backends().update(slot, changed));
        assert(ids_of(after.backends()) =~= ids_of(self.backends()));
        assert(after.healthy_view() =~= self.healthy_view());
        assert forall|i: int| 0 <= i < after.backends().len() implies (
        #[trigger] after.backends()[i]).within_cap() by {
            if i != slot {
                assert(self.backends()[i].within_cap());
            }
        }
    }

    /// Rebuilds the healthy view from the health that each backend has
    /// at this moment: the view becomes the identifiers of the healthy
    /// backends, in slot order.
    pub fn update_healthy_backends(&mut self)
        requires
            old(self).wf(),
        ensures
            final(self).wf(),
            final(self).backends() == old(self).backends(),
            final(self).healthy_view() == healthy_ids(old(self).backends()),
    {
        let n = self.backends.len();
        let mut healthy: Vec<String> = Vec::new();
        let mut i: usize = 0;
        let ghost all = self.backends();
        assert(all.take(0) =~= Seq::<BackendView>::empty());
        while i < n
            invariant
                i <= n,
                n == all.len(),
                all == self.backends(),
                self.wf(),
                Seq::new(healthy@.len(), |h: int| healthy@[h]@) == healthy_ids(all.take(i as int)),
            decreases n - i,
        {
            let b = self.backends.get(i);
            proof {
                assert(all.take(i + 1).drop_last() =~= all.take(i as int));
                assert(all.take(i + 1).last() == all[i as int]);
            }
            let ghost before = Seq::new(healthy@.len(), |h: int| healthy@[h]@);
            if b.is_healthy() {
                let id = b.id().clone();
                healthy.push(id);
                assert(Seq::new(healthy@.len(), |h: int| healthy@[h]@) =~= before.push(id@));
            }
            i = i + 1;
        }
        assert(all.take(n as int) =~= all);
        proof {
            self.lemma_wf();
            lemma_healthy_ids(all);
            assert forall|h: int| 0 <= h < healthy_ids(all).len() implies ids_of(all).contains(
                #[trigger] healthy_ids(all)[h],
            ) by {
                let k = choose|k: int|
                    0 <= k < all.len() && all[k].is_healthy() && all[k].id == healthy_ids(all)[h];
                assert(ids_of(all)[k] == healthy_ids(all)[h]);
            }
        }
        self.healthy_backends = healthy;
        assert(self.healthy_view() =~= healthy_ids(all));
    }

    /// Takes `id` out of the healthy view.
    fn unlist(&mut self, id: &str)
        ensures
            final(self).backends == old(self).backends,
            final(self).healthy_view() == without(old(self).healthy_view(), id@),
    {
        let n = self.healthy_backends.len();
        let target = id.to_owned();
        let mut kept: Vec<String> = Vec::new();
        let mut h: usize = 0;
        let ghost all = self.healthy_view();
        assert(all.take(0) =~= Seq::<Seq<char>>::empty());
        while h < n
            invariant
                h <= n,
                n == all.len(),
                n == self.healthy_backends@.len(),
                all == self.healthy_view(),
                target@ == id@,
                self.backends == old(self).backends,
                Seq::new(kept@.len(), |k: int| kept@[k]@) == without(all.take(h as int), id@),
            decreases n - h,
        {
            let entry = &self.healthy_backends[h];
            proof {
                assert(all.take(h + 1).drop_last() =~= all.take(h as int));
                assert(all.take(h + 1).last() == all[h as int]);
                assert(entry@ == all[h as int]);
            }
            let ghost before = Seq::new(kept@.len(), |k: int| kept@[k]@);
            if !(*entry == target) {
                let copy = entry.clone();
                kept.push(copy);
                assert(Seq::new(kept@.len(), |k: int| kept@[k]@) =~= before.push(entry@));
            }
            h = h + 1;
        }
        assert(all.take(n as int) =~= all);
        self.healthy_backends = kept;
        assert(self.healthy_view() =~= without(all, id@));
    }

    /// Adds a backend while the proxy runs. It is seeded as unhealthy, as
    /// by a failed probe at the time of the call, and stays out of the
    /// healthy view until a rebuild finds it healthy. A backend that has
    /// the same identifier is replaced.
    pub fn add_backend(&mut self, config: BackendConfig)
        requires
            old(self).wf(),
        ensures
            final(self).wf(),
            exists|now: i64|
                final(self).backends() == upsert(
                    old(self).backends(),
                    #[trigger] BackendView::initial(
                        config.url,
                        config.weight,
                        config.max_connections,
                    ).probe(false, now),
                ),
            final(self).healthy_view() == without(
                old(self).healthy_view(),
                BackendView::initial(config.url, config.weight, config.max_connections).id,
            ),
    {
        let mut backend = Backend::new(config.url, config.weight, config.max_connections);
        let now = utc_now_millis();
        backend.observe_probe(false, now);
        let id = backend.id().clone();
        let ghost before = *self;
        let ghost added = backend@;
        proof {
            before.lemma_wf();
            lemma_without(before.healthy_view(), id@);
        }
        let (slot, fresh) = self.put(backend);
        self.unlist(id.as_str());
        proof {
            assert(self.backends() == upsert(before.backends(), added));
            assert forall|h: int| 0 <= h < self.healthy_view().len() implies ids_of(
                self.backends(),
            ).contains(#[trigger] self.healthy_view()[h]) by {
                let v = self.healthy_view()[h];
                assert(before.healthy_view().contains(v));
                let k = choose|k: int|
                    0 <= k < before.healthy_view().len() && before.healthy_view()[k] == v;
                assert(ids_of(before.backends()).contains(before.healthy_view()[k]));
                let i = choose|i: int|
                    0 <= i < ids_of(before.backends()).len() && ids_of(before.backends())[i] == v;
                assert(i != slot) by {
                    if i == slot {
                        assert(!fresh);
                        assert(ids_of(self.backends())[i] == added.id);
                    }
                }
                assert(ids_of(self.backends())[i] == v);
            }
            assert forall|i: int| 0 <= i < self.backends().len() implies (
            #[trigger] self.backends()[i]).within_cap() by {
                if i != slot {
                    assert(before.backends()[i].within_cap());
                }
            }
        }
    }

    /// Removes the backend with identifier `id` from the pool and from
    /// the healthy view, and says whether there was one.
    pub fn remove_backend(&mut self, id: &str) -> (removed: bool)
        requires
            old(self).wf(),
        ensures
            final(self).wf(),
            removed == old(self).slot_of(id@) is Some,
            removed ==> final(self).backends() == old(self).backends().remove(
                old(self).slot_of(id@)->0,
            ),
            !removed ==> final(self).backends() == old(self).backends(),
            final(self).healthy_view() == without(old(self).healthy_view(), id@),
            !ids_of(final(self).backends()).contains(id@),
    {
        let ghost before = *self;
        proof {
            before.lemma_wf();
            lemma_without(before.healthy_view(), id@);
        }
        let taken = self.backends.remove(id);
        self.unlist(id);
        match taken {
            Some(_gone) => {
                proof {
                    let slot = ids_of(before.backends()).index_of(id@);
                    assert(0 <= slot < before.backends().len());
                    assert(self.backends() =~= before.backends().remove(slot));
                    assert(self.backends.keys() =~= ids_of(self.backends()));
                    assert forall|i: int| 0 <= i < self.backends().len() implies ids_of(
                        self.backends(),
                    )[i] != id@ by {
                        if i < slot {
                            assert(ids_of(before.backends())[i] != ids_of(before.backends())[slot]);
                        } else {
                            assert(ids_of(before.backends())[i + 1] != ids_of(
                                before.backends(),
                            )[slot]);
                        }
                    }
                    assert forall|h: int| 0 <= h < self.healthy_view().len() implies ids_of(
                        self.backends(),
                    ).contains(#[trigger] self.healthy_view()[h]) by {
                        let v = self.healthy_view()[h];
                        assert(before.healthy_view().contains(v));
                        let k = choose|k: int|
                            0 <= k < before.healthy_view().len() && before.healthy_view()[k] == v;
                        assert(ids_of(before.backends()).contains(before.healthy_view()[k]));
                        let i = choose|i: int|
                            0 <= i < ids_of(before.backends()).len() && ids_of(
                                before.backends(),
                            )[i] == v;
                        if i < slot {
                            assert(ids_of(self.backends())[i] == v);
                        } else {
                            assert(i > slot);
                            assert(ids_of(self.backends())[i - 1] == v);
                        }
                    }
                    assert forall|i: int| 0 <= i < self.backends().len() implies (
                    #[trigger] self.backends()[i]).within_cap() by {
                        if i < slot {
                            assert(before.backends()[i].within_cap());
                        } else {
                            assert(before.backends()[i + 1].within_cap());
                        }
                    }
                }
                true
            },
            None => {
                proof {
                    assert(self.backends() =~= before.backends());
                    assert forall|h: int| 0 <= h < self.healthy_view().len() implies ids_of(
                        self.backends(),
                    ).contains(#[trigger] self.healthy_view()[h]) by {
                        let v = self.healthy_view()[h];
                        assert(before.healthy_view().contains(v));
                        let k = choose|k: int|
                            0 <= k < before.healthy_view().len() && before.healthy_view()[k] == v;
                        assert(ids_of(before.backends()).contains(before.healthy_view()[k]));
                    }
                }
                false
            },
        }
    }
}

} // verus!
