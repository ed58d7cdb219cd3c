use vstd::prelude::*;

verus! {

/// Process-wide epoch state: a monotonically increasing global epoch and,
/// per registered session, the epoch that session published on entering a
/// protected operation (`0` marks a session outside any protected
/// operation). A resource retired at epoch `e` may be reclaimed once every
/// session that is inside a protected operation has published an epoch
/// strictly greater than `e`.
pub struct EpochManager {
    global: u64,
    published: Vec<u64>,
}

impl EpochManager {
    /// The current global epoch.
    pub closed spec fn global(self) -> u64 {
        self.global
    }

    /// Epochs published by the registered sessions, in registration order.
    pub closed spec fn published(self) -> Seq<u64> {
        self.published@
    }

    /// Session slot `i` is inside a protected operation.
    pub open spec fn slot_active(self, i: int) -> bool {
        0 <= i < self.published().len() && self.published()[i] >= 1
    }

    pub open spec fn wf(self) -> bool {
        &&& self.global() >= 1
        &&& forall|i: int|
            0 <= i < self.published().len() ==> self.published()[i] <= self.global()
    }

    pub fn new() -> (m: Self)
        ensures
            m.wf(),
            m.global() == 1,
            m.published() == Seq::<u64>::empty(),
    {
        let m = EpochManager { global: 1, published: Vec::new() };
        proof {
            assert(m.published() =~= Seq::<u64>::empty());
        }
        m
    }

    /// Resumes epoch tracking at a recovered global epoch, with no
    /// sessions registered.
    pub fn resume(global: u64) -> (m: Self)
        requires
            global >= 1,
        ensures
            m.wf(),
            m.global() == global,
            m.published() == Seq::<u64>::empty(),
    {
        let m = EpochManager { global, published: Vec::new() };
        proof {
            assert(m.published() =~= Seq::<u64>::empty());
        }
        m
    }

    /// Registers a new session slot, initially outside any protected
    /// operation.
    pub fn register(&mut self) -> (slot: usize)
        requires
            old(self).wf(),
        ensures
            final(self).wf(),
            final(self).global() == old(self).global(),
            final(self).published() == old(self).published().push(0),
            slot == old(self).published().len(),
    {
        let slot = self.published.len();
        self.published.push(0);
        proof {
            assert forall|i: int| 0 <= i < self.published().len() implies self.published()[i]
                <= self.global() by {
                if i < old(self).published().len() {
                    assert(self.published()[i] == old(self).published()[i]);
                }
            }
        }
        slot
    }

    /// Removes the most recently registered session slot.
    pub fn deregister(&mut self)
        requires
            old(self).wf(),
            old(self).published().len() > 0,
        ensures
            final(self).wf(),
            final(self).global() == old(self).global(),
            final(self).published() == old(self).published().drop_last(),
    {
        let _ = self.published.pop();
        proof {
            assert(self.published() =~= old(self).published().drop_last());
        }
    }

    /// Session `slot` enters a protected operation, publishing the current
    /// global epoch.
    pub fn enter(&mut self, slot: usize)
        requires
            old(self).wf(),
            slot < old(self).published().len(),
        ensures
            final(self).wf(),
            final(self).global() == old(self).global(),
            final(self).published() == old(self).published().update(
                slot as int,
                old(self).global(),
            ),
    {
        let g = self.global;
        self.published.set(slot, g);
        proof {
            assert(self.published() =~= old(self).published().update(
                slot as int,
                old(self).global(),
            ));
        }
    }

    /// Session `slot` leaves its protected operation.
    pub fn exit(&mut self, slot: usize)
        requires
            old(self).wf(),
            slot < old(self).published().len(),
        ensures
            final(self).wf(),
            final(self).global() == old(self).global(),
            final(self).published() == old(self).published().update(slot as int, 0),
    {
        self.published.set(slot, 0);
        proof {
            assert(self.published() =~= old(self).published().update(slot as int, 0));
        }
    }

    /// Advances the global epoch and returns the new value.
    pub fn bump_global_epoch(&mut self) -> (e: u64)
        requires
            old(self).wf(),
            old(self).global() < u64::MAX,
        ensures
            final(self).wf(),
            final(self).global() == old(self).global() + 1,
            final(self).published() == old(self).published(),
            e == final(self).global(),
    {
        self.global = self.global + 1;
        proof {
            assert forall|i: int| 0 <= i < self.published().len() implies self.published()[i]
                <= self.global() by {
                assert(self.published() == old(self).published());
                assert(old(self).published()[i] <= old(self).global());
            }
        }
        self.global
    }

    /// The current global epoch.
    pub fn global_epoch(&self) -> (e: u64)
        ensures
            e == self.global(),
    {
        self.global
    }

    /// Number of registered session slots.
    pub fn session_count(&self) -> (n: usize)
        ensures
            n == self.published().len(),
    {
        self.published.len()
    }

    /// Largest epoch `e` such that no session inside a protected operation
    /// can still observe a resource retired at `e`: one below the minimum
    /// published epoch, or the global epoch when no session is inside a
    /// protected operation.
    pub fn safe_to_reclaim_epoch(&self) -> (e: u64)
        requires
            self.wf(),
        ensures
            forall|i: int| self.slot_active(i) ==> e < self.published()[i],
            (forall|i: int| 0 <= i < self.published().len() ==> self.published()[i] == 0)
                ==> e == self.global(),
            (exists|i: int| self.slot_active(i)) ==> (exists|i: int|
                self.slot_active(i) && e == self.published()[i] - 1),
    {
        let mut min_pub: u64 = 0;
        let mut i: usize = 0;
        while i < self.published.len()
            invariant
                self.wf(),
                i <= self.published().len(),
                min_pub == 0 ==> forall|j: int| 0 <= j < i ==> self.published()[j] == 0,
                min_pub >= 1 ==> (exists|j: int|
                    0 <= j < i && self.published()[j] == min_pub),
                min_pub >= 1 ==> forall|j: int|
                    0 <= j < i && self.published()[j] >= 1 ==> min_pub <= self.published()[j],
            decreases self.published().len() - i,
        {
            let p = self.published[i];
            if p >= 1 && (min_pub == 0 || p < min_pub) {
                min_pub = p;
            }
            i = i + 1;
        }
        if min_pub == 0 {
            self.global
        } else {
            proof {
                let j = choose|j: int| 0 <= j < self.published().len() && self.published()[j]
                    == min_pub;
                assert(self.slot_active(j) && min_pub - 1 == self.published()[j] - 1);
            }
            min_pub - 1
        }
    }
}

} // verus!
