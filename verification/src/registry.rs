//! Where the buffers of per-thread pools park: one [`Registry`] per thread,
//! with one slot per pool, and the [`Lives`] table that all threads share, by
//! which a registry finds the slots of pools that are gone.

use crate::hooks::{Hooks, Initializer};
use vstd::prelude::*;

verus! {

/// Number of pools in `live` that are gone.
pub open spec fn dead(live: Seq<bool>) -> nat
    decreases live.len(),
{
    if live.len() == 0 {
        0
    } else {
        dead(live.drop_last()) + if live.last() { 0nat } else { 1 }
    }
}

proof fn lemma_dead_bound(live: Seq<bool>)
    ensures
        dead(live) <= live.len(),
    decreases live.len(),
{
    if live.len() > 0 {
        lemma_dead_bound(live.drop_last());
    }
}

/// One pool more that is gone.
pub(crate) proof fn lemma_dead_update(live: Seq<bool>, id: int)
    requires
        0 <= id < live.len(),
        live[id],
    ensures
        dead(live.update(id, false)) == dead(live) + 1,
    decreases live.len(),
{
    let after = live.update(id, false);
    if id == live.len() - 1 {
        assert(after.drop_last() == live.drop_last());
    } else {
        assert(after.drop_last() == live.drop_last().update(id, false));
        lemma_dead_update(live.drop_last(), id);
    }
}

pub(crate) proof fn lemma_dead_push(live: Seq<bool>)
    ensures
        dead(live.push(true)) == dead(live),
{
    assert(live.push(true).drop_last() == live);
}

/// Which of the pools that were ever made are still alive. Pool ids are the
/// indices, so an id is never used twice.
#[derive(Debug)]
pub struct Lives {
    live: Vec<bool>,
    /// Number of pools that are gone: it moves whenever one more goes.
    epoch: usize,
}

impl View for Lives {
    type V = Seq<bool>;

    closed spec fn view(&self) -> Seq<bool> {
        self.live@
    }
}

impl Lives {
    /// The epoch counts the pools that are gone.
    pub closed spec fn wf(&self) -> bool {
        self.epoch == dead(self.live@)
    }

    /// The pool `id` was made and is still alive.
    pub open spec fn is_live(&self, id: usize) -> bool {
        id < self@.len() && self@[id as int]
    }

    /// A table of no pools.
    pub fn new() -> (lives: Lives)
        ensures
            lives.wf(),
            lives@ == Seq::<bool>::empty(),
    {
        Lives { live: Vec::new(), epoch: 0 }
    }

    /// Gives out the next pool id, of a pool that is now alive.
    pub fn register(&mut self) -> (id: usize)
        requires
            old(self).wf(),
        ensures
            final(self).wf(),
            id == old(self)@.len(),
            final(self)@ == old(self)@.push(true),
            dead(final(self)@) == dead(old(self)@),
    {
        let id = self.live.len();
        proof {
            lemma_dead_push(self.live@);
        }
        self.live.push(true);
        id
    }

    /// Announces that the pool `id` is gone.
    pub fn retire(&mut self, id: usize)
        requires
            old(self).wf(),
            old(self).is_live(id),
        ensures
            final(self).wf(),
            final(self)@ == old(self)@.update(id as int, false),
            dead(final(self)@) == dead(old(self)@) + 1,
    {
        proof {
            lemma_dead_update(self.live@, id as int);
            lemma_dead_bound(self.live@.update(id as int, false));
            assert(self.live.len() == self.live@.len());
        }
        self.live[id] = false;
        self.epoch += 1;
    }

    /// Number of pools that are gone. It tells a registry whether there is
    /// anything to sweep.
    pub fn epoch(&self) -> (epoch: usize)
        requires
            self.wf(),
        ensures
            epoch == dead(self@),
    {
        self.epoch
    }
}

impl Clone for Lives {
    fn clone(&self) -> (copy: Lives)
        ensures
            copy@ == self@,
            copy.wf() == self.wf(),
    {
        let copy = Lives { live: self.live.clone(), epoch: self.epoch };
        assert(copy.live@ == self.live@);
        copy
    }
}

/// A thread's place for the parked buffer of one pool.
#[derive(Debug)]
pub struct Slot<B> {
    /// Id of the pool whose liveness the slot follows.
    pub live: usize,
    /// The parked buffer.
    pub buf: Option<B>,
}

/// A thread's registry as a mathematical value.
#[verifier::ext_equal]
pub struct RegistryState<B> {
    /// The epoch at which the registry was swept last.
    pub seen_epoch: nat,
    /// The slots, by pool id.
    pub slots: Seq<Slot<B>>,
}

impl<B> RegistryState<B> {
    /// A slot that holds a buffer follows the pool of its own index; and since
    /// the last sweep no pool with a parked buffer has gone, unless the epoch
    /// has moved.
    pub open spec fn wf(self, live: Seq<bool>) -> bool {
        &&& self.slots.len() <= live.len()
        &&& forall|i: int|
            0 <= i < self.slots.len() ==> (#[trigger] self.slots[i]).live < live.len()
        &&& forall|i: int|
            0 <= i < self.slots.len() && (#[trigger] self.slots[i]).buf is Some
                ==> self.slots[i].live == i
        &&& self.seen_epoch <= dead(live)
        &&& self.seen_epoch == dead(live) ==> forall|i: int|
            0 <= i < self.slots.len() && (#[trigger] self.slots[i]).buf is Some ==> live[i]
    }

    /// The buffer parked for pool `id`.
    pub open spec fn parked(self, id: int) -> Option<B> {
        if 0 <= id < self.slots.len() {
            self.slots[id].buf
        } else {
            None
        }
    }

    /// The registry after the buffers of pools that are gone were dropped. A
    /// registry that has seen the current epoch holds none.
    pub open spec fn swept(self, live: Seq<bool>) -> RegistryState<B> {
        if self.seen_epoch == dead(live) {
            self
        } else {
            RegistryState {
                seen_epoch: dead(live),
                slots: self.slots.map_values(
                    |slot: Slot<B>|
                        if live[slot.live as int] {
                            slot
                        } else {
                            Slot { live: slot.live, buf: None }
                        },
                ),
            }
        }
    }

    /// The registry with a slot for pool `id` that follows that pool. Slots
    /// that had to be made to reach it are empty.
    pub open spec fn slot_for(self, id: usize) -> RegistryState<B> {
        RegistryState {
            slots: if self.slots.len() <= id {
                self.slots + Seq::new(
                    (id + 1 - self.slots.len()) as nat,
                    |i: int| Slot { live: id, buf: None },
                )
            } else {
                self.slots.update(id as int, Slot { live: id, buf: self.slots[id as int].buf })
            },
            ..self
        }
    }

    /// The registry with `buf` as the contents of the slot of pool `id`, which
    /// is made if it is missing. What the slot held before is gone.
    pub open spec fn hold(self, id: usize, buf: Option<B>) -> RegistryState<B> {
        let with_slot = self.slot_for(id);
        RegistryState {
            slots: with_slot.slots.update(id as int, Slot { live: id, buf }),
            ..with_slot
        }
    }

    /// The registry without a buffer for pool `id`; no slot is made.
    pub open spec fn without(self, id: usize) -> RegistryState<B> {
        if id < self.slots.len() {
            RegistryState {
                slots: self.slots.update(
                    id as int,
                    Slot { live: self.slots[id as int].live, buf: None },
                ),
                ..self
            }
        } else {
            self
        }
    }
}

/// A thread's parked buffers: one slot per pool the thread has touched, by pool
/// id, and the epoch at which dead slots were swept last.
#[derive(Debug)]
pub struct Registry<B, S = ()> {
    seen_epoch: usize,
    slots: Vec<Slot<B>>,
    /// What initializers run on when they run on this thread.
    init_state: S,
}

impl<B, S> View for Registry<B, S> {
    type V = RegistryState<B>;

    closed spec fn view(&self) -> RegistryState<B> {
        RegistryState { seen_epoch: self.seen_epoch as nat, slots: self.slots@ }
    }
}

impl<B> Registry<B> {
    /// The registry of a thread that has touched no pool.
    pub fn new() -> (registry: Registry<B>)
        ensures
            registry@ == (RegistryState { seen_epoch: 0, slots: Seq::<Slot<B>>::empty() }),
            forall|live: Seq<bool>| #[trigger] registry@.wf(live),
    {
        Registry::new_on(())
    }
}

impl<B, S> Registry<B, S> {
    /// The state that initializers run on when they run on this thread.
    pub closed spec fn init_state(&self) -> S {
        self.init_state
    }

    /// The registry of a thread that has touched no pool, on which initializers
    /// run on `init_state`.
    pub fn new_on(init_state: S) -> (registry: Registry<B, S>)
        ensures
            registry@ == (RegistryState { seen_epoch: 0, slots: Seq::<Slot<B>>::empty() }),
            forall|live: Seq<bool>| #[trigger] registry@.wf(live),
            registry.init_state() == init_state,
    {
        Registry { seen_epoch: 0, slots: Vec::new(), init_state }
    }

    /// The buffer of a lease: the parked one that was `found`, or else one that
    /// the initializer makes, in a single run on the thread's state for it.
    pub fn provide<I: Initializer<Buffer = B, State = S>, R: Fn(&mut B)>(
        &mut self,
        hooks: &Hooks<I, R>,
        found: Option<B>,
    ) -> (buffer: B)
        requires
            found is None ==> hooks.init().can_run(old(self).init_state()),
        ensures
            final(self)@ == old(self)@,
            match found {
                Some(idle) => buffer == idle && final(self).init_state() == old(self).init_state(),
                None => hooks.init().runs(
                    old(self).init_state(),
                    final(self).init_state(),
                    buffer,
                ),
            },
    {
        hooks.provide(found, &mut self.init_state)
    }

    /// Drops the buffers of pools that are gone, if any pool has gone since the
    /// last sweep.
    pub fn sweep(&mut self, lives: &Lives)
        requires
            lives.wf(),
            old(self)@.wf(lives@),
        ensures
            final(self).init_state() == old(self).init_state(),
            final(self)@ == old(self)@.swept(lives@),
            final(self)@.wf(lives@),
    {
        let epoch = lives.epoch();
        if epoch != self.seen_epoch {
            self.seen_epoch = epoch;
            let ghost before = self.slots@;
            let mut i: usize = 0;
            while i < self.slots.len()
                invariant
                    before == old(self).slots@,
                    self.seen_epoch == epoch,
                    self.init_state == old(self).init_state,
                    i <= self.slots.len(),
                    self.slots.len() == before.len(),
                    before.len() <= lives@.len(),
                    forall|j: int|
                        0 <= j < before.len() ==> (#[trigger] before[j]).live < lives@.len(),
                    forall|j: int|
                        0 <= j < i ==> #[trigger] self.slots@[j] == (if lives@[before[j].live as int] {
                            before[j]
                        } else {
                            Slot { live: before[j].live, buf: None }
                        }),
                    forall|j: int|
                        i <= j < before.len() ==> #[trigger] self.slots@[j] == before[j],
                decreases self.slots.len() - i,
            {
                assert(before[i as int].live < lives@.len());
                if self.slots[i].buf.is_some() && !lives.live[self.slots[i].live] {
                    self.slots[i].buf = None;
                }
                i += 1;
            }
            assert(self@ == old(self)@.swept(lives@));
        }
    }

    /// This thread's slot for pool `id`, made or put right as needed.
    fn slot_for(&mut self, id: usize) -> (slot: &mut Slot<B>)
        requires
            id < usize::MAX,
            id < old(self)@.slots.len() && old(self)@.slots[id as int].live != id
                ==> old(self)@.slots[id as int].buf is None,
        ensures
            final(self).init_state() == old(self).init_state(),
            *slot == old(self)@.slot_for(id).slots[id as int],
            final(self)@ == (RegistryState {
                slots: old(self)@.slot_for(id).slots.update(id as int, *final(slot)),
                ..old(self)@
            }),
    {
        while self.slots.len() <= id
            invariant
                id < usize::MAX,
                self.seen_epoch == old(self).seen_epoch,
                self.init_state == old(self).init_state,
                self.slots.len() >= old(self).slots.len(),
                self.slots.len() > old(self).slots.len() ==> self.slots.len() <= id + 1,
                forall|j: int|
                    0 <= j < old(self).slots.len() ==> #[trigger] self.slots@[j] == old(self).slots@[j],
                forall|j: int|
                    old(self).slots.len() <= j < self.slots.len() ==> #[trigger] self.slots@[j] == (
                    Slot { live: id, buf: None::<B> }),
            decreases id + 1 - self.slots.len(),
        {
            self.slots.push(Slot { live: id, buf: None });
        }
        if self.slots[id].live != id {
            self.slots[id].live = id;
        }
        assert(self.slots@ == old(self)@.slot_for(id).slots);
        &mut self.slots[id]
    }

    /// Takes the buffer parked for pool `id` out of its slot.
    pub fn take(&mut self, id: usize, lives: &Lives) -> (found: Option<B>)
        requires
            lives.wf(),
            lives.is_live(id),
            old(self)@.wf(lives@),
        ensures
            final(self).init_state() == old(self).init_state(),
            final(self)@.wf(lives@),
            found == old(self)@.swept(lives@).parked(id as int),
            final(self)@ == old(self)@.swept(lives@).hold(id, None),
            found == if id < old(self)@.slots.len() {
                old(self)@.slots[id as int].buf
            } else {
                None
            },
            id < final(self)@.slots.len(),
            final(self)@.slots[id as int].buf is None,
    {
        proof {
            crate::local_laws::law_sweep_spares_the_living(self@, lives@, id as int);
        }
        self.sweep(lives);
        assert(id < lives.live.len());
        self.slot_for(id).buf.take()
    }

    /// Parks `buffer` in the slot of pool `id`; a buffer that was there is
    /// dropped.
    pub fn park(&mut self, id: usize, lives: &Lives, buffer: B)
        requires
            lives.wf(),
            lives.is_live(id),
            old(self)@.wf(lives@),
        ensures
            final(self).init_state() == old(self).init_state(),
            final(self)@.wf(lives@),
            final(self)@ == old(self)@.swept(lives@).hold(id, Some(buffer)),
            id < final(self)@.slots.len(),
            final(self)@.slots[id as int].buf == Some(buffer),
    {
        self.sweep(lives);
        assert(id < lives.live.len());
        self.slot_for(id).buf = Some(buffer);
    }

    /// Whether a buffer is parked for pool `id`. No slot is made.
    pub fn is_parked(&mut self, id: usize, lives: &Lives) -> (parked: bool)
        requires
            lives.wf(),
            old(self)@.wf(lives@),
        ensures
            final(self).init_state() == old(self).init_state(),
            final(self)@.wf(lives@),
            final(self)@ == old(self)@.swept(lives@),
            parked == (final(self)@.parked(id as int) is Some),
            parked == (id < final(self)@.slots.len() && final(self)@.slots[id as int].buf is Some),
    {
        self.sweep(lives);
        id < self.slots.len() && self.slots[id].buf.is_some()
    }

    /// Takes the buffer parked for pool `id` out of its slot, if the thread has
    /// one. No slot is made.
    pub fn remove(&mut self, id: usize, lives: &Lives) -> (found: Option<B>)
        requires
            lives.wf(),
            old(self)@.wf(lives@),
        ensures
            final(self).init_state() == old(self).init_state(),
            final(self)@.wf(lives@),
            found == old(self)@.swept(lives@).parked(id as int),
            final(self)@ == old(self)@.swept(lives@).without(id),
    {
        self.sweep(lives);
        if id < self.slots.len() {
            self.slots[id].buf.take()
        } else {
            None
        }
    }
}

} // verus!
