//! A registry of action keys handed out to remote clients.
//!
//! A key is named by a slot index and the generation of that slot, so a name
//! that outlived its key (cancelled, or expired and swept away) no longer
//! matches once the slot is reused.
use vstd::prelude::*;

use crate::scheduler::ActionKey;
use crate::time::MonotonicTime;

verus! {

/// The name of a key in the registry.
#[derive(Clone, Copy, Debug, PartialEq, Eq, Structural)]
pub struct KeyRegistryId {
    pub index: usize,
    pub generation: u64,
}

impl KeyRegistryId {
    /// The name made of its two parts.
    pub fn from_raw_parts(index: usize, generation: u64) -> (r: KeyRegistryId)
        ensures
            r.index == index,
            r.generation == generation,
    {
        KeyRegistryId { index, generation }
    }

    /// The two parts of the name.
    pub fn into_raw_parts(self) -> (r: (usize, u64))
        ensures
            r == (self.index, self.generation),
    {
        (self.index, self.generation)
    }
}

/// A registered key, with the deadline after which it is useless; a key of a
/// periodic action has none.
#[derive(Clone, Copy, Debug)]
pub struct KeyEntry {
    pub key: ActionKey,
    pub expiration: Option<MonotonicTime>,
}

/// A slot of the registry.
#[derive(Clone, Copy, Debug)]
pub struct KeySlot {
    pub generation: u64,
    pub entry: Option<KeyEntry>,
}

/// Action keys by name.
pub struct KeyRegistry {
    pub slots: Vec<KeySlot>,
}

/// The generation that follows `g`.
pub open spec fn next_generation(g: u64) -> u64 {
    if g == u64::MAX {
        0
    } else {
        (g + 1) as u64
    }
}

/// The slot that a new key takes: the first free one, or a new one at the end.
pub open spec fn free_slot(slots: Seq<KeySlot>) -> int {
    if exists|i: int| 0 <= i < slots.len() && slots[i].entry is None {
        choose|i: int|
            0 <= i < slots.len() && slots[i].entry is None && forall|j: int|
                0 <= j < i ==> slots[j].entry is Some
    } else {
        slots.len() as int
    }
}

/// The key registered under `id`, if any.
pub open spec fn lookup(slots: Seq<KeySlot>, id: KeyRegistryId) -> Option<ActionKey> {
    if id.index < slots.len() && slots[id.index as int].generation == id.generation {
        match slots[id.index as int].entry {
            Some(e) => Some(e.key),
            None => None,
        }
    } else {
        None
    }
}

/// The entry is a key whose deadline lies before `now`.
pub open spec fn expired(s: KeySlot, now: MonotonicTime) -> bool {
    match s.entry {
        Some(e) => match e.expiration {
            Some(d) => d@ < now@,
            None => false,
        },
        None => false,
    }
}

/// The slot after a sweep at `now`.
pub open spec fn swept(s: KeySlot, now: MonotonicTime) -> KeySlot {
    if expired(s, now) {
        KeySlot { generation: s.generation, entry: None }
    } else {
        s
    }
}

/// The slots after a sweep at `now`.
pub open spec fn sweep(slots: Seq<KeySlot>, now: MonotonicTime) -> Seq<KeySlot> {
    Seq::new(slots.len(), |i: int| swept(slots[i], now))
}

/// The registry after `entry` is stored in the slot that `free_slot` picks.
pub open spec fn with_entry(slots: Seq<KeySlot>, entry: KeyEntry) -> Seq<KeySlot> {
    let i = free_slot(slots);
    if i < slots.len() {
        slots.update(i, KeySlot { generation: next_generation(slots[i].generation), entry: Some(entry) })
    } else {
        slots.push(KeySlot { generation: 0, entry: Some(entry) })
    }
}

/// Every deadline in the slots is well-formed.
pub open spec fn slots_wf(slots: Seq<KeySlot>) -> bool {
    forall|i: int|
        0 <= i < slots.len() ==> (#[trigger] slots[i].entry matches Some(e) ==> (e.expiration matches Some(d)
            ==> d.wf()))
}

impl KeyRegistry {
    /// Every deadline in the registry is well-formed.
    pub open spec fn wf(&self) -> bool {
        slots_wf(self.slots@)
    }

    /// An empty registry.
    pub fn new() -> (r: KeyRegistry)
        ensures
            r.wf(),
            r.slots@.len() == 0,
    {
        KeyRegistry { slots: Vec::new() }
    }

    /// Stores `entry` in a free slot and returns its name.
    fn insert_entry(&mut self, entry: KeyEntry) -> (r: KeyRegistryId)
        requires
            old(self).wf(),
            old(self).slots.len() < usize::MAX,
            entry.expiration matches Some(d) ==> d.wf(),
        ensures
            final(self).wf(),
            final(self).slots@ == with_entry(old(self).slots@, entry),
            r.index == free_slot(old(self).slots@),
            r.generation == final(self).slots@[r.index as int].generation,
            lookup(final(self).slots@, r) == Some(entry.key),
    {
        let n = self.slots.len();
        let mut i: usize = 0;
        while i < n
            invariant
                n == self.slots.len(),
                self.slots@ == old(self).slots@,
                slots_wf(old(self).slots@),
                entry.expiration matches Some(d) ==> d.wf(),
                i <= n,
                forall|j: int| 0 <= j < i ==> self.slots@[j].entry is Some,
            decreases n - i,
        {
            if self.slots[i].entry.is_none() {
                let g = self.slots[i].generation;
                let g2: u64 = if g == u64::MAX {
                    0
                } else {
                    g + 1
                };
                proof {
                    assert(free_slot(self.slots@) == i as int);
                }
                self.slots.set(i, KeySlot { generation: g2, entry: Some(entry) });
                proof {
                    assert forall|j: int| 0 <= j < self.slots@.len() implies (#[trigger] self.slots@[j].entry matches Some(
                        e,
                    ) ==> (e.expiration matches Some(d) ==> d.wf())) by {
                        if j != i {
                            assert(self.slots@[j] == old(self).slots@[j]);
                        }
                    }
                }
                return KeyRegistryId { index: i, generation: g2 };
            }
            i = i + 1;
        }
        proof {
            assert(!exists|j: int| 0 <= j < self.slots@.len() && self.slots@[j].entry is None);
        }
        self.slots.push(KeySlot { generation: 0, entry: Some(entry) });
        KeyRegistryId { index: n, generation: 0 }
    }

    /// Registers the key of an action due at `deadline`.
    pub fn insert_key(&mut self, key: ActionKey, deadline: MonotonicTime) -> (r: KeyRegistryId)
        requires
            old(self).wf(),
            old(self).slots.len() < usize::MAX,
            deadline.wf(),
        ensures
            final(self).wf(),
            final(self).slots@ == with_entry(old(self).slots@, KeyEntry { key, expiration: Some(deadline) }),
            r.index == free_slot(old(self).slots@),
            r.generation == final(self).slots@[r.index as int].generation,
            lookup(final(self).slots@, r) == Some(key),
    {
        self.insert_entry(KeyEntry { key, expiration: Some(deadline) })
    }

    /// Registers the key of a periodic action, which never expires.
    pub fn insert_eternal_key(&mut self, key: ActionKey) -> (r: KeyRegistryId)
        requires
            old(self).wf(),
            old(self).slots.len() < usize::MAX,
        ensures
            final(self).wf(),
            final(self).slots@ == with_entry(old(self).slots@, KeyEntry { key, expiration: None }),
            r.index == free_slot(old(self).slots@),
            r.generation == final(self).slots@[r.index as int].generation,
            lookup(final(self).slots@, r) == Some(key),
    {
        self.insert_entry(KeyEntry { key, expiration: None })
    }

    /// Removes and returns the key named `id`, if it is registered.
    pub fn extract_key(&mut self, id: KeyRegistryId) -> (r: Option<ActionKey>)
        requires
            old(self).wf(),
        ensures
            final(self).wf(),
            r == lookup(old(self).slots@, id),
            r is None ==> final(self).slots@ == old(self).slots@,
            r is Some ==> final(self).slots@ == old(self).slots@.update(
                id.index as int,
                KeySlot { generation: id.generation, entry: None },
            ),
    {
        if id.index < self.slots.len() && self.slots[id.index].generation == id.generation {
            if let Some(e) = self.slots[id.index].entry {
                self.slots.set(id.index, KeySlot { generation: id.generation, entry: None });
                return Some(e.key);
            }
        }
        None
    }

    /// Removes the keys of actions whose deadline lies before `now`.
    pub fn remove_expired_keys(&mut self, now: MonotonicTime)
        requires
            old(self).wf(),
            now.wf(),
        ensures
            final(self).wf(),
            final(self).slots@ == sweep(old(self).slots@, now),
    {
        let n = self.slots.len();
        let mut i: usize = 0;
        while i < n
            invariant
                n == self.slots.len(),
                n == old(self).slots@.len(),
                i <= n,
                now.wf(),
                forall|j: int| 0 <= j < i ==> #[trigger] self.slots@[j] == swept(old(self).slots@[j], now),
                forall|j: int| i <= j < n ==> #[trigger] self.slots@[j] == old(self).slots@[j],
                slots_wf(old(self).slots@),
                slots_wf(self.slots@),
            decreases n - i,
        {
            let s = self.slots[i];
            if let Some(e) = s.entry {
                if let Some(d) = e.expiration {
                    if d.lt(&now) {
                        self.slots.set(i, KeySlot { generation: s.generation, entry: None });
                    }
                }
            }
            i = i + 1;
        }
        proof {
            assert(self.slots@ =~= sweep(old(self).slots@, now));
        }
    }
}

/// The slot that `free_slot` picks is free, or the one past the end.
pub proof fn lemma_free_slot(slots: Seq<KeySlot>)
    ensures
        0 <= free_slot(slots) <= slots.len(),
        free_slot(slots) < slots.len() ==> slots[free_slot(slots)].entry is None,
{
    if exists|i: int| 0 <= i < slots.len() && slots[i].entry is None {
        let i = choose|i: int| 0 <= i < slots.len() && slots[i].entry is None;
        lemma_first_free(slots, i);
    }
}

/// If some slot is free, a first free slot exists.
proof fn lemma_first_free(slots: Seq<KeySlot>, i: int)
    requires
        0 <= i < slots.len(),
        slots[i].entry is None,
    ensures
        exists|f: int| 0 <= f < slots.len() && slots[f].entry is None && forall|j: int| 0 <= j < f ==> slots[j].entry is Some,
    decreases i,
{
    if exists|j: int| 0 <= j < i && slots[j].entry is None {
        let j = choose|j: int| 0 <= j < i && slots[j].entry is None;
        lemma_first_free(slots, j);
    } else {
        assert forall|j: int| 0 <= j < i implies slots[j].entry is Some by {}
    }
}

/// A key stored with `with_entry` survives every sweep made no later than its
/// deadline (every sweep, for a key that never expires), under the name made
/// of its slot and that slot's generation.
pub proof fn lemma_key_survives(slots: Seq<KeySlot>, entry: KeyEntry, later: MonotonicTime)
    requires
        slots.len() < usize::MAX,
        entry.expiration matches Some(d) ==> later@ <= d@,
    ensures
        ({
            let stored = with_entry(slots, entry);
            let i = free_slot(slots);
            lookup(sweep(stored, later), KeyRegistryId { index: i as usize, generation: stored[i].generation })
                == Some(entry.key)
        }),
{
    lemma_free_slot(slots);
    let stored = with_entry(slots, entry);
    let i = free_slot(slots);
    assert(stored[i].entry == Some(entry));
    assert(sweep(stored, later)[i] == swept(stored[i], later));
    assert(!expired(stored[i], later));
    assert((i as usize) as int == i);
}

} // verus!
