//! Identifier-indexed storage of lights: an arena addressed by
//! stable integer handles, with handle reuse after removal.

use vstd::prelude::*;
use crate::light::{Light, LightId};

verus! {

/// An arena of lights keyed by `LightId`. The lowest free slot is
/// reused by the next insertion, so a freed handle's numeric value
/// may come back for a later light; a caller holding a stale handle
/// after such reuse silently operates on the new light (the handles
/// carry no generation tag).
pub struct LightRegistry {
    pub slots: Vec<Option<Light>>,
}

/// The lowest index at or after `i` whose slot is free, or the
/// sequence's length when every slot from `i` on is occupied.
pub open spec fn first_free_at(s: Seq<Option<Light>>, i: int) -> int
    decreases s.len() - i,
{
    if i < 0 || i >= s.len() {
        s.len() as int
    } else if s[i].is_none() {
        i
    } else {
        first_free_at(s, i + 1)
    }
}

/// Freeing a handle invalidates it: a registry from which `id` was
/// removed no longer holds `id`, so by the operations' contracts
/// every later mutate or free through that handle is owed the
/// invalid-handle error -- until an insertion reuses the numeric
/// value, after which operations on the new allocation succeed.
pub proof fn lemma_freed_handle_dead(m: Map<LightId, Light>, id: LightId)
    ensures
        !m.remove(id).contains_key(id),
{
}

impl LightRegistry {
    /// Whether `id` currently references a live light.
    pub open spec fn live(self, id: LightId) -> bool {
        id < self.slots@.len() && self.slots@[id as int].is_some()
    }

    /// The registry's contents: the finite map from live handles to
    /// their lights.
    pub open spec fn view(self) -> Map<LightId, Light> {
        Map::new(|id: LightId| self.live(id), |id: LightId| self.slots@[id as int].unwrap())
    }

    /// The handle the next insertion will return: the lowest free
    /// slot, or a fresh index past the end when none is free.
    pub open spec fn next_handle(self) -> int {
        first_free_at(self.slots@, 0)
    }

    /// An empty registry: no live handles.
    pub fn new() -> (r: LightRegistry)
        ensures
            r@ == Map::<LightId, Light>::empty(),
            r.slots@.len() == 0,
    {
        let r = LightRegistry { slots: Vec::new() };
        proof {
            assert(r@ =~= Map::<LightId, Light>::empty());
        }
        r
    }

    /// Allocates a currently-unique handle for `light` and stores
    /// it. The handle is the lowest free slot (so freed handles are
    /// reused); the length bound is the arena's capacity limit.
    pub fn insert(&mut self, light: Light) -> (id: LightId)
        requires
            old(self).slots@.len() < u32::MAX as int,
        ensures
            id as int == old(self).next_handle(),
            !old(self)@.contains_key(id),
            final(self)@ == old(self)@.insert(id, light),
    {
        let n: usize = self.slots.len();
        let mut i: usize = 0;
        while i < n
            invariant
                self.slots@ == old(self).slots@,
                old(self).slots@.len() < u32::MAX as int,
                n == self.slots@.len(),
                i <= n,
                first_free_at(self.slots@, 0) == first_free_at(self.slots@, i as int),
                forall|j: int| 0 <= j < i ==> self.slots@[j].is_some(),
            decreases n - i,
        {
            if self.slots[i].is_none() {
                let ghost prior = self.slots@;
                self.slots.set(i, Some(light));
                let id: u32 = i as u32;
                proof {
                    assert(first_free_at(prior, i as int) == i as int);
                    assert(self@ =~= old(self)@.insert(id, light));
                }
                return id;
            }
            i = i + 1;
        }
        let id: u32 = n as u32;
        self.slots.push(Some(light));
        proof {
            assert(first_free_at(old(self).slots@, n as int) == n as int);
            assert(self@ =~= old(self)@.insert(id, light));
        }
        id
    }

    /// The light behind `id`, or nothing when the handle is not
    /// live.
    pub fn get(&self, id: LightId) -> (r: Option<Light>)
        ensures
            r == if self@.contains_key(id) {
                Some(self@[id])
            } else {
                None::<Light>
            },
    {
        if (id as usize) < self.slots.len() {
            self.slots[id as usize]
        } else {
            None
        }
    }

    /// Replaces the light behind a live `id` as one atomic update;
    /// reports whether the handle was live (on a dead handle nothing
    /// changes). Together with `get` this is the mutable access the
    /// management operations use.
    pub fn set(&mut self, id: LightId, light: Light) -> (ok: bool)
        ensures
            ok == old(self)@.contains_key(id),
            final(self)@ == if old(self)@.contains_key(id) {
                old(self)@.insert(id, light)
            } else {
                old(self)@
            },
    {
        if (id as usize) < self.slots.len() {
            if self.slots[id as usize].is_some() {
                self.slots.set(id as usize, Some(light));
                proof {
                    assert(self@ =~= old(self)@.insert(id, light));
                }
                return true;
            }
        }
        proof {
            assert(self@ =~= old(self)@);
        }
        false
    }

    /// Removes the light behind `id` and returns it, invalidating
    /// the handle (until reuse); returns nothing, and changes
    /// nothing, when the handle is not live.
    pub fn remove(&mut self, id: LightId) -> (r: Option<Light>)
        ensures
            r == if old(self)@.contains_key(id) {
                Some(old(self)@[id])
            } else {
                None::<Light>
            },
            final(self)@ == old(self)@.remove(id),
    {
        if (id as usize) < self.slots.len() {
            let prior: Option<Light> = self.slots[id as usize];
            if prior.is_some() {
                self.slots.set(id as usize, None);
                proof {
                    assert(self@ =~= old(self)@.remove(id));
                }
                return prior;
            }
        }
        proof {
            assert(self@ =~= old(self)@.remove(id));
        }
        None
    }
}

} // verus!
