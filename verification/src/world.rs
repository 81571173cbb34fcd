//! The spatial store: an arena of entity records with stable indices as
//! entity identifiers. Identifiers are never reused: a destroyed slot
//! stays empty forever and new entities only ever append. Creations go
//! through a deferred queue and become visible at the next `sync`, so
//! that a pass iterating the store never observes a half-applied
//! structural change.

use vstd::prelude::*;
use crate::consts::POS_LIMIT;
use crate::fixed::absi;
use crate::physics::{Transform, CollisionBody};
use crate::components::{Physics, Health, Bullet, Spinner, Sprite, Player, Asteroid};

verus! {

/// Everything one entity owns: its transform and collision body plus
/// the optional gameplay components and tags.
#[derive(Clone, Debug)]
pub struct EntityRecord {
    pub transform: Transform,
    pub body: CollisionBody,
    pub physics: Option<Physics>,
    pub health: Option<Health>,
    pub bullet: Option<Bullet>,
    pub spinner: Option<Spinner>,
    pub sprite: Option<Sprite>,
    pub player: Option<Player>,
    pub asteroid: Option<Asteroid>,
}

impl EntityRecord {
    pub open spec fn wf(self) -> bool {
        self.transform.wf() && self.body.wf() && (match self.physics {
            Some(p) => p.wf(),
            None => true,
        }) && (match self.spinner {
            Some(s) => s.wf(),
            None => true,
        })
    }
}

/// Two stores with equal slot sequences agree on liveness and records.
proof fn lemma_same_slots_wf(a: World, b: World)
    requires
        a.wf(),
        b.slots@ == a.slots@,
        forall|i: int| 0 <= i < b.pending@.len() ==> #[trigger] b.pending@[i].wf(),
        b.slots@.len() + b.pending@.len() <= usize::MAX,
    ensures
        b.wf(),
{
    assert forall|i: int| b.live(i) implies #[trigger] b.at(i).wf() by {
        assert(a.live(i));
        assert(a.at(i) == b.at(i));
    };
}

/// The store: live slots, indexed by entity identifier, and the queue
/// of creations deferred until the next `sync`.
#[derive(Debug)]
pub struct World {
    pub slots: Vec<Option<EntityRecord>>,
    pub pending: Vec<EntityRecord>,
}

impl World {
    /// Slot `i` holds a live entity.
    pub open spec fn live(self, i: int) -> bool {
        0 <= i < self.slots@.len() && self.slots@[i] is Some
    }

    /// The record in slot `i`.
    pub open spec fn at(self, i: int) -> EntityRecord {
        self.slots@[i]->Some_0
    }

    /// Every live and every pending record is well formed.
    pub open spec fn wf(self) -> bool {
        (forall|i: int| self.live(i) ==> #[trigger] self.at(i).wf()) && (forall|i: int|
            0 <= i < self.pending@.len() ==> #[trigger] self.pending@[i].wf())
            && self.slots@.len() + self.pending@.len() <= usize::MAX
    }

    /// The identifier the next creation will get.
    pub open spec fn next_id(self) -> int {
        self.slots@.len() + self.pending@.len() as int
    }

    /// The slots as they will look once the pending queue is applied.
    pub open spec fn synced(self) -> Seq<Option<EntityRecord>> {
        self.slots@ + self.pending@.map_values(|r: EntityRecord| Some(r))
    }

    /// An empty store.
    pub fn new() -> (w: World)
        ensures
            w.slots@ == Seq::<Option<EntityRecord>>::empty(),
            w.pending@ == Seq::<EntityRecord>::empty(),
            w.wf(),
    {
        World { slots: Vec::new(), pending: Vec::new() }
    }

    /// Register a record for a fresh entity. The record is queued and
    /// becomes visible at the next `sync`; the returned identifier is
    /// final and never reused.
    pub fn create_body(&mut self, rec: EntityRecord) -> (id: u64)
        requires
            old(self).wf(),
            rec.wf(),
            old(self).next_id() < usize::MAX,
            old(self).next_id() < u64::MAX,
        ensures
            final(self).wf(),
            id == old(self).next_id(),
            final(self).slots@ == old(self).slots@,
            final(self).pending@ == old(self).pending@.push(rec),
    {
        let id = (self.slots.len() + self.pending.len()) as u64;
        self.pending.push(rec);
        proof {
            lemma_same_slots_wf(*old(self), *self);
        }
        id
    }

    /// Apply every pending creation, in order, to the end of the slot
    /// arena. Must run before any read that could observe entities
    /// created earlier in the same step.
    pub fn sync(&mut self)
        requires
            old(self).wf(),
        ensures
            final(self).wf(),
            final(self).slots@ == old(self).synced(),
            final(self).pending@ == Seq::<EntityRecord>::empty(),
    {
        while self.pending.len() > 0
            invariant
                self.wf(),
                self.synced() == old(self).synced(),
            decreases self.pending@.len(),
        {
            let ghost prev = *self;
            let rec = self.pending.remove(0);
            self.slots.push(Some(rec));
            proof {
                assert forall|i: int| self.live(i) implies #[trigger] self.at(i).wf() by {
                    if i < prev.slots@.len() {
                        assert(prev.live(i));
                        assert(prev.at(i) == self.at(i));
                    } else {
                        assert(self.at(i) == prev.pending@[0]);
                    }
                };
                assert(self.synced() =~= prev.synced());
            }
        }
        proof {
            assert(self.slots@ =~= self.synced());
        }
    }

    /// Destroy an entity now. Destroying an identifier that is already
    /// gone (or not yet synced) changes nothing; a destroyed slot is
    /// never resurrected.
    pub fn destroy(&mut self, id: u64)
        requires
            old(self).wf(),
        ensures
            final(self).wf(),
            final(self).pending@ == old(self).pending@,
            id < old(self).slots@.len() ==> final(self).slots@ == old(self).slots@.update(
                id as int,
                None,
            ),
            id >= old(self).slots@.len() ==> final(self).slots@ == old(self).slots@,
    {
        if id < self.slots.len() as u64 {
            self.slots[id as usize] = None;
            proof {
                assert(self.slots@ =~= old(self).slots@.update(id as int, None));
                assert forall|i: int| self.live(i) implies #[trigger] self.at(i).wf() by {
                    assert(old(self).live(i));
                    assert(old(self).at(i) == self.at(i));
                };
            }
        }
    }

    /// The position of a live entity.
    pub fn transform(&self, id: u64) -> (t: Transform)
        requires
            self.live(id as int),
        ensures
            t == self.at(id as int).transform,
    {
        let n = self.slots.len();
        proof {
            assert(id < n);
        }
        match &self.slots[id as usize] {
            Some(rec) => rec.transform,
            None => Transform { x: 0, y: 0 },
        }
    }

    /// A read view of a live entity's collision body.
    pub fn collider(&self, id: u64) -> (b: &CollisionBody)
        requires
            self.live(id as int),
        ensures
            *b == self.at(id as int).body,
    {
        let n = self.slots.len();
        proof {
            assert(id < n);
        }
        match &self.slots[id as usize] {
            Some(rec) => &rec.body,
            None => {
                // unreachable under the precondition
                loop
                    invariant
                        false,
                    decreases 0int,
                {
                }
            },
        }
    }

    /// Free movement: add the displacement to the position, exactly,
    /// with no clamping and no collision response.
    pub fn move_body(&mut self, id: u64, dx: i64, dy: i64)
        requires
            old(self).wf(),
            old(self).live(id as int),
            absi(old(self).at(id as int).transform.x + dx) <= POS_LIMIT,
            absi(old(self).at(id as int).transform.y + dy) <= POS_LIMIT,
        ensures
            final(self).wf(),
            final(self).pending@ == old(self).pending@,
            final(self).slots@ == old(self).slots@.update(
                id as int,
                Some(
                    EntityRecord {
                        transform: Transform {
                            x: (old(self).at(id as int).transform.x + dx) as i64,
                            y: (old(self).at(id as int).transform.y + dy) as i64,
                        },
                        ..old(self).at(id as int)
                    },
                ),
            ),
    {
        let slot = self.slots[id as usize].take();
        match slot {
            Some(mut rec) => {
                rec.transform.x = rec.transform.x + dx;
                rec.transform.y = rec.transform.y + dy;
                self.slots[id as usize] = Some(rec);
                proof {
                    assert(self.slots@ =~= old(self).slots@.update(
                        id as int,
                        Some(rec),
                    ));
                    assert forall|i: int| self.live(i) implies #[trigger] self.at(i).wf() by {
                        assert(old(self).live(i));
                        if i != id as int {
                            assert(old(self).at(i) == self.at(i));
                        } else {
                            assert(old(self).at(i).wf());
                            assert(self.at(i) == rec);
                        }
                    };
                }
            },
            None => {},
        }
    }

    /// Teleport one axis directly (world wrap): sets the x coordinate
    /// without any collision response.
    pub fn move_body_to_x(&mut self, id: u64, x: i64)
        requires
            old(self).wf(),
            old(self).live(id as int),
            absi(x as int) <= POS_LIMIT,
        ensures
            final(self).wf(),
            final(self).pending@ == old(self).pending@,
            final(self).slots@ == old(self).slots@.update(
                id as int,
                Some(
                    EntityRecord {
                        transform: Transform { x, y: old(self).at(id as int).transform.y },
                        ..old(self).at(id as int)
                    },
                ),
            ),
    {
        let slot = self.slots[id as usize].take();
        match slot {
            Some(mut rec) => {
                rec.transform.x = x;
                self.slots[id as usize] = Some(rec);
                proof {
                    assert(self.slots@ =~= old(self).slots@.update(
                        id as int,
                        Some(rec),
                    ));
                    assert forall|i: int| self.live(i) implies #[trigger] self.at(i).wf() by {
                        assert(old(self).live(i));
                        if i != id as int {
                            assert(old(self).at(i) == self.at(i));
                        } else {
                            assert(old(self).at(i).wf());
                            assert(self.at(i) == rec);
                        }
                    };
                }
            },
            None => {},
        }
    }

    /// Teleport one axis directly (world wrap): sets the y coordinate
    /// without any collision response.
    pub fn move_body_to_y(&mut self, id: u64, y: i64)
        requires
            old(self).wf(),
            old(self).live(id as int),
            absi(y as int) <= POS_LIMIT,
        ensures
            final(self).wf(),
            final(self).pending@ == old(self).pending@,
            final(self).slots@ == old(self).slots@.update(
                id as int,
                Some(
                    EntityRecord {
                        transform: Transform { x: old(self).at(id as int).transform.x, y },
                        ..old(self).at(id as int)
                    },
                ),
            ),
    {
        let slot = self.slots[id as usize].take();
        match slot {
            Some(mut rec) => {
                rec.transform.y = y;
                self.slots[id as usize] = Some(rec);
                proof {
                    assert(self.slots@ =~= old(self).slots@.update(
                        id as int,
                        Some(rec),
                    ));
                    assert forall|i: int| self.live(i) implies #[trigger] self.at(i).wf() by {
                        assert(old(self).live(i));
                        if i != id as int {
                            assert(old(self).at(i) == self.at(i));
                        } else {
                            assert(old(self).at(i).wf());
                            assert(self.at(i) == rec);
                        }
                    };
                }
            },
            None => {},
        }
    }
}

} // verus!
