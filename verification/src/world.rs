//! The entity store: every live entity with its components, plus the
//! counter that keeps freshly spawned identifiers unique.

use vstd::prelude::*;

verus! {

use crate::components::Vec2;
use crate::components::Spatial;
use crate::components::BoundaryPolicy;
use crate::components::ThrustEngine;
use crate::components::SteeringControl;
use crate::components::Weapon;
use crate::math::VEL_MAX;

/// One live entity: an identifier and the components it owns. Components
/// an entity does not carry are `None`; spatial state, velocity and the
/// boundary policy are always attached.
#[derive(Clone, Copy, Debug)]
pub struct Entity {
    /// Identifier, unique within the world.
    pub id: u64,
    /// Position, facing and bounding radius.
    pub spatial: Spatial,
    /// Velocity, milli-units per second.
    pub velocity: Vec2,
    /// Cap on the velocity magnitude, applied every tick.
    pub speed_limit: Option<i64>,
    /// Multiplicative decay of the velocity, parts per thousand in `(0, 1000]`.
    pub damping: Option<i64>,
    /// Thrust actuator.
    pub thrust: Option<ThrustEngine>,
    /// Steering actuator.
    pub steering: Option<SteeringControl>,
    /// Weapon timer and trigger.
    pub weapon: Option<Weapon>,
    /// What happens when the entity leaves the play area.
    pub boundary: BoundaryPolicy,
    /// Whether the entity participates in collision scans at all.
    pub collidable: bool,
    /// Set of category labels the entity carries, as a bitmask over label
    /// indices `0..32` (the hittable and hurtable roles of a collision
    /// pair are two such labels picked by the caller).
    pub categories: u32,
}

impl Entity {
    /// Model bounds on every component.
    pub open spec fn wf(self) -> bool {
        &&& self.spatial.wf()
        &&& self.velocity.bounded(VEL_MAX as int)
        &&& match self.speed_limit {
            Some(l) => 0 <= l <= VEL_MAX,
            None => true,
        }
        &&& match self.damping {
            Some(d) => 0 < d <= 1000,
            None => true,
        }
        &&& match self.thrust {
            Some(t) => t.wf(),
            None => true,
        }
        &&& match self.steering {
            Some(s) => s.wf(),
            None => true,
        }
        &&& match self.weapon {
            Some(w) => w.wf(),
            None => true,
        }
    }

    /// The entity carries the category label `c`.
    pub open spec fn in_category(self, c: u32) -> bool {
        c < 32 && (self.categories >> c) & 1u32 == 1u32
    }

    /// Executable category-membership test.
    pub fn has_category(&self, c: u32) -> (r: bool)
        ensures
            r == self.in_category(c),
    {
        if c < 32 {
            (self.categories >> c) & 1u32 == 1u32
        } else {
            false
        }
    }
}

/// The entities of `s` whose identifier is not `id`, in order.
pub open spec fn without_id(s: Seq<Entity>, id: u64) -> Seq<Entity>
    decreases s.len(),
{
    if s.len() == 0 {
        Seq::<Entity>::empty()
    } else {
        let rest = without_id(s.drop_last(), id);
        if s.last().id == id {
            rest
        } else {
            rest.push(s.last())
        }
    }
}

/// Every entity kept by `without_id` comes from the source sequence.
pub proof fn lemma_without_id_membership(s: Seq<Entity>, id: u64)
    ensures
        without_id(s, id).len() <= s.len(),
        forall|i: int|
            0 <= i < without_id(s, id).len() ==> s.contains(#[trigger] without_id(s, id)[i])
                && without_id(s, id)[i].id != id,
    decreases s.len(),
{
    if s.len() > 0 {
        let butlast = s.drop_last();
        lemma_without_id_membership(butlast, id);
        assert forall|i: int|
            0 <= i < without_id(s, id).len() implies s.contains(#[trigger] without_id(s, id)[i])
            && without_id(s, id)[i].id != id by {
            if i < without_id(butlast, id).len() {
                assert(butlast.contains(without_id(butlast, id)[i]));
                let j = choose|j: int| 0 <= j < butlast.len() && butlast[j] == without_id(butlast, id)[i];
                assert(s[j] == without_id(s, id)[i]);
            } else {
                assert(without_id(s, id)[i] == s.last());
                assert(s[s.len() - 1] == s.last());
            }
        }
    }
}

/// Dropping one identifier preserves well-formedness, identifier bounds
/// and pairwise distinctness of identifiers.
pub proof fn lemma_without_id_wf(s: Seq<Entity>, id: u64, bound: u64)
    requires
        forall|i: int| 0 <= i < s.len() ==> (#[trigger] s[i]).wf(),
        forall|i: int| 0 <= i < s.len() ==> (#[trigger] s[i]).id < bound,
        forall|i: int, j: int| 0 <= i < j < s.len() ==> s[i].id != s[j].id,
    ensures
        forall|i: int| 0 <= i < without_id(s, id).len() ==> (#[trigger] without_id(s, id)[i]).wf(),
        forall|i: int|
            0 <= i < without_id(s, id).len() ==> (#[trigger] without_id(s, id)[i]).id < bound,
        forall|i: int, j: int|
            0 <= i < j < without_id(s, id).len() ==> without_id(s, id)[i].id != without_id(
                s,
                id,
            )[j].id,
    decreases s.len(),
{
    lemma_without_id_membership(s, id);
    assert forall|i: int|
        0 <= i < without_id(s, id).len() implies (#[trigger] without_id(s, id)[i]).wf()
        && without_id(s, id)[i].id < bound by {
        let e = without_id(s, id)[i];
        let j = choose|j: int| 0 <= j < s.len() && s[j] == e;
        assert(s[j].wf());
    }
    if s.len() > 0 {
        let butlast = s.drop_last();
        assert forall|i: int| 0 <= i < butlast.len() implies (#[trigger] butlast[i]).wf() by {
            assert(s[i].wf());
        }
        assert forall|i: int| 0 <= i < butlast.len() implies (#[trigger] butlast[i]).id < bound by {
            assert(s[i].id < bound);
        }
        lemma_without_id_wf(butlast, id, bound);
        if s.last().id != id {
            let r = without_id(s, id);
            let rb = without_id(butlast, id);
            lemma_without_id_membership(butlast, id);
            assert forall|i: int, j: int| 0 <= i < j < r.len() implies r[i].id != r[j].id by {
                if j < rb.len() {
                } else {
                    assert(r[j] == s.last());
                    assert(butlast.contains(rb[i]));
                    let k = choose|k: int| 0 <= k < butlast.len() && butlast[k] == rb[i];
                    assert(s[k] == rb[i]);
                    assert(s[k].id != s[s.len() - 1].id);
                }
            }
        }
    }
}

/// The entity population. The only mutation points are spawning (by the
/// spawner, the weapon, or the world's owner) and despawning (by the
/// boundary-remove stage or an external hit consumer).
pub struct World {
    /// Live entities, in spawn order.
    pub entities: Vec<Entity>,
    /// Next fresh identifier; above every identifier in use.
    pub next_id: u64,
}

impl World {
    /// Every entity is within model bounds; identifiers are unique and
    /// below `next_id`.
    pub open spec fn wf(self) -> bool {
        &&& forall|i: int| 0 <= i < self.entities@.len() ==> (#[trigger] self.entities@[i]).wf()
        &&& forall|i: int|
            0 <= i < self.entities@.len() ==> (#[trigger] self.entities@[i]).id < self.next_id
        &&& forall|i: int, j: int|
            0 <= i < j < self.entities@.len() ==> self.entities@[i].id != self.entities@[j].id
    }

    /// An empty world.
    pub fn new() -> (r: World)
        ensures
            r.wf(),
            r.entities@.len() == 0,
            r.next_id == 0,
    {
        World { entities: Vec::new(), next_id: 0 }
    }

    /// Add an entity, giving it the next fresh identifier (the `id` field
    /// of the argument is replaced). Returns the identifier.
    pub fn spawn(&mut self, e: Entity) -> (id: u64)
        requires
            old(self).wf(),
            e.wf(),
            old(self).next_id < u64::MAX,
        ensures
            final(self).wf(),
            id == old(self).next_id,
            final(self).next_id == old(self).next_id + 1,
            final(self).entities@ == old(self).entities@.push(
                (Entity { id: old(self).next_id, ..e }),
            ),
    {
        let id: u64 = self.next_id;
        let mut fresh = e;
        fresh.id = id;
        self.entities.push(fresh);
        self.next_id = id + 1;
        id
    }

    /// Remove the entity with the given identifier, if present, keeping
    /// the order of the rest.
    pub fn despawn(&mut self, id: u64)
        requires
            old(self).wf(),
        ensures
            final(self).wf(),
            final(self).next_id == old(self).next_id,
            final(self).entities@ == without_id(old(self).entities@, id),
    {
        let n = self.entities.len();
        let mut kept: Vec<Entity> = Vec::new();
        let mut i: usize = 0;
        while i < n
            invariant
                self == old(self),
                n == self.entities@.len(),
                i <= n,
                kept@ == without_id(self.entities@.take(i as int), id),
            decreases n - i,
        {
            let e = self.entities[i];
            proof {
                let t = self.entities@.take(i + 1);
                assert(t.drop_last() =~= self.entities@.take(i as int));
                assert(t.last() == self.entities@[i as int]);
                assert(e == self.entities@[i as int]);
            }
            if e.id != id {
                kept.push(e);
            }
            i = i + 1;
        }
        proof {
            assert(self.entities@.take(n as int) =~= self.entities@);
            lemma_without_id_wf(self.entities@, id, self.next_id);
        }
        self.entities = kept;
    }
}

} // verus!
