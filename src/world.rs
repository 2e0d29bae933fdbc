//! The entity store: an arena of entity identities, each with a sparse row
//! of optional attributes.

use vstd::prelude::*;
use crate::units::in_world;
use crate::components::{
    Position, Velocity, Mass, ThermalState, CollisionShape, Lifetime, OpticalMaterial, EntityType,
};
use crate::source::{DropletState, LaserBeam};
use crate::raytracing::PhotonPacket;
use crate::optics::MirrorSurface;
use crate::thermal::CoolingSystem;

verus! {

/// One entity and the attributes attached to it.
#[derive(Clone, Copy, Debug, PartialEq, Eq, Structural)]
pub struct EntityRecord {
    pub id: u64,
    pub position: Option<Position>,
    pub velocity: Option<Velocity>,
    pub mass: Option<Mass>,
    pub thermal: Option<ThermalState>,
    pub shape: Option<CollisionShape>,
    pub lifetime: Option<Lifetime>,
    pub material: Option<OpticalMaterial>,
    pub kind: Option<EntityType>,
    pub droplet: Option<DropletState>,
    pub laser: Option<LaserBeam>,
    pub photon: Option<PhotonPacket>,
    pub mirror: Option<MirrorSurface>,
    pub cooling: Option<CoolingSystem>,
}

impl EntityRecord {
    /// An entity with no attributes.
    pub fn empty() -> (r: EntityRecord)
        ensures
            r.id == 0,
            r.is_inert(),
    {
        EntityRecord {
            id: 0,
            position: None,
            velocity: None,
            mass: None,
            thermal: None,
            shape: None,
            lifetime: None,
            material: None,
            kind: None,
            droplet: None,
            laser: None,
            photon: None,
            mirror: None,
            cooling: None,
        }
    }

    /// Whether no attribute is attached.
    pub open spec fn is_inert(&self) -> bool {
        &&& self.position is None
        &&& self.velocity is None
        &&& self.mass is None
        &&& self.thermal is None
        &&& self.shape is None
        &&& self.lifetime is None
        &&& self.material is None
        &&& self.kind is None
        &&& self.droplet is None
        &&& self.laser is None
        &&& self.photon is None
        &&& self.mirror is None
        &&& self.cooling is None
    }
}

/// What every stored entity satisfies: it lies in the world, its heat
/// state and coating are valid, and a photon packet carries a lifetime
/// and has bounced at most `MAX_BOUNCES` times.
pub open spec fn record_ok(e: EntityRecord) -> bool {
    &&& (e.position matches Some(p) ==> in_world(p.0))
    &&& (e.thermal matches Some(t) ==> t.wf())
    &&& (e.material matches Some(m) ==> m.wf())
    &&& (e.photon matches Some(p) ==> p.bounces <= crate::raytracing::MAX_BOUNCES && e.lifetime is Some)
    &&& (e.shape matches Some(s) ==> crate::interactions::shape_ok(s))
}

/// All entities of a simulation, in the order they were created.
pub struct World {
    pub entities: Vec<EntityRecord>,
    pub next_id: u64,
}

/// Records whose flag in `keep` is set, in the order they had.
pub open spec fn kept(s: Seq<EntityRecord>, keep: Seq<bool>) -> Seq<EntityRecord>
    decreases s.len(),
{
    if s.len() == 0 {
        Seq::empty()
    } else {
        let rest = kept(s.drop_last(), keep.take(s.len() - 1));
        if keep[s.len() - 1] {
            rest.push(s.last())
        } else {
            rest
        }
    }
}

pub open spec fn ids_increasing(s: Seq<EntityRecord>) -> bool {
    forall|i: int, j: int| 0 <= i < j < s.len() ==> s[i].id < s[j].id
}

impl World {
    pub open spec fn wf(&self) -> bool {
        &&& ids_increasing(self.entities@)
        &&& forall|i: int| 0 <= i < self.entities@.len() ==> self.entities@[i].id < self.next_id
        &&& forall|i: int| 0 <= i < self.entities@.len() ==> record_ok(#[trigger] self.entities@[i])
    }

    pub fn new() -> (r: World)
        ensures
            r.wf(),
            r.entities@.len() == 0,
            r.next_id == 0,
    {
        World { entities: Vec::new(), next_id: 0 }
    }

    pub fn len(&self) -> (r: usize)
        ensures
            r == self.entities@.len(),
    {
        self.entities.len()
    }

    /// Adds an entity with the attributes of `rec` under a fresh identity,
    /// which it returns; `None`, and no change, once every identity has
    /// been handed out.
    pub fn spawn(&mut self, rec: EntityRecord) -> (r: Option<u64>)
        requires
            old(self).wf(),
            record_ok(rec),
        ensures
            final(self).wf(),
            r matches Some(id) ==> id == old(self).next_id && final(self).entities@ == old(self).entities@.push(
                EntityRecord { id, ..rec },
            ),
            r is None ==> old(self).next_id == u64::MAX && final(self).entities@ == old(self).entities@,
            r is Some ==> final(self).next_id == old(self).next_id + 1,
            r is None ==> final(self).next_id == old(self).next_id,
    {
        if self.next_id == u64::MAX {
            return None;
        }
        let id = self.next_id;
        let e = EntityRecord { id, ..rec };
        self.entities.push(e);
        self.next_id = self.next_id + 1;
        assert forall|i: int| 0 <= i < self.entities@.len() implies record_ok(#[trigger] self.entities@[i]) by {
            if i < old(self).entities@.len() {
                assert(self.entities@[i] == old(self).entities@[i]);
            }
        }
        Some(id)
    }

    /// Removes every entity whose flag in `keep` is clear, keeping the
    /// order of the others.
    pub fn retain(&mut self, keep: &Vec<bool>)
        requires
            old(self).wf(),
            keep@.len() == old(self).entities@.len(),
        ensures
            final(self).wf(),
            final(self).entities@ == kept(old(self).entities@, keep@),
            final(self).next_id == old(self).next_id,
    {
        let mut out: Vec<EntityRecord> = Vec::new();
        let n = self.entities.len();
        let mut i: usize = 0;
        while i < n
            invariant
                n == self.entities@.len(),
                n == keep@.len(),
                i <= n,
                self.wf(),
                out@ == kept(self.entities@.take(i as int), keep@.take(i as int)),
                forall|k: int| 0 <= k < out@.len() ==> record_ok(#[trigger] out@[k]),
                forall|k: int| 0 <= k < out@.len() ==> out@[k].id < self.next_id,
                ids_increasing(out@),
                i < n ==> forall|k: int| 0 <= k < out@.len() ==> out@[k].id < self.entities@[i as int].id,
            decreases n - i,
        {
            proof {
                assert(self.entities@.take(i + 1).drop_last() == self.entities@.take(i as int));
                assert(keep@.take(i + 1).take(i as int) == keep@.take(i as int));
            }
            if keep[i] {
                let e = self.entities[i];
                out.push(e);
            }
            proof {
                assert(self.entities@.take(i + 1).last() == self.entities@[i as int]);
                assert(self.entities@[i as int] == self.entities@[i as int]);
            }
            i = i + 1;
        }
        proof {
            assert(self.entities@.take(n as int) == self.entities@);
            assert(keep@.take(n as int) == keep@);
        }
        self.entities = out;
    }
}

/// Every record kept by `kept` comes from the sequence it filters.
pub proof fn lemma_kept_from(s: Seq<EntityRecord>, keep: Seq<bool>, k: int)
    requires
        keep.len() == s.len(),
        0 <= k < kept(s, keep).len(),
    ensures
        exists|i: int| 0 <= i < s.len() && s[i] == kept(s, keep)[k],
    decreases s.len(),
{
    let rest = kept(s.drop_last(), keep.take(s.len() - 1));
    if k < rest.len() {
        lemma_kept_from(s.drop_last(), keep.take(s.len() - 1), k);
        let i = choose|i: int| 0 <= i < s.drop_last().len() && s.drop_last()[i] == rest[k];
        assert(s[i] == kept(s, keep)[k]);
    } else {
        assert(s[s.len() - 1] == kept(s, keep)[k]);
    }
}

/// Every record kept by `kept` had its flag set.
pub proof fn lemma_kept_flag(s: Seq<EntityRecord>, keep: Seq<bool>, k: int)
    requires
        keep.len() == s.len(),
        0 <= k < kept(s, keep).len(),
    ensures
        exists|i: int| 0 <= i < s.len() && keep[i] && s[i] == kept(s, keep)[k],
    decreases s.len(),
{
    let rest = kept(s.drop_last(), keep.take(s.len() - 1));
    if k < rest.len() {
        lemma_kept_flag(s.drop_last(), keep.take(s.len() - 1), k);
        let i = choose|i: int| 0 <= i < s.drop_last().len() && keep.take(s.len() - 1)[i] && s.drop_last()[i] == rest[k];
        assert(keep[i] && s[i] == kept(s, keep)[k]);
    } else {
        assert(keep[s.len() - 1] && s[s.len() - 1] == kept(s, keep)[k]);
    }
}

} // verus!
