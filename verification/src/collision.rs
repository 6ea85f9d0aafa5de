//! Generic pairwise hit detection between two tagged entity categories.
//!
//! A registry holds collision-pair configurations, each naming a hittable
//! and a hurtable category label. Every tick the detector scans all
//! entities for every registered pair and emits one `HitEvent` per
//! currently-overlapping (hittable, hurtable) pair: overlap is a strictly
//! smaller Euclidean distance than the sum of the bounding radii.

use vstd::prelude::*;

verus! {

use crate::components::norm_sq;
use crate::world::Entity;
use crate::world::World;

/// One registered collision-pair configuration: entities tagged with the
/// `hittable` label are scanned against entities tagged `hurtable`.
#[derive(Clone, Copy, Debug, PartialEq, Eq, Structural)]
pub struct CollisionPair {
    /// Category label of the hittable side.
    pub hittable: u32,
    /// Category label of the hurtable side.
    pub hurtable: u32,
}

/// The set of collision-pair configurations in effect, built once at
/// startup; each configuration gets its own slot in the emitted events.
pub struct CollisionRegistry {
    /// Registered configurations, in registration order.
    pub pairs: Vec<CollisionPair>,
}

impl CollisionRegistry {
    /// An empty registry.
    pub fn new() -> (r: CollisionRegistry)
        ensures
            r.pairs@.len() == 0,
    {
        CollisionRegistry { pairs: Vec::new() }
    }

    /// Register a (hittable, hurtable) category pair; returns its slot.
    pub fn register(&mut self, hittable: u32, hurtable: u32) -> (k: usize)
        ensures
            k == old(self).pairs@.len(),
            final(self).pairs@ == old(self).pairs@.push(
                (CollisionPair { hittable, hurtable }),
            ),
    {
        let k = self.pairs.len();
        self.pairs.push(CollisionPair { hittable, hurtable });
        k
    }
}

/// One detected overlap, for the configuration in slot `pair`: the
/// identifiers of the hittable and the hurtable entity.
#[derive(Clone, Copy, Debug, PartialEq, Eq, Structural)]
pub struct HitEvent {
    /// Slot of the collision-pair configuration that produced the event.
    pub pair: usize,
    /// Identifier of the hittable entity.
    pub hittable_id: u64,
    /// Identifier of the hurtable entity.
    pub hurtable_id: u64,
}

impl HitEvent {
    /// Identifier of the hittable entity of the pair.
    pub fn hittable(&self) -> (r: u64)
        ensures
            r == self.hittable_id,
    {
        self.hittable_id
    }

    /// Identifier of the hurtable entity of the pair.
    pub fn hurtable(&self) -> (r: u64)
        ensures
            r == self.hurtable_id,
    {
        self.hurtable_id
    }
}

/// Strict overlap: the squared distance between the positions is strictly
/// below the squared sum of the bounding radii. Exactly-touching circles
/// do not overlap.
pub open spec fn overlaps(a: Entity, b: Entity) -> bool {
    norm_sq(
        a.spatial.position.x - b.spatial.position.x,
        a.spatial.position.y - b.spatial.position.y,
    ) < (a.spatial.radius + b.spatial.radius) * (a.spatial.radius + b.spatial.radius)
}

/// The entity takes part on the hittable side of `cfg`.
pub open spec fn is_hittable(e: Entity, cfg: CollisionPair) -> bool {
    e.collidable && e.in_category(cfg.hittable)
}

/// The entity takes part on the hurtable side of `cfg`.
pub open spec fn is_hurtable(e: Entity, cfg: CollisionPair) -> bool {
    e.collidable && e.in_category(cfg.hurtable)
}

/// The pair (a, b) produces a hit under `cfg` this tick.
pub open spec fn pair_hits(a: Entity, b: Entity, cfg: CollisionPair) -> bool {
    is_hittable(a, cfg) && is_hurtable(b, cfg) && overlaps(a, b)
}

/// The event emitted for slot `k` and the two entity identifiers.
pub open spec fn hit_event(k: int, hittable_id: u64, hurtable_id: u64) -> HitEvent {
    HitEvent { pair: k as usize, hittable_id, hurtable_id }
}

/// Events of one hittable entity `a` against the hurtables among
/// `hurts`, in scan order.
pub open spec fn hits_against(a: Entity, hurts: Seq<Entity>, k: int, cfg: CollisionPair) -> Seq<
    HitEvent,
>
    decreases hurts.len(),
{
    if hurts.len() == 0 {
        Seq::<HitEvent>::empty()
    } else {
        hits_against(a, hurts.drop_last(), k, cfg) + (if pair_hits(a, hurts.last(), cfg) {
            seq![hit_event(k, a.id, hurts.last().id)]
        } else {
            Seq::<HitEvent>::empty()
        })
    }
}

/// Events of the hittables among `prefix`, each scanned against every
/// entity of `all`, in scan order.
pub open spec fn hits_for_pair(
    all: Seq<Entity>,
    prefix: Seq<Entity>,
    k: int,
    cfg: CollisionPair,
) -> Seq<HitEvent>
    decreases prefix.len(),
{
    if prefix.len() == 0 {
        Seq::<HitEvent>::empty()
    } else {
        hits_for_pair(all, prefix.drop_last(), k, cfg) + hits_against(prefix.last(), all, k, cfg)
    }
}

/// Every event of the tick: one per registered configuration and
/// currently-overlapping (hittable, hurtable) entity pair, in scan order.
pub open spec fn all_hits(ents: Seq<Entity>, pairs: Seq<CollisionPair>) -> Seq<HitEvent>
    decreases pairs.len(),
{
    if pairs.len() == 0 {
        Seq::<HitEvent>::empty()
    } else {
        all_hits(ents, pairs.drop_last()) + hits_for_pair(
            ents,
            ents,
            pairs.len() - 1,
            pairs.last(),
        )
    }
}

/// Executable strict-overlap test.
pub fn overlap_test(a: &Entity, b: &Entity) -> (r: bool)
    requires
        a.wf(),
        b.wf(),
    ensures
        r == overlaps(*a, *b),
{
    let dx: i128 = (a.spatial.position.x as i128) - (b.spatial.position.x as i128);
    let dy: i128 = (a.spatial.position.y as i128) - (b.spatial.position.y as i128);
    let rs: i128 = (a.spatial.radius as i128) + (b.spatial.radius as i128);
    proof {
        assert(dx * dx <= 100_000_000_000_000_000_000_000_000_000_000 && dx * dx >= 0)
            by (nonlinear_arith)
            requires
                -9_000_000_000_000_000 <= dx <= 9_000_000_000_000_000,
        ;
        assert(dy * dy <= 100_000_000_000_000_000_000_000_000_000_000 && dy * dy >= 0)
            by (nonlinear_arith)
            requires
                -9_000_000_000_000_000 <= dy <= 9_000_000_000_000_000,
        ;
        assert(rs * rs <= 100_000_000_000_000_000_000_000_000_000_000 && rs * rs >= 0)
            by (nonlinear_arith)
            requires
                0 <= rs <= 9_000_000_000_000_000,
        ;
    }
    dx * dx + dy * dy < rs * rs
}

/// Brute-force scan: for every registered pair, every hittable against
/// every hurtable. The result is exactly the specified event sequence.
pub fn collision_system(w: &World, reg: &CollisionRegistry) -> (hits: Vec<HitEvent>)
    requires
        w.wf(),
    ensures
        hits@ == all_hits(w.entities@, reg.pairs@),
{
    let mut out: Vec<HitEvent> = Vec::new();
    let np = reg.pairs.len();
    let n = w.entities.len();
    proof {
        assert(reg.pairs@.take(0int) =~= Seq::<CollisionPair>::empty());
        assert(out@ =~= all_hits(w.entities@, reg.pairs@.take(0int)));
    }
    let mut k: usize = 0;
    while k < np
        invariant
            k <= np,
            np == reg.pairs@.len(),
            n == w.entities@.len(),
            w.wf(),
            out@ == all_hits(w.entities@, reg.pairs@.take(k as int)),
        decreases np - k,
    {
        let cfg = reg.pairs[k];
        let ghost row_base = out@;
        let mut i: usize = 0;
        proof {
            assert(hits_for_pair(w.entities@, w.entities@.take(0int), k as int, cfg)
                =~= Seq::<HitEvent>::empty());
        }
        while i < n
            invariant
                i <= n,
                k < np,
                np == reg.pairs@.len(),
                n == w.entities@.len(),
                w.wf(),
                cfg == reg.pairs@[k as int],
                row_base == all_hits(w.entities@, reg.pairs@.take(k as int)),
                out@ == row_base + hits_for_pair(
                    w.entities@,
                    w.entities@.take(i as int),
                    k as int,
                    cfg,
                ),
            decreases n - i,
        {
            let a = w.entities[i];
            let ghost cell_base = out@;
            let mut j: usize = 0;
            proof {
                assert(hits_against(a, w.entities@.take(0int), k as int, cfg)
                    =~= Seq::<HitEvent>::empty());
                assert(out@ =~= cell_base + hits_against(
                    a,
                    w.entities@.take(0int),
                    k as int,
                    cfg,
                ));
            }
            while j < n
                invariant
                    j <= n,
                    i < n,
                    k < np,
                    np == reg.pairs@.len(),
                    n == w.entities@.len(),
                    w.wf(),
                    cfg == reg.pairs@[k as int],
                    a == w.entities@[i as int],
                    out@ == cell_base + hits_against(
                        a,
                        w.entities@.take(j as int),
                        k as int,
                        cfg,
                    ),
                decreases n - j,
            {
                let b = w.entities[j];
                proof {
                    let t = w.entities@.take(j + 1);
                    assert(t.drop_last() =~= w.entities@.take(j as int));
                    assert(t.last() == w.entities@[j as int]);
                }
                if a.collidable && b.collidable && a.has_category(cfg.hittable)
                    && b.has_category(cfg.hurtable) && overlap_test(&a, &b) {
                    out.push(HitEvent { pair: k, hittable_id: a.id, hurtable_id: b.id });
                    proof {
                        assert(out@ =~= cell_base + hits_against(
                            a,
                            w.entities@.take(j + 1),
                            k as int,
                            cfg,
                        ));
                    }
                } else {
                    proof {
                        assert(out@ =~= cell_base + hits_against(
                            a,
                            w.entities@.take(j + 1),
                            k as int,
                            cfg,
                        ));
                    }
                }
                j = j + 1;
            }
            proof {
                let p = w.entities@.take(i + 1);
                assert(p.drop_last() =~= w.entities@.take(i as int));
                assert(p.last() == w.entities@[i as int]);
                assert(w.entities@.take(n as int) =~= w.entities@);
                assert(out@ =~= row_base + hits_for_pair(
                    w.entities@,
                    w.entities@.take(i + 1),
                    k as int,
                    cfg,
                ));
            }
            i = i + 1;
        }
        proof {
            let q = reg.pairs@.take(k + 1);
            assert(q.drop_last() =~= reg.pairs@.take(k as int));
            assert(q.last() == reg.pairs@[k as int]);
            assert(w.entities@.take(n as int) =~= w.entities@);
            assert(out@ =~= all_hits(w.entities@, reg.pairs@.take(k + 1)));
        }
        k = k + 1;
    }
    proof {
        assert(reg.pairs@.take(np as int) =~= reg.pairs@);
    }
    out
}

/// Appending on the right keeps membership.
proof fn lemma_contains_left<T>(s1: Seq<T>, s2: Seq<T>, e: T)
    requires
        s1.contains(e),
    ensures
        (s1 + s2).contains(e),
{
    let i = choose|i: int| 0 <= i < s1.len() && s1[i] == e;
    assert((s1 + s2)[i] == e);
}

/// Appending on the left keeps membership.
proof fn lemma_contains_right<T>(s1: Seq<T>, s2: Seq<T>, e: T)
    requires
        s2.contains(e),
    ensures
        (s1 + s2).contains(e),
{
    let i = choose|i: int| 0 <= i < s2.len() && s2[i] == e;
    assert((s1 + s2)[s1.len() + i] == e);
}

/// A hitting hurtable produces its event in the row scan.
proof fn lemma_row_complete(a: Entity, hurts: Seq<Entity>, k: int, cfg: CollisionPair, j: int)
    requires
        0 <= j < hurts.len(),
        pair_hits(a, hurts[j], cfg),
    ensures
        hits_against(a, hurts, k, cfg).contains(hit_event(k, a.id, hurts[j].id)),
    decreases hurts.len(),
{
    let ev = hit_event(k, a.id, hurts[j].id);
    if j == hurts.len() - 1 {
        assert(hurts.last() == hurts[j]);
        assert(seq![ev][0int] == ev);
        lemma_contains_right(hits_against(a, hurts.drop_last(), k, cfg), seq![ev], ev);
    } else {
        assert(hurts.drop_last()[j] == hurts[j]);
        lemma_row_complete(a, hurts.drop_last(), k, cfg, j);
        lemma_contains_left(
            hits_against(a, hurts.drop_last(), k, cfg),
            (if pair_hits(a, hurts.last(), cfg) {
                seq![hit_event(k, a.id, hurts.last().id)]
            } else {
                Seq::<HitEvent>::empty()
            }),
            ev,
        );
    }
}

/// An event of some hittable's row appears in the whole pair scan.
proof fn lemma_pair_complete(
    all: Seq<Entity>,
    prefix: Seq<Entity>,
    k: int,
    cfg: CollisionPair,
    i: int,
    ev: HitEvent,
)
    requires
        0 <= i < prefix.len(),
        hits_against(prefix[i], all, k, cfg).contains(ev),
    ensures
        hits_for_pair(all, prefix, k, cfg).contains(ev),
    decreases prefix.len(),
{
    if i == prefix.len() - 1 {
        assert(prefix.last() == prefix[i]);
        lemma_contains_right(
            hits_for_pair(all, prefix.drop_last(), k, cfg),
            hits_against(prefix.last(), all, k, cfg),
            ev,
        );
    } else {
        assert(prefix.drop_last()[i] == prefix[i]);
        lemma_pair_complete(all, prefix.drop_last(), k, cfg, i, ev);
        lemma_contains_left(
            hits_for_pair(all, prefix.drop_last(), k, cfg),
            hits_against(prefix.last(), all, k, cfg),
            ev,
        );
    }
}

/// Completeness of the detector: every overlapping, participating
/// (hittable, hurtable) pair of every registered configuration has its
/// event in the tick's output.
pub proof fn lemma_hits_complete(
    ents: Seq<Entity>,
    pairs: Seq<CollisionPair>,
    k: int,
    i: int,
    j: int,
)
    requires
        0 <= k < pairs.len(),
        0 <= i < ents.len(),
        0 <= j < ents.len(),
        pair_hits(ents[i], ents[j], pairs[k]),
    ensures
        all_hits(ents, pairs).contains(hit_event(k, ents[i].id, ents[j].id)),
    decreases pairs.len(),
{
    let ev = hit_event(k, ents[i].id, ents[j].id);
    if k == pairs.len() - 1 {
        assert(pairs.last() == pairs[k]);
        lemma_row_complete(ents[i], ents, k, pairs[k], j);
        lemma_pair_complete(ents, ents, k, pairs[k], i, ev);
        lemma_contains_right(
            all_hits(ents, pairs.drop_last()),
            hits_for_pair(ents, ents, k, pairs[k]),
            ev,
        );
    } else {
        assert(pairs.drop_last()[k] == pairs[k]);
        lemma_hits_complete(ents, pairs.drop_last(), k, i, j);
        lemma_contains_left(
            all_hits(ents, pairs.drop_last()),
            hits_for_pair(ents, ents, pairs.len() - 1, pairs.last()),
            ev,
        );
    }
}

/// The event `ev` is the one the row of hittable `a` emits for the
/// hurtable at position `j`.
pub open spec fn row_witness(
    a: Entity,
    hurts: Seq<Entity>,
    k: int,
    cfg: CollisionPair,
    ev: HitEvent,
    j: int,
) -> bool {
    &&& 0 <= j < hurts.len()
    &&& pair_hits(a, hurts[j], cfg)
    &&& ev == hit_event(k, a.id, hurts[j].id)
}

/// Every event of a row scan comes from some hitting hurtable.
proof fn lemma_row_sound(a: Entity, hurts: Seq<Entity>, k: int, cfg: CollisionPair, ev: HitEvent)
    requires
        hits_against(a, hurts, k, cfg).contains(ev),
    ensures
        exists|j: int| #[trigger] row_witness(a, hurts, k, cfg, ev, j),
    decreases hurts.len(),
{
    let full = hits_against(a, hurts, k, cfg);
    let s1 = hits_against(a, hurts.drop_last(), k, cfg);
    let idx = choose|idx: int| 0 <= idx < full.len() && full[idx] == ev;
    if idx < s1.len() {
        assert(s1[idx] == ev);
        lemma_row_sound(a, hurts.drop_last(), k, cfg, ev);
        let j = choose|j: int| #[trigger] row_witness(a, hurts.drop_last(), k, cfg, ev, j);
        assert(hurts.drop_last()[j] == hurts[j]);
        assert(row_witness(a, hurts, k, cfg, ev, j));
    } else {
        assert(pair_hits(a, hurts.last(), cfg));
        assert(ev == hit_event(k, a.id, hurts.last().id));
        assert(hurts.last() == hurts[hurts.len() - 1]);
        assert(row_witness(a, hurts, k, cfg, ev, hurts.len() - 1));
    }
}

/// The event `ev` comes from the row of the hittable at position `i`.
pub open spec fn pair_witness(
    all: Seq<Entity>,
    prefix: Seq<Entity>,
    k: int,
    cfg: CollisionPair,
    ev: HitEvent,
    i: int,
) -> bool {
    &&& 0 <= i < prefix.len()
    &&& hits_against(prefix[i], all, k, cfg).contains(ev)
}

/// Every event of a pair scan comes from some hittable's row.
proof fn lemma_pair_sound(
    all: Seq<Entity>,
    prefix: Seq<Entity>,
    k: int,
    cfg: CollisionPair,
    ev: HitEvent,
)
    requires
        hits_for_pair(all, prefix, k, cfg).contains(ev),
    ensures
        exists|i: int| #[trigger] pair_witness(all, prefix, k, cfg, ev, i),
    decreases prefix.len(),
{
    let full = hits_for_pair(all, prefix, k, cfg);
    let s1 = hits_for_pair(all, prefix.drop_last(), k, cfg);
    let idx = choose|idx: int| 0 <= idx < full.len() && full[idx] == ev;
    if idx < s1.len() {
        assert(s1[idx] == ev);
        lemma_pair_sound(all, prefix.drop_last(), k, cfg, ev);
        let i = choose|i: int| #[trigger] pair_witness(all, prefix.drop_last(), k, cfg, ev, i);
        assert(prefix.drop_last()[i] == prefix[i]);
        assert(pair_witness(all, prefix, k, cfg, ev, i));
    } else {
        let row = hits_against(prefix.last(), all, k, cfg);
        assert(row[idx - s1.len()] == ev);
        assert(prefix.last() == prefix[prefix.len() - 1]);
        assert(pair_witness(all, prefix, k, cfg, ev, prefix.len() - 1));
    }
}

/// The event `ev` is emitted for configuration slot `k` by the entities at
/// positions `i` (hittable) and `j` (hurtable).
pub open spec fn hit_witness(
    ents: Seq<Entity>,
    pairs: Seq<CollisionPair>,
    ev: HitEvent,
    k: int,
    i: int,
    j: int,
) -> bool {
    &&& 0 <= k < pairs.len()
    &&& 0 <= i < ents.len()
    &&& 0 <= j < ents.len()
    &&& pair_hits(ents[i], ents[j], pairs[k])
    &&& ev == hit_event(k, ents[i].id, ents[j].id)
}

/// Soundness of the detector: every emitted event names a registered
/// configuration and an overlapping, participating entity pair.
pub proof fn lemma_hits_sound(ents: Seq<Entity>, pairs: Seq<CollisionPair>, ev: HitEvent)
    requires
        all_hits(ents, pairs).contains(ev),
    ensures
        exists|k: int, i: int, j: int| #[trigger] hit_witness(ents, pairs, ev, k, i, j),
    decreases pairs.len(),
{
    let full = all_hits(ents, pairs);
    let s1 = all_hits(ents, pairs.drop_last());
    let idx = choose|idx: int| 0 <= idx < full.len() && full[idx] == ev;
    if idx < s1.len() {
        assert(s1[idx] == ev);
        lemma_hits_sound(ents, pairs.drop_last(), ev);
        let (k, i, j) = choose|k: int, i: int, j: int|
            #[trigger] hit_witness(ents, pairs.drop_last(), ev, k, i, j);
        assert(pairs.drop_last()[k] == pairs[k]);
        assert(hit_witness(ents, pairs, ev, k, i, j));
    } else {
        let k = pairs.len() - 1;
        let chunk = hits_for_pair(ents, ents, k, pairs.last());
        assert(chunk[idx - s1.len()] == ev);
        lemma_pair_sound(ents, ents, k, pairs.last(), ev);
        let i = choose|i: int| #[trigger] pair_witness(ents, ents, k, pairs.last(), ev, i);
        lemma_row_sound(ents[i], ents, k, pairs.last(), ev);
        let j = choose|j: int| #[trigger] row_witness(ents[i], ents, k, pairs.last(), ev, j);
        assert(pairs.last() == pairs[k]);
        assert(hit_witness(ents, pairs, ev, k, i, j));
    }
}

/// Exactness of hit detection, for worlds with distinct identifiers: the
/// event of configuration slot `k` naming the entities at positions `i`
/// and `j` is emitted this tick if and only if both take part in that
/// configuration and their distance is strictly below the sum of their
/// bounding radii. Exactly-touching entities yield no event.
pub proof fn lemma_hit_detection_iff(
    ents: Seq<Entity>,
    pairs: Seq<CollisionPair>,
    k: int,
    i: int,
    j: int,
)
    requires
        0 <= k < pairs.len(),
        0 <= i < ents.len(),
        0 <= j < ents.len(),
        pairs.len() <= usize::MAX,
        forall|x: int, y: int| 0 <= x < y < ents.len() ==> ents[x].id != ents[y].id,
    ensures
        all_hits(ents, pairs).contains(hit_event(k, ents[i].id, ents[j].id)) <==> pair_hits(
            ents[i],
            ents[j],
            pairs[k],
        ),
{
    let ev = hit_event(k, ents[i].id, ents[j].id);
    if pair_hits(ents[i], ents[j], pairs[k]) {
        lemma_hits_complete(ents, pairs, k, i, j);
    }
    if all_hits(ents, pairs).contains(ev) {
        lemma_hits_sound(ents, pairs, ev);
        let (k2, i2, j2) = choose|k2: int, i2: int, j2: int|
            #[trigger] hit_witness(ents, pairs, ev, k2, i2, j2);
        assert(hit_event(k2, ents[i2].id, ents[j2].id).pair == k2 as usize);
        assert(k2 as usize == k as usize);
        assert(k2 == k);
        if i2 != i {
            if i2 < i {
                assert(ents[i2].id != ents[i].id);
            } else {
                assert(ents[i].id != ents[i2].id);
            }
        }
        if j2 != j {
            if j2 < j {
                assert(ents[j2].id != ents[j].id);
            } else {
                assert(ents[j].id != ents[j2].id);
            }
        }
        assert(pair_hits(ents[i], ents[j], pairs[k]));
    }
}

/// Within one hittable's row, all emitted events differ: each names a
/// different hurtable.
proof fn lemma_row_distinct(a: Entity, hurts: Seq<Entity>, k: int, cfg: CollisionPair)
    requires
        forall|x: int, y: int| 0 <= x < y < hurts.len() ==> hurts[x].id != hurts[y].id,
    ensures
        forall|p: int, q: int|
            0 <= p < q < hits_against(a, hurts, k, cfg).len() ==> hits_against(a, hurts, k, cfg)[p]
                != hits_against(a, hurts, k, cfg)[q],
    decreases hurts.len(),
{
    if hurts.len() > 0 {
        let butlast = hurts.drop_last();
        lemma_row_distinct(a, butlast, k, cfg);
        let full = hits_against(a, hurts, k, cfg);
        let prior = hits_against(a, butlast, k, cfg);
        assert forall|p: int, q: int| 0 <= p < q < full.len() implies full[p] != full[q] by {
            if q < prior.len() {
                assert(full[p] == prior[p] && full[q] == prior[q]);
            } else {
                assert(full[q] == hit_event(k, a.id, hurts.last().id));
                assert(prior[p] == full[p]);
                lemma_row_sound(a, butlast, k, cfg, full[p]);
                let j = choose|j: int| #[trigger] row_witness(a, butlast, k, cfg, full[p], j);
                assert(hurts[j].id != hurts[hurts.len() - 1].id);
                assert(full[p].hurtable_id == butlast[j].id);
            }
        }
    }
}

/// Every event of a pair scan names the hittable of the row it came from.
proof fn lemma_pair_hittable_ids(
    all: Seq<Entity>,
    prefix: Seq<Entity>,
    k: int,
    cfg: CollisionPair,
    ev: HitEvent,
)
    requires
        hits_for_pair(all, prefix, k, cfg).contains(ev),
    ensures
        exists|i: int|
            0 <= i < prefix.len() && #[trigger] prefix[i].id == ev.hittable_id,
{
    lemma_pair_sound(all, prefix, k, cfg, ev);
    let i = choose|i: int| #[trigger] pair_witness(all, prefix, k, cfg, ev, i);
    lemma_row_sound(prefix[i], all, k, cfg, ev);
    let j = choose|j: int| #[trigger] row_witness(prefix[i], all, k, cfg, ev, j);
    assert(prefix[i].id == ev.hittable_id);
}

/// Within one pair scan, all emitted events differ.
proof fn lemma_pair_distinct(all: Seq<Entity>, prefix: Seq<Entity>, k: int, cfg: CollisionPair)
    requires
        forall|x: int, y: int| 0 <= x < y < all.len() ==> all[x].id != all[y].id,
        forall|i: int| 0 <= i < prefix.len() ==> exists|j: int|
            0 <= j < all.len() && all[j] == #[trigger] prefix[i],
        forall|x: int, y: int| 0 <= x < y < prefix.len() ==> prefix[x].id != prefix[y].id,
    ensures
        forall|p: int, q: int|
            0 <= p < q < hits_for_pair(all, prefix, k, cfg).len() ==> hits_for_pair(
                all,
                prefix,
                k,
                cfg,
            )[p] != hits_for_pair(all, prefix, k, cfg)[q],
    decreases prefix.len(),
{
    if prefix.len() > 0 {
        let butlast = prefix.drop_last();
        assert forall|i: int| 0 <= i < butlast.len() implies exists|j: int|
            0 <= j < all.len() && all[j] == #[trigger] butlast[i] by {
            assert(butlast[i] == prefix[i]);
            let j = choose|j: int| 0 <= j < all.len() && all[j] == prefix[i];
            assert(all[j] == butlast[i]);
        }
        lemma_pair_distinct(all, butlast, k, cfg);
        let full = hits_for_pair(all, prefix, k, cfg);
        let prior = hits_for_pair(all, butlast, k, cfg);
        let row = hits_against(prefix.last(), all, k, cfg);
        lemma_row_distinct(prefix.last(), all, k, cfg);
        assert forall|p: int, q: int| 0 <= p < q < full.len() implies full[p] != full[q] by {
            if q < prior.len() {
                assert(full[p] == prior[p] && full[q] == prior[q]);
            } else if p >= prior.len() {
                assert(full[p] == row[p - prior.len()] && full[q] == row[q - prior.len()]);
            } else {
                // p comes from an earlier hittable's row, q from the last's.
                assert(full[p] == prior[p]);
                assert(prior.contains(prior[p]));
                lemma_pair_hittable_ids(all, butlast, k, cfg, full[p]);
                let i = choose|i: int|
                    0 <= i < butlast.len() && #[trigger] butlast[i].id == full[p].hittable_id;
                assert(full[q] == row[q - prior.len()]);
                lemma_row_sound(prefix.last(), all, k, cfg, full[q]);
                let j = choose|j: int|
                    #[trigger] row_witness(prefix.last(), all, k, cfg, full[q], j);
                assert(full[q].hittable_id == prefix.last().id);
                assert(prefix[i].id != prefix[prefix.len() - 1].id);
            }
        }
    }
}

/// Uniqueness of hit detection, for worlds with distinct identifiers: no
/// event is emitted twice in one tick, so an overlapping pair yields
/// exactly one event per registered configuration.
#[verifier::rlimit(60)]
pub proof fn lemma_hits_distinct(ents: Seq<Entity>, pairs: Seq<CollisionPair>)
    requires
        pairs.len() <= usize::MAX,
        forall|x: int, y: int| 0 <= x < y < ents.len() ==> ents[x].id != ents[y].id,
    ensures
        forall|p: int, q: int|
            0 <= p < q < all_hits(ents, pairs).len() ==> all_hits(ents, pairs)[p] != all_hits(
                ents,
                pairs,
            )[q],
    decreases pairs.len(),
{
    if pairs.len() > 0 {
        let butlast = pairs.drop_last();
        lemma_hits_distinct(ents, butlast);
        let full = all_hits(ents, pairs);
        let prior = all_hits(ents, butlast);
        let kk = pairs.len() - 1;
        let chunk = hits_for_pair(ents, ents, kk, pairs.last());
        assert forall|i: int| 0 <= i < ents.len() implies exists|j: int|
            0 <= j < ents.len() && ents[j] == #[trigger] ents[i] by {
            assert(ents[i] == ents[i]);
        }
        lemma_pair_distinct(ents, ents, kk, pairs.last());
        assert forall|p: int, q: int| 0 <= p < q < full.len() implies full[p] != full[q] by {
            if q < prior.len() {
                assert(full[p] == prior[p] && full[q] == prior[q]);
            } else if p >= prior.len() {
                assert(full[p] == chunk[p - prior.len()] && full[q] == chunk[q - prior.len()]);
            } else {
                // p comes from an earlier configuration's scan.
                assert(full[p] == prior[p]);
                assert(prior.contains(prior[p]));
                lemma_hits_sound(ents, butlast, full[p]);
                let (k2, i2, j2) = choose|k2: int, i2: int, j2: int|
                    #[trigger] hit_witness(ents, butlast, full[p], k2, i2, j2);
                assert(full[p].pair == k2 as usize);
                assert(full[q] == chunk[q - prior.len()]);
                assert(chunk.contains(full[q]));
                lemma_pair_sound(ents, ents, kk, pairs.last(), full[q]);
                let i = choose|i: int| #[trigger] pair_witness(ents, ents, kk, pairs.last(), full[q], i);
                lemma_row_sound(ents[i], ents, kk, pairs.last(), full[q]);
                let j = choose|j: int| #[trigger] row_witness(ents[i], ents, kk, pairs.last(), full[q], j);
                assert(full[q].pair == kk as usize);
                assert(k2 < kk);
                assert(k2 as usize != kk as usize);
            }
        }
    }
}

} // verus!
