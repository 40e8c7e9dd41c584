//! Spatial index over entity positions.
//!
//! `WolfGrid` keeps at most one plane position per entity id (last write
//! wins) and answers proximity queries. A query filters to the exact
//! Euclidean radius, boundary included: an entry at distance exactly
//! `radius` from the center is returned. That choice is fixed here and
//! the collision and interaction passes are specified against it.

use vstd::prelude::*;
use vstd::map::*;

use crate::math::Vec2I;
use crate::math::dist_sq_spec;
use crate::math::dist_sq;
use crate::math::WORLD_LIMIT;

verus! {

/// The mapping a sequence of (id, position) entries denotes: later
/// entries win.
pub open spec fn entries_map(s: Seq<(u64, Vec2I)>) -> Map<u64, Vec2I>
    decreases s.len(),
{
    if s.len() == 0 {
        Map::empty()
    } else {
        entries_map(s.drop_last()).insert(s.last().0, s.last().1)
    }
}

/// How many entries of `s` carry the id `id`.
pub open spec fn id_count(s: Seq<(u64, Vec2I)>, id: u64) -> nat
    decreases s.len(),
{
    if s.len() == 0 {
        0
    } else {
        id_count(s.drop_last(), id) + if s.last().0 == id {
            1nat
        } else {
            0nat
        }
    }
}

/// No id occurs in two entries.
pub open spec fn ids_distinct(s: Seq<(u64, Vec2I)>) -> bool {
    forall|i: int, j: int| 0 <= i < j < s.len() ==> s[i].0 != s[j].0
}

/// True when `p` lies within `radius` of `center` (Euclidean, boundary
/// included).
pub open spec fn in_radius(p: Vec2I, center: Vec2I, radius: i64) -> bool {
    dist_sq_spec(p, center) <= radius * radius
}

/// Every entry id is in the denoted map.
proof fn lemma_entries_map_contains(s: Seq<(u64, Vec2I)>, k: int)
    requires
        0 <= k < s.len(),
    ensures
        entries_map(s).contains_key(s[k].0),
    decreases s.len(),
{
    if k == s.len() - 1 {
    } else {
        lemma_entries_map_contains(s.drop_last(), k);
    }
}

/// With distinct ids, an entry's id maps to that entry's position.
proof fn lemma_entries_map_index(s: Seq<(u64, Vec2I)>, k: int)
    requires
        0 <= k < s.len(),
        ids_distinct(s),
    ensures
        entries_map(s).contains_key(s[k].0),
        entries_map(s)[s[k].0] == s[k].1,
    decreases s.len(),
{
    if k == s.len() - 1 {
    } else {
        assert(ids_distinct(s.drop_last()));
        lemma_entries_map_index(s.drop_last(), k);
        assert(s.last().0 != s[k].0);
    }
}

/// Every id in the denoted map comes from some entry.
proof fn lemma_entries_map_origin(s: Seq<(u64, Vec2I)>, id: u64)
    requires
        entries_map(s).contains_key(id),
    ensures
        exists|k: int| 0 <= k < s.len() && s[k].0 == id,
    decreases s.len(),
{
    if s.len() > 0 {
        if s.last().0 == id {
            assert(s[s.len() - 1].0 == id);
        } else {
            lemma_entries_map_origin(s.drop_last(), id);
            let k = choose|k: int| 0 <= k < s.drop_last().len() && s.drop_last()[k].0 == id;
            assert(s[k].0 == id);
        }
    }
}

/// With distinct ids, an id occurs at most once.
proof fn lemma_id_count_distinct(s: Seq<(u64, Vec2I)>, id: u64)
    requires
        ids_distinct(s),
    ensures
        id_count(s, id) <= 1,
        id_count(s, id) == 1 <==> entries_map(s).contains_key(id),
    decreases s.len(),
{
    if s.len() > 0 {
        assert(ids_distinct(s.drop_last()));
        lemma_id_count_distinct(s.drop_last(), id);
        if s.last().0 == id {
            if entries_map(s.drop_last()).contains_key(id) {
                lemma_entries_map_origin(s.drop_last(), id);
                let k = choose|k: int|
                    0 <= k < s.drop_last().len() && s.drop_last()[k].0 == id;
                assert(s[k].0 == id && s[s.len() - 1].0 == id);
            }
        }
    }
}

/// Replacing the entry that carries `id` updates the denoted map at `id`.
proof fn lemma_entries_map_update(s: Seq<(u64, Vec2I)>, k: int, p: Vec2I)
    requires
        0 <= k < s.len(),
        ids_distinct(s),
    ensures
        entries_map(s.update(k, (s[k].0, p))) == entries_map(s).insert(s[k].0, p),
    decreases s.len(),
{
    let id = s[k].0;
    let t = s.update(k, (id, p));
    if k == s.len() - 1 {
        assert(t.drop_last() =~= s.drop_last());
        assert(entries_map(t) == entries_map(s.drop_last()).insert(id, p));
        assert(entries_map(s).insert(id, p) =~= entries_map(s.drop_last()).insert(id, p));
    } else {
        assert(ids_distinct(s.drop_last()));
        assert(t.drop_last() =~= s.drop_last().update(k, (id, p)));
        lemma_entries_map_update(s.drop_last(), k, p);
        assert(s.last().0 != id);
        assert(entries_map(t) == entries_map(s.drop_last()).insert(id, p).insert(
            s.last().0,
            s.last().1,
        ));
        assert(entries_map(s.drop_last()).insert(id, p).insert(s.last().0, s.last().1)
            =~= entries_map(s).insert(id, p));
    }
}

/// Bucketless spatial index: a set of (entity id, plane position)
/// entries with at most one entry per id, queried by exact Euclidean
/// radius.
pub struct WolfGrid {
    entries: Vec<(u64, Vec2I)>,
}

impl View for WolfGrid {
    type V = Map<u64, Vec2I>;

    closed spec fn view(&self) -> Map<u64, Vec2I> {
        entries_map(self.entries@)
    }
}

impl WolfGrid {
    /// One entry per id, and every stored position within the world
    /// bound the geometric routines accept.
    pub closed spec fn wf(self) -> bool {
        ids_distinct(self.entries@) && forall|k: int|
            0 <= k < self.entries@.len() ==> (#[trigger] self.entries@[k]).1.in_world()
    }

    /// How often `id` is physically stored; under `wf` this is 0 or 1.
    pub closed spec fn stored_count(self, id: u64) -> nat {
        id_count(self.entries@, id)
    }

    /// Every position a well-formed grid holds is in-world.
    pub proof fn lemma_wf_positions(self, id: u64)
        requires
            self.wf(),
            self@.contains_key(id),
        ensures
            self@[id].in_world(),
    {
        lemma_entries_map_origin(self.entries@, id);
        let k = choose|k: int| 0 <= k < self.entries@.len() && self.entries@[k].0 == id;
        lemma_entries_map_index(self.entries@, k);
    }

    /// An empty index.
    pub fn new() -> (r: WolfGrid)
        ensures
            r.wf(),
            r@ == Map::<u64, Vec2I>::empty(),
    {
        WolfGrid { entries: Vec::new() }
    }

    /// Empties the index; called once per tick before the rebuild.
    pub fn clear(&mut self)
        ensures
            final(self).wf(),
            final(self)@ == Map::<u64, Vec2I>::empty(),
    {
        self.entries.clear();
    }

    /// Removes any prior entry for `entity`, then records it at `pos`:
    /// afterwards exactly one entry exists for `entity`, at `pos`.
    /// Replacing a missing entity is plain insertion.
    pub fn insert_or_replace(&mut self, entity: u64, pos: Vec2I)
        requires
            old(self).wf(),
            pos.in_world(),
        ensures
            final(self).wf(),
            final(self)@ == old(self)@.insert(entity, pos),
            final(self).stored_count(entity) == 1,
    {
        let n = self.entries.len();
        let mut i: usize = 0;
        while i < n
            invariant
                *self == *old(self),
                self.wf(),
                pos.in_world(),
                n == self.entries@.len(),
                i <= n,
                forall|k: int| 0 <= k < i ==> self.entries@[k].0 != entity,
            decreases n - i,
        {
            if self.entries[i].0 == entity {
                proof {
                    lemma_entries_map_update(self.entries@, i as int, pos);
                    lemma_id_count_distinct(
                        self.entries@.update(i as int, (entity, pos)),
                        entity,
                    );
                    lemma_entries_map_contains(
                        self.entries@.update(i as int, (entity, pos)),
                        i as int,
                    );
                }
                self.entries[i] = (entity, pos);
                return ;
            }
            i += 1;
        }
        proof {
            let s = self.entries@;
            let t = s.push((entity, pos));
            assert(t.drop_last() =~= s);
            assert(forall|k: int| 0 <= k < s.len() ==> t[k] == s[k]);
            assert(ids_distinct(t));
            lemma_id_count_distinct(t, entity);
            lemma_entries_map_contains(t, s.len() as int);
        }
        self.entries.push((entity, pos));
    }

    /// Returns every entry whose position lies within `radius` of
    /// `pos`, Euclidean and boundary included, each id at most once.
    pub fn query_around(&self, pos: Vec2I, radius: i64) -> (r: Vec<(u64, Vec2I)>)
        requires
            self.wf(),
            pos.in_world(),
            0 <= radius <= WORLD_LIMIT,
        ensures
            forall|k: int| 0 <= k < r@.len() ==> {
                &&& self@.contains_key((#[trigger] r@[k]).0)
                &&& self@[r@[k].0] == r@[k].1
                &&& in_radius(r@[k].1, pos, radius)
            },
            forall|id: u64|
                self@.contains_key(id) && in_radius(self@[id], pos, radius)
                    ==> exists|k: int| 0 <= k < r@.len() && r@[k] == (id, self@[id]),
            ids_distinct(r@),
    {
        let n = self.entries.len();
        let mut r: Vec<(u64, Vec2I)> = Vec::new();
        let mut i: usize = 0;
        proof {
            assert(radius * radius <= WORLD_LIMIT * WORLD_LIMIT) by (nonlinear_arith)
                requires
                    0 <= radius <= WORLD_LIMIT,
            ;
        }
        while i < n
            invariant
                self.wf(),
                pos.in_world(),
                0 <= radius <= WORLD_LIMIT,
                radius * radius <= WORLD_LIMIT * WORLD_LIMIT,
                n == self.entries@.len(),
                i <= n,
                forall|k: int| 0 <= k < r@.len() ==> {
                    &&& self@.contains_key((#[trigger] r@[k]).0)
                    &&& self@[r@[k].0] == r@[k].1
                    &&& in_radius(r@[k].1, pos, radius)
                },
                forall|j: int|
                    0 <= j < i && in_radius((#[trigger] self.entries@[j]).1, pos, radius)
                        ==> exists|k: int| 0 <= k < r@.len() && r@[k] == self.entries@[j],
                ids_distinct(r@),
                forall|k: int, j: int|
                    0 <= k < r@.len() && i <= j < n
                        ==> (#[trigger] r@[k]).0 != (#[trigger] self.entries@[j]).0,
            decreases n - i,
        {
            let (id, p) = self.entries[i];
            proof {
                lemma_entries_map_index(self.entries@, i as int);
            }
            if dist_sq(p, pos) <= radius * radius {
                let ghost r0 = r@;
                r.push((id, p));
                proof {
                    assert(r@[r0.len() as int] == self.entries@[i as int]);
                    assert forall|j: int|
                        0 <= j < i + 1 && in_radius(
                            (#[trigger] self.entries@[j]).1,
                            pos,
                            radius,
                        ) implies exists|k: int|
                        0 <= k < r@.len() && r@[k] == self.entries@[j] by {
                        if j < i {
                            let k = choose|k: int|
                                0 <= k < r0.len() && r0[k] == self.entries@[j];
                            assert(r@[k] == self.entries@[j]);
                        } else {
                            assert(r@[r0.len() as int] == self.entries@[j]);
                        }
                    };
                }
            }
            i += 1;
        }
        proof {
            assert forall|id: u64|
                self@.contains_key(id) && in_radius(self@[id], pos, radius)
                    implies exists|k: int| 0 <= k < r@.len() && r@[k] == (id, self@[id]) by {
                lemma_entries_map_origin(self.entries@, id);
                let j = choose|j: int|
                    0 <= j < self.entries@.len() && self.entries@[j].0 == id;
                lemma_entries_map_index(self.entries@, j);
                assert(self.entries@[j] == (id, self@[id]));
            }
        }
        r
    }
}

/// Two consecutive writes of one entity leave exactly the later
/// position: over the index model, replacing is the same as never
/// having written the earlier position.
pub proof fn lemma_insert_or_replace_last_wins(m: Map<u64, Vec2I>, e: u64, p: Vec2I, p2: Vec2I)
    ensures
        m.insert(e, p).insert(e, p2) == m.insert(e, p2),
{
    assert(m.insert(e, p).insert(e, p2) =~= m.insert(e, p2));
}

/// A query centered exactly on a stored position always reaches it:
/// the center lies within every nonnegative radius, boundary
/// included.
pub proof fn lemma_center_in_radius(p: Vec2I, radius: i64)
    requires
        0 <= radius,
    ensures
        in_radius(p, p, radius),
{
    assert(0 <= radius * radius) by (nonlinear_arith)
        requires
            0 <= radius,
    ;
}

} // verus!
