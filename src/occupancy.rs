use vstd::prelude::*;
use crate::components::{occupants, occupants_upto, on_layer, EntityState, World};
use crate::grid::{GridCoord, Layer};
use smallvec::SmallVec;

verus! {

/// Identity of an entity: its index in the world store.
pub type EntityId = usize;

/// The ordered ids on one cell, held in a small inline vector.
#[verifier::external_body]
pub struct CellIds {
    v: SmallVec<[EntityId; 4]>,
}

/// The ids that a cell's list holds, in order.
pub uninterp spec fn cell_ids(v: CellIds) -> Seq<EntityId>;

/// Relies on `SmallVec::from_slice`: the new vector holds the slice's items.
#[verifier::external_body]
fn cell_of_one(e: EntityId) -> (r: CellIds)
    ensures
        cell_ids(r) == seq![e],
{
    CellIds { v: SmallVec::from_slice(&[e]) }
}

/// Relies on `SmallVec::push`: appends one item at the end.
#[verifier::external_body]
fn cell_push(c: &mut CellIds, e: EntityId)
    requires
        cell_ids(*old(c)).len() < usize::MAX,
    ensures
        cell_ids(*final(c)) == cell_ids(*old(c)).push(e),
{
    c.v.push(e)
}

/// Relies on `SmallVec::to_vec` (through its slice): copies the items in order.
#[verifier::external_body]
fn cell_to_vec(c: &CellIds) -> (r: Vec<EntityId>)
    ensures
        r@ == cell_ids(*c),
{
    c.v.to_vec()
}

/// The entities present on one cell of one layer.
pub struct CellEntry {
    pub layer: Layer,
    pub coord: GridCoord,
    pub ids: CellIds,
}

/// Per-layer spatial lookup: for each (layer, cell) the ordered list of
/// entities present there. Each (layer, cell) has at most one entry.
pub struct OccupancyIndex {
    cells: Vec<CellEntry>,
}

impl OccupancyIndex {
    /// No two entries share a (layer, cell) key.
    pub closed spec fn wf(&self) -> bool {
        forall|i: int, j: int|
            #![trigger self.cells@[i], self.cells@[j]]
            0 <= i < j < self.cells@.len() ==> !(self.cells@[i].layer == self.cells@[j].layer
                && self.cells@[i].coord == self.cells@[j].coord)
    }

    /// The position of the entry for (layer, cell), if there is one.
    pub closed spec fn slot(&self, layer: Layer, c: GridCoord) -> int {
        choose|i: int| 0 <= i < self.cells@.len() && self.cells@[i].layer == layer && self.cells@[i].coord == c
    }

    pub closed spec fn has_slot(&self, layer: Layer, c: GridCoord) -> bool {
        exists|i: int| 0 <= i < self.cells@.len() && self.cells@[i].layer == layer && self.cells@[i].coord == c
    }

    /// The ordered list of entities on `c` in `layer` (empty when none).
    pub closed spec fn at_spec(&self, layer: Layer, c: GridCoord) -> Seq<EntityId> {
        if self.has_slot(layer, c) {
            cell_ids(self.cells@[self.slot(layer, c)].ids)
        } else {
            Seq::empty()
        }
    }

    /// An index with nothing in it.
    pub fn new() -> (r: OccupancyIndex)
        ensures
            r.wf(),
            forall|l: Layer, c: GridCoord| (#[trigger] r.at_spec(l, c)).len() == 0,
    {
        OccupancyIndex { cells: Vec::new() }
    }

    /// Removes every entry.
    pub fn clear(&mut self)
        ensures
            final(self).wf(),
            forall|l: Layer, c: GridCoord| (#[trigger] final(self).at_spec(l, c)).len() == 0,
    {
        self.cells.clear();
    }

    fn find(&self, layer: Layer, coord: GridCoord) -> (r: Option<usize>)
        requires
            self.wf(),
        ensures
            match r {
                Some(i) => self.has_slot(layer, coord) && i == self.slot(layer, coord) && i < self.cells@.len(),
                None => !self.has_slot(layer, coord),
            },
    {
        let mut i: usize = 0;
        while i < self.cells.len()
            invariant
                i <= self.cells@.len(),
                self.wf(),
                forall|j: int| 0 <= j < i ==> !(self.cells@[j].layer == layer && self.cells@[j].coord == coord),
            decreases self.cells@.len() - i,
        {
            if self.cells[i].layer == layer && self.cells[i].coord == coord {
                assert(self.has_slot(layer, coord));
                let ghost k = self.slot(layer, coord);
                assert(self.cells@[k].layer == layer && self.cells@[k].coord == coord);
                assert(k == i) by {
                    if k > i {
                        let a = self.cells@[i as int];
                        let b = self.cells@[k];
                        assert(a.layer == b.layer && a.coord == b.coord);
                    }
                };
                return Some(i);
            }
            i += 1;
        }
        None
    }

    /// Appends `e` to the list of `coord` in `layer`, keeping insertion order.
    pub fn insert(&mut self, layer: Layer, coord: GridCoord, e: EntityId)
        requires
            old(self).wf(),
            old(self).at_spec(layer, coord).len() < usize::MAX,
        ensures
            final(self).wf(),
            final(self).at_spec(layer, coord) == old(self).at_spec(layer, coord).push(e),
            forall|l: Layer, c: GridCoord|
                !(l == layer && c == coord) ==> #[trigger] final(self).at_spec(l, c) == old(self).at_spec(l, c),
    {
        match self.find(layer, coord) {
            Some(i) => {
                let ghost pre = self.cells@;
                cell_push(&mut self.cells[i].ids, e);
                assert forall|l: Layer, c: GridCoord|
                    !(l == layer && c == coord) implies #[trigger] self.at_spec(l, c) == old(self).at_spec(l, c) by {
                    if old(self).has_slot(l, c) {
                        let k = old(self).slot(l, c);
                        assert(self.cells@[k].layer == l && self.cells@[k].coord == c);
                        assert(self.has_slot(l, c));
                    }
                    if self.has_slot(l, c) {
                        let k = self.slot(l, c);
                        assert(pre[k].layer == l && pre[k].coord == c);
                        assert(old(self).has_slot(l, c));
                    }
                };
                assert(self.cells@[i as int].layer == layer && self.cells@[i as int].coord == coord);
                assert(self.has_slot(layer, coord));
            },
            None => {
                let ghost pre = self.cells@;
                let ids = cell_of_one(e);
                self.cells.push(CellEntry { layer, coord, ids });
                let ghost n = pre.len() as int;
                assert(self.cells@[n].layer == layer && self.cells@[n].coord == coord);
                assert(self.has_slot(layer, coord));
                assert(self.slot(layer, coord) == n);
                assert forall|l: Layer, c: GridCoord|
                    !(l == layer && c == coord) implies #[trigger] self.at_spec(l, c) == old(self).at_spec(l, c) by {
                    if old(self).has_slot(l, c) {
                        let k = old(self).slot(l, c);
                        assert(self.cells@[k].layer == l && self.cells@[k].coord == c);
                        assert(self.has_slot(l, c));
                    }
                    if self.has_slot(l, c) {
                        let k = self.slot(l, c);
                        assert(k != n);
                        assert(pre[k].layer == l && pre[k].coord == c);
                        assert(old(self).has_slot(l, c));
                    }
                };
            },
        }
    }

    /// The entities on `coord` in `layer`, in insertion order (empty when none).
    pub fn at(&self, layer: Layer, coord: GridCoord) -> (r: Vec<EntityId>)
        requires
            self.wf(),
        ensures
            r@ == self.at_spec(layer, coord),
    {
        match self.find(layer, coord) {
            Some(i) => cell_to_vec(&self.cells[i].ids),
            None => Vec::new(),
        }
    }

    /// Whether any entity is on `coord` in `layer`.
    pub fn is_occupied(&self, layer: Layer, coord: GridCoord) -> (r: bool)
        requires
            self.wf(),
        ensures
            r == (self.at_spec(layer, coord).len() > 0),
    {
        let v = self.at(layer, coord);
        v.len() > 0
    }
}

/// The occupant list of the first `n` entities has at most `n` ids, each
/// below `n`, strictly ascending, and holds exactly the ids below `n` whose
/// entity is tagged for `layer` and stands on `c`.
pub proof fn lemma_occupants_upto(es: Seq<EntityState>, n: int, layer: Layer, c: GridCoord)
    requires
        0 <= n <= es.len(),
        es.len() <= usize::MAX,
    ensures
        occupants_upto(es, n, layer, c).len() <= n,
        forall|k: int| 0 <= k < occupants_upto(es, n, layer, c).len() ==> (#[trigger] occupants_upto(es, n, layer, c)[k]) < n,
        forall|a: int, b: int| 0 <= a < b < occupants_upto(es, n, layer, c).len()
            ==> #[trigger] occupants_upto(es, n, layer, c)[a] < #[trigger] occupants_upto(es, n, layer, c)[b],
        forall|id: EntityId| occupants_upto(es, n, layer, c).contains(id)
            <==> (id < n && on_layer(es[id as int], layer) && es[id as int].position.0 == c),
    decreases n,
{
    if n > 0 {
        lemma_occupants_upto(es, n - 1, layer, c);
        let prev = occupants_upto(es, n - 1, layer, c);
        let cur = occupants_upto(es, n, layer, c);
        if on_layer(es[n - 1], layer) && es[n - 1].position.0 == c {
            assert(cur == prev.push((n - 1) as EntityId));
            assert(cur[prev.len() as int] == n - 1);
            assert forall|a: int, b: int| 0 <= a < b < cur.len() implies #[trigger] cur[a] < #[trigger] cur[b] by {
                if b < prev.len() {
                    assert(cur[a] == prev[a] && cur[b] == prev[b]);
                } else {
                    assert(cur[a] == prev[a]);
                }
            };
            assert forall|k: int| 0 <= k < cur.len() implies (#[trigger] cur[k]) < n by {
                if k < prev.len() {
                    assert(cur[k] == prev[k]);
                }
            };
            assert forall|id: EntityId| cur.contains(id)
                <==> (id < n && on_layer(es[id as int], layer) && es[id as int].position.0 == c) by {
                if cur.contains(id) {
                    let k = cur.index_of(id);
                    if k < prev.len() {
                        assert(prev[k] == id);
                        assert(prev.contains(id));
                    } else {
                        assert(id == n - 1);
                    }
                }
                if id < n && on_layer(es[id as int], layer) && es[id as int].position.0 == c {
                    if id == n - 1 {
                        assert(cur[prev.len() as int] == id);
                    } else {
                        assert(prev.contains(id));
                        let k = prev.index_of(id);
                        assert(cur[k] == id);
                    }
                }
            };
        } else {
            assert(cur == prev);
        }
    }
}

/// After a rebuild, every (layer, cell) lists exactly the entities tagged for
/// that layer whose committed position is that cell, in ascending id order.
pub proof fn lemma_occupancy_exact(world: World, layer: Layer, c: GridCoord)
    ensures
        forall|id: EntityId| #[trigger] occupants(world.entities@, layer, c).contains(id)
            <==> (id < world.entities@.len() && on_layer(world.entities@[id as int], layer)
                && world.entities@[id as int].position.0 == c),
        forall|a: int, b: int| 0 <= a < b < occupants(world.entities@, layer, c).len()
            ==> #[trigger] occupants(world.entities@, layer, c)[a] < #[trigger] occupants(world.entities@, layer, c)[b],
{
    assert(world.entities@.len() == world.entities.len());
    lemma_occupants_upto(world.entities@, world.entities@.len() as int, layer, c);
}

/// Clears `occ` and fills it from the committed positions: blocking entities
/// go to the Blockers layer and actors to the Actors layer, in ascending id
/// order.
pub fn rebuild_occupancy(world: &World, occ: &mut OccupancyIndex)
    ensures
        final(occ).wf(),
        forall|l: Layer, c: GridCoord| #[trigger] final(occ).at_spec(l, c) == occupants(world.entities@, l, c),
{
    occ.clear();
    let n = world.entities.len();
    let mut i: usize = 0;
    while i < n
        invariant
            n == world.entities@.len(),
            i <= n,
            occ.wf(),
            forall|l: Layer, c: GridCoord| #[trigger] occ.at_spec(l, c) == occupants_upto(world.entities@, i as int, l, c),
        decreases n - i,
    {
        let e = world.entities[i];
        let pos = e.position.0;
        let ghost es = world.entities@;
        proof {
            lemma_occupants_upto(es, i as int, Layer::Blockers, pos);
            lemma_occupants_upto(es, i as int, Layer::Actors, pos);
        }
        if e.tags.blocking {
            occ.insert(Layer::Blockers, pos, i);
        }
        if e.tags.actor {
            occ.insert(Layer::Actors, pos, i);
        }
        assert forall|l: Layer, c: GridCoord| #[trigger] occ.at_spec(l, c) == occupants_upto(es, i + 1, l, c) by {
            assert(occupants_upto(es, i + 1, l, c) == (if on_layer(es[i as int], l) && es[i as int].position.0 == c {
                occupants_upto(es, i as int, l, c).push(i)
            } else {
                occupants_upto(es, i as int, l, c)
            }));
        };
        i += 1;
    }
}

} // verus!
