//! The conveyor network: the authoritative sparse mapping from grid
//! coordinate to conveyor segment, with a render hint kept beside every
//! segment. At most one segment exists per coordinate; a coordinate absent
//! from the mapping is empty ground and can never hold a token.

use vstd::prelude::*;

use crate::grid::{cell_index, GridIndex, Position, Direction, GRID_CELLS, MAP_WIDTH};
use crate::render::{Foreground, Renderable};

verus! {

/// The one kind of resource in scope; the engine only cares about
/// presence or absence of a token.
#[derive(Clone, Copy, PartialEq, Eq, Structural, Debug)]
#[non_exhaustive]
pub enum Resource {
    Coal,
}

/// A conveyor segment: the direction it feeds toward and the token it
/// carries, if any.
#[derive(Clone, Copy, Debug)]
pub struct ResourceMover {
    pub direction: Direction,
    pub payload: Option<Resource>,
}

impl Default for ResourceMover {
    /// An empty segment feeding right.
    fn default() -> (r: Self)
        ensures
            r.direction == Direction::Right,
            r.payload is None,
    {
        Self { direction: Direction::Right, payload: None }
    }
}

/// Contribution of one cell to the network's token count.
pub open spec fn cell_token(cell: Option<ResourceMover>) -> nat {
    if cell is Some && cell.unwrap().payload is Some {
        1
    } else {
        0
    }
}

/// Number of tokens held across a sequence of cells.
pub open spec fn token_count_seq(s: Seq<Option<ResourceMover>>) -> nat
    decreases s.len(),
{
    if s.len() == 0 {
        0
    } else {
        token_count_seq(s.drop_last()) + cell_token(s.last())
    }
}

/// The authoritative store: a segment and a render hint per occupied cell,
/// in two parallel dense arrays indexed by the row-major cell index. All
/// mutation goes through the dedicated operations below, each of which
/// keeps the two arrays in step; there is no raw mutable access.
#[derive(Debug)]
pub struct ConveyorNetwork {
    movers: Vec<Option<ResourceMover>>,
    hints: Vec<Option<Renderable>>,
}

impl ConveyorNetwork {
    /// The segment of each cell, by cell index.
    pub closed spec fn segments(self) -> Seq<Option<ResourceMover>> {
        self.movers@
    }

    /// The render hint of each cell, by cell index.
    pub closed spec fn render_hints(self) -> Seq<Option<Renderable>> {
        self.hints@
    }

    /// Both arrays span the whole grid, and a cell has a hint exactly when
    /// it has a segment.
    pub open spec fn wf(self) -> bool {
        &&& self.segments().len() == GRID_CELLS
        &&& self.render_hints().len() == GRID_CELLS
        &&& forall|i: int|
            0 <= i < GRID_CELLS ==> (self.segments()[i] is Some <==> self.render_hints()[i]
                is Some)
    }

    /// An entirely empty network.
    pub fn new() -> (r: Self)
        ensures
            r.wf(),
            forall|i: int| 0 <= i < GRID_CELLS ==> r.segments()[i] is None,
    {
        let mut movers: Vec<Option<ResourceMover>> = Vec::new();
        let mut hints: Vec<Option<Renderable>> = Vec::new();
        while movers.len() < GRID_CELLS
            invariant
                movers@.len() == hints@.len() <= GRID_CELLS,
                forall|i: int| 0 <= i < movers@.len() ==> movers@[i] is None,
                forall|i: int| 0 <= i < hints@.len() ==> hints@[i] is None,
            decreases GRID_CELLS - movers@.len(),
        {
            movers.push(None);
            hints.push(None);
        }
        ConveyorNetwork { movers, hints }
    }

    /// The segment at `p`: `None` off the grid and on empty ground.
    pub open spec fn spec_get(self, p: Position) -> Option<ResourceMover> {
        if p.spec_valid() {
            self.segments()[cell_index(p)]
        } else {
            None
        }
    }

    /// Look up the segment at a coordinate.
    pub fn get(&self, p: Position) -> (r: Option<ResourceMover>)
        requires
            self.wf(),
        ensures
            r == self.spec_get(p),
    {
        if !p.valid() {
            return None;
        }
        proof {
            crate::grid::lemma_cell_index_bijective(p);
        }
        let idx = GridIndex::xy_idx(p.x, p.y) as usize;
        self.movers[idx]
    }

    /// The render hint at `p`: `None` off the grid and on empty ground.
    pub open spec fn spec_hint(self, p: Position) -> Option<Renderable> {
        if p.spec_valid() {
            self.render_hints()[cell_index(p)]
        } else {
            None
        }
    }

    /// Look up the render hint at a coordinate.
    pub fn hint(&self, p: Position) -> (r: Option<Renderable>)
        requires
            self.wf(),
        ensures
            r == self.spec_hint(p),
    {
        if !p.valid() {
            return None;
        }
        proof {
            crate::grid::lemma_cell_index_bijective(p);
        }
        let idx = GridIndex::xy_idx(p.x, p.y) as usize;
        self.hints[idx]
    }

    /// Create a segment at `p` unless the coordinate is off the grid or
    /// already occupied; a rejected request has no effect.
    pub fn insert_if_absent(&mut self, p: Position, segment: ResourceMover, hint: Renderable) -> (ok:
        bool)
        requires
            old(self).wf(),
        ensures
            final(self).wf(),
            ok == (p.spec_valid() && old(self).segments()[cell_index(p)] is None),
            ok ==> final(self).segments() == old(self).segments().update(
                cell_index(p),
                Some(segment),
            ) && final(self).render_hints() == old(self).render_hints().update(cell_index(p), Some(hint)),
            !ok ==> *final(self) == *old(self),
    {
        if !p.valid() {
            return false;
        }
        proof {
            crate::grid::lemma_cell_index_bijective(p);
        }
        let idx = GridIndex::xy_idx(p.x, p.y) as usize;
        if self.movers[idx].is_some() {
            return false;
        }
        self.movers.set(idx, Some(segment));
        self.hints.set(idx, Some(hint));
        true
    }

    /// Point the segment at `p` toward `direction` and recompute its render
    /// hint; a request on empty ground or off the grid has no effect.
    pub fn set_direction(&mut self, p: Position, direction: Direction)
        requires
            old(self).wf(),
        ensures
            final(self).wf(),
            !(p.spec_valid() && old(self).segments()[cell_index(p)] is Some) ==> *final(self)
                == *old(self),
            p.spec_valid() && old(self).segments()[cell_index(p)] is Some ==> ({
                let seg = ResourceMover {
                    direction,
                    payload: old(self).segments()[cell_index(p)].unwrap().payload,
                };
                &&& final(self).segments() == old(self).segments().update(cell_index(p), Some(seg))
                &&& final(self).render_hints() == old(self).render_hints().update(
                    cell_index(p),
                    Some(
                        old(self).render_hints()[cell_index(p)].unwrap().merged(
                            Foreground::of_mover(seg),
                        ),
                    ),
                )
            }),
    {
        if !p.valid() {
            return ;
        }
        proof {
            crate::grid::lemma_cell_index_bijective(p);
        }
        let idx = GridIndex::xy_idx(p.x, p.y) as usize;
        match self.movers[idx] {
            None => {},
            Some(seg) => {
                let updated = ResourceMover { direction, payload: seg.payload };
                let mut h = self.hints[idx].unwrap();
                h.merge_foreground(Foreground::from_mover(&updated));
                self.movers.set(idx, Some(updated));
                self.hints.set(idx, Some(h));
            },
        }
    }

    /// Hand the segment at `p` a token, unless the coordinate is off the
    /// grid, holds no segment, or the segment is already filled; a rejected
    /// request has no effect.
    pub fn place_resource(&mut self, p: Position, resource: Resource) -> (ok: bool)
        requires
            old(self).wf(),
        ensures
            final(self).wf(),
            ok == (p.spec_valid() && old(self).segments()[cell_index(p)] is Some && old(
                self,
            ).segments()[cell_index(p)].unwrap().payload is None),
            ok ==> ({
                let seg = ResourceMover {
                    direction: old(self).segments()[cell_index(p)].unwrap().direction,
                    payload: Some(resource),
                };
                &&& final(self).segments() == old(self).segments().update(cell_index(p), Some(seg))
                &&& final(self).render_hints() == old(self).render_hints().update(
                    cell_index(p),
                    Some(
                        old(self).render_hints()[cell_index(p)].unwrap().merged(
                            Foreground::of_mover(seg),
                        ),
                    ),
                )
            }),
            !ok ==> *final(self) == *old(self),
    {
        if !p.valid() {
            return false;
        }
        proof {
            crate::grid::lemma_cell_index_bijective(p);
        }
        let idx = GridIndex::xy_idx(p.x, p.y) as usize;
        match self.movers[idx] {
            None => false,
            Some(seg) => {
                if seg.payload.is_some() {
                    return false;
                }
                let updated = ResourceMover { direction: seg.direction, payload: Some(resource) };
                let mut h = self.hints[idx].unwrap();
                h.merge_foreground(Foreground::from_mover(&updated));
                self.movers.set(idx, Some(updated));
                self.hints.set(idx, Some(h));
                true
            },
        }
    }

    /// Number of tokens currently on the network.
    pub fn token_count(&self) -> (n: usize)
        requires
            self.wf(),
        ensures
            n == token_count_seq(self.segments()),
    {
        let mut n: usize = 0;
        let mut i: usize = 0;
        while i < GRID_CELLS
            invariant
                self.wf(),
                i <= GRID_CELLS,
                n <= i,
                n == token_count_seq(self.segments().take(i as int)),
            decreases GRID_CELLS - i,
        {
            proof {
                let s = self.segments();
                assert(s.take(i + 1).drop_last() =~= s.take(i as int));
                assert(s.take(i + 1).last() == s[i as int]);
            }
            match self.movers[i] {
                Some(seg) => {
                    if seg.payload.is_some() {
                        n = n + 1;
                    }
                },
                None => {},
            }
            i = i + 1;
        }
        proof {
            assert(self.segments().take(GRID_CELLS as int) =~= self.segments());
        }
        n
    }

    /// Every occupied coordinate, in ascending row-major cell order: the
    /// one stable iteration order, which merge tie-breaks rest on.
    pub fn occupied_positions(&self) -> (r: Vec<Position>)
        requires
            self.wf(),
        ensures
            forall|k: int|
                0 <= k < r@.len() ==> (#[trigger] r@[k]).spec_valid() && self.segments()[cell_index(
                    r@[k],
                )] is Some,
            forall|p: Position|
                p.spec_valid() && self.segments()[#[trigger] cell_index(p)] is Some
                    ==> r@.contains(p),
            forall|k1: int, k2: int|
                0 <= k1 < k2 < r@.len() ==> cell_index(#[trigger] r@[k1]) < cell_index(
                    #[trigger] r@[k2],
                ),
    {
        let mut r: Vec<Position> = Vec::new();
        let mut i: usize = 0;
        while i < GRID_CELLS
            invariant
                self.wf(),
                i <= GRID_CELLS,
                forall|k: int|
                    0 <= k < r@.len() ==> (#[trigger] r@[k]).spec_valid()
                        && self.segments()[cell_index(r@[k])] is Some && cell_index(r@[k]) < i,
                forall|p: Position|
                    p.spec_valid() && (#[trigger] cell_index(p)) < i && self.segments()[cell_index(
                        p,
                    )] is Some ==> r@.contains(p),
                forall|k1: int, k2: int|
                    0 <= k1 < k2 < r@.len() ==> cell_index(#[trigger] r@[k1]) < cell_index(
                        #[trigger] r@[k2],
                    ),
            decreases GRID_CELLS - i,
        {
            let ghost r_prev = r@;
            if self.movers[i].is_some() {
                let x = (i % (MAP_WIDTH as usize)) as i32;
                let y = (i / (MAP_WIDTH as usize)) as i32;
                let here = Position { x, y };
                proof {
                    crate::grid::lemma_position_of_index_valid(i as int);
                    assert(here == crate::grid::position_of_index(i as int));
                    assert(cell_index(here) == i);
                }
                r.push(here);
            }
            proof {
                assert forall|p: Position|
                    p.spec_valid() && (#[trigger] cell_index(p)) < i + 1
                        && self.segments()[cell_index(p)] is Some implies r@.contains(p) by {
                    if cell_index(p) == i {
                        crate::grid::lemma_cell_index_bijective(p);
                        assert(p == crate::grid::position_of_index(i as int));
                        assert(r@[r@.len() - 1] == p);
                    } else {
                        assert(r_prev.contains(p));
                        let kp = choose|k: int| 0 <= k < r_prev.len() && r_prev[k] == p;
                        assert(r@[kp] == p);
                    }
                }
            }
            i = i + 1;
        }
        proof {
            assert forall|p: Position|
                p.spec_valid() && self.segments()[#[trigger] cell_index(p)] is Some implies
                r@.contains(p) by {
                crate::grid::lemma_cell_index_bijective(p);
            }
        }
        r
    }

    /// Read one cell by its row-major index; the engine's traversal works
    /// over cell indices.
    pub(crate) fn cell(&self, i: usize) -> (r: Option<ResourceMover>)
        requires
            self.wf(),
            i < GRID_CELLS,
        ensures
            r == self.segments()[i as int],
    {
        self.movers[i]
    }

    /// Swap the payloads of the segments at cell indices `w` and `e` and
    /// recompute both render hints. This is the engine's transfer step.
    pub(crate) fn transfer(&mut self, w: usize, e: usize)
        requires
            old(self).wf(),
            w < GRID_CELLS,
            e < GRID_CELLS,
            w != e,
            old(self).segments()[w as int] is Some,
            old(self).segments()[e as int] is Some,
        ensures
            final(self).wf(),
            ({
                let sw = old(self).segments()[w as int].unwrap();
                let se = old(self).segments()[e as int].unwrap();
                let nw = ResourceMover { direction: sw.direction, payload: se.payload };
                let ne = ResourceMover { direction: se.direction, payload: sw.payload };
                &&& final(self).segments() == old(self).segments().update(w as int, Some(nw)).update(
                    e as int,
                    Some(ne),
                )
                &&& final(self).render_hints() == old(self).render_hints().update(
                    w as int,
                    Some(
                        old(self).render_hints()[w as int].unwrap().merged(
                            Foreground::of_mover(nw),
                        ),
                    ),
                ).update(
                    e as int,
                    Some(
                        old(self).render_hints()[e as int].unwrap().merged(
                            Foreground::of_mover(ne),
                        ),
                    ),
                )
            }),
    {
        let sw = self.movers[w].unwrap();
        let se = self.movers[e].unwrap();
        let nw = ResourceMover { direction: sw.direction, payload: se.payload };
        let ne = ResourceMover { direction: se.direction, payload: sw.payload };
        let mut hw = self.hints[w].unwrap();
        hw.merge_foreground(Foreground::from_mover(&nw));
        let mut he = self.hints[e].unwrap();
        he.merge_foreground(Foreground::from_mover(&ne));
        self.movers.set(w, Some(nw));
        self.movers.set(e, Some(ne));
        self.hints.set(w, Some(hw));
        self.hints.set(e, Some(he));
    }
}

} // verus!
