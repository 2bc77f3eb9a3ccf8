//! The owned world state and the externally triggered requests: build,
//! rotate, place a resource, move the agent. Every rejected request is a
//! silent no-op with zero observable effect, so invalid player actions
//! never interrupt the simulation loop.

use vstd::prelude::*;

use crate::engine::{tick_hints, tick_segments, MoveResources, TICK_INTERVAL_MS};
use crate::grid::{
    cell_index, clamp_spec, BuildingKind, Direction, GridIndex, Position, MAP_HEIGHT, MAP_WIDTH,
};
use crate::network::{ConveyorNetwork, Resource, ResourceMover};
use crate::render::{PaletteColor, Renderable, GLYPH_BELT_DOWN};

verus! {

/// Marker for the player-controlled agent.
#[derive(Clone, Copy, PartialEq, Eq, Structural, Debug)]
pub struct Player {}

/// Marker for a cell occupied by a building.
#[derive(Clone, Copy, PartialEq, Eq, Structural, Debug)]
pub struct Building {}

impl Default for Building {
    fn default() -> (r: Self)
        ensures
            r == (Building {  }),
    {
        Self {  }
    }
}

/// A deposit a future extractor could draw from: a resource kind and how
/// much of it remains.
#[derive(Clone, Copy, Debug)]
pub struct ResourceBuffer {
    pub resource: Resource,
    pub remaining: i32,
}

/// The render hint a freshly built segment starts with; the palette is the
/// per-kind lookup table, the initial direction is down for every kind.
pub open spec fn build_hint(kind: BuildingKind) -> Renderable {
    match kind {
        BuildingKind::Belt => Renderable {
            glyph: GLYPH_BELT_DOWN,
            fg: PaletteColor::Yellow,
            bg: PaletteColor::DarkGrey,
        },
        BuildingKind::Extractor => Renderable {
            glyph: GLYPH_BELT_DOWN,
            fg: PaletteColor::Red,
            bg: PaletteColor::Grey30,
        },
    }
}

/// The one authoritative, explicitly owned store: the building grid, the
/// conveyor network with its render hints, the agent's position, and the
/// tick scheduler. Every subsystem receives it by reference; there is no
/// hidden global registration.
pub struct State {
    pub grid: GridIndex,
    pub network: ConveyorNetwork,
    pub player: Position,
    pub move_belt_resources: MoveResources,
}

impl Default for State {
    /// An empty world: no buildings, no segments, the agent at the origin,
    /// the first engine run due immediately.
    fn default() -> (r: Self)
        ensures
            r.wf(),
            forall|i: int|
                0 <= i < crate::grid::GRID_CELLS ==> r.network.segments()[i] is None,
            r.player == (Position { x: 0, y: 0 }),
            r.next_due() == 0,
    {
        Self {
            grid: GridIndex::default(),
            network: ConveyorNetwork::new(),
            player: Position { x: 0, y: 0 },
            move_belt_resources: MoveResources::default(),
        }
    }
}

impl State {
    /// The state's invariant: its network is well formed.
    pub open spec fn wf(self) -> bool {
        self.network.wf()
    }

    /// When the next engine run is due.
    pub open spec fn next_due(self) -> u64 {
        self.move_belt_resources.next_due()
    }

    /// Read the due time.
    pub fn due_at(&self) -> (t: u64)
        ensures
            t == self.next_due(),
    {
        self.move_belt_resources.due_at()
    }

    /// Run the simulation systems once at wall-clock time `now` (in
    /// milliseconds): the propagation engine behind its scheduler gate.
    pub fn run_systems(&mut self, now: u64)
        requires
            old(self).wf(),
            now <= u64::MAX - TICK_INTERVAL_MS,
        ensures
            final(self).wf(),
            final(self).grid == old(self).grid,
            final(self).player == old(self).player,
            now < old(self).next_due() ==> *final(self) == *old(self),
            now >= old(self).next_due() ==> final(self).next_due() == now + TICK_INTERVAL_MS
                && final(self).network.segments() == tick_segments(old(self).network.segments())
                && final(self).network.render_hints() == tick_hints(
                old(self).network.segments(),
                old(self).network.render_hints(),
            ),
    {
        self.move_belt_resources.run(now, &mut self.network);
    }
}

/// Move the agent by one step vector, clamped to the grid.
pub fn try_move_player(delta_x: i32, delta_y: i32, state: &mut State)
    ensures
        final(state).player.x == clamp_spec(
            old(state).player.x + delta_x,
            0,
            MAP_WIDTH - 1,
        ),
        final(state).player.y == clamp_spec(
            old(state).player.y + delta_y,
            0,
            MAP_HEIGHT - 1,
        ),
        final(state).network == old(state).network,
        final(state).grid == old(state).grid,
        final(state).next_due() == old(state).next_due(),
{
    let nx: i64 = state.player.x as i64 + delta_x as i64;
    let ny: i64 = state.player.y as i64 + delta_y as i64;
    let x: i32 = if nx < 0 {
        0
    } else if nx > (MAP_WIDTH - 1) as i64 {
        MAP_WIDTH - 1
    } else {
        nx as i32
    };
    let y: i32 = if ny < 0 {
        0
    } else if ny > (MAP_HEIGHT - 1) as i64 {
        MAP_HEIGHT - 1
    } else {
        ny as i32
    };
    state.player = Position { x, y };
}

/// Build a segment of the given kind at the agent's position: an empty
/// down-feeding segment with the kind's palette. A request on an occupied
/// cell is silently rejected.
pub fn try_build(state: &mut State, building_kind: BuildingKind)
    requires
        old(state).wf(),
    ensures
        final(state).wf(),
        final(state).player == old(state).player,
        final(state).grid == old(state).grid,
        final(state).next_due() == old(state).next_due(),
        ({
            let p = old(state).player;
            let i = cell_index(p);
            let ok = p.spec_valid() && old(state).network.segments()[i] is None;
            &&& ok ==> ({
                &&& final(state).network.segments() == old(state).network.segments().update(
                    i,
                    Some(ResourceMover { direction: Direction::Down, payload: None }),
                )
                &&& final(state).network.render_hints() == old(
                    state,
                ).network.render_hints().update(i, Some(build_hint(building_kind)))
            })
            &&& !ok ==> final(state).network == old(state).network
        }),
{
    let player_position = state.player;
    let segment = ResourceMover { direction: Direction::Down, payload: None };
    let hint = match building_kind {
        BuildingKind::Belt => Renderable {
            glyph: GLYPH_BELT_DOWN,
            fg: PaletteColor::Yellow,
            bg: PaletteColor::DarkGrey,
        },
        BuildingKind::Extractor => Renderable {
            glyph: GLYPH_BELT_DOWN,
            fg: PaletteColor::Red,
            bg: PaletteColor::Grey30,
        },
    };
    state.network.insert_if_absent(player_position, segment, hint);
}

/// Rotate the segment at the agent's position a quarter turn clockwise and
/// recompute its render hint. A request on empty ground is silently
/// rejected.
pub fn try_rotate_belt(state: &mut State)
    requires
        old(state).wf(),
    ensures
        final(state).wf(),
        final(state).player == old(state).player,
        final(state).grid == old(state).grid,
        final(state).next_due() == old(state).next_due(),
        ({
            let p = old(state).player;
            let i = cell_index(p);
            let cell = old(state).network.segments()[i];
            let ok = p.spec_valid() && cell is Some;
            &&& ok ==> ({
                let seg = ResourceMover {
                    direction: cell.unwrap().direction.rotated(),
                    payload: cell.unwrap().payload,
                };
                &&& final(state).network.segments() == old(state).network.segments().update(
                    i,
                    Some(seg),
                )
                &&& final(state).network.render_hints() == old(
                    state,
                ).network.render_hints().update(
                    i,
                    Some(
                        old(state).network.render_hints()[i].unwrap().merged(
                            crate::render::Foreground::of_mover(seg),
                        ),
                    ),
                )
            })
            &&& !ok ==> final(state).network == old(state).network
        }),
{
    let player_position = state.player;
    match state.network.get(player_position) {
        None => {},
        Some(segment) => {
            let turned = segment.direction.rotate();
            state.network.set_direction(player_position, turned);
        },
    }
}

/// Hand the segment at the agent's position a coal token and recompute its
/// render hint. A request on empty ground or on a segment that is already
/// filled is silently rejected.
pub fn try_place_coal(state: &mut State)
    requires
        old(state).wf(),
    ensures
        final(state).wf(),
        final(state).player == old(state).player,
        final(state).grid == old(state).grid,
        final(state).next_due() == old(state).next_due(),
        ({
            let p = old(state).player;
            let i = cell_index(p);
            let cell = old(state).network.segments()[i];
            let ok = p.spec_valid() && cell is Some && cell.unwrap().payload is None;
            &&& ok ==> ({
                let seg = ResourceMover {
                    direction: cell.unwrap().direction,
                    payload: Some(Resource::Coal),
                };
                &&& final(state).network.segments() == old(state).network.segments().update(
                    i,
                    Some(seg),
                )
                &&& final(state).network.render_hints() == old(
                    state,
                ).network.render_hints().update(
                    i,
                    Some(
                        old(state).network.render_hints()[i].unwrap().merged(
                            crate::render::Foreground::of_mover(seg),
                        ),
                    ),
                )
            })
            &&& !ok ==> final(state).network == old(state).network
        }),
{
    let player_position = state.player;
    state.network.place_resource(player_position, Resource::Coal);
}

} // verus!
