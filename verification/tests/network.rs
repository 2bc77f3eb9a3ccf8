use factermio_core::{
    clamp, try_build, try_move_player, try_place_coal, try_rotate_belt, BuildingKind,
    ConveyorNetwork, Direction, Foreground, GridIndex, MoveResources, PaletteColor, Position,
    Renderable, Resource, ResourceMover, State,
};

fn belt_hint() -> Renderable {
    Renderable {
        glyph: b'v',
        fg: PaletteColor::Yellow,
        bg: PaletteColor::DarkGrey,
    }
}

fn belt(direction: Direction, payload: Option<Resource>) -> ResourceMover {
    ResourceMover { direction, payload }
}

#[test]
fn position_validity_edges() {
    assert!(Position { x: 0, y: 0 }.valid());
    assert!(Position { x: 79, y: 49 }.valid());
    assert!(!Position { x: 80, y: 0 }.valid());
    assert!(!Position { x: 0, y: 50 }.valid());
    assert!(!Position { x: -1, y: 10 }.valid());
    assert!(!Position { x: 10, y: -1 }.valid());
}

#[test]
fn xy_idx_is_row_major() {
    assert_eq!(GridIndex::xy_idx(0, 0), 0);
    assert_eq!(GridIndex::xy_idx(79, 0), 79);
    assert_eq!(GridIndex::xy_idx(0, 1), 80);
    assert_eq!(GridIndex::xy_idx(10, 19), 19 * 80 + 10);
    assert_eq!(GridIndex::xy_idx(79, 49), 3999);
}

#[test]
fn grid_index_default_is_empty() {
    let grid = GridIndex::default();
    assert_eq!(grid.buildings.len(), 4000);
    assert!(grid.buildings.iter().all(|b| b.is_none()));
}

#[test]
fn clamp_picks_nearest_bound() {
    assert_eq!(clamp(5, 0, 10), 5);
    assert_eq!(clamp(-3, 0, 10), 0);
    assert_eq!(clamp(42, 0, 10), 10);
    assert_eq!(clamp(0, 0, 10), 0);
    assert_eq!(clamp(10, 0, 10), 10);
}

#[test]
fn rotate_cycles_clockwise() {
    assert_eq!(Direction::Up.rotate(), Direction::Right);
    assert_eq!(Direction::Right.rotate(), Direction::Down);
    assert_eq!(Direction::Down.rotate(), Direction::Left);
    assert_eq!(Direction::Left.rotate(), Direction::Up);
}

#[test]
fn default_mover_is_empty_and_feeds_right() {
    let mover = ResourceMover::default();
    assert_eq!(mover.direction, Direction::Right);
    assert!(mover.payload.is_none());
}

#[test]
fn foreground_of_resource_is_coal_glyph() {
    let fg = Foreground::from_resource(Resource::Coal);
    assert_eq!(fg.glyph, b'c');
    assert_eq!(fg.color, PaletteColor::Black);
}

#[test]
fn foreground_of_mover_shows_token_over_arrow() {
    let empty = belt(Direction::Left, None);
    let fg = Foreground::from_mover(&empty);
    assert_eq!(fg.glyph, b'<');
    assert_eq!(fg.color, PaletteColor::Yellow);

    let full = belt(Direction::Left, Some(Resource::Coal));
    let fg = Foreground::from_mover(&full);
    assert_eq!(fg.glyph, b'c');
    assert_eq!(fg.color, PaletteColor::Black);
}

#[test]
fn merge_foreground_keeps_background() {
    let mut hint = belt_hint();
    hint.merge_foreground(Foreground::from_resource(Resource::Coal));
    assert_eq!(hint.glyph, b'c');
    assert_eq!(hint.fg, PaletteColor::Black);
    assert_eq!(hint.bg, PaletteColor::DarkGrey);
}

#[test]
fn get_off_grid_is_empty_ground() {
    let net = ConveyorNetwork::new();
    assert!(net.get(Position { x: -1, y: 0 }).is_none());
    assert!(net.get(Position { x: 0, y: 50 }).is_none());
    assert!(net.get(Position { x: 3, y: 7 }).is_none());
    assert!(net.hint(Position { x: 3, y: 7 }).is_none());
}

#[test]
fn insert_if_absent_rejects_occupied_cell() {
    let mut net = ConveyorNetwork::new();
    let p = Position { x: 4, y: 9 };
    assert!(net.insert_if_absent(p, belt(Direction::Left, Some(Resource::Coal)), belt_hint()));

    // The second build request fails and has zero observable effect.
    let rejected = net.insert_if_absent(p, belt(Direction::Up, None), belt_hint());
    assert!(!rejected);
    let seg = net.get(p).unwrap();
    assert_eq!(seg.direction, Direction::Left);
    assert_eq!(seg.payload, Some(Resource::Coal));
}

#[test]
fn insert_if_absent_rejects_off_grid() {
    let mut net = ConveyorNetwork::new();
    assert!(!net.insert_if_absent(
        Position { x: 80, y: 0 },
        belt(Direction::Down, None),
        belt_hint()
    ));
}

#[test]
fn set_direction_on_empty_ground_is_a_no_op() {
    let mut net = ConveyorNetwork::new();
    net.set_direction(Position { x: 1, y: 1 }, Direction::Up);
    assert!(net.get(Position { x: 1, y: 1 }).is_none());
    assert_eq!(net.token_count(), 0);
}

#[test]
fn set_direction_updates_segment_and_hint() {
    let mut net = ConveyorNetwork::new();
    let p = Position { x: 2, y: 3 };
    net.insert_if_absent(p, belt(Direction::Down, None), belt_hint());
    net.set_direction(p, Direction::Right);
    let seg = net.get(p).unwrap();
    assert_eq!(seg.direction, Direction::Right);
    assert!(seg.payload.is_none());
    let hint = net.hint(p).unwrap();
    assert_eq!(hint.glyph, b'>');
    assert_eq!(hint.fg, PaletteColor::Yellow);
    assert_eq!(hint.bg, PaletteColor::DarkGrey);
}

#[test]
fn place_resource_fills_only_an_empty_segment() {
    let mut net = ConveyorNetwork::new();
    let p = Position { x: 6, y: 6 };

    // No segment yet: rejected.
    assert!(!net.place_resource(p, Resource::Coal));

    net.insert_if_absent(p, belt(Direction::Down, None), belt_hint());
    assert!(net.place_resource(p, Resource::Coal));
    assert_eq!(net.token_count(), 1);

    // Already filled: rejected, nothing changes.
    assert!(!net.place_resource(p, Resource::Coal));
    assert_eq!(net.token_count(), 1);

    // The hint now shows the token.
    let hint = net.hint(p).unwrap();
    assert_eq!(hint.glyph, b'c');
    assert_eq!(hint.fg, PaletteColor::Black);
    assert_eq!(hint.bg, PaletteColor::DarkGrey);
}

#[test]
fn token_count_sums_over_all_segments() {
    let mut net = ConveyorNetwork::new();
    assert_eq!(net.token_count(), 0);
    for x in 0..5 {
        let payload = if x % 2 == 0 { Some(Resource::Coal) } else { None };
        net.insert_if_absent(Position { x, y: 0 }, belt(Direction::Right, payload), belt_hint());
    }
    assert_eq!(net.token_count(), 3);
}

#[test]
fn occupied_positions_ascend_in_row_major_order() {
    let mut net = ConveyorNetwork::new();
    // Inserted out of order; iteration order must be row-major anyway.
    net.insert_if_absent(Position { x: 2, y: 5 }, belt(Direction::Down, None), belt_hint());
    net.insert_if_absent(Position { x: 7, y: 1 }, belt(Direction::Down, None), belt_hint());
    net.insert_if_absent(Position { x: 0, y: 5 }, belt(Direction::Down, None), belt_hint());
    let occupied = net.occupied_positions();
    assert_eq!(
        occupied,
        vec![
            Position { x: 7, y: 1 },
            Position { x: 0, y: 5 },
            Position { x: 2, y: 5 },
        ]
    );
}

#[test]
fn scheduler_constructors() {
    assert_eq!(MoveResources::default().due_at(), 0);
    assert_eq!(MoveResources::new(1234).due_at(), 1234);
}

#[test]
fn state_default_is_an_empty_world() {
    let state = State::default();
    assert_eq!(state.player, Position { x: 0, y: 0 });
    assert_eq!(state.network.token_count(), 0);
    assert_eq!(state.due_at(), 0);
    assert!(state.network.get(Position { x: 40, y: 25 }).is_none());
}

#[test]
fn move_player_clamps_to_grid() {
    let mut state = State::default();
    try_move_player(-1, -1, &mut state);
    assert_eq!(state.player, Position { x: 0, y: 0 });
    try_move_player(5, 3, &mut state);
    assert_eq!(state.player, Position { x: 5, y: 3 });
    try_move_player(1000, 1000, &mut state);
    assert_eq!(state.player, Position { x: 79, y: 49 });
}

#[test]
fn build_request_places_an_empty_down_belt() {
    let mut state = State::default();
    try_move_player(10, 19, &mut state);
    try_build(&mut state, BuildingKind::Belt);
    let seg = state.network.get(Position { x: 10, y: 19 }).unwrap();
    assert_eq!(seg.direction, Direction::Down);
    assert!(seg.payload.is_none());
    let hint = state.network.hint(Position { x: 10, y: 19 }).unwrap();
    assert_eq!(hint.glyph, b'v');
    assert_eq!(hint.fg, PaletteColor::Yellow);
    assert_eq!(hint.bg, PaletteColor::DarkGrey);
}

#[test]
fn build_request_on_occupied_cell_changes_nothing() {
    let mut state = State::default();
    try_build(&mut state, BuildingKind::Belt);
    try_rotate_belt(&mut state);
    try_place_coal(&mut state);

    // Building again (even another kind) is silently rejected.
    try_build(&mut state, BuildingKind::Extractor);
    let seg = state.network.get(Position { x: 0, y: 0 }).unwrap();
    assert_eq!(seg.direction, Direction::Left);
    assert_eq!(seg.payload, Some(Resource::Coal));
    let hint = state.network.hint(Position { x: 0, y: 0 }).unwrap();
    assert_eq!(hint.bg, PaletteColor::DarkGrey);
}

#[test]
fn extractor_uses_its_own_palette() {
    let mut state = State::default();
    try_build(&mut state, BuildingKind::Extractor);
    let hint = state.network.hint(Position { x: 0, y: 0 }).unwrap();
    assert_eq!(hint.glyph, b'v');
    assert_eq!(hint.fg, PaletteColor::Red);
    assert_eq!(hint.bg, PaletteColor::Grey30);
}

#[test]
fn rotate_request_on_empty_ground_is_a_no_op() {
    let mut state = State::default();
    try_rotate_belt(&mut state);
    assert!(state.network.get(Position { x: 0, y: 0 }).is_none());
}

#[test]
fn run_systems_drives_the_network_through_the_state() {
    let mut state = State::default();
    try_build(&mut state, BuildingKind::Belt);
    try_place_coal(&mut state);
    try_move_player(0, 1, &mut state);
    try_build(&mut state, BuildingKind::Belt);

    state.run_systems(0);
    assert!(state
        .network
        .get(Position { x: 0, y: 0 })
        .unwrap()
        .payload
        .is_none());
    assert_eq!(
        state.network.get(Position { x: 0, y: 1 }).unwrap().payload,
        Some(Resource::Coal)
    );
    assert_eq!(state.due_at(), 500);

    // A poll before the due time changes nothing.
    state.run_systems(499);
    assert_eq!(
        state.network.get(Position { x: 0, y: 1 }).unwrap().payload,
        Some(Resource::Coal)
    );
    assert_eq!(state.due_at(), 500);
}

#[test]
fn place_coal_request_rejected_when_filled() {
    let mut state = State::default();
    try_build(&mut state, BuildingKind::Belt);
    try_place_coal(&mut state);
    assert_eq!(state.network.token_count(), 1);
    try_place_coal(&mut state);
    assert_eq!(state.network.token_count(), 1);
}
