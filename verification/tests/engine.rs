use factermio_core::{
    ConveyorNetwork, Direction, MoveResources, PaletteColor, Position, Renderable, Resource,
    ResourceMover,
};

fn belt_hint() -> Renderable {
    Renderable {
        glyph: b'v',
        fg: PaletteColor::Yellow,
        bg: PaletteColor::DarkGrey,
    }
}

fn belt(direction: Direction, payload: Option<Resource>) -> ResourceMover {
    ResourceMover { direction, payload }
}

fn place(net: &mut ConveyorNetwork, x: i32, y: i32, direction: Direction, payload: Option<Resource>) {
    assert!(net.insert_if_absent(Position { x, y }, belt(direction, payload), belt_hint()));
}

fn payload_at(net: &ConveyorNetwork, x: i32, y: i32) -> Option<Resource> {
    net.get(Position { x, y }).unwrap().payload
}

#[test]
fn end_to_end_token_walks_the_chain() {
    // 80x50 grid; a head with a token at (10,19) and three empty belts
    // below it, all feeding down.
    let mut net = ConveyorNetwork::new();
    place(&mut net, 10, 19, Direction::Down, Some(Resource::Coal));
    place(&mut net, 10, 20, Direction::Down, None);
    place(&mut net, 10, 21, Direction::Down, None);
    place(&mut net, 10, 22, Direction::Down, None);
    let mut scheduler = MoveResources::new(0);

    scheduler.run(0, &mut net);
    assert_eq!(payload_at(&net, 10, 19), None);
    assert_eq!(payload_at(&net, 10, 20), Some(Resource::Coal));
    assert_eq!(payload_at(&net, 10, 21), None);
    assert_eq!(payload_at(&net, 10, 22), None);

    scheduler.run(500, &mut net);
    assert_eq!(payload_at(&net, 10, 20), None);
    assert_eq!(payload_at(&net, 10, 21), Some(Resource::Coal));

    scheduler.run(1000, &mut net);
    assert_eq!(payload_at(&net, 10, 21), None);
    assert_eq!(payload_at(&net, 10, 22), Some(Resource::Coal));
}

#[test]
fn single_hop_bound_moves_the_token_exactly_one_cell() {
    // One tick moves the head's token to the second cell and no further.
    let mut net = ConveyorNetwork::new();
    place(&mut net, 5, 5, Direction::Down, Some(Resource::Coal));
    place(&mut net, 5, 6, Direction::Down, None);
    place(&mut net, 5, 7, Direction::Down, None);
    place(&mut net, 5, 8, Direction::Down, None);
    let mut scheduler = MoveResources::new(0);
    scheduler.run(0, &mut net);
    assert_eq!(payload_at(&net, 5, 5), None);
    assert_eq!(payload_at(&net, 5, 6), Some(Resource::Coal));
    assert_eq!(payload_at(&net, 5, 7), None);
    assert_eq!(payload_at(&net, 5, 8), None);
    assert_eq!(net.token_count(), 1);
}

#[test]
fn scheduler_skips_before_due_time() {
    let mut net = ConveyorNetwork::new();
    place(&mut net, 3, 3, Direction::Down, Some(Resource::Coal));
    place(&mut net, 3, 4, Direction::Down, None);
    let mut scheduler = MoveResources::new(1000);

    // Before the due time: network and due time byte-for-byte unchanged.
    scheduler.run(999, &mut net);
    assert_eq!(payload_at(&net, 3, 3), Some(Resource::Coal));
    assert_eq!(payload_at(&net, 3, 4), None);
    assert_eq!(scheduler.due_at(), 1000);

    // At the due time the engine runs; had the failed poll moved the due
    // time, this run would have been skipped too.
    scheduler.run(1000, &mut net);
    assert_eq!(payload_at(&net, 3, 3), None);
    assert_eq!(payload_at(&net, 3, 4), Some(Resource::Coal));
    assert_eq!(scheduler.due_at(), 1500);
}

#[test]
fn fully_loaded_cycle_is_stable_and_terminates() {
    // A 4-segment loop, every segment holding a token: one tick completes
    // and changes nothing, losing no tokens.
    let mut net = ConveyorNetwork::new();
    place(&mut net, 0, 0, Direction::Right, Some(Resource::Coal));
    place(&mut net, 1, 0, Direction::Down, Some(Resource::Coal));
    place(&mut net, 1, 1, Direction::Left, Some(Resource::Coal));
    place(&mut net, 0, 1, Direction::Up, Some(Resource::Coal));
    let mut scheduler = MoveResources::new(0);
    scheduler.run(0, &mut net);
    assert_eq!(net.token_count(), 4);
    assert_eq!(payload_at(&net, 0, 0), Some(Resource::Coal));
    assert_eq!(payload_at(&net, 1, 0), Some(Resource::Coal));
    assert_eq!(payload_at(&net, 1, 1), Some(Resource::Coal));
    assert_eq!(payload_at(&net, 0, 1), Some(Resource::Coal));
}

#[test]
fn cycle_with_a_gap_rotates_by_one() {
    // The same loop with one empty segment: the gap pulls one token and
    // the count is conserved.
    let mut net = ConveyorNetwork::new();
    place(&mut net, 0, 0, Direction::Right, None);
    place(&mut net, 1, 0, Direction::Down, Some(Resource::Coal));
    place(&mut net, 1, 1, Direction::Left, Some(Resource::Coal));
    place(&mut net, 0, 1, Direction::Up, Some(Resource::Coal));
    let mut scheduler = MoveResources::new(0);
    scheduler.run(0, &mut net);
    assert_eq!(net.token_count(), 3);
    // (0,0) pulled from its sole upstream source (0,1).
    assert_eq!(payload_at(&net, 0, 0), Some(Resource::Coal));
    assert_eq!(payload_at(&net, 0, 1), None);
    assert_eq!(payload_at(&net, 1, 0), Some(Resource::Coal));
    assert_eq!(payload_at(&net, 1, 1), Some(Resource::Coal));
}

#[test]
fn merge_point_first_source_in_order_wins() {
    // (1,0) and (0,1) both feed the empty (0,0); sources are indexed in
    // ascending cell order [(1,0), (0,1)], so (1,0) wins and (0,1) keeps
    // its token.
    let mut net = ConveyorNetwork::new();
    place(&mut net, 0, 0, Direction::Down, None);
    place(&mut net, 1, 0, Direction::Left, Some(Resource::Coal));
    place(&mut net, 0, 1, Direction::Up, Some(Resource::Coal));
    let mut scheduler = MoveResources::new(0);
    scheduler.run(0, &mut net);
    assert_eq!(payload_at(&net, 0, 0), Some(Resource::Coal));
    assert_eq!(payload_at(&net, 1, 0), None);
    assert_eq!(payload_at(&net, 0, 1), Some(Resource::Coal));
    assert_eq!(net.token_count(), 2);
}

#[test]
fn conservation_across_many_ticks() {
    // A long chain with several tokens: every tick conserves the count.
    let mut net = ConveyorNetwork::new();
    for y in 0..30 {
        let payload = if y % 3 == 0 { Some(Resource::Coal) } else { None };
        place(&mut net, 7, y, Direction::Down, payload);
    }
    let before = net.token_count();
    let mut scheduler = MoveResources::new(0);
    for tick in 0..20u64 {
        scheduler.run(tick * 500, &mut net);
        assert_eq!(net.token_count(), before);
    }
}

#[test]
fn dead_end_token_stays_put() {
    // A segment feeding off the bottom edge has no downstream cell; its
    // token never moves and is never lost.
    let mut net = ConveyorNetwork::new();
    place(&mut net, 12, 49, Direction::Down, Some(Resource::Coal));
    let mut scheduler = MoveResources::new(0);
    scheduler.run(0, &mut net);
    assert_eq!(payload_at(&net, 12, 49), Some(Resource::Coal));
    assert_eq!(net.token_count(), 1);
}

#[test]
fn token_does_not_cross_empty_ground() {
    // A filled segment feeding a coordinate with no segment moves nothing.
    let mut net = ConveyorNetwork::new();
    place(&mut net, 20, 20, Direction::Right, Some(Resource::Coal));
    place(&mut net, 22, 20, Direction::Right, None);
    let mut scheduler = MoveResources::new(0);
    scheduler.run(0, &mut net);
    assert_eq!(payload_at(&net, 20, 20), Some(Resource::Coal));
    assert_eq!(payload_at(&net, 22, 20), None);
}

#[test]
fn empty_network_tick_is_harmless() {
    let mut net = ConveyorNetwork::new();
    let mut scheduler = MoveResources::new(0);
    scheduler.run(0, &mut net);
    assert_eq!(net.token_count(), 0);
    assert_eq!(scheduler.due_at(), 500);
}

#[test]
fn tick_recomputes_render_hints_on_both_cells() {
    let mut net = ConveyorNetwork::new();
    place(&mut net, 4, 4, Direction::Down, Some(Resource::Coal));
    place(&mut net, 4, 5, Direction::Down, None);
    let mut scheduler = MoveResources::new(0);
    scheduler.run(0, &mut net);

    // The vacated source shows its arrow again; the receiver shows coal.
    let source_hint = net.hint(Position { x: 4, y: 4 }).unwrap();
    assert_eq!(source_hint.glyph, b'v');
    assert_eq!(source_hint.fg, PaletteColor::Yellow);
    assert_eq!(source_hint.bg, PaletteColor::DarkGrey);
    let target_hint = net.hint(Position { x: 4, y: 5 }).unwrap();
    assert_eq!(target_hint.glyph, b'c');
    assert_eq!(target_hint.fg, PaletteColor::Black);
    assert_eq!(target_hint.bg, PaletteColor::DarkGrey);
}

#[test]
fn missed_intervals_are_skipped_not_queued() {
    // Invocations spaced further apart than the interval run once per
    // invocation; skipped intervals are never replayed.
    let mut net = ConveyorNetwork::new();
    place(&mut net, 9, 10, Direction::Down, Some(Resource::Coal));
    place(&mut net, 9, 11, Direction::Down, None);
    place(&mut net, 9, 12, Direction::Down, None);
    let mut scheduler = MoveResources::new(0);

    // 3000 ms late: still exactly one hop.
    scheduler.run(3000, &mut net);
    assert_eq!(payload_at(&net, 9, 11), Some(Resource::Coal));
    assert_eq!(payload_at(&net, 9, 12), None);
    assert_eq!(scheduler.due_at(), 3500);
}
