use snake_core::GameState;
use snake_core::grid::{Coordinates, Direction, Key};
use snake_core::session::{Session, despawn_game, setup};
use snake_core::tiles::{Tile, TileType, find_tile_at};

fn coords(x: i16, y: i16) -> Coordinates {
    Coordinates { x, y }
}

fn tile_at(session: &Session, x: i16, y: i16) -> Option<Tile> {
    match find_tile_at(&session.tiles, coords(x, y)) {
        Some(j) => Some(session.tiles[j]),
        None => None,
    }
}

#[test]
fn opposite_is_involutive() {
    let all = [Direction::Up, Direction::Down, Direction::Left, Direction::Right];
    for d in all {
        assert_eq!(d.opposite().opposite(), d);
    }
    assert_eq!(Direction::Up.opposite(), Direction::Down);
    assert_eq!(Direction::Left.opposite(), Direction::Right);
}

#[test]
fn keys_map_to_directions() {
    assert_eq!(Direction::new(Key::W), Some(Direction::Up));
    assert_eq!(Direction::new(Key::Up), Some(Direction::Up));
    assert_eq!(Direction::new(Key::A), Some(Direction::Left));
    assert_eq!(Direction::new(Key::Left), Some(Direction::Left));
    assert_eq!(Direction::new(Key::S), Some(Direction::Down));
    assert_eq!(Direction::new(Key::Right), Some(Direction::Down));
    assert_eq!(Direction::new(Key::D), Some(Direction::Right));
    assert_eq!(Direction::new(Key::Down), Some(Direction::Right));
    assert_eq!(Direction::new(Key::Other), None);
}

#[test]
fn change_takes_first_mapped_key() {
    let pressed = vec![Key::Other, Key::S, Key::W];
    assert_eq!(Direction::change(&pressed), Some(Direction::Down));
    let unmapped = vec![Key::Other, Key::Other];
    assert_eq!(Direction::change(&unmapped), None);
    let empty: Vec<Key> = vec![];
    assert_eq!(Direction::change(&empty), None);
}

#[test]
fn setup_places_head_and_empty_tail() {
    let s = setup(10);
    assert_eq!(s.head.position, coords(0, 0));
    assert_eq!(s.head.facing, Direction::Up);
    assert_eq!(s.requested_direction, Direction::Up);
    assert!(s.tail_order.segments.is_empty());
    assert_eq!(s.tiles.len(), 84);
}

#[test]
fn boundary_ring_covers_every_ring_point() {
    let s = setup(10);
    for x in -10i16..=10 {
        for y in -10i16..=10 {
            let on_ring = x == -10 || x == 10 || y == -10 || y == 10;
            let found = tile_at(&s, x, y);
            if on_ring {
                let t = found.expect("ring cell must hold a tile");
                assert_eq!(t.kind, TileType::GameOver);
            } else {
                assert!(found.is_none());
            }
        }
    }
    // the four corner cells are present at least once
    for (x, y) in [(-10, -10), (-10, 10), (10, -10), (10, 10)] {
        assert!(tile_at(&s, x, y).is_some());
    }
}

#[test]
fn ordinary_tick_moves_head_up() {
    let mut s = setup(10);
    let transition = s.process_position();
    assert_eq!(transition, None);
    assert_eq!(s.head.position, coords(0, 1));
    assert_eq!(s.head.facing, Direction::Up);
    assert!(s.tail_order.segments.is_empty());
}

#[test]
fn reverse_request_is_ignored() {
    let mut s = setup(10);
    s.handle_input(&vec![Key::S]);
    assert_eq!(s.requested_direction, Direction::Down);
    let transition = s.process_position();
    assert_eq!(transition, None);
    // facing Up was kept: the head moved up, not down
    assert_eq!(s.head.facing, Direction::Up);
    assert_eq!(s.head.position, coords(0, 1));
}

#[test]
fn sideways_request_turns_the_head() {
    let mut s = setup(10);
    s.handle_input(&vec![Key::D]);
    let transition = s.process_position();
    assert_eq!(transition, None);
    assert_eq!(s.head.facing, Direction::Right);
    assert_eq!(s.head.position, coords(1, 0));
}

#[test]
fn unmapped_keys_leave_request_alone() {
    let mut s = setup(10);
    s.handle_input(&vec![Key::A]);
    assert_eq!(s.requested_direction, Direction::Left);
    s.handle_input(&vec![Key::Other]);
    assert_eq!(s.requested_direction, Direction::Left);
}

#[test]
fn consuming_reward_grows_tail_by_one() {
    let mut s = setup(10);
    s.spawn_reward_at(coords(0, 1));
    let tail_before = s.tail_order.segments.len();
    let transition = s.process_position();
    assert_eq!(transition, None);
    assert_eq!(s.tail_order.segments.len(), tail_before + 1);
    // the new segment sits on the cell the head vacated
    let seg = tile_at(&s, 0, 0).expect("grown segment expected at the vacated cell");
    assert_eq!(seg.kind, TileType::GameOver);
    assert_eq!(seg.id, s.tail_order.segments[0]);
    // the reward tile itself was consumed
    assert!(tile_at(&s, 0, 1).is_none());
    assert_eq!(s.head.position, coords(0, 1));
}

#[test]
fn tail_trails_the_head_positions() {
    let mut s = setup(10);
    // grow to three segments by three rewards straight ahead
    s.spawn_reward_at(coords(0, 1));
    s.spawn_reward_at(coords(0, 2));
    s.spawn_reward_at(coords(0, 3));
    assert_eq!(s.process_position(), None);
    assert_eq!(s.process_position(), None);
    assert_eq!(s.process_position(), None);
    assert_eq!(s.head.position, coords(0, 3));
    assert_eq!(s.tail_order.segments.len(), 3);
    // two ordinary moves; the head history, newest first, is then
    // (-1,3), (0,3), (0,2), ...
    s.handle_input(&vec![Key::A]);
    assert_eq!(s.process_position(), None);
    s.handle_input(&vec![Key::S]);
    assert_eq!(s.process_position(), None);
    assert_eq!(s.head.position, coords(-1, 2));
    let history = [coords(-1, 3), coords(0, 3), coords(0, 2)];
    for (i, seg_id) in s.tail_order.segments.iter().enumerate() {
        let j = snake_core::tiles::find_tile_index_by_id(&s.tiles, *seg_id)
            .expect("segment tile expected");
        assert_eq!(s.tiles[j].coordinates, history[i]);
    }
}

#[test]
fn hitting_the_wall_signals_menu_once() {
    let mut s = setup(1);
    let transition = s.process_position();
    assert_eq!(transition, Some(GameState::Menu));
    // the registry is left alone; teardown follows externally
    assert_eq!(s.tiles.len(), 12);
    assert!(s.tail_order.segments.is_empty());
}

#[test]
fn hitting_own_tail_signals_menu() {
    let mut s = setup(10);
    s.spawn_reward_at(coords(0, 1));
    s.spawn_reward_at(coords(0, 2));
    s.spawn_reward_at(coords(0, 3));
    assert_eq!(s.process_position(), None);
    assert_eq!(s.process_position(), None);
    assert_eq!(s.process_position(), None);
    // circle back into the segment that still occupies (0,2)
    s.handle_input(&vec![Key::A]);
    assert_eq!(s.process_position(), None);
    s.handle_input(&vec![Key::S]);
    assert_eq!(s.process_position(), None);
    s.handle_input(&vec![Key::D]);
    let transition = s.process_position();
    assert_eq!(transition, Some(GameState::Menu));
    assert_eq!(s.head.position, coords(0, 2));
}

#[test]
fn spawned_reward_lies_in_the_interior() {
    let mut s = setup(10);
    let before = s.tiles.len();
    s.spawn_rewards();
    assert_eq!(s.tiles.len(), before + 1);
    let t = *s.tiles.last().expect("a reward tile was appended");
    assert_eq!(t.kind, TileType::Reward);
    assert!(-10 < t.coordinates.x && t.coordinates.x < 10);
    assert!(-10 < t.coordinates.y && t.coordinates.y < 10);
    // an unconsumed reward is left in place when the timer fires again
    s.spawn_rewards();
    assert_eq!(s.tiles.len(), before + 2);
    let again = *s.tiles.last().expect("a second reward tile was appended");
    assert_ne!(t.id, again.id);
}

#[test]
fn registry_append_and_remove() {
    let mut s = setup(10);
    let before = s.tiles.len();
    let id = s.append_boundary_tile(coords(3, 3));
    assert_eq!(s.tiles.len(), before + 1);
    let t = tile_at(&s, 3, 3).expect("appended tile expected");
    assert_eq!(t.kind, TileType::GameOver);
    assert_eq!(t.id, id);
    assert!(s.remove_tile(id));
    assert_eq!(s.tiles.len(), before);
    assert!(tile_at(&s, 3, 3).is_none());
    // removing an identifier with no tile reports that nothing was removed
    assert!(!s.remove_tile(id));
}

#[test]
fn teardown_releases_every_entity() {
    let mut s = setup(10);
    s.spawn_rewards();
    s.spawn_reward_at(coords(0, 1));
    assert_eq!(s.process_position(), None);
    let expected: Vec<u64> = s.tiles.iter().map(|t| t.id).collect();
    let released = despawn_game(s);
    assert_eq!(released, expected);
}
