use gamecore::grid::entities::{Entity, EntityKind, Player, PlayerClass};
use gamecore::grid::game::{Game, GameError, GAP_LIFE};
use gamecore::grid::game_map::MapIndex;
use gamecore::grid::incremental_value::IncrementalValue;

fn horizontal_class() -> PlayerClass {
    let mut classes = PlayerClass::all_classes();
    classes.remove(0)
}

fn game_with_player_at_origin() -> (Game, u64) {
    let mut g = Game::new();
    g.map.map_size = 5;
    let player = Entity::new(
        MapIndex::new(0, 0),
        EntityKind::Player(Player::new("mover".to_string(), horizontal_class())),
    );
    let pid = g.map.insert_entity(player).expect("player fits on an empty board");
    (g, pid)
}

#[test]
fn horizontal_class_rejects_three_step() {
    let (mut g, pid) = game_with_player_at_origin();
    let r = g.move_player(pid, &MapIndex::new(3, 0), 10_000);
    assert!(matches!(r, Err(GameError::InvalidMovePosition)));
}

#[test]
fn move_onto_orb_absorbs_points() {
    let (mut g, pid) = game_with_player_at_origin();
    let orb = Entity::new(
        MapIndex::new(2, 0),
        EntityKind::PointOrb { points: IncrementalValue::new(10) },
    );
    let orb_id = g.map.insert_entity(orb).expect("orb fits");
    let r = g.move_player(pid, &MapIndex::new(2, 0), 10_000);
    assert!(r.is_ok());
    // The mover gained exactly the orb's points on top of its fifteen.
    let pi = g.map.entity_with_id(pid).expect("mover lives");
    match &g.map.map[pi].1.kind {
        EntityKind::Player(p) => assert_eq!(*p.point_count(), 25),
        _ => panic!("the mover must still be a player"),
    }
    assert_eq!(g.map.map[pi].1.index().x, 2);
    assert_eq!(g.map.map[pi].1.index().y, 0);
    // The orb is destroyed and the vacated cell holds a gap.
    assert!(g.map.entity_with_id(orb_id).is_none());
    let gi = g.map.entity_at(&MapIndex::new(0, 0)).expect("a gap fills the old cell");
    assert!(matches!(g.map.map[gi].1.kind, EntityKind::Gap { .. }));
}

#[test]
fn move_onto_gap_kills_mover() {
    let (mut g, pid) = game_with_player_at_origin();
    let gap = Entity::new(
        MapIndex::new(1, 0),
        EntityKind::Gap { spawner: 999, spawn_time: 5_000 },
    );
    g.map.insert_entity(gap).expect("gap fits");
    // The mover dies whether or not its scattered points happen to block
    // the vacated cell's gap.
    let _ = g.move_player(pid, &MapIndex::new(1, 0), 10_000);
    assert!(g.map.entity_with_id(pid).is_none());
}

#[test]
fn gap_expires_at_exact_lifetime() {
    let mut g = Game::new();
    g.map.map_size = 5;
    let gap = Entity::new(
        MapIndex::new(0, 0),
        EntityKind::Gap { spawner: 1, spawn_time: 1_000 },
    );
    let gid = g.map.insert_entity(gap).expect("gap fits");
    g.update_gaps(1_000 + GAP_LIFE - 1).unwrap();
    assert!(g.map.entity_with_id(gid).is_some());
    g.update_gaps(1_000 + GAP_LIFE).unwrap();
    assert!(g.map.entity_with_id(gid).is_none());
}

#[test]
fn same_cell_and_off_board_moves_are_refused() {
    let (mut g, pid) = game_with_player_at_origin();
    assert!(matches!(
        g.move_player(pid, &MapIndex::new(0, 0), 10_000),
        Err(GameError::SameMovePosition)
    ));
    assert!(matches!(
        g.move_player(pid, &MapIndex::new(0, 99), 10_000),
        Err(GameError::OutOfMap)
    ));
    assert!(matches!(
        g.move_player(12345, &MapIndex::new(1, 0), 10_000),
        Err(GameError::MissingEntity)
    ));
}

#[test]
fn cooldown_blocks_immediate_second_move() {
    let (mut g, pid) = game_with_player_at_origin();
    assert!(g.move_player(pid, &MapIndex::new(1, 0), 10_000).is_ok());
    // Well within the horizontal class's half-second cooldown.
    assert!(matches!(
        g.move_player(pid, &MapIndex::new(2, 0), 10_100),
        Err(GameError::InvalidMovePosition)
    ));
}
