use gamecore::entities::player::Player;
use gamecore::game::{Game, GameState};
use gamecore::game_config::{
    CharacterConfig, GameConfig, MapConfig, MapObjectKind, ObjectConfig, PlayerConfig,
    PrefabConfig, PrefabKind, ScoringConfig, StoreConfig,
};
use gamecore::geometry::{Rect, Vector};
use gamecore::network::{ClientEvent, ShootEvent};
use gamecore::wire::WireValue;

fn unit_rect() -> Rect {
    Rect::new(Vector::new(0, 0, 0), Vector::new(1000, 1000, 1000))
}

fn test_config() -> GameConfig {
    GameConfig {
        gravity: 0,
        map_size: 1_000_000,
        view_range: 200_000,
        store: StoreConfig {
            characters: vec![CharacterConfig { id: "basic".to_string(), name: "Basic".to_string() }],
        },
        player: PlayerConfig {
            prop_prefab: "crate".to_string(),
            shoot_pos: Vector::new(0, 0, 0),
            move_speed: 50_000,
            sprint_speed: 100_000,
            prop_stamina_ms: 5_000,
            hunter_stamina_ms: 5_000,
            jump_velocity: 10_000,
            min_shoot_delay_ms: 500,
            ping_delay_min_ms: 1_000,
            ping_delay_base_ms: (5_000, 10_000),
            ping_delay_unit_ms: (10_000, 20_000),
        },
        scoring: ScoringConfig {
            winning_team: 100,
            first: 30,
            second: 20,
            third: 10,
            killed_player: 50,
            hit_shot: 5,
            percent_hit_scale: 100,
            prop_health: 40,
            ping: 2,
            ping_per_unit: 1,
            sleeping_per_second_milli: 1_000,
        },
        prefabs: vec![
            PrefabConfig {
                id: "player:basic".to_string(),
                kind: PrefabKind::Prop,
                health_milli: 3_000,
                asset: None,
                rects: vec![unit_rect()],
                minimap_color: "#ffffff".to_string(),
                minimap_rects: vec![],
            },
            PrefabConfig {
                id: "crate".to_string(),
                kind: PrefabKind::Prop,
                health_milli: 3_000,
                asset: None,
                rects: vec![unit_rect()],
                minimap_color: "#ffffff".to_string(),
                minimap_rects: vec![],
            },
            PrefabConfig {
                id: "wall".to_string(),
                kind: PrefabKind::Fixture,
                health_milli: 3_000,
                asset: None,
                rects: vec![unit_rect()],
                minimap_color: "#888888".to_string(),
                minimap_rects: vec![],
            },
        ],
        maps: vec![(
            "map-a".to_string(),
            MapConfig {
                name: "map-a".to_string(),
                objects: vec![MapObjectKind::Object(ObjectConfig {
                    prefab_id: "wall".to_string(),
                    position: Vector::new(5_000, 0, 0),
                    rotation: 0,
                    spawn_chance_milli: 1_000,
                })],
            },
        )],
    }
}

#[test]
fn shot_hits_the_fixture_ahead() {
    let config = test_config();
    let mut game = Game::new(&config);
    let ci = game.add_client() as usize;
    assert!(game.join_player(0, "hunter".to_string(), "basic".to_string(), &config));
    let _ = ci;
    let pid = game.clients[0].1.player_id.expect("joined");
    // Pin the shooter at the origin facing along the positive x axis.
    let idx = game.world.entity_index_with_id(pid).expect("player exists");
    game.world.entities[idx].body.set_pos(Vector::new(0, 0, 0));
    game.world.entities[idx].set_dir(0);
    game.world.step(0, &config);
    let hit = game
        .perform_shoot(pid, &Vector::new(5_000, 0, 0), 1_000_000, false, &config)
        .expect("a rested hunter may shoot outside hiding");
    let (hit_id, t) = hit.expect("the fixture sits in the ray's path");
    assert_ne!(hit_id, pid);
    // The near face sits at 4.5 units; the direction spans 5 units.
    assert_eq!(t.num as i128 * 5_000, 4_500 * t.den as i128);
    // The shot event starts at the shooter and ends on the face.
    let ev = game.client_events.last().expect("the shot was broadcast");
    match ev {
        ClientEvent::Shoot(ShootEvent { shooter, start, end }) => {
            assert_eq!(*shooter, pid);
            assert_eq!((start.x, start.y, start.z), (0, 0, 0));
            assert_eq!((end.x, end.y, end.z), (4_500, 0, 0));
        }
        _ => panic!("a shot emits a shoot event"),
    }

    // The cooldown refuses a second shot straight away, and only for
    // ordinary players: admins shoot as fast as they like.
    let again = game.perform_shoot(pid, &Vector::new(5_000, 0, 0), 1_000_000, false, &config);
    assert!(matches!(again, Err(gamecore::game::GameError::ShootingTooEarly)));
    let as_admin = game.perform_shoot(pid, &Vector::new(5_000, 0, 0), 1_000_000, true, &config);
    assert!(as_admin.is_ok());
}

#[test]
fn hiding_needs_four_players_and_makes_two_hunters() {
    let config = test_config();
    let mut game = Game::new(&config);
    for i in 0..3usize {
        game.add_client();
        assert!(game.join_player(i, format!("p{}", i), "basic".to_string(), &config));
    }
    // Three joined players: the timer resets and the state stays pre-game.
    game.state_timer_ms = 1;
    game.tick_state_timer(10, 0, &config);
    assert!(matches!(game.state, GameState::PreGame));
    assert_eq!(game.state_timer_ms, 10_000);

    game.add_client();
    assert!(game.join_player(3, "p3".to_string(), "basic".to_string(), &config));
    game.state_timer_ms = 1;
    game.tick_state_timer(10, 0, &config);
    assert!(matches!(game.state, GameState::Hiding));
    assert_eq!(game.state_timer_ms, 15_000);
    // Exactly two of the four players hunt; the rest hide.
    assert_eq!(game.hunter_count(), 2);
}

#[test]
fn ping_delay_follows_the_volume_formula() {
    let config = test_config();
    // A prop of volume eight cubic units has a cube root of two units.
    for _ in 0..50 {
        let d = Player::prop_ping_delay(8_000_000_000, &config);
        assert!(d >= 25_000, "delay {} under the lower bound", d);
        assert!(d <= 50_000, "delay {} over the upper bound", d);
    }
}

#[test]
fn first_update_carries_the_minimap_and_later_ones_do_not() {
    let config = test_config();
    let mut game = Game::new(&config);
    game.add_client();
    let minimap = game.cached_minimap;
    let mut session = gamecore::network::ClientHandle::new();
    let events: Vec<ClientEvent> = Vec::new();
    let msg1 = session.build_update_message(0, 10_000, &game.world, &events, &minimap, false, 200_000);
    match &msg1 {
        WireValue::Arr(slots) => {
            assert!(!matches!(slots[4], WireValue::Nil), "first update sends the minimap");
        }
        _ => panic!("updates are arrays"),
    }
    let msg2 = session.build_update_message(0, 10_000, &game.world, &events, &minimap, false, 200_000);
    match &msg2 {
        WireValue::Arr(slots) => {
            assert!(matches!(slots[4], WireValue::Nil), "an unchanged minimap stays home"); 
        }
        _ => panic!("updates are arrays"),
    }
    let msg3 = session.build_update_message(0, 10_000, &game.world, &events, &minimap, true, 200_000);
    match &msg3 {
        WireValue::Arr(slots) => {
            assert!(!matches!(slots[4], WireValue::Nil), "a changed minimap goes out again");
        }
        _ => panic!("updates are arrays"),
    }
}

#[test]
fn shoot_events_reach_only_clients_in_range() {
    let config = test_config();
    let game = Game::new(&config);
    let events = vec![ClientEvent::Shoot(ShootEvent {
        shooter: 1,
        start: Vector::new(5_000, 0, 0),
        end: Vector::new(6_000, 0, 0),
    })];
    let minimap = WireValue::Nil;

    let mut near = gamecore::network::ClientHandle::new();
    near.spectating_position = Vector::new(0, 0, 0);
    let msg = near.build_update_message(2, 10_000, &game.world, &events, &minimap, false, 200_000);
    match &msg {
        WireValue::Arr(slots) => match &slots[5] {
            WireValue::Arr(sent) => assert_eq!(sent.len(), 1, "the near client hears the shot"),
            _ => panic!("events are an array"),
        },
        _ => panic!("updates are arrays"),
    }

    let mut far = gamecore::network::ClientHandle::new();
    far.spectating_position = Vector::new(1_000_000, 0, 0);
    let msg = far.build_update_message(2, 10_000, &game.world, &events, &minimap, false, 200_000);
    match &msg {
        WireValue::Arr(slots) => match &slots[5] {
            WireValue::Arr(sent) => assert_eq!(sent.len(), 0, "the far client does not"),
            _ => panic!("events are an array"),
        },
        _ => panic!("updates are arrays"),
    }
}

#[test]
fn jump_only_works_on_the_ground() {
    let config = test_config();
    let mut game = Game::new(&config);
    game.add_client();
    assert!(game.join_player(0, "jumper".to_string(), "basic".to_string(), &config));
    let pid = game.clients[0].1.player_id.unwrap();
    // Hovering far above everything: no jump.
    let idx = game.world.entity_index_with_id(pid).unwrap();
    game.world.entities[idx].body.set_pos(Vector::new(0, 0, 500_000));
    game.world.step(0, &config);
    assert!(!game.try_jump(pid, false, &config));
    // Standing right on top of the fixture at five units along x: jump.
    let idx = game.world.entity_index_with_id(pid).unwrap();
    game.world.entities[idx].body.set_pos(Vector::new(5_000, 0, 1_000));
    game.world.step(0, &config);
    assert!(game.try_jump(pid, false, &config));
    let idx = game.world.entity_index_with_id(pid).unwrap();
    assert_eq!(game.world.entities[idx].body.get_vel().z, 10_000);
}

#[test]
fn join_refuses_unknown_characters() {
    let config = test_config();
    let mut game = Game::new(&config);
    game.add_client();
    assert!(!game.join_player(0, "p".to_string(), "ghost".to_string(), &config));
    assert!(game.clients[0].1.player_id.is_none());
    assert!(game.join_player(0, "p".to_string(), "basic".to_string(), &config));
    assert!(game.clients[0].1.player_id.is_some());
}
