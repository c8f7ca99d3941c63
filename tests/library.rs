use snake_server::bait::{create, destroy, generate_bait, generate_mass_bait, keys, length, read, Bait};
use snake_server::codec::{encode_baits, encode_ids, push_fixed, COMM_GROWN};
use snake_server::collision::{rect_intersect, square, Rect};
use snake_server::command::{decode, Command};
use snake_server::constants::{
    MAX_BAITS, MAX_NODE_X, MAX_NODE_Y, MIN_NODE_X, MIN_NODE_Y, SNAKE_INITIAL_LENGTH, SNAKE_MAX_LENGTH,
};
use snake_server::player::{PeerAddr, Player};
use snake_server::snake::{create_first_five_nodes, Snake, SnakeNode};
use snake_server::stats::UdpStats;
use snake_server::world::World;

fn addr(port: u16) -> PeerAddr {
    PeerAddr { ip: 1, port, v6: true }
}

fn fixed(v: i64) -> String {
    let mut out = Vec::new();
    push_fixed(&mut out, v);
    String::from_utf8(out).unwrap()
}

#[test]
fn rectangles_touching_or_apart() {
    let a = Rect { top: 0, left: 0, right: 10, bottom: 10 };
    let b = Rect { top: 10, left: 10, right: 20, bottom: 20 };
    let c = Rect { top: 11, left: 0, right: 10, bottom: 20 };
    assert!(rect_intersect(&a, &b));
    assert!(!rect_intersect(&a, &c));
    assert_eq!(square(5, 6, 2), Rect { top: 4, left: 3, right: 7, bottom: 8 });
}

#[test]
fn fixed_point_text() {
    assert_eq!(fixed(0), "0.0000");
    assert_eq!(fixed(-5_000), "-0.5000");
    assert_eq!(fixed(123_456_789), "12345.6789");
    assert_eq!(fixed(i64::MIN), "-922337203685477.5808");
}

#[test]
fn id_and_bait_messages() {
    assert_eq!(String::from_utf8(encode_ids(COMM_GROWN, &vec![3, 40])).unwrap(), "$62,3$62,40");
    let baits = vec![Bait::new(10_000, 25_000, 1, 50_000), Bait::new(0, -10_000, 2, 0)];
    assert_eq!(String::from_utf8(encode_baits(&baits, false)).unwrap(), "$3,1.0000,2.5000,5.0000$3,0.0000,-1.0000,0.0000");
    assert_eq!(String::from_utf8(encode_baits(&baits, true)).unwrap(), "$4,1.0000,2.5000$4,0.0000,-1.0000");
    assert!(encode_baits(&vec![], true).is_empty());
}

#[test]
fn decode_commands() {
    match decode("9,bob") {
        Command::Rename { name } => assert_eq!(name, "bob"),
        other => panic!("unexpected {:?}", other),
    }
    assert!(matches!(decode("10"), Command::Accelerate));
    assert!(matches!(decode("11"), Command::StopAccelerate));
    assert!(matches!(decode("2,1,2"), Command::Incomplete));
    assert!(matches!(decode("9"), Command::Incomplete));
    assert!(matches!(decode("7,1"), Command::Unknown));
    assert!(matches!(decode(""), Command::Unknown));
    assert!(matches!(decode("10 "), Command::Unknown));
}

#[test]
fn decode_malformed_fields_default_to_zero() {
    match decode("2,abc,-1.23456,+800,-1,extra") {
        Command::Aim { x, y, win_w, win_h } => assert_eq!((x, y, win_w, win_h), (0, -12_345, 800, 0)),
        other => panic!("unexpected {:?}", other),
    }
    match decode("2,.5,7.,4294967295,4294967296") {
        Command::Aim { x, y, win_w, win_h } => assert_eq!((x, y, win_w, win_h), (5_000, 70_000, 4_294_967_295, 0)),
        other => panic!("unexpected {:?}", other),
    }
    match decode("2,.,e3,,+") {
        Command::Aim { x, y, win_w, win_h } => assert_eq!((x, y, win_w, win_h), (0, 0, 0, 0)),
        other => panic!("unexpected {:?}", other),
    }
    match decode("2,100000000000001,100000000000000.5,0,0") {
        Command::Aim { x, y, .. } => assert_eq!((x, y), (0, 1_000_000_000_000_005_000)),
        other => panic!("unexpected {:?}", other),
    }
}

#[test]
fn decode_exponent_forms() {
    let cases = [
        ("1e3", 10_000_000),
        ("1.5e-2", 150),
        ("-2E+1", -200_000),
        ("123456.78912e-3", 1_234_567),
        ("0.00001e5", 10_000),
        ("1e-40", 0),
        ("1e41", 0),
        ("0e41", 0),
        ("1e", 0),
        ("1e+", 0),
        ("1e2.5", 0),
        ("1e2e3", 0),
        ("1e14", 1_000_000_000_000_000_000),
        ("1e15", 0),
    ];
    for (field, expected) in cases {
        match decode(&format!("2,{},0,0,0", field)) {
            Command::Aim { x, .. } => assert_eq!(x, expected, "field {}", field),
            other => panic!("unexpected {:?}", other),
        }
    }
}

#[test]
fn first_nodes_coincide() {
    let nodes = create_first_five_nodes(20_000_000, 21_000_000);
    assert_eq!(nodes.len(), SNAKE_INITIAL_LENGTH);
    assert!(nodes.iter().all(|n| *n == SnakeNode { x: 20_000_000, y: 21_000_000 }));
}

#[test]
fn new_snake_spawns_inside_margin() {
    for _ in 0..50 {
        let s = Snake::new(5, 3, 20_000);
        assert_eq!(s.nodes.len(), SNAKE_INITIAL_LENGTH);
        let h = s.nodes[0];
        assert!(15_000_000 <= h.x && h.x < 25_000_000);
        assert!(15_000_000 <= h.y && h.y < 25_000_000);
        assert!(!s.accelerate);
    }
}

#[test]
fn grow_is_capped_and_shorter_stops_at_empty() {
    let mut s = Snake::new_at(5, 0, 20_000, 20_000_000, 20_000_000);
    for _ in 0..600 {
        s.grow();
    }
    assert_eq!(s.nodes.len(), SNAKE_MAX_LENGTH);
    for _ in 0..600 {
        s.shorter();
    }
    assert!(s.nodes.is_empty());
}

#[test]
fn movement_stays_in_play_area() {
    let mut s = Snake::new_at(5, 0, 20_000, MAX_NODE_X, MIN_NODE_Y);
    s.move_snake(i64::MAX, i64::MIN, 0, 0);
    for n in &s.nodes {
        assert!(MIN_NODE_X <= n.x && n.x <= MAX_NODE_X && MIN_NODE_Y <= n.y && n.y <= MAX_NODE_Y);
    }
    assert_eq!(s.nodes[0], SnakeNode { x: MAX_NODE_X, y: MIN_NODE_Y });
}

#[test]
fn aim_at_window_centre_keeps_head_still() {
    let mut s = Snake::new_at(5, 0, 20_000, 20_000_000, 20_000_000);
    s.move_snake(4_000_000, 3_000_000, 800, 600);
    assert_eq!(s.nodes[0], SnakeNode { x: 20_000_000, y: 20_000_000 });
}

#[test]
fn head_moves_by_speed_toward_aim() {
    let mut s = Snake::new_at(5, 0, 20_000, 20_000_000, 20_000_000);
    s.move_snake(4_000_000 + 30_000, 3_000_000 + 40_000, 800, 600);
    assert_eq!(s.nodes[0], SnakeNode { x: 20_012_000, y: 20_016_000 });
    s.accelerate = true;
    s.move_snake(4_000_000 + 30_000, 3_000_000 + 40_000, 800, 600);
    assert_eq!(s.nodes[0], SnakeNode { x: 20_060_000, y: 20_080_000 });
}

#[test]
fn body_follows_elastically() {
    let mut s = Snake::new_at(2, 0, 20_000, 20_000_000, 20_000_000);
    s.nodes = vec![SnakeNode { x: 20_000_000, y: 20_000_000 }, SnakeNode { x: 20_141_420, y: 20_000_000 }];
    s.move_snake(4_000_000, 3_000_000, 800, 600);
    // Twice the rest distance: the node moves twice the base speed.
    assert_eq!(s.nodes[1], SnakeNode { x: 20_101_420, y: 20_000_000 });
}

#[test]
fn rotate_steps_toward_target() {
    let mut s = Snake::new_at(5, 0, 20_000, 20_000_000, 20_000_000);
    s.new_rotate_angle(120_000);
    s.rotate();
    assert_eq!(s.current_angle, 50_000);
    s.rotate();
    s.rotate();
    assert_eq!(s.current_angle, 120_000);
    s.new_rotate_angle(-10_000);
    s.rotate();
    assert_eq!(s.current_angle, 70_000);
}

#[test]
fn pool_operations() {
    let mut pool = Vec::new();
    let b = create(&mut pool, 1, 2, 3, 4);
    create(&mut pool, 5, 6, 7, 8);
    assert_eq!(b, Bait { x: 1, y: 2, color: 3, size: 4 });
    assert_eq!(length(&pool), 2);
    assert_eq!(keys(&pool), vec![0, 1]);
    assert_eq!(read(&pool, 1), Some(Bait { x: 5, y: 6, color: 7, size: 8 }));
    assert_eq!(read(&pool, 2), None);
    destroy(&mut pool, 5);
    assert_eq!(length(&pool), 2);
    destroy(&mut pool, 0);
    assert_eq!(pool, vec![Bait { x: 5, y: 6, color: 7, size: 8 }]);
}

#[test]
fn random_bait_in_range() {
    let mut xs = Vec::new();
    for _ in 0..100 {
        let b = generate_bait(100, 103);
        assert!((100..103).contains(&b.x) && (100..103).contains(&b.y));
        assert!((0..255).contains(&b.color) && (0..100_000).contains(&b.size));
        xs.push(b.x);
    }
    assert!(xs.iter().any(|x| *x != 100));
}

#[test]
fn death_burst_sizes() {
    for (n, expected) in [(1usize, 0usize), (5, 2), (6, 3), (7, 3)] {
        let mut s = Snake::new_at(5, 0, 20_000, 20_000_000, 20_000_000);
        s.nodes = (0..n as i64).map(|k| SnakeNode { x: 20_000_000 + k * 100_000, y: 20_000_000 }).collect();
        let burst = generate_mass_bait(&s);
        assert_eq!(burst.len(), expected);
        for (k, b) in burst.iter().enumerate() {
            let at = s.nodes[2 * k];
            assert!(at.x - 50_000 <= b.x && b.x < at.x + 50_000);
            assert!(at.y - 50_000 <= b.y && b.y < at.y + 50_000);
            assert_eq!(b.size, 150_000);
            assert_eq!(b.color, burst[0].color);
        }
    }
}

#[test]
fn trickle_spawn_respects_capacity() {
    let mut world = World::new();
    world.baits = (0..MAX_BAITS - 1).map(|_| Bait::new(9_000_000, 9_000_000, 1, 10_000)).collect();
    let mut fresh = Vec::new();
    world.trickle_spawn(&mut fresh);
    assert_eq!(world.baits.len(), MAX_BAITS);
    assert_eq!(fresh.len(), 1);
    let b = fresh[0];
    assert!(8_100_000 <= b.x && b.x < 31_900_000 && 8_100_000 <= b.y && b.y < 31_900_000);
    world.trickle_spawn(&mut fresh);
    assert_eq!(world.baits.len(), MAX_BAITS);
    assert_eq!(fresh.len(), 1);
}

#[test]
fn new_session_gets_welcome_and_is_announced() {
    let mut world = World::new();
    world.baits.push(Bait::new(10_000, 20_000, 0, 30_000));
    let first = world.receive(addr(1), "anything", 5, 100);
    assert_eq!(world.players.len(), 1);
    assert_eq!(world.players[0].name, "Unnamed");
    assert_eq!(first.len(), 2);
    assert!(String::from_utf8(first[0].bytes.clone()).unwrap().starts_with("$1,"));
    assert_eq!(String::from_utf8(first[1].bytes.clone()).unwrap(), "$3,1.0000,2.0000,3.0000");
    let second = world.receive(addr(2), "", 6, 200);
    assert_eq!(world.players.len(), 2);
    assert_eq!(second.len(), 4);
    assert_eq!(second[0].to, addr(2));
    let enemies = String::from_utf8(second[1].bytes.clone()).unwrap();
    assert!(enemies.starts_with("$5,100,Unnamed,"));
    assert_eq!(second[2].to, addr(1));
    assert!(String::from_utf8(second[2].bytes.clone()).unwrap().starts_with("$5,200,Unnamed,"));
}

#[test]
fn rename_is_announced_to_others() {
    let mut world = World::new();
    world.receive(addr(1), "", 0, 1);
    world.receive(addr(2), "", 0, 2);
    world.receive(addr(3), "", 0, 3);
    let out = world.receive(addr(2), "9,zed", 4, 0);
    assert_eq!(world.players[1].name, "zed");
    assert_eq!(world.players[1].last_seen, 4);
    assert_eq!(out.len(), 2);
    assert!(out.iter().all(|o| o.bytes == b"$9,2".to_vec()));
    assert_eq!((out[0].to, out[1].to), (addr(1), addr(3)));
    let out = world.receive(addr(2), "11", 5, 0);
    assert!(out.is_empty() && !world.players[1].snake.accelerate);
}

#[test]
fn unknown_sender_command_is_ignored() {
    let mut world = World::new();
    let out = world.handle_command(addr(9), Command::Accelerate, 1);
    assert!(out.is_empty() && world.players.is_empty());
}

#[test]
fn eating_grows_and_deletes_once() {
    let mut world = World::new();
    let mut s = Snake::new_at(5, 0, 20_000, 20_000_000, 20_000_000);
    s.nodes = vec![SnakeNode { x: 20_000_000, y: 20_000_000 }; 5];
    world.players.push(Player::new(1, "a".to_string(), s.clone(), addr(1), 0));
    world.players.push(Player::new(2, "b".to_string(), s, addr(2), 0));
    world.baits = vec![Bait::new(20_050_000, 20_000_000, 0, 20_000), Bait::new(9_000_000, 9_000_000, 0, 20_000)];
    let mut log = Vec::new();
    let deleted = world.eat_baits(&mut log);
    assert_eq!(deleted, vec![Bait::new(20_050_000, 20_000_000, 0, 20_000)]);
    assert_eq!(world.baits, vec![Bait::new(9_000_000, 9_000_000, 0, 20_000)]);
    assert_eq!(log, vec![1, 2]);
    assert_eq!(world.players[0].snake.nodes.len(), 6);
    assert_eq!(world.players[1].snake.nodes.len(), 6);
}

#[test]
fn clean_inactive_players_returns_addresses() {
    let mut world = World::new();
    world.receive(addr(1), "", 0, 1);
    world.receive(addr(2), "", 40_000, 2);
    let gone = world.clean_inactive_players(30, 40_000);
    assert_eq!(gone, vec![addr(1)]);
    assert_eq!(world.players.len(), 1);
    assert_eq!(world.players[0].id, 2);
}

#[test]
fn udp_stats_count() {
    let mut st = UdpStats::default();
    st.record_sent(10);
    st.record_sent(5);
    st.record_received(7);
    assert_eq!((st.sent_packets(), st.sent_bytes(), st.received_packets(), st.received_bytes()), (2, 15, 1, 7));
}

#[test]
fn player_updates() {
    let s = Snake::new_at(5, 0, 20_000, 20_000_000, 20_000_000);
    let mut p = Player::new(1, "x".to_string(), s, addr(1), 0);
    p.update_xy(1, 2, 3, 4);
    p.update_player_pkt_stat(5, 6);
    p.update_player_acceleration(true);
    p.grow_player_snake();
    p.get_snake().accelerate_time = 9;
    assert_eq!((p.move_x, p.move_y, p.window_w, p.window_h, p.sent_pkt, p.recv_pkt), (1, 2, 3, 4, 5, 6));
    assert!(p.snake.accelerate);
    assert_eq!(p.snake.nodes.len(), 6);
    assert_eq!(p.snake.accelerate_time, 9);
}

#[test]
fn players_compare_by_address() {
    let s = Snake::new_at(5, 0, 20_000, 20_000_000, 20_000_000);
    let a = Player::new(1, "a".to_string(), s.clone(), addr(1), 0);
    let b = Player::new(2, "b".to_string(), s.clone(), addr(1), 5);
    let c = Player::new(1, "a".to_string(), s, addr(2), 0);
    assert!(a == b);
    assert!(a != c);
}
