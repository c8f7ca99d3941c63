use snake_server::bait::Bait;
use snake_server::codec::{encode_snake, COMM_UPDATE_SNAKE};
use snake_server::command::{decode, Command};
use snake_server::constants::{MAX_BAITS, SNAKE_IT_IS_TIME_TO_SHORTER};
use snake_server::player::{PeerAddr, Player};
use snake_server::snake::{Snake, SnakeNode};
use snake_server::world::{Outgoing, World};

fn addr(port: u16) -> PeerAddr {
    PeerAddr { ip: 0xffff_7f00_0001, port, v6: false }
}

fn node(x: i64, y: i64) -> SnakeNode {
    SnakeNode { x, y }
}

fn player_with_nodes(id: u128, port: u16, nodes: Vec<SnakeNode>, now: u64) -> Player {
    let mut snake = Snake::new_at(5, 0, 20_000, nodes[0].x, nodes[0].y);
    snake.nodes = nodes;
    Player::new(id, "Unnamed".to_string(), snake, addr(port), now)
}

/// A pool already at capacity, far from every snake, so that no bait is
/// spawned or eaten during a scenario.
fn full_pool() -> Vec<Bait> {
    (0..MAX_BAITS).map(|_| Bait::new(9_000_000, 9_000_000, 1, 10_000)).collect()
}

fn text(o: &Outgoing) -> String {
    String::from_utf8(o.bytes.clone()).unwrap()
}

#[test]
fn full_snake_update_encoding() {
    let nodes = vec![node(10_000, 20_000), node(30_000, 40_000)];
    let msg = encode_snake(COMM_UPDATE_SNAKE, &nodes);
    assert_eq!(String::from_utf8(msg).unwrap(), "$2,1.0000,2.0000,3.0000,4.0000");
}

#[test]
fn aim_command_updates_known_session() {
    let mut world = World::new();
    world.players.push(player_with_nodes(7, 1, vec![node(20_000_000, 20_000_000); 5], 0));
    let out = world.receive(addr(1), "2,150.0,200.0,800,600", 10, 99);
    assert!(out.is_empty());
    let p = &world.players[0];
    assert_eq!((p.move_x, p.move_y), (1_500_000, 2_000_000));
    assert_eq!((p.window_w, p.window_h), (800, 600));
    assert_eq!(p.last_seen, 10);
    match decode("2,150.0,200.0,800,600") {
        Command::Aim { x, y, win_w, win_h } => assert_eq!((x, y, win_w, win_h), (1_500_000, 2_000_000, 800, 600)),
        other => panic!("unexpected {:?}", other),
    }
}

#[test]
fn body_touching_a_head_kills_exactly_one() {
    let mut world = World::new();
    world.baits = full_pool();
    // A lies along the x axis, B's head sits just above A's tail.
    let a: Vec<SnakeNode> = (0..5).map(|k| node(15_000_000 + k * 70_000, 15_000_000)).collect();
    let b: Vec<SnakeNode> = (0..5).map(|k| node(15_280_000, 15_100_000 + k * 70_000)).collect();
    world.players.push(player_with_nodes(1, 1, a, 0));
    world.players.push(player_with_nodes(2, 2, b, 0));
    let out = world.tick(0);
    assert_eq!(world.players.len(), 1);
    assert_eq!(world.players[0].id, 1);
    let die: Vec<&Outgoing> = out.iter().filter(|o| text(o) == "$8").collect();
    assert_eq!(die.len(), 1);
    assert_eq!(die[0].to, addr(2));
    let dead: Vec<&Outgoing> = out.iter().filter(|o| text(o) == "$7,2").collect();
    assert_eq!(dead.len(), 1);
    assert_eq!(dead[0].to, addr(1));
    // Five nodes leave two death-burst baits.
    assert_eq!(world.baits.len(), MAX_BAITS + 2);
    for b in &world.baits[MAX_BAITS..] {
        assert_eq!(b.size, 150_000);
    }
}

#[test]
fn silent_session_is_reaped_with_departure_notice() {
    let mut world = World::new();
    world.baits = full_pool();
    world.players.push(player_with_nodes(11, 1, vec![node(12_000_000, 12_000_000); 5], 0));
    world.players.push(player_with_nodes(12, 2, vec![node(28_000_000, 28_000_000); 5], 30_000));
    let out = world.tick(31_000);
    assert_eq!(world.players.len(), 1);
    assert_eq!(world.players[0].id, 12);
    let notices: Vec<&Outgoing> = out.iter().filter(|o| text(o) == "$7,11").collect();
    assert_eq!(notices.len(), 1);
    assert_eq!(notices[0].to, addr(2));
}

#[test]
fn accelerating_snake_sheds_its_tail() {
    let mut world = World::new();
    world.baits = full_pool();
    world.players.push(player_with_nodes(5, 1, vec![node(20_000_000, 20_000_000); 7], 0));
    world.receive(addr(1), "2,3000,2000,0,0", 0, 0);
    world.receive(addr(1), "10", 0, 0);
    assert!(world.players[0].snake.accelerate);
    for _ in 0..SNAKE_IT_IS_TIME_TO_SHORTER - 1 {
        world.tick(0);
    }
    assert_eq!(world.players[0].snake.nodes.len(), 7);
    assert_eq!(world.baits.len(), MAX_BAITS);
    let tail = *world.players[0].snake.nodes.last().unwrap();
    world.tick(0);
    assert_eq!(world.players[0].snake.nodes.len(), 6);
    assert_eq!(world.baits.len(), MAX_BAITS + 1);
    let dropped = world.baits[MAX_BAITS];
    assert_eq!((dropped.x, dropped.y, dropped.size), (tail.x, tail.y, 50_000));
}

#[test]
fn head_touched_by_two_bodies_dies_once() {
    let mut world = World::new();
    world.baits = full_pool();
    // A and C lie along the x axis on either side of B's head.
    let a: Vec<SnakeNode> = (0..5).map(|k| node(15_000_000 + k * 70_000, 15_000_000)).collect();
    let b: Vec<SnakeNode> = (0..5).map(|k| node(15_280_000 + k * 70_000, 15_100_000)).collect();
    let c: Vec<SnakeNode> = (0..5).map(|k| node(15_000_000 + k * 70_000, 15_200_000)).collect();
    world.players.push(player_with_nodes(1, 1, a, 0));
    world.players.push(player_with_nodes(2, 2, b, 0));
    world.players.push(player_with_nodes(3, 3, c, 0));
    let out = world.tick(0);
    let ids: Vec<u128> = world.players.iter().map(|p| p.id).collect();
    assert_eq!(ids, vec![1, 3]);
    assert_eq!(out.iter().filter(|o| text(o) == "$8").count(), 1);
    let dead: Vec<&Outgoing> = out.iter().filter(|o| text(o).starts_with("$7")).collect();
    assert_eq!(dead.len(), 2);
    assert!(dead.iter().all(|o| text(o) == "$7,2"));
    assert_eq!(dead[0].to, addr(1));
    assert_eq!(dead[1].to, addr(3));
    assert_eq!(world.baits.len(), MAX_BAITS + 2);
}
