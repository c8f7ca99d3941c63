use vstd::prelude::*;

use crate::snake::{grown, same_but_nodes, same_settings, Snake};

verus! {

/// A client's network address: an IPv6 address (IPv4 in its mapped form
/// when `v6` is false) and a port. It identifies a session.
#[derive(Clone, Copy, Debug, PartialEq, Eq, Structural, Hash)]
pub struct PeerAddr {
    pub ip: u128,
    pub port: u16,
    pub v6: bool,
}

/// A session: a snake bound to a client address.
#[derive(Clone, Debug)]
pub struct Player {
    pub id: u128,
    pub name: String,
    pub snake: Snake,
    pub addr: PeerAddr,
    /// Last reported aim point, fixed-point.
    pub move_x: i64,
    pub move_y: i64,
    /// Last reported window size, in world units.
    pub window_w: u32,
    pub window_h: u32,
    /// Time of the last inbound packet, in milliseconds.
    pub last_seen: u64,
    pub sent_pkt: u32,
    pub recv_pkt: u32,
}

/// Everything of a player but the snake is the same in `a` and `b`.
pub open spec fn same_but_snake(a: Player, b: Player) -> bool {
    &&& a.id == b.id
    &&& a.name@ == b.name@
    &&& a.addr == b.addr
    &&& a.move_x == b.move_x
    &&& a.move_y == b.move_y
    &&& a.window_w == b.window_w
    &&& a.window_h == b.window_h
    &&& a.last_seen == b.last_seen
    &&& a.sent_pkt == b.sent_pkt
    &&& a.recv_pkt == b.recv_pkt
}

impl Player {
    /// A player seen at time `now`, aiming at the origin of a zero-sized window.
    pub fn new(id: u128, name: String, snake: Snake, addr: PeerAddr, now: u64) -> (p: Player)
        ensures
            p.id == id,
            p.name@ == name@,
            p.snake == snake,
            p.addr == addr,
            p.move_x == 0 && p.move_y == 0,
            p.window_w == 0 && p.window_h == 0,
            p.last_seen == now,
            p.sent_pkt == 0 && p.recv_pkt == 0,
    {
        Player {
            id,
            name,
            snake,
            addr,
            move_x: 0,
            move_y: 0,
            window_w: 0,
            window_h: 0,
            last_seen: now,
            sent_pkt: 0,
            recv_pkt: 0,
        }
    }

    pub fn get_snake(&mut self) -> (r: &mut Snake)
        ensures
            *r == old(self).snake,
            final(self).snake == *final(r),
            same_but_snake(*old(self), *final(self)),
    {
        &mut self.snake
    }

    /// Records the aim point and the window size.
    pub fn update_xy(&mut self, x: i64, y: i64, win_w: u32, win_h: u32)
        ensures
            final(self).move_x == x,
            final(self).move_y == y,
            final(self).window_w == win_w,
            final(self).window_h == win_h,
            final(self).snake == old(self).snake,
            final(self).id == old(self).id,
            final(self).name@ == old(self).name@,
            final(self).addr == old(self).addr,
            final(self).last_seen == old(self).last_seen,
            final(self).sent_pkt == old(self).sent_pkt,
            final(self).recv_pkt == old(self).recv_pkt,
    {
        self.move_x = x;
        self.move_y = y;
        self.window_h = win_h;
        self.window_w = win_w;
    }

    pub fn update_last_seen(&mut self, now: u64)
        ensures
            final(self).last_seen == now,
            final(self).snake == old(self).snake,
            final(self).id == old(self).id,
            final(self).name@ == old(self).name@,
            final(self).addr == old(self).addr,
            final(self).move_x == old(self).move_x,
            final(self).move_y == old(self).move_y,
            final(self).window_w == old(self).window_w,
            final(self).window_h == old(self).window_h,
            final(self).sent_pkt == old(self).sent_pkt,
            final(self).recv_pkt == old(self).recv_pkt,
    {
        self.last_seen = now;
    }

    pub fn update_player_name(&mut self, name: String)
        ensures
            final(self).name@ == name@,
            final(self).snake == old(self).snake,
            final(self).id == old(self).id,
            final(self).addr == old(self).addr,
            final(self).last_seen == old(self).last_seen,
            final(self).move_x == old(self).move_x,
            final(self).move_y == old(self).move_y,
            final(self).window_w == old(self).window_w,
            final(self).window_h == old(self).window_h,
            final(self).sent_pkt == old(self).sent_pkt,
            final(self).recv_pkt == old(self).recv_pkt,
    {
        self.name = name;
    }

    pub fn update_player_acceleration(&mut self, accelerate: bool)
        ensures
            final(self).snake.accelerate == accelerate,
            final(self).snake.nodes@ == old(self).snake.nodes@,
            final(self).snake.accelerate_time == old(self).snake.accelerate_time,
            final(self).id == old(self).id,
            final(self).name@ == old(self).name@,
            final(self).addr == old(self).addr,
            final(self).last_seen == old(self).last_seen,
            final(self).move_x == old(self).move_x,
            final(self).move_y == old(self).move_y,
            final(self).window_w == old(self).window_w,
            final(self).window_h == old(self).window_h,
            final(self).sent_pkt == old(self).sent_pkt,
            final(self).recv_pkt == old(self).recv_pkt,
            final(self).snake.current_angle == old(self).snake.current_angle,
            final(self).snake.rotate_angle == old(self).snake.rotate_angle,
            same_settings(old(self).snake, final(self).snake),
    {
        self.snake.accelerate = accelerate;
    }

    pub fn update_player_pkt_stat(&mut self, send_pkt: u32, recv_pkt: u32)
        ensures
            final(self).sent_pkt == send_pkt,
            final(self).recv_pkt == recv_pkt,
            final(self).snake == old(self).snake,
            final(self).id == old(self).id,
            final(self).addr == old(self).addr,
            final(self).last_seen == old(self).last_seen,
            final(self).name@ == old(self).name@,
            final(self).move_x == old(self).move_x,
            final(self).move_y == old(self).move_y,
            final(self).window_w == old(self).window_w,
            final(self).window_h == old(self).window_h,
    {
        self.sent_pkt = send_pkt;
        self.recv_pkt = recv_pkt;
    }

    pub fn grow_player_snake(&mut self)
        requires
            old(self).snake.nodes@.len() >= 1,
        ensures
            final(self).snake.nodes@ == grown(old(self).snake.nodes@),
            same_but_nodes(old(self).snake, final(self).snake),
            same_but_snake(*old(self), *final(self)),
    {
        self.snake.grow();
    }
}


/// Two players are the same session when their addresses are equal.
impl PartialEq for Player {
    fn eq(&self, other: &Player) -> (r: bool) {
        self.addr == other.addr
    }
}

impl vstd::std_specs::cmp::PartialEqSpecImpl for Player {
    open spec fn obeys_eq_spec() -> bool {
        true
    }

    open spec fn eq_spec(&self, other: &Player) -> bool {
        self.addr == other.addr
    }
}

} // verus!
