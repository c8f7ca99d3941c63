use vstd::prelude::*;
use vstd::utf8::encode_utf8;

use crate::bait::Bait;
use crate::collision::BOX_COORD_LIMIT;
use crate::codec::{
    decimal, encode_snake, header, id_text, new_bait_text, nodes_text, push_decimal, push_fixed,
    push_header, push_id, push_nodes, snake_message, COMMA, COMM_ENEMY_NAME, COMM_NEW_BAIT,
    COMM_NEW_ENEMY, COMM_NEW_SNAKE,
};
use crate::command::{decode, decoded, Command};
use crate::constants::{SNAKE_INITIAL_LENGTH, SNAKE_SKIN_COLOR_RANGE, SNAKE_SPEED};
use crate::player::{PeerAddr, Player};
use crate::engine::{inactive, msgs, push_msg, to_all};
use crate::random::random_between;
use crate::snake::{in_play_area, same_settings, spawn_area, Snake};

verus! {

/// One datagram to send.
#[derive(Clone, Debug)]
pub struct Outgoing {
    pub to: PeerAddr,
    pub bytes: Vec<u8>,
}

/// The shared game state: the session registry and the bait pool.
pub struct World {
    pub players: Vec<Player>,
    pub baits: Vec<Bait>,
}

/// A snake that the tick can work on: within the length bounds and inside
/// the play area.
pub open spec fn placed(s: Snake) -> bool {
    &&& s.wf()
    &&& forall|i: int| 0 <= i < s.nodes@.len() ==> in_play_area(#[trigger] s.nodes@[i])
}

/// A bait whose bounding box is representable.
pub open spec fn bait_fits(b: Bait) -> bool {
    &&& -BOX_COORD_LIMIT <= b.x <= BOX_COORD_LIMIT
    &&& -BOX_COORD_LIMIT <= b.y <= BOX_COORD_LIMIT
    &&& 0 <= b.size <= BOX_COORD_LIMIT
}

/// No two sessions share an address.
pub open spec fn distinct_addrs(ps: Seq<Player>) -> bool {
    forall|i: int, j: int|
        0 <= i < ps.len() && 0 <= j < ps.len() && i != j ==> ps[i].addr != ps[j].addr
}

/// Index of the session of `addr`, if any.
pub open spec fn index_of(ps: Seq<Player>, addr: PeerAddr) -> Option<int> {
    if exists|i: int| 0 <= i < ps.len() && ps[i].addr == addr {
        Some(choose|i: int| 0 <= i < ps.len() && ps[i].addr == addr)
    } else {
        None
    }
}

/// The elements of `s` from index `i` on whose mark is false, in order.
pub open spec fn kept<T>(s: Seq<T>, marks: Seq<bool>, i: int) -> Seq<T>
    decreases s.len() - i,
{
    if i >= s.len() || i < 0 {
        Seq::empty()
    } else {
        (if marks[i] {
            Seq::empty()
        } else {
            seq![s[i]]
        }) + kept(s, marks, i + 1)
    }
}

/// The elements of `s` from index `i` on whose mark is true, in order.
pub open spec fn dropped<T>(s: Seq<T>, marks: Seq<bool>, i: int) -> Seq<T>
    decreases s.len() - i,
{
    if i >= s.len() || i < 0 {
        Seq::empty()
    } else {
        (if marks[i] {
            seq![s[i]]
        } else {
            Seq::empty()
        }) + dropped(s, marks, i + 1)
    }
}

/// The message announcing player `p` to the others: `$5,<id>,<name>,<nodes>`.
pub open spec fn enemy_text(p: Player) -> Seq<u8> {
    header(COMM_NEW_ENEMY) + seq![COMMA] + decimal(p.id as nat) + seq![COMMA] + encode_utf8(p.name@)
        + seq![COMMA] + nodes_text(p.snake.nodes@)
}

/// `enemy_text` of every player in `ps`, concatenated.
pub open spec fn enemies_text(ps: Seq<Player>) -> Seq<u8>
    decreases ps.len(),
{
    if ps.len() == 0 {
        Seq::empty()
    } else {
        enemies_text(ps.drop_last()) + enemy_text(ps.last())
    }
}

/// A player just opened for `addr` with id `id` at time `now`: default
/// name, zero aim and window, a still snake of `SNAKE_INITIAL_LENGTH`
/// coincident nodes in the spawn area.
pub open spec fn fresh_player(p: Player, addr: PeerAddr, id: u128, now: u64) -> bool {
    &&& p.id == id
    &&& p.addr == addr
    &&& p.name@ == "Unnamed"@
    &&& p.last_seen == now
    &&& p.move_x == 0 && p.move_y == 0
    &&& p.window_w == 0 && p.window_h == 0
    &&& p.sent_pkt == 0 && p.recv_pkt == 0
    &&& p.snake.nodes@.len() == SNAKE_INITIAL_LENGTH
    &&& spawn_area(p.snake.nodes@[0])
    &&& forall|i: int| 0 <= i < p.snake.nodes@.len() ==> #[trigger] p.snake.nodes@[i] == p.snake.nodes@[0]
    &&& !p.snake.accelerate
    &&& p.snake.accelerate_time == 0
    &&& !p.snake.is_dead
}

/// The welcome of a new player `p` into players `ps` with pool `bs`: its
/// snake (`$1`) and, if there are any, every existing player (`$5`) to it;
/// `p` announced (`$5`) to every existing player; then each bait (`$3`) to
/// it, one message per bait.
pub open spec fn welcome_messages(ps: Seq<Player>, bs: Seq<Bait>, p: Player) -> Seq<(PeerAddr, Seq<u8>)> {
    seq![(p.addr, snake_message(COMM_NEW_SNAKE, p.snake.nodes@))] + (if ps.len() > 0 {
        seq![(p.addr, enemies_text(ps))]
    } else {
        Seq::empty()
    }) + Seq::new(ps.len(), |i: int| (ps[i].addr, enemy_text(p))) + Seq::new(
        bs.len(),
        |j: int| (p.addr, new_bait_text(bs[j])),
    )
}

proof fn lemma_kept_prefix<T>(s: Seq<T>, marks: Seq<bool>, i: int)
    requires
        0 <= i < s.len(),
    ensures
        kept(s, marks, i) == (if marks[i] {
            Seq::empty()
        } else {
            seq![s[i]]
        }) + kept(s, marks, i + 1),
{
}

/// Removes, in place, the players whose mark is set.
pub fn remove_marked(players: &mut Vec<Player>, marks: &Vec<bool>)
    requires
        marks@.len() == old(players)@.len(),
    ensures
        final(players)@ == kept(old(players)@, marks@, 0),
{
    let ghost s = players@;
    let mut i: usize = players.len();
    assert(kept(s, marks@, i as int) =~= Seq::empty());
    assert(s.take(i as int) =~= s);
    while i > 0
        invariant
            i <= s.len(),
            marks@.len() == s.len(),
            players@ == s.take(i as int) + kept(s, marks@, i as int),
        decreases i,
    {
        i = i - 1;
        if marks[i] {
            players.remove(i);
        }
        proof {
            lemma_kept_prefix(s, marks@, i as int);
            assert(s.take(i + 1) =~= s.take(i as int).push(s[i as int]));
            assert(players@ =~= s.take(i as int) + kept(s, marks@, i as int));
        }
    }
    assert(s.take(0) =~= Seq::<Player>::empty());
    assert(players@ =~= kept(s, marks@, 0));
}

pub proof fn lemma_kept_from<T>(s: Seq<T>, marks: Seq<bool>, i: int)
    requires
        0 <= i,
    ensures
        forall|k: int|
            0 <= k < kept(s, marks, i).len() ==> exists|j: int|
                i <= j < s.len() && #[trigger] kept(s, marks, i)[k] == s[j],
    decreases s.len() - i,
{
    if i < s.len() {
        lemma_kept_from(s, marks, i + 1);
        let pre = if marks[i] {
            Seq::<T>::empty()
        } else {
            seq![s[i]]
        };
        let rest = kept(s, marks, i + 1);
        assert(kept(s, marks, i) == pre + rest);
        assert forall|k: int| 0 <= k < kept(s, marks, i).len() implies exists|j: int|
            i <= j < s.len() && #[trigger] kept(s, marks, i)[k] == s[j] by {
            if k < pre.len() {
                assert(kept(s, marks, i)[k] == s[i]);
            } else {
                assert(kept(s, marks, i)[k] == rest[k - pre.len()]);
                let j = choose|j: int| i + 1 <= j < s.len() && rest[k - pre.len()] == s[j];
                assert(kept(s, marks, i)[k] == s[j]);
            }
        }
    }
}

proof fn lemma_kept_distinct(s: Seq<Player>, marks: Seq<bool>, i: int)
    requires
        0 <= i,
        distinct_addrs(s),
    ensures
        distinct_addrs(kept(s, marks, i)),
    decreases s.len() - i,
{
    if i < s.len() {
        lemma_kept_distinct(s, marks, i + 1);
        lemma_kept_from(s, marks, i + 1);
        let rest = kept(s, marks, i + 1);
        if !marks[i] {
            let all = kept(s, marks, i);
            assert(all == seq![s[i]] + rest);
            assert forall|a: int, b: int|
                0 <= a < all.len() && 0 <= b < all.len() && a != b implies all[a].addr != all[b].addr by {
                if a == 0 {
                    let j = choose|j: int| i + 1 <= j < s.len() && rest[b - 1] == s[j];
                    assert(all[b] == rest[b - 1]);
                } else if b == 0 {
                    let j = choose|j: int| i + 1 <= j < s.len() && rest[a - 1] == s[j];
                    assert(all[a] == rest[a - 1]);
                } else {
                    assert(all[a] == rest[a - 1]);
                    assert(all[b] == rest[b - 1]);
                }
            }
        } else {
            assert(kept(s, marks, i) =~= rest);
        }
    }
}

/// Addresses of the players whose mark is set, in order.
pub fn marked_addrs(players: &Vec<Player>, marks: &Vec<bool>) -> (r: Vec<PeerAddr>)
    requires
        marks@.len() == players@.len(),
    ensures
        r@ == dropped(players@, marks@, 0).map_values(|p: Player| p.addr),
{
    let mut r: Vec<PeerAddr> = Vec::new();
    let mut i: usize = players.len();
    assert(dropped(players@, marks@, i as int) =~= Seq::empty());
    assert(r@ =~= dropped(players@, marks@, i as int).map_values(|p: Player| p.addr));
    while i > 0
        invariant
            i <= players@.len(),
            marks@.len() == players@.len(),
            r@ == dropped(players@, marks@, i as int).map_values(|p: Player| p.addr),
        decreases i,
    {
        i = i - 1;
        if marks[i] {
            r.insert(0, players[i].addr);
        }
        assert(r@ =~= dropped(players@, marks@, i as int).map_values(|p: Player| p.addr));
    }
    r
}

/// Ids of the players whose mark is set, in order.
pub fn marked_ids(players: &Vec<Player>, marks: &Vec<bool>) -> (r: Vec<u128>)
    requires
        marks@.len() == players@.len(),
    ensures
        r@ == dropped(players@, marks@, 0).map_values(|p: Player| p.id),
{
    let mut r: Vec<u128> = Vec::new();
    let mut i: usize = players.len();
    assert(dropped(players@, marks@, i as int) =~= Seq::empty());
    assert(r@ =~= dropped(players@, marks@, i as int).map_values(|p: Player| p.id));
    while i > 0
        invariant
            i <= players@.len(),
            marks@.len() == players@.len(),
            r@ == dropped(players@, marks@, i as int).map_values(|p: Player| p.id),
        decreases i,
    {
        i = i - 1;
        if marks[i] {
            r.insert(0, players[i].id);
        }
        assert(r@ =~= dropped(players@, marks@, i as int).map_values(|p: Player| p.id));
    }
    r
}

/// `q` is `p` with the effect of `cmd` applied and `last_seen` set to `now`.
pub open spec fn commanded(p: Player, q: Player, cmd: Command, now: u64) -> bool {
    &&& q.last_seen == now
    &&& q.id == p.id
    &&& q.addr == p.addr
    &&& q.sent_pkt == p.sent_pkt
    &&& q.recv_pkt == p.recv_pkt
    &&& q.snake.nodes@ == p.snake.nodes@
    &&& q.snake.accelerate_time == p.snake.accelerate_time
    &&& q.snake.current_angle == p.snake.current_angle
    &&& q.snake.rotate_angle == p.snake.rotate_angle
    &&& same_settings(p.snake, q.snake)
    &&& match cmd {
        Command::Aim { x, y, win_w, win_h } => {
            &&& q.move_x == x && q.move_y == y
            &&& q.window_w == win_w && q.window_h == win_h
            &&& q.name@ == p.name@
            &&& q.snake.accelerate == p.snake.accelerate
        },
        Command::Rename { name } => {
            &&& q.name@ == name@
            &&& q.move_x == p.move_x && q.move_y == p.move_y
            &&& q.window_w == p.window_w && q.window_h == p.window_h
            &&& q.snake.accelerate == p.snake.accelerate
        },
        Command::Accelerate => {
            &&& q.snake.accelerate
            &&& q.name@ == p.name@
            &&& q.move_x == p.move_x && q.move_y == p.move_y
            &&& q.window_w == p.window_w && q.window_h == p.window_h
        },
        Command::StopAccelerate => {
            &&& !q.snake.accelerate
            &&& q.name@ == p.name@
            &&& q.move_x == p.move_x && q.move_y == p.move_y
            &&& q.window_w == p.window_w && q.window_h == p.window_h
        },
        _ => {
            &&& q.name@ == p.name@
            &&& q.move_x == p.move_x && q.move_y == p.move_y
            &&& q.window_w == p.window_w && q.window_h == p.window_h
            &&& q.snake.accelerate == p.snake.accelerate
        },
    }
}

impl World {
    /// The registry invariant: addresses are unique, every snake is placed,
    /// and every bait is representable.
    pub open spec fn wf(&self) -> bool {
        &&& distinct_addrs(self.players@)
        &&& forall|i: int| 0 <= i < self.players@.len() ==> placed(#[trigger] self.players@[i].snake)
        &&& forall|j: int| 0 <= j < self.baits@.len() ==> bait_fits(#[trigger] self.baits@[j])
    }

    pub fn new() -> (w: World)
        ensures
            w.wf(),
            w.players@.len() == 0,
            w.baits@.len() == 0,
    {
        World { players: Vec::new(), baits: Vec::new() }
    }

    /// Index of the session of `addr`.
    pub fn find(&self, addr: PeerAddr) -> (r: Option<usize>)
        requires
            self.wf(),
        ensures
            r matches Some(i) ==> i < self.players@.len() && self.players@[i as int].addr == addr,
            r is None <==> index_of(self.players@, addr) is None,
            r matches Some(i) ==> index_of(self.players@, addr) == Some(i as int),
    {
        let mut i: usize = 0;
        while i < self.players.len()
            invariant
                self.wf(),
                i <= self.players@.len(),
                forall|k: int| 0 <= k < i ==> self.players@[k].addr != addr,
            decreases self.players@.len() - i,
        {
            if self.players[i].addr == addr {
                assert(self.players@[i as int].addr == addr);
                assert(exists|k: int| 0 <= k < self.players@.len() && self.players@[k].addr == addr);
                let ghost c = choose|k: int| 0 <= k < self.players@.len() && self.players@[k].addr == addr;
                assert(0 <= c < self.players@.len() && self.players@[c].addr == addr);
                proof {
                    if c != i as int {
                        assert(self.players@[c].addr != self.players@[i as int].addr);
                    }
                }
                return Some(i);
            }
            i = i + 1;
        }
        None
    }

    /// Opens a session for a new address at time `now`: a fresh snake at a
    /// drawn spawn point, the default name and the given `id`. Returns the
    /// welcome messages (see `welcome_messages`).
    pub fn create_player(&mut self, addr: PeerAddr, id: u128, now: u64) -> (out: Vec<Outgoing>)
        requires
            old(self).wf(),
            index_of(old(self).players@, addr) is None,
        ensures
            final(self).wf(),
            final(self).baits@ == old(self).baits@,
            final(self).players@.len() == old(self).players@.len() + 1,
            final(self).players@.drop_last() == old(self).players@,
            fresh_player(final(self).players@.last(), addr, id, now),
            msgs(out@) == welcome_messages(old(self).players@, old(self).baits@, final(self).players@.last()),
    {
        let skin = random_between(0, SNAKE_SKIN_COLOR_RANGE);
        let snake = Snake::new(SNAKE_INITIAL_LENGTH as i32, skin, SNAKE_SPEED);
        let new_player = Player::new(id, "Unnamed".to_owned(), snake, addr, now);
        let ghost ps = self.players@;
        let ghost bs = self.baits@;
        let mut out: Vec<Outgoing> = Vec::new();
        push_msg(&mut out, addr, encode_snake(COMM_NEW_SNAKE, &new_player.snake.nodes));

        let n = self.players.len();
        if n > 0 {
            let mut data: Vec<u8> = Vec::new();
            let mut i: usize = 0;
            while i < n
                invariant
                    n == ps.len(),
                    ps == self.players@,
                    i <= n,
                    data@ == enemies_text(ps.take(i as int)),
                decreases n - i,
            {
                push_enemy(&mut data, &self.players[i]);
                proof {
                    assert(ps.take(i + 1).drop_last() =~= ps.take(i as int));
                }
                i = i + 1;
            }
            assert(ps.take(n as int) =~= ps);
            push_msg(&mut out, addr, data);
        }
        let ghost o1 = msgs(out@);
        let announce = enemy_message(&new_player);
        let mut i: usize = 0;
        while i < n
            invariant
                n == ps.len(),
                ps == self.players@,
                i <= n,
                announce@ == enemy_text(new_player),
                msgs(out@) == o1 + Seq::new(i as nat, |k: int| (ps[k].addr, enemy_text(new_player))),
            decreases n - i,
        {
            push_msg(&mut out, self.players[i].addr, clone_bytes(&announce));
            i = i + 1;
            assert(msgs(out@) =~= o1 + Seq::new(i as nat, |k: int| (ps[k].addr, enemy_text(new_player))));
        }
        let ghost o2 = msgs(out@);
        let mut j: usize = 0;
        while j < self.baits.len()
            invariant
                bs == self.baits@,
                j <= bs.len(),
                msgs(out@) == o2 + Seq::new(j as nat, |k: int| (addr, new_bait_text(bs[k]))),
            decreases bs.len() - j,
        {
            let b = self.baits[j];
            let mut msg: Vec<u8> = Vec::new();
            push_header(&mut msg, COMM_NEW_BAIT);
            msg.push(COMMA);
            push_fixed(&mut msg, b.x);
            msg.push(COMMA);
            push_fixed(&mut msg, b.y);
            msg.push(COMMA);
            push_fixed(&mut msg, b.size);
            assert(msg@ =~= new_bait_text(b));
            push_msg(&mut out, addr, msg);
            j = j + 1;
            assert(msgs(out@) =~= o2 + Seq::new(j as nat, |k: int| (addr, new_bait_text(bs[k]))));
        }
        self.players.push(new_player);
        proof {
            assert(self.players@.drop_last() =~= ps);
            assert forall|a: int, b: int|
                0 <= a < self.players@.len() && 0 <= b < self.players@.len() && a != b implies
                self.players@[a].addr != self.players@[b].addr by {
                if a == ps.len() as int {
                    assert(ps[b].addr != addr);
                } else if b == ps.len() as int {
                    assert(ps[a].addr != addr);
                }
            }
            assert(msgs(out@) =~= welcome_messages(ps, bs, new_player));
        }
        out
    }

    /// Removes the players whose mark is set.
    pub fn remove_players(&mut self, marks: &Vec<bool>)
        requires
            old(self).wf(),
            marks@.len() == old(self).players@.len(),
        ensures
            final(self).wf(),
            final(self).players@ == kept(old(self).players@, marks@, 0),
            final(self).baits@ == old(self).baits@,
    {
        let ghost s = self.players@;
        remove_marked(&mut self.players, marks);
        proof {
            lemma_kept_distinct(s, marks@, 0);
            lemma_kept_from(s, marks@, 0);
            assert forall|i: int| 0 <= i < self.players@.len() implies placed(#[trigger] self.players@[i].snake) by {
                let j = choose|j: int| 0 <= j < s.len() && kept(s, marks@, 0)[i] == s[j];
            }
        }
    }

    /// Which sessions are silent for more than `timeout_secs` seconds at `now`.
    pub fn inactive_marks(&self, timeout_secs: u64, now: u64) -> (marks: Vec<bool>)
        ensures
            marks@ == Seq::new(self.players@.len(), |i: int| inactive(self.players@[i], timeout_secs, now)),
    {
        let mut marks: Vec<bool> = Vec::new();
        let mut i: usize = 0;
        while i < self.players.len()
            invariant
                i <= self.players@.len(),
                marks@ == Seq::new(i as nat, |k: int| inactive(self.players@[k], timeout_secs, now)),
            decreases self.players@.len() - i,
        {
            let last_seen = self.players[i].last_seen;
            marks.push(now >= last_seen && (now - last_seen) / 1000 > timeout_secs);
            i = i + 1;
            assert(marks@ =~= Seq::new(i as nat, |k: int| inactive(self.players@[k], timeout_secs, now)));
        }
        marks
    }

    /// Applies one decoded command from `addr` at time `now`. Unknown
    /// senders are ignored. A known session is touched, then updated as
    /// `commanded` says; a rename is announced to every other session as
    /// `$9,<id>`.
    pub fn handle_command(&mut self, addr: PeerAddr, cmd: Command, now: u64) -> (out: Vec<Outgoing>)
        requires
            old(self).wf(),
        ensures
            final(self).wf(),
            final(self).baits@ == old(self).baits@,
            final(self).players@.len() == old(self).players@.len(),
            index_of(old(self).players@, addr) is None ==> final(self).players@ == old(self).players@
                && out@.len() == 0,
            index_of(old(self).players@, addr) matches Some(i) ==> {
                &&& commanded(old(self).players@[i], final(self).players@[i], cmd, now)
                &&& forall|j: int|
                    0 <= j < old(self).players@.len() && j != i ==> #[trigger] final(self).players@[j]
                        == old(self).players@[j]
                &&& (cmd is Rename ==> msgs(out@) == to_all(
                    old(self).players@.remove(i),
                    id_text(COMM_ENEMY_NAME, old(self).players@[i].id),
                ))
                &&& (!(cmd is Rename) ==> out@.len() == 0)
            },
    {
        let mut out: Vec<Outgoing> = Vec::new();
        let i = match self.find(addr) {
            Some(i) => i,
            None => {
                return out;
            },
        };
        let ghost ps = self.players@;
        self.players[i].update_last_seen(now);
        let is_rename = matches!(cmd, Command::Rename { .. });
        match cmd {
            Command::Aim { x, y, win_w, win_h } => {
                self.players[i].update_xy(x, y, win_w, win_h);
            },
            Command::Rename { name } => {
                self.players[i].update_player_name(name);
            },
            Command::Accelerate => {
                self.players[i].update_player_acceleration(true);
            },
            Command::StopAccelerate => {
                self.players[i].update_player_acceleration(false);
            },
            _ => {},
        }
        proof {
            assert forall|a: int, b: int|
                0 <= a < self.players@.len() && 0 <= b < self.players@.len() && a != b implies
                self.players@[a].addr != self.players@[b].addr by {
                assert(ps[a].addr != ps[b].addr);
            }
            assert(placed(ps[i as int].snake));
        }
        if is_rename {
            let id = self.players[i].id;
            let mut msg: Vec<u8> = Vec::new();
            push_id(&mut msg, COMM_ENEMY_NAME, id);
            let mut k: usize = 0;
            while k < self.players.len()
                invariant
                    self.wf(),
                    self.players@.len() == ps.len(),
                    i < ps.len(),
                    self.players@[i as int].addr == addr,
                    forall|j: int| 0 <= j < ps.len() && j != i ==> #[trigger] self.players@[j] == ps[j],
                    k <= ps.len(),
                    id == ps[i as int].id,
                    msg@ == id_text(COMM_ENEMY_NAME, id),
                    msgs(out@).len() == if k > i { k - 1 } else { k as int },
                    forall|m: int|
                        0 <= m < msgs(out@).len() ==> #[trigger] msgs(out@)[m] == (
                            ps[if m < i { m } else { m + 1 }].addr,
                            msg@,
                        ),
                decreases ps.len() - k,
            {
                if k != i {
                    push_msg(&mut out, self.players[k].addr, clone_bytes(&msg));
                }
                k = k + 1;
            }
            assert(msgs(out@) =~= to_all(ps.remove(i as int), id_text(COMM_ENEMY_NAME, ps[i as int].id)));
        }
        out
    }

    /// One inbound datagram from `addr` at time `now`: a new address opens a
    /// session with id `new_id` (its text is not read); a known one has its
    /// text decoded and applied.
    pub fn receive(&mut self, addr: PeerAddr, msg: &str, now: u64, new_id: u128) -> (out: Vec<Outgoing>)
        requires
            old(self).wf(),
        ensures
            final(self).wf(),
            final(self).baits@ == old(self).baits@,
            index_of(old(self).players@, addr) is None ==> {
                &&& final(self).players@.len() == old(self).players@.len() + 1
                &&& final(self).players@.drop_last() == old(self).players@
                &&& fresh_player(final(self).players@.last(), addr, new_id, now)
                &&& msgs(out@) == welcome_messages(old(self).players@, old(self).baits@, final(self).players@.last())
            },
            index_of(old(self).players@, addr) matches Some(i) ==> {
                &&& final(self).players@.len() == old(self).players@.len()
                &&& forall|j: int|
                    0 <= j < old(self).players@.len() && j != i ==> #[trigger] final(self).players@[j]
                        == old(self).players@[j]
                &&& exists|c: Command|
                    {
                        &&& decoded(msg@, c)
                        &&& commanded(old(self).players@[i], #[trigger] final(self).players@[i], c, now)
                        &&& (c is Rename ==> msgs(out@) == to_all(
                            old(self).players@.remove(i),
                            id_text(COMM_ENEMY_NAME, old(self).players@[i].id),
                        ))
                        &&& (!(c is Rename) ==> out@.len() == 0)
                    }
            },
    {
        match self.find(addr) {
            None => self.create_player(addr, new_id, now),
            Some(i) => {
                let cmd = decode(msg);
                let ghost c = cmd;
                let out = self.handle_command(addr, cmd, now);
                assert(decoded(msg@, c));
                out
            },
        }
    }
}

/// Appends `bytes` to `out`.
pub fn push_bytes(out: &mut Vec<u8>, bytes: &[u8])
    ensures
        final(out)@ == old(out)@ + bytes@,
{
    let ghost start = out@;
    let mut i: usize = 0;
    while i < bytes.len()
        invariant
            i <= bytes@.len(),
            out@ == start + bytes@.take(i as int),
        decreases bytes@.len() - i,
    {
        out.push(bytes[i]);
        i = i + 1;
        assert(out@ =~= start + bytes@.take(i as int));
    }
    assert(bytes@.take(bytes@.len() as int) =~= bytes@);
}

/// A copy of `bytes`.
pub fn clone_bytes(bytes: &Vec<u8>) -> (r: Vec<u8>)
    ensures
        r@ == bytes@,
{
    let mut r: Vec<u8> = Vec::new();
    push_bytes(&mut r, bytes.as_slice());
    assert(r@ =~= bytes@);
    r
}

/// Appends `enemy_text(p)`.
fn push_enemy(out: &mut Vec<u8>, p: &Player)
    ensures
        final(out)@ == old(out)@ + enemy_text(*p),
{
    let ghost start = out@;
    push_header(out, COMM_NEW_ENEMY);
    out.push(COMMA);
    push_decimal(out, p.id);
    out.push(COMMA);
    push_bytes(out, p.name.as_str().as_bytes());
    out.push(COMMA);
    push_nodes(out, &p.snake.nodes);
    assert(out@ =~= start + enemy_text(*p));
}

/// `$5,<id>,<name>,<nodes>` for `p`.
pub fn enemy_message(p: &Player) -> (r: Vec<u8>)
    ensures
        r@ == enemy_text(*p),
{
    let mut r: Vec<u8> = Vec::new();
    push_enemy(&mut r, p);
    assert(r@ =~= enemy_text(*p));
    r
}

} // verus!
