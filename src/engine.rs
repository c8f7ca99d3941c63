use vstd::prelude::*;

use crate::bait::{death_burst, generate_bait, generate_mass_bait, random_bait, Bait};
use crate::constants::{
    ACCELERATE_BAIT_SIZE, BAIT_MARGIN, INACTIVITY_TIMEOUT_SECS, MAX_BAITS, MAX_BAIT_COLOR_RANGE, OFFSET_X, SNAKE_INITIAL_LENGTH,
    SNAKE_HALF_SIZE, SNAKE_HIT_HALF_SIZE, SNAKE_IT_IS_TIME_TO_SHORTER, SNAKE_MAX_LENGTH, TRUE_MAP_WIDTH,
};
use crate::player::{same_but_snake, Player};
use crate::random::random_between;
use crate::snake::{
    base_speed, grown, in_play_area, moved_nodes, same_but_nodes, same_settings, shortened, Snake,
    SnakeNode,
};
use crate::world::{
    bait_fits, clone_bytes, distinct_addrs, dropped, kept, marked_addrs, marked_ids,
    placed, Outgoing, World,
};
use crate::player::PeerAddr;
use crate::collision::{rect_intersect, rects_meet, square, square_spec, Rect};
use crate::codec::{
    baits_text, encode_baits, encode_ids, encode_snake, header, id_text, ids_text, snake_message, nodes_text, push_header, push_id, push_nodes,
    COMMA, COMM_DEAD_ENEMY, COMM_DIE, COMM_GROWN, COMM_UPDATE_ENEMY, COMM_UPDATE_SNAKE,
};

verus! {

/// The accelerate counter runs for this snake this tick.
pub open spec fn counting(s: Snake) -> bool {
    s.accelerate && s.nodes@.len() > SNAKE_INITIAL_LENGTH
}

/// This tick the counter reaches its period: the snake sheds its tail.
pub open spec fn sheds(s: Snake) -> bool {
    counting(s) && s.accelerate_time + 1 >= SNAKE_IT_IS_TIME_TO_SHORTER
}

pub open spec fn advanced_time(s: Snake) -> int {
    if sheds(s) {
        0
    } else if counting(s) {
        s.accelerate_time + 1
    } else {
        s.accelerate_time as int
    }
}

/// The nodes of `p`'s snake after its tick: shed if due, then moved toward
/// the player's aim point.
pub open spec fn advanced_nodes(p: Player) -> Seq<SnakeNode> {
    moved_nodes(
        if sheds(p.snake) {
            shortened(p.snake.nodes@)
        } else {
            p.snake.nodes@
        },
        p.move_x as int,
        p.move_y as int,
        p.window_w as int,
        p.window_h as int,
        base_speed(p.snake.accelerate),
    )
}

/// `b` is the bait dropped at `tail` by an accelerating snake.
pub open spec fn accel_drop(b: Bait, tail: SnakeNode) -> bool {
    &&& b.x == tail.x
    &&& b.y == tail.y
    &&& b.size == ACCELERATE_BAIT_SIZE
    &&& 0 <= b.color < MAX_BAIT_COLOR_RANGE
}

/// The tails dropped this tick, one per shedding player, in order.
pub open spec fn shed_tails(ps: Seq<Player>) -> Seq<SnakeNode>
    decreases ps.len(),
{
    if ps.len() == 0 {
        Seq::empty()
    } else {
        shed_tails(ps.drop_last()) + if sheds(ps.last().snake) {
            seq![ps.last().snake.nodes@.last()]
        } else {
            Seq::empty()
        }
    }
}

/// `q` is `p` after its tick.
pub open spec fn advanced(p: Player, q: Player) -> bool {
    &&& q.snake.nodes@ == advanced_nodes(p)
    &&& q.snake.accelerate_time == advanced_time(p.snake)
    &&& q.snake.accelerate == p.snake.accelerate
    &&& q.snake.current_angle == p.snake.current_angle
    &&& q.snake.rotate_angle == p.snake.rotate_angle
    &&& same_settings(p.snake, q.snake)
    &&& same_but_snake(p, q)
}

/// Drop and shrink if the accelerate counter is due, then move the snake.
pub fn advance_player(p: &mut Player, baits: &mut Vec<Bait>, new_baits: &mut Vec<Bait>)
    requires
        placed(old(p).snake),
    ensures
        advanced(*old(p), *final(p)),
        placed(final(p).snake),
        sheds(old(p).snake) ==> ({
            let b = final(baits)@.last();
            &&& final(baits)@ == old(baits)@.push(b)
            &&& final(new_baits)@ == old(new_baits)@.push(b)
            &&& accel_drop(b, old(p).snake.nodes@.last())
        }),
        !sheds(old(p).snake) ==> final(baits)@ == old(baits)@ && final(new_baits)@ == old(new_baits)@,
{
    let move_x = p.move_x;
    let move_y = p.move_y;
    let window_w = p.window_w;
    let window_h = p.window_h;
    let plr_snake = p.get_snake();
    if plr_snake.accelerate && plr_snake.nodes.len() > SNAKE_INITIAL_LENGTH {
        let next = plr_snake.accelerate_time as i64 + 1;
        if next < SNAKE_IT_IS_TIME_TO_SHORTER as i64 {
            plr_snake.accelerate_time = next as i32;
        } else {
            plr_snake.accelerate_time = 0;
            let last_node = plr_snake.nodes[plr_snake.nodes.len() - 1];
            let color = random_between(0, MAX_BAIT_COLOR_RANGE);
            let new_bait = Bait::new(last_node.x, last_node.y, color, ACCELERATE_BAIT_SIZE);
            baits.push(new_bait);
            new_baits.push(new_bait);
            plr_snake.shorter();
        }
    }
    plr_snake.move_snake(move_x, move_y, window_w, window_h);
}

/// Box of half-width `half` around a node.
pub open spec fn node_box(n: SnakeNode, half: int) -> Rect {
    square_spec(n.x as int, n.y as int, half)
}

/// Some node of `p`'s body touches the head of `o`.
pub open spec fn body_hits_head(p: Player, o: Player) -> bool {
    exists|k: int|
        0 <= k < p.snake.nodes@.len() && rects_meet(
            #[trigger] node_box(p.snake.nodes@[k], SNAKE_HIT_HALF_SIZE as int),
            node_box(o.snake.nodes@[0], SNAKE_HIT_HALF_SIZE as int),
        )
}

/// The players among the first `upto`, not already recorded in `d`, whose
/// head the body of player `p` touches.
pub open spec fn kills(ps: Seq<Player>, p: int, d: Seq<usize>, upto: int) -> Seq<usize>
    decreases upto,
{
    if upto <= 0 {
        Seq::empty()
    } else {
        kills(ps, p, d, upto - 1) + if upto - 1 != p && !d.contains((upto - 1) as usize) && body_hits_head(
            ps[p],
            ps[upto - 1],
        ) {
            seq![(upto - 1) as usize]
        } else {
            Seq::empty()
        }
    }
}

/// Deaths recorded while the first `upto` players are scanned: a player
/// already recorded dead is skipped, both as a scanner and as a victim, so
/// each player is recorded at most once.
pub open spec fn deaths(ps: Seq<Player>, upto: int) -> Seq<usize>
    decreases upto,
{
    if upto <= 0 {
        Seq::empty()
    } else {
        let d = deaths(ps, upto - 1);
        if d.contains((upto - 1) as usize) {
            d
        } else {
            d + kills(ps, upto - 1, d, ps.len() as int)
        }
    }
}

/// Number of death-burst baits for the recorded deaths.
pub open spec fn burst_total(ps: Seq<Player>, dead: Seq<usize>) -> nat
    decreases dead.len(),
{
    if dead.len() == 0 {
        0
    } else {
        burst_total(ps, dead.drop_last()) + ps[dead.last() as int].snake.nodes@.len() / 2
    }
}

/// `added` is, in order, one death burst (see `death_burst`) for each
/// recorded death in `dead`.
pub open spec fn bursts(ps: Seq<Player>, dead: Seq<usize>, added: Seq<Bait>) -> bool
    decreases dead.len(),
{
    if dead.len() == 0 {
        added.len() == 0
    } else {
        let nodes = ps[dead.last() as int].snake.nodes@;
        let cut = added.len() - nodes.len() / 2;
        &&& cut >= 0
        &&& bursts(ps, dead.drop_last(), added.take(cut))
        &&& death_burst(added.skip(cut), nodes)
    }
}

/// Every recorded death is a player index.
pub open spec fn indices_in(dead: Seq<usize>, n: int) -> bool {
    forall|k: int| 0 <= k < dead.len() ==> #[trigger] dead[k] < n
}

proof fn lemma_kills_in(ps: Seq<Player>, p: int, d: Seq<usize>, upto: int)
    requires
        upto <= ps.len() <= usize::MAX,
    ensures
        indices_in(kills(ps, p, d, upto), ps.len() as int),
        forall|k: int| 0 <= k < kills(ps, p, d, upto).len() ==> #[trigger] kills(ps, p, d, upto)[k] < upto,
        forall|k: int| 0 <= k < kills(ps, p, d, upto).len() ==> !d.contains(#[trigger] kills(ps, p, d, upto)[k]),
        kills(ps, p, d, upto).no_duplicates(),
    decreases upto,
{
    if upto > 0 {
        lemma_kills_in(ps, p, d, upto - 1);
        let prev = kills(ps, p, d, upto - 1);
        let all = kills(ps, p, d, upto);
        let tail = if upto - 1 != p && !d.contains((upto - 1) as usize) && body_hits_head(ps[p], ps[upto - 1]) {
            seq![(upto - 1) as usize]
        } else {
            Seq::empty()
        };
        assert(all == prev + tail);
        assert forall|a: int, b: int| 0 <= a < b < all.len() implies all[a] != all[b] by {
            if b >= prev.len() {
                assert(all[b] == tail[b - prev.len()]);
                assert(all[a] == prev[a]);
                assert(prev[a] < upto - 1);
            } else {
                assert(all[a] == prev[a] && all[b] == prev[b]);
            }
        }
    }
}

proof fn lemma_deaths_in(ps: Seq<Player>, upto: int)
    requires
        upto <= ps.len() <= usize::MAX,
    ensures
        indices_in(deaths(ps, upto), ps.len() as int),
        deaths(ps, upto).no_duplicates(),
    decreases upto,
{
    if upto > 0 {
        lemma_deaths_in(ps, upto - 1);
        let d = deaths(ps, upto - 1);
        lemma_kills_in(ps, upto - 1, d, ps.len() as int);
        let k = kills(ps, upto - 1, d, ps.len() as int);
        if !d.contains((upto - 1) as usize) {
            assert forall|a: int, b: int| 0 <= a < b < (d + k).len() implies (d + k)[a] != (d + k)[b] by {
                if b >= d.len() && a < d.len() {
                    assert(!d.contains(k[b - d.len()]));
                    assert(d[a] == (d + k)[a]);
                }
            }
        }
    }
}

/// Whether some node of `p`'s body touches the head of `o`.
pub fn body_hits(p: &Player, o: &Player) -> (r: bool)
    requires
        placed(p.snake),
        placed(o.snake),
    ensures
        r == body_hits_head(*p, *o),
{
    let head = o.snake.nodes[0];
    let head_box = square(head.x, head.y, SNAKE_HIT_HALF_SIZE);
    let mut k: usize = 0;
    while k < p.snake.nodes.len()
        invariant
            placed(p.snake),
            head_box == node_box(o.snake.nodes@[0], SNAKE_HIT_HALF_SIZE as int),
            k <= p.snake.nodes@.len(),
            forall|j: int|
                0 <= j < k ==> !rects_meet(
                    #[trigger] node_box(p.snake.nodes@[j], SNAKE_HIT_HALF_SIZE as int),
                    head_box,
                ),
        decreases p.snake.nodes@.len() - k,
    {
        let node = p.snake.nodes[k];
        assert(in_play_area(p.snake.nodes@[k as int]));
        let node_rect = square(node.x, node.y, SNAKE_HIT_HALF_SIZE);
        if rect_intersect(&node_rect, &head_box) {
            assert(rects_meet(node_box(p.snake.nodes@[k as int], SNAKE_HIT_HALF_SIZE as int), head_box));
            return true;
        }
        k = k + 1;
    }
    false
}

fn contains_index(v: &Vec<usize>, x: usize) -> (r: bool)
    ensures
        r == v@.contains(x),
{
    let mut i: usize = 0;
    while i < v.len()
        invariant
            i <= v@.len(),
            forall|k: int| 0 <= k < i ==> v@[k] != x,
        decreases v@.len() - i,
    {
        if v[i] == x {
            assert(v@[i as int] == x);
            return true;
        }
        i = i + 1;
    }
    false
}

/// The head of `p` touches bait `b`.
pub open spec fn eats(p: Player, b: Bait) -> bool {
    rects_meet(
        node_box(p.snake.nodes@[0], SNAKE_HALF_SIZE as int),
        square_spec(b.x as int, b.y as int, (b.size / 2) as int),
    )
}

/// How many baits of `bs` the head of `p` touches.
pub open spec fn eat_count(p: Player, bs: Seq<Bait>) -> nat
    decreases bs.len(),
{
    if bs.len() == 0 {
        0
    } else {
        eat_count(p, bs.drop_last()) + if eats(p, bs.last()) {
            1nat
        } else {
            0
        }
    }
}

/// `nodes` grown `k` times.
pub open spec fn grow_times(nodes: Seq<SnakeNode>, k: nat) -> Seq<SnakeNode>
    decreases k,
{
    if k == 0 {
        nodes
    } else {
        grown(grow_times(nodes, (k - 1) as nat))
    }
}

pub open spec fn eaten_by_any(ps: Seq<Player>, b: Bait) -> bool {
    exists|i: int| 0 <= i < ps.len() && eats(ps[i], b)
}

/// The baits of `bs` that some head touches (`keep == false`), or those that
/// none touches (`keep == true`), in order.
pub open spec fn sift(ps: Seq<Player>, bs: Seq<Bait>, keep: bool) -> Seq<Bait>
    decreases bs.len(),
{
    if bs.len() == 0 {
        Seq::empty()
    } else {
        sift(ps, bs.drop_last(), keep) + if eaten_by_any(ps, bs.last()) != keep {
            seq![bs.last()]
        } else {
            Seq::empty()
        }
    }
}

/// One id per bait eaten, player by player.
pub open spec fn grown_ids(ps: Seq<Player>, bs: Seq<Bait>) -> Seq<u128>
    decreases ps.len(),
{
    if ps.len() == 0 {
        Seq::empty()
    } else {
        grown_ids(ps.drop_last(), bs) + Seq::new(eat_count(ps.last(), bs), |_i: int| ps.last().id)
    }
}

/// `q` is `p` after eating every bait of `bs` its head touches.
pub open spec fn fed(p: Player, q: Player, bs: Seq<Bait>) -> bool {
    &&& q.snake.nodes@ == grow_times(p.snake.nodes@, eat_count(p, bs))
    &&& same_but_nodes(p.snake, q.snake)
    &&& same_but_snake(p, q)
}

proof fn lemma_grown_placed(nodes: Seq<SnakeNode>)
    requires
        1 <= nodes.len() <= SNAKE_MAX_LENGTH,
        forall|i: int| 0 <= i < nodes.len() ==> in_play_area(#[trigger] nodes[i]),
    ensures
        1 <= grown(nodes).len() <= SNAKE_MAX_LENGTH,
        grown(nodes)[0] == nodes[0],
        forall|i: int| 0 <= i < grown(nodes).len() ==> in_play_area(#[trigger] grown(nodes)[i]),
{
    if nodes.len() < SNAKE_MAX_LENGTH {
        assert(in_play_area(nodes[nodes.len() - 1]));
    }
}

/// Sessions silent for more than `timeout_secs` whole seconds at `now`.
pub open spec fn inactive(p: Player, timeout_secs: u64, now: u64) -> bool {
    now >= p.last_seen && (now - p.last_seen) / 1000 > timeout_secs
}

/// `$6,<id>,<nodes>` for every player of `ps` but `me`, concatenated.
pub open spec fn others_text(ps: Seq<Player>, me: int) -> Seq<u8>
    decreases ps.len(),
{
    if ps.len() == 0 {
        Seq::empty()
    } else {
        others_text(ps.drop_last(), me) + if ps.len() - 1 == me {
            Seq::empty()
        } else {
            id_text(COMM_UPDATE_ENEMY, ps.last().id) + seq![COMMA] + nodes_text(ps.last().snake.nodes@)
        }
    }
}

/// A message as its destination and its bytes.
pub open spec fn msg_view(o: Outgoing) -> (PeerAddr, Seq<u8>) {
    (o.to, o.bytes@)
}

pub open spec fn msgs(out: Seq<Outgoing>) -> Seq<(PeerAddr, Seq<u8>)> {
    out.map_values(|o: Outgoing| msg_view(o))
}

/// `bytes` to each player of `ps`, in order.
pub open spec fn to_all(ps: Seq<Player>, bytes: Seq<u8>) -> Seq<(PeerAddr, Seq<u8>)> {
    Seq::new(ps.len(), |i: int| (ps[i].addr, bytes))
}

/// Appends one message.
pub(crate) fn push_msg(out: &mut Vec<Outgoing>, to: PeerAddr, bytes: Vec<u8>)
    ensures
        msgs(final(out)@) == msgs(old(out)@).push((to, bytes@)),
        final(out)@.len() == old(out)@.len() + 1,
        final(out)@.take(old(out)@.len() as int) == old(out)@,
{
    let ghost b = bytes@;
    out.push(Outgoing { to, bytes });
    assert(msgs(out@) =~= msgs(old(out)@).push((to, b)));
    assert(out@.take(old(out)@.len() as int) =~= old(out)@);
}

/// Sends `bytes` to every player of `players`, in order.
pub fn broadcast(out: &mut Vec<Outgoing>, players: &Vec<Player>, bytes: &Vec<u8>)
    ensures
        msgs(final(out)@) == msgs(old(out)@) + to_all(players@, bytes@),
        final(out)@.len() == old(out)@.len() + players@.len(),
        final(out)@.take(old(out)@.len() as int) == old(out)@,
{
    let ghost o0 = out@;
    let mut i: usize = 0;
    while i < players.len()
        invariant
            i <= players@.len(),
            out@.len() == o0.len() + i,
            out@.take(o0.len() as int) == o0,
            msgs(out@) == msgs(o0) + to_all(players@.take(i as int), bytes@),
        decreases players@.len() - i,
    {
        let ghost before = out@;
        push_msg(out, players[i].addr, clone_bytes(bytes));
        proof {
            assert(out@.take(o0.len() as int) =~= o0) by {
                assert(out@.take(before.len() as int) == before);
            }
            assert(to_all(players@.take(i + 1), bytes@) =~= to_all(players@.take(i as int), bytes@).push(
                (players@[i as int].addr, bytes@),
            ));
        }
        i = i + 1;
    }
    assert(players@.take(players@.len() as int) =~= players@);
}

/// Stage 6 messages: to each player in turn, the deletions `del` and then
/// the growth notices `grown`, each only if not empty.
pub open spec fn notices(ps: Seq<Player>, del: Seq<u8>, grown: Seq<u8>) -> Seq<(PeerAddr, Seq<u8>)>
    decreases ps.len(),
{
    if ps.len() == 0 {
        Seq::empty()
    } else {
        let a = ps.last().addr;
        notices(ps.drop_last(), del, grown) + (if del.len() > 0 {
            seq![(a, del)]
        } else {
            Seq::empty()
        }) + (if grown.len() > 0 {
            seq![(a, grown)]
        } else {
            Seq::empty()
        })
    }
}

/// Stage 7 messages, first part: each player's own nodes.
pub open spec fn own_states(ps: Seq<Player>) -> Seq<(PeerAddr, Seq<u8>)> {
    Seq::new(ps.len(), |i: int| (ps[i].addr, snake_message(COMM_UPDATE_SNAKE, ps[i].snake.nodes@)))
}

/// Stage 7 messages, second part: to each of the first `upto` players that
/// has another player to see, every other player's nodes.
pub open spec fn enemy_states(ps: Seq<Player>, upto: int) -> Seq<(PeerAddr, Seq<u8>)>
    decreases upto,
{
    if upto <= 0 {
        Seq::empty()
    } else {
        enemy_states(ps, upto - 1) + if others_text(ps, upto - 1).len() > 0 {
            seq![(ps[upto - 1].addr, others_text(ps, upto - 1))]
        } else {
            Seq::empty()
        }
    }
}

/// Stages 6 to 8 messages for players `ps`.
pub open spec fn update_messages(
    ps: Seq<Player>,
    deleted: Seq<Bait>,
    grown_log: Seq<u128>,
    new_baits: Seq<Bait>,
) -> Seq<(PeerAddr, Seq<u8>)> {
    notices(ps, baits_text(deleted, true), ids_text(COMM_GROWN, grown_log)) + own_states(ps) + enemy_states(
        ps,
        ps.len() as int,
    ) + if new_baits.len() > 0 {
        to_all(ps, baits_text(new_baits, false))
    } else {
        Seq::empty()
    }
}

/// Stage 9 messages: `$7,<id>` to every player of `ps`, for each id.
pub open spec fn departures(ps: Seq<Player>, ids: Seq<u128>) -> Seq<(PeerAddr, Seq<u8>)>
    decreases ids.len(),
{
    if ids.len() == 0 {
        Seq::empty()
    } else {
        departures(ps, ids.drop_last()) + to_all(ps, id_text(COMM_DEAD_ENEMY, ids.last()))
    }
}

/// `$6,<id>,<nodes>` for every player but the one at `me`.
pub fn encode_others(players: &Vec<Player>, me: usize) -> (r: Vec<u8>)
    ensures
        r@ == others_text(players@, me as int),
{
    let mut r: Vec<u8> = Vec::new();
    let mut k: usize = 0;
    while k < players.len()
        invariant
            k <= players@.len(),
            r@ == others_text(players@.take(k as int), me as int),
        decreases players@.len() - k,
    {
        if k != me {
            push_id(&mut r, COMM_UPDATE_ENEMY, players[k].id);
            r.push(COMMA);
            push_nodes(&mut r, &players[k].snake.nodes);
        }
        proof {
            let t = players@.take(k + 1);
            assert(t.drop_last() =~= players@.take(k as int));
            assert(r@ =~= others_text(t, me as int));
        }
        k = k + 1;
    }
    assert(players@.take(players@.len() as int) =~= players@);
    r
}

/// Marks of the players recorded dead among `ps`.
pub open spec fn death_marks(ps: Seq<Player>) -> Seq<bool> {
    Seq::new(ps.len(), |i: int| deaths(ps, ps.len() as int).contains(i as usize))
}

/// Marks of the sessions of `ps` silent for too long at `now`.
pub open spec fn inactive_marks_spec(ps: Seq<Player>, now: u64) -> Seq<bool> {
    Seq::new(ps.len(), |i: int| inactive(ps[i], INACTIVITY_TIMEOUT_SECS, now))
}

/// Stage 3 and 4 messages: `$8` to each recorded death, then, if any, one
/// `$7,<id>` entry per recorded death to every survivor.
pub open spec fn death_messages(ps1: Seq<Player>) -> Seq<(PeerAddr, Seq<u8>)> {
    let dead = deaths(ps1, ps1.len() as int);
    Seq::new(dead.len(), |k: int| (ps1[dead[k] as int].addr, header(COMM_DIE))) + if dead.len() > 0 {
        to_all(
            kept(ps1, death_marks(ps1), 0),
            ids_text(COMM_DEAD_ENEMY, Seq::new(dead.len(), |k: int| ps1[dead[k] as int].id)),
        )
    } else {
        Seq::empty()
    }
}

/// The pool `bs1` after the spawn stages of a tick on players `ps0` and pool
/// `bs0`: `bs0`, then the trickle bait if the pool was under capacity, then
/// one dropped bait per shedding snake.
pub open spec fn spawned(ps0: Seq<Player>, bs0: Seq<Bait>, bs1: Seq<Bait>) -> bool {
    let t: int = if bs0.len() < MAX_BAITS {
        1
    } else {
        0
    };
    let shed = shed_tails(ps0);
    &&& bs1.len() == bs0.len() + t + shed.len()
    &&& bs1.take(bs0.len() as int) == bs0
    &&& t == 1 ==> random_bait(bs1[bs0.len() as int], OFFSET_X + BAIT_MARGIN, TRUE_MAP_WIDTH - BAIT_MARGIN)
    &&& forall|k: int| 0 <= k < shed.len() ==> accel_drop(#[trigger] bs1[bs0.len() + t + k], shed[k])
}

/// One tick takes players `ps0` and pool `bs0` to players `ps` and pool
/// `bs`, through the advanced players `ps1`, the pool `bs1` after spawning,
/// the pool `bs2` after the death bursts and the fed players `ps3`, sending
/// the messages `out`.
pub open spec fn tick_chain(
    ps0: Seq<Player>,
    bs0: Seq<Bait>,
    ps1: Seq<Player>,
    bs1: Seq<Bait>,
    bs2: Seq<Bait>,
    ps3: Seq<Player>,
    ps: Seq<Player>,
    bs: Seq<Bait>,
    out: Seq<Outgoing>,
    now: u64,
) -> bool {
    let dead = deaths(ps1, ps1.len() as int);
    let ps2 = kept(ps1, death_marks(ps1), 0);
    &&& ps1.len() == ps0.len()
    &&& forall|i: int| 0 <= i < ps0.len() ==> advanced(#[trigger] ps0[i], ps1[i])
    &&& spawned(ps0, bs0, bs1)
    &&& bs2.len() == bs1.len() + burst_total(ps1, dead)
    &&& bs2.take(bs1.len() as int) == bs1
    &&& dead.no_duplicates()
    &&& bursts(ps1, dead, bs2.skip(bs1.len() as int))
    &&& ps3.len() == ps2.len()
    &&& forall|i: int| 0 <= i < ps2.len() ==> fed(#[trigger] ps2[i], ps3[i], bs2)
    &&& bs == sift(ps2, bs2, true)
    &&& ps == kept(ps3, inactive_marks_spec(ps3, now), 0)
    &&& msgs(out) == death_messages(ps1) + update_messages(
        ps3,
        sift(ps2, bs2, false),
        grown_ids(ps2, bs2),
        bs2.skip(bs0.len() as int),
    ) + departures(ps, dropped(ps3, inactive_marks_spec(ps3, now), 0).map_values(|p: Player| p.id))
}

/// Marks, among `n` players, those whose index occurs in `dead`.
fn index_marks(n: usize, dead: &Vec<usize>) -> (marks: Vec<bool>)
    ensures
        marks@ == Seq::new(n as nat, |i: int| dead@.contains(i as usize)),
{
    let mut marks: Vec<bool> = Vec::new();
    let mut i: usize = 0;
    while i < n
        invariant
            i <= n,
            marks@ == Seq::new(i as nat, |k: int| dead@.contains(k as usize)),
        decreases n - i,
    {
        marks.push(contains_index(dead, i));
        i = i + 1;
        assert(marks@ =~= Seq::new(i as nat, |k: int| dead@.contains(k as usize)));
    }
    marks
}

/// The ids of the players at the indices of `dead`, in order.
fn ids_at(players: &Vec<Player>, dead: &Vec<usize>) -> (ids: Vec<u128>)
    requires
        indices_in(dead@, players@.len() as int),
    ensures
        ids@ == Seq::new(dead@.len(), |k: int| players@[dead@[k] as int].id),
{
    let mut ids: Vec<u128> = Vec::new();
    let mut k: usize = 0;
    while k < dead.len()
        invariant
            indices_in(dead@, players@.len() as int),
            k <= dead@.len(),
            ids@ == Seq::new(k as nat, |m: int| players@[dead@[m] as int].id),
        decreases dead@.len() - k,
    {
        assert(dead@[k as int] < players@.len());
        ids.push(players[dead[k]].id);
        k = k + 1;
        assert(ids@ =~= Seq::new(k as nat, |m: int| players@[dead@[m] as int].id));
    }
    ids
}

proof fn lemma_accelerate_counts(ps: Seq<Player>, k: int)
    requires
        ps.len() == SNAKE_IT_IS_TIME_TO_SHORTER + 1,
        forall|j: int| 0 <= j < SNAKE_IT_IS_TIME_TO_SHORTER ==> advanced(#[trigger] ps[j], ps[j + 1]),
        ps[0].snake.accelerate,
        ps[0].snake.accelerate_time == 0,
        ps[0].snake.nodes@.len() > SNAKE_INITIAL_LENGTH,
        0 <= k < SNAKE_IT_IS_TIME_TO_SHORTER,
    ensures
        ps[k].snake.accelerate,
        ps[k].snake.accelerate_time == k,
        ps[k].snake.nodes@.len() == ps[0].snake.nodes@.len(),
    decreases k,
{
    if k > 0 {
        lemma_accelerate_counts(ps, k - 1);
        assert(advanced(ps[k - 1], ps[k]));
    }
}

/// A player accelerating from a zero counter with more than
/// `SNAKE_INITIAL_LENGTH` nodes, advanced tick after tick (no bait eaten,
/// no death), keeps its length and does not shed for the first
/// `SNAKE_IT_IS_TIME_TO_SHORTER - 1` ticks; on the
/// `SNAKE_IT_IS_TIME_TO_SHORTER`-th it sheds (dropping a bait at its tail,
/// see `shed_tails`), loses exactly one node and its counter is back at zero.
pub proof fn lemma_accelerate_sheds_once(ps: Seq<Player>)
    requires
        ps.len() == SNAKE_IT_IS_TIME_TO_SHORTER + 1,
        forall|j: int| 0 <= j < SNAKE_IT_IS_TIME_TO_SHORTER ==> advanced(#[trigger] ps[j], ps[j + 1]),
        ps[0].snake.accelerate,
        ps[0].snake.accelerate_time == 0,
        ps[0].snake.nodes@.len() > SNAKE_INITIAL_LENGTH,
    ensures
        forall|k: int|
            0 <= k < SNAKE_IT_IS_TIME_TO_SHORTER ==> (#[trigger] ps[k]).snake.nodes@.len()
                == ps[0].snake.nodes@.len(),
        forall|k: int| 0 <= k < SNAKE_IT_IS_TIME_TO_SHORTER - 1 ==> !sheds(#[trigger] ps[k].snake),
        sheds(ps[SNAKE_IT_IS_TIME_TO_SHORTER - 1].snake),
        ps[SNAKE_IT_IS_TIME_TO_SHORTER as int].snake.nodes@.len() == ps[0].snake.nodes@.len() - 1,
        ps[SNAKE_IT_IS_TIME_TO_SHORTER as int].snake.accelerate_time == 0,
{
    assert forall|k: int| 0 <= k < SNAKE_IT_IS_TIME_TO_SHORTER implies (#[trigger] ps[k]).snake.nodes@.len()
        == ps[0].snake.nodes@.len() by {
        lemma_accelerate_counts(ps, k);
    }
    assert forall|k: int| 0 <= k < SNAKE_IT_IS_TIME_TO_SHORTER - 1 implies !sheds(#[trigger] ps[k].snake) by {
        lemma_accelerate_counts(ps, k);
    }
    let last = SNAKE_IT_IS_TIME_TO_SHORTER - 1;
    lemma_accelerate_counts(ps, last as int);
    assert(advanced(ps[last as int], ps[last + 1]));
}

impl World {
    /// Adds one drawn bait inside the map, `BAIT_MARGIN` from its edges,
    /// when the pool holds fewer than `MAX_BAITS`; otherwise adds nothing.
    pub fn trickle_spawn(&mut self, new_baits: &mut Vec<Bait>)
        requires
            old(self).wf(),
        ensures
            final(self).wf(),
            final(self).players@ == old(self).players@,
            old(self).baits@.len() < MAX_BAITS ==> ({
                let b = final(self).baits@.last();
                &&& final(self).baits@ == old(self).baits@.push(b)
                &&& final(new_baits)@ == old(new_baits)@.push(b)
                &&& random_bait(b, OFFSET_X + BAIT_MARGIN, TRUE_MAP_WIDTH - BAIT_MARGIN)
            }),
            old(self).baits@.len() >= MAX_BAITS ==> final(self).baits@ == old(self).baits@
                && final(new_baits)@ == old(new_baits)@,
            old(self).baits@.len() < MAX_BAITS ==> final(self).baits@.len() <= MAX_BAITS,
    {
        if self.baits.len() < MAX_BAITS {
            let b = generate_bait(OFFSET_X + BAIT_MARGIN, TRUE_MAP_WIDTH - BAIT_MARGIN);
            self.baits.push(b);
            new_baits.push(b);
            assert(self.baits@.last() == b);
        }
    }

    /// Runs `advance_player` on every player, in order.
    pub fn advance_players(&mut self, new_baits: &mut Vec<Bait>)
        requires
            old(self).wf(),
        ensures
            final(self).wf(),
            final(self).players@.len() == old(self).players@.len(),
            forall|i: int|
                0 <= i < old(self).players@.len() ==> advanced(
                    #[trigger] old(self).players@[i],
                    final(self).players@[i],
                ),
            final(self).baits@.len() == old(self).baits@.len() + shed_tails(old(self).players@).len(),
            final(self).baits@.take(old(self).baits@.len() as int) == old(self).baits@,
            forall|k: int|
                0 <= k < shed_tails(old(self).players@).len() ==> accel_drop(
                    #[trigger] final(self).baits@[old(self).baits@.len() + k],
                    shed_tails(old(self).players@)[k],
                ),
            final(new_baits)@ == old(new_baits)@ + final(self).baits@.skip(old(self).baits@.len() as int),
    {
        let ghost ps = self.players@;
        let ghost bs = self.baits@;
        let ghost nb = new_baits@;
        let n = self.players.len();
        let mut i: usize = 0;
        while i < n
            invariant
                n == ps.len(),
                i <= n,
                self.players@.len() == n,
                forall|k: int| 0 <= k < i ==> advanced(#[trigger] ps[k], self.players@[k]),
                forall|k: int| i <= k < n ==> #[trigger] self.players@[k] == ps[k],
                forall|k: int| 0 <= k < n ==> placed(#[trigger] self.players@[k].snake),
                crate::world::distinct_addrs(self.players@),
                forall|j: int| 0 <= j < self.baits@.len() ==> bait_fits(#[trigger] self.baits@[j]),
                self.baits@.len() == bs.len() + shed_tails(ps.take(i as int)).len(),
                self.baits@.take(bs.len() as int) == bs,
                forall|k: int|
                    0 <= k < shed_tails(ps.take(i as int)).len() ==> accel_drop(
                        #[trigger] self.baits@[bs.len() + k],
                        shed_tails(ps.take(i as int))[k],
                    ),
                new_baits@ == nb + self.baits@.skip(bs.len() as int),
            decreases n - i,
        {
            let ghost before = self.baits@;
            let ghost before_players = self.players@;
            advance_player(&mut self.players[i], &mut self.baits, new_baits);
            proof {
                let t = ps.take(i + 1);
                assert(t.drop_last() =~= ps.take(i as int));
                assert(t.last() == ps[i as int]);
                assert forall|a: int, b: int|
                    0 <= a < self.players@.len() && 0 <= b < self.players@.len() && a != b implies
                    self.players@[a].addr != self.players@[b].addr by {
                    assert(before_players[a].addr != before_players[b].addr);
                }
                assert(self.baits@.skip(bs.len() as int) =~= before.skip(bs.len() as int) + self.baits@.skip(before.len() as int));
                assert(self.baits@.take(bs.len() as int) =~= bs);
            }
            i = i + 1;
        }
        assert(ps.take(n as int) =~= ps);
    }

    /// The deaths of this tick, in the order they are recorded (see
    /// `deaths`): a snake dies when its head touches another player's body.
    pub fn find_deaths(&self) -> (dead: Vec<usize>)
        requires
            self.wf(),
        ensures
            dead@ == deaths(self.players@, self.players@.len() as int),
            indices_in(dead@, self.players@.len() as int),
            dead@.no_duplicates(),
    {
        let ghost ps = self.players@;
        let n = self.players.len();
        let mut dead: Vec<usize> = Vec::new();
        let mut i: usize = 0;
        while i < n
            invariant
                self.wf(),
                ps == self.players@,
                n == ps.len(),
                i <= n,
                dead@ == deaths(ps, i as int),
            decreases n - i,
        {
            if !contains_index(&dead, i) {
                let ghost d0 = dead@;
                let mut j: usize = 0;
                while j < n
                    invariant
                        self.wf(),
                        ps == self.players@,
                        n == ps.len(),
                        i < n,
                        j <= n,
                        dead@ == d0 + kills(ps, i as int, d0, j as int),
                    decreases n - j,
                {
                    proof {
                        lemma_kills_in(ps, i as int, d0, j as int);
                        let k = kills(ps, i as int, d0, j as int);
                        if dead@.contains(j) {
                            let m = choose|m: int| 0 <= m < dead@.len() && dead@[m] == j;
                            if m >= d0.len() {
                                assert(k[m - d0.len()] < j);
                            }
                        }
                        if d0.contains(j) {
                            let m = choose|m: int| 0 <= m < d0.len() && d0[m] == j;
                            assert(dead@[m] == j);
                        }
                    }
                    if j != i && !contains_index(&dead, j) && body_hits(&self.players[i], &self.players[j]) {
                        dead.push(j);
                    }
                    proof {
                        assert(dead@ =~= d0 + kills(ps, i as int, d0, j + 1));
                    }
                    j = j + 1;
                }
            }
            i = i + 1;
        }
        proof {
            lemma_deaths_in(ps, n as int);
        }
        dead
    }

    /// For each recorded death, in order: the death burst of the dead snake
    /// goes into the pool (and into `new_baits`), and its client is sent
    /// `$8`.
    pub fn apply_deaths(&mut self, dead: &Vec<usize>, new_baits: &mut Vec<Bait>, out: &mut Vec<Outgoing>)
        requires
            old(self).wf(),
            indices_in(dead@, old(self).players@.len() as int),
        ensures
            final(self).wf(),
            final(self).players@ == old(self).players@,
            final(self).baits@.len() == old(self).baits@.len() + burst_total(old(self).players@, dead@),
            final(self).baits@.take(old(self).baits@.len() as int) == old(self).baits@,
            bursts(old(self).players@, dead@, final(self).baits@.skip(old(self).baits@.len() as int)),
            final(new_baits)@ == old(new_baits)@ + final(self).baits@.skip(old(self).baits@.len() as int),
            final(out)@.len() == old(out)@.len() + dead@.len(),
            final(out)@.take(old(out)@.len() as int) == old(out)@,
            forall|k: int|
                0 <= k < dead@.len() ==> (#[trigger] final(out)@[old(out)@.len() + k]).to
                    == old(self).players@[dead@[k] as int].addr && final(out)@[old(out)@.len() + k].bytes@
                    == header(COMM_DIE),
    {
        let ghost bs = self.baits@;
        let ghost nb = new_baits@;
        let ghost o0 = out@;
        let mut k: usize = 0;
        while k < dead.len()
            invariant
                self.wf(),
                indices_in(dead@, self.players@.len() as int),
                self.players@ == old(self).players@,
                k <= dead@.len(),
                self.baits@.len() == bs.len() + burst_total(self.players@, dead@.take(k as int)),
                self.baits@.take(bs.len() as int) == bs,
                bursts(self.players@, dead@.take(k as int), self.baits@.skip(bs.len() as int)),
                new_baits@ == nb + self.baits@.skip(bs.len() as int),
                out@.len() == o0.len() + k,
                out@.take(o0.len() as int) == o0,
                forall|m: int|
                    0 <= m < k ==> (#[trigger] out@[o0.len() + m]).to == self.players@[dead@[m] as int].addr
                        && out@[o0.len() + m].bytes@ == header(COMM_DIE),
            decreases dead@.len() - k,
        {
            let d = dead[k];
            assert(dead@[k as int] < self.players@.len());
            let burst = generate_mass_bait(&self.players[d].snake);
            let ghost before = self.baits@;
            let mut m: usize = 0;
            while m < burst.len()
                invariant
                    self.wf(),
                    self.players@ == old(self).players@,
                    death_burst(burst@, self.players@[d as int].snake.nodes@),
                    placed(self.players@[d as int].snake),
                    m <= burst@.len(),
                    self.baits@ == before + burst@.take(m as int),
                    new_baits@ == nb + self.baits@.skip(bs.len() as int),
                    before.len() >= bs.len(),
                decreases burst@.len() - m,
            {
                let b = burst[m];
                proof {
                    let nodes = self.players@[d as int].snake.nodes@;
                    assert(crate::bait::death_bait_at(burst@[m as int], nodes, m as int, burst@[0].color as int));
                    assert(in_play_area(nodes[2 * m]));
                }
                let ghost cur = self.baits@;
                self.baits.push(b);
                new_baits.push(b);
                proof {
                    assert(self.baits@ =~= before + burst@.take(m + 1));
                    assert(self.baits@.skip(bs.len() as int) =~= cur.skip(bs.len() as int).push(b));
                }
                m = m + 1;
            }
            let mut msg: Vec<u8> = Vec::new();
            push_header(&mut msg, COMM_DIE);
            out.push(Outgoing { to: self.players[d].addr, bytes: msg });
            proof {
                assert(dead@.take(k + 1).drop_last() =~= dead@.take(k as int));
                assert(burst@.take(burst@.len() as int) =~= burst@);
                let x = before.skip(bs.len() as int);
                let added = self.baits@.skip(bs.len() as int);
                assert(added =~= x + burst@);
                assert(added.take(x.len() as int) =~= x);
                assert(added.skip(x.len() as int) =~= burst@);
                assert(dead@.take(k + 1).last() == d);
                assert(self.baits@.take(bs.len() as int) =~= bs);
                assert(out@.take(o0.len() as int) =~= o0);
            }
            k = k + 1;
        }
        assert(dead@.take(dead@.len() as int) =~= dead@);
    }

    /// Every player eats, against the pool as it stands, each bait that its
    /// head touches: it grows once per bait and its id is recorded once per
    /// bait. Eaten baits leave the pool once each, after every player has
    /// eaten; they are returned in pool order.
    pub fn eat_baits(&mut self, grown_log: &mut Vec<u128>) -> (deleted: Vec<Bait>)
        requires
            old(self).wf(),
        ensures
            final(self).wf(),
            final(self).players@.len() == old(self).players@.len(),
            forall|i: int|
                0 <= i < old(self).players@.len() ==> fed(
                    #[trigger] old(self).players@[i],
                    final(self).players@[i],
                    old(self).baits@,
                ),
            final(self).baits@ == sift(old(self).players@, old(self).baits@, true),
            deleted@ == sift(old(self).players@, old(self).baits@, false),
            final(grown_log)@ == old(grown_log)@ + grown_ids(old(self).players@, old(self).baits@),
    {
        let ghost ps = self.players@;
        let ghost bs = self.baits@;
        let ghost g0 = grown_log@;
        let n = self.players.len();
        let nb = self.baits.len();
        let mut marks: Vec<bool> = Vec::new();
        let mut j: usize = 0;
        while j < nb
            invariant
                nb == bs.len(),
                j <= nb,
                marks@.len() == j,
                forall|m: int| 0 <= m < j ==> !#[trigger] marks@[m],
            decreases nb - j,
        {
            marks.push(false);
            j = j + 1;
        }
        let mut i: usize = 0;
        while i < n
            invariant
                n == ps.len(),
                nb == bs.len(),
                self.baits@ == bs,
                i <= n,
                self.players@.len() == n,
                marks@.len() == nb,
                forall|k: int| 0 <= k < i ==> fed(#[trigger] ps[k], self.players@[k], bs),
                forall|k: int| i <= k < n ==> #[trigger] self.players@[k] == ps[k],
                forall|k: int| 0 <= k < n ==> placed(#[trigger] self.players@[k].snake),
                forall|k: int| 0 <= k < n ==> (#[trigger] self.players@[k]).snake.nodes@[0] == ps[k].snake.nodes@[0],
                distinct_addrs(self.players@),
                forall|m: int| 0 <= m < nb ==> bait_fits(#[trigger] bs[m]),
                forall|m: int|
                    0 <= m < nb ==> #[trigger] marks@[m] == exists|k: int| 0 <= k < i && eats(ps[k], bs[m]),
                grown_log@ == g0 + grown_ids(ps.take(i as int), bs),
            decreases n - i,
        {
            let head = self.players[i].snake.nodes[0];
            proof {
                assert(placed(self.players@[i as int].snake));
                assert(in_play_area(self.players@[i as int].snake.nodes@[0]));
            }
            let head_box = square(head.x, head.y, SNAKE_HALF_SIZE);
            let ghost g1 = grown_log@;
            let mut j: usize = 0;
            while j < nb
                invariant
                    n == ps.len(),
                    nb == bs.len(),
                    self.baits@ == bs,
                    i < n,
                    j <= nb,
                    self.players@.len() == n,
                    marks@.len() == nb,
                    head == ps[i as int].snake.nodes@[0],
                    head_box == node_box(head, SNAKE_HALF_SIZE as int),
                    forall|k: int| 0 <= k < i ==> fed(#[trigger] ps[k], self.players@[k], bs),
                    forall|k: int| i < k < n ==> #[trigger] self.players@[k] == ps[k],
                    self.players@[i as int].snake.nodes@ == grow_times(
                        ps[i as int].snake.nodes@,
                        eat_count(ps[i as int], bs.take(j as int)),
                    ),
                    same_but_nodes(ps[i as int].snake, self.players@[i as int].snake),
                    same_but_snake(ps[i as int], self.players@[i as int]),
                    forall|k: int| 0 <= k < n ==> placed(#[trigger] self.players@[k].snake),
                    forall|k: int|
                        0 <= k < n ==> (#[trigger] self.players@[k]).snake.nodes@[0] == ps[k].snake.nodes@[0],
                    distinct_addrs(self.players@),
                    forall|m: int| 0 <= m < nb ==> bait_fits(#[trigger] bs[m]),
                    forall|m: int|
                        0 <= m < j ==> #[trigger] marks@[m] == exists|k: int| 0 <= k <= i && eats(ps[k], bs[m]),
                    forall|m: int|
                        j <= m < nb ==> #[trigger] marks@[m] == exists|k: int| 0 <= k < i && eats(ps[k], bs[m]),
                    grown_log@ == g1 + Seq::new(eat_count(ps[i as int], bs.take(j as int)), |_m: int| ps[i as int].id),
                decreases nb - j,
            {
                let b = self.baits[j];
                let bait_rect = square(b.x, b.y, b.size / 2);
                let ghost before_players = self.players@;
                let hit = rect_intersect(&head_box, &bait_rect);
                proof {
                    assert(bs.take(j + 1).drop_last() =~= bs.take(j as int));
                    assert(bs.take(j + 1).last() == bs[j as int]);
                    assert(hit == eats(ps[i as int], bs[j as int]));
                }
                if hit {
                    let id = self.players[i].id;
                    proof {
                        lemma_grown_placed(self.players@[i as int].snake.nodes@);
                    }
                    self.players[i].grow_player_snake();
                    marks.set(j, true);
                    grown_log.push(id);
                    proof {
                        assert(grown_log@ =~= g1 + Seq::new(eat_count(ps[i as int], bs.take(j + 1)), |_m: int| ps[i as int].id));
                    }
                }
                proof {
                    assert forall|a: int, c: int|
                        0 <= a < self.players@.len() && 0 <= c < self.players@.len() && a != c implies
                        self.players@[a].addr != self.players@[c].addr by {
                        assert(before_players[a].addr != before_players[c].addr);
                    }
                    if !hit {
                        assert(grown_log@ =~= g1 + Seq::new(eat_count(ps[i as int], bs.take(j + 1)), |_m: int| ps[i as int].id));
                    }
                    assert forall|m: int| 0 <= m < j + 1 implies #[trigger] marks@[m] == exists|k: int| 0 <= k <= i && eats(ps[k], bs[m]) by {
                        if m == j {
                            if !hit {
                                if exists|k: int| 0 <= k <= i && eats(ps[k], bs[m]) {
                                    let k = choose|k: int| 0 <= k <= i && eats(ps[k], bs[m]);
                                    if k < i {
                                        assert(exists|k2: int| 0 <= k2 < i && eats(ps[k2], bs[m]));
                                    }
                                }
                            }
                        }
                    }
                }
                j = j + 1;
            }
            proof {
                assert(bs.take(nb as int) =~= bs);
                let t = ps.take(i + 1);
                assert(t.drop_last() =~= ps.take(i as int));
                assert(grown_log@ =~= g0 + grown_ids(t, bs));
            }
            i = i + 1;
        }
        assert(ps.take(n as int) =~= ps);
        let mut kept: Vec<Bait> = Vec::new();
        let mut deleted: Vec<Bait> = Vec::new();
        let mut j: usize = 0;
        while j < nb
            invariant
                nb == bs.len(),
                n == ps.len(),
                self.baits@ == bs,
                j <= nb,
                marks@.len() == nb,
                forall|m: int| 0 <= m < nb ==> #[trigger] marks@[m] == eaten_by_any(ps, bs[m]),
                kept@ == sift(ps, bs.take(j as int), true),
                deleted@ == sift(ps, bs.take(j as int), false),
                forall|m: int| 0 <= m < kept@.len() ==> bait_fits(#[trigger] kept@[m]),
                forall|m: int| 0 <= m < nb ==> bait_fits(#[trigger] bs[m]),
            decreases nb - j,
        {
            let b = self.baits[j];
            if marks[j] {
                deleted.push(b);
            } else {
                kept.push(b);
            }
            proof {
                let t = bs.take(j + 1);
                assert(t.drop_last() =~= bs.take(j as int));
                assert(t.last() == bs[j as int]);
            }
            j = j + 1;
        }
        assert(bs.take(nb as int) =~= bs);
        self.baits = kept;
        deleted
    }

    /// Removes the sessions silent for more than `timeout_secs` seconds at
    /// `now` and returns their addresses, in registry order.
    pub fn clean_inactive_players(&mut self, timeout_secs: u64, now: u64) -> (gone: Vec<PeerAddr>)
        requires
            old(self).wf(),
        ensures
            final(self).wf(),
            final(self).baits@ == old(self).baits@,
            final(self).players@ == kept(
                old(self).players@,
                Seq::new(old(self).players@.len(), |i: int| inactive(old(self).players@[i], timeout_secs, now)),
                0,
            ),
            gone@ == dropped(
                old(self).players@,
                Seq::new(old(self).players@.len(), |i: int| inactive(old(self).players@[i], timeout_secs, now)),
                0,
            ).map_values(|p: Player| p.addr),
    {
        let marks = self.inactive_marks(timeout_secs, now);
        let gone = marked_addrs(&self.players, &marks);
        self.remove_players(&marks);
        gone
    }

    /// One tick of the game, at time `now` (milliseconds). The stages run in
    /// order, each seeing the previous one's result:
    /// 1. `trickle_spawn`;
    /// 2. `advance_players`;
    /// 3. `find_deaths` and `apply_deaths` (death bursts, `$8` to the dead);
    /// 4. the dead sessions are removed and the survivors get one `$7,<id>`
    ///    entry per recorded death;
    /// 5. `eat_baits`;
    /// 6. each player gets the `$4` deletions and the `$62` growth notices;
    /// 7. each player gets its own nodes (`$2`), then every other player's
    ///    (`$6`);
    /// 8. each player gets the baits created this tick (`$3`);
    /// 9. sessions silent for over `INACTIVITY_TIMEOUT_SECS` are removed and
    ///    each survivor gets `$7,<id>` for every one of them.
    /// Messages with nothing to carry are not sent. `tick_chain` states the
    /// resulting state.
    pub fn tick(&mut self, now: u64) -> (out: Vec<Outgoing>)
        requires
            old(self).wf(),
        ensures
            final(self).wf(),
            exists|ps1: Seq<Player>, bs1: Seq<Bait>, bs2: Seq<Bait>, ps3: Seq<Player>|
                #[trigger] tick_chain(
                    old(self).players@,
                    old(self).baits@,
                    ps1,
                    bs1,
                    bs2,
                    ps3,
                    final(self).players@,
                    final(self).baits@,
                    out@,
                    now,
                ),
    {
        let ghost ps0 = self.players@;
        let ghost bs0 = self.baits@;
        let mut new_baits: Vec<Bait> = Vec::new();
        let mut out: Vec<Outgoing> = Vec::new();

        self.spawn_and_advance(&mut new_baits);
        let ghost ps1 = self.players@;
        let ghost bs1 = self.baits@;

        self.resolve_deaths(&mut new_baits, &mut out);
        let ghost bs2 = self.baits@;
        let ghost ps2 = self.players@;

        let mut grown_log: Vec<u128> = Vec::new();
        let deleted = self.eat_baits(&mut grown_log);
        let ghost ps3 = self.players@;
        self.send_updates(&deleted, &grown_log, &new_baits, &mut out);
        self.reap(now, &mut out);
        proof {
            assert(new_baits@ =~= bs2.skip(bs0.len() as int)) by {
                assert(bs2.take(bs1.len() as int) == bs1);
                assert(bs1.skip(bs0.len() as int) + bs2.skip(bs1.len() as int) =~= bs2.skip(bs0.len() as int));
            }
            assert(msgs(out@) =~= death_messages(ps1) + update_messages(
                ps3,
                sift(ps2, bs2, false),
                grown_ids(ps2, bs2),
                bs2.skip(bs0.len() as int),
            ) + departures(self.players@, dropped(ps3, inactive_marks_spec(ps3, now), 0).map_values(|p: Player| p.id)));
            assert(tick_chain(ps0, bs0, ps1, bs1, bs2, ps3, self.players@, self.baits@, out@, now));
        }
        out
    }

    /// Stages 1 and 2 of a tick.
    pub fn spawn_and_advance(&mut self, new_baits: &mut Vec<Bait>)
        requires
            old(self).wf(),
        ensures
            final(self).wf(),
            final(self).players@.len() == old(self).players@.len(),
            forall|i: int|
                0 <= i < old(self).players@.len() ==> advanced(
                    #[trigger] old(self).players@[i],
                    final(self).players@[i],
                ),
            spawned(old(self).players@, old(self).baits@, final(self).baits@),
            final(new_baits)@ == old(new_baits)@ + final(self).baits@.skip(old(self).baits@.len() as int),
    {
        let ghost bs0 = self.baits@;
        let ghost nb0 = new_baits@;
        self.trickle_spawn(new_baits);
        let ghost bs_t = self.baits@;
        let ghost nb_t = new_baits@;
        self.advance_players(new_baits);
        let ghost bs1 = self.baits@;
        proof {
            assert(bs1.take(bs0.len() as int) =~= bs0) by {
                assert(bs1.take(bs_t.len() as int) == bs_t);
                assert(bs_t.take(bs0.len() as int) =~= bs0);
            }
            if bs0.len() < MAX_BAITS {
                assert(bs1[bs0.len() as int] == bs1.take(bs_t.len() as int)[bs0.len() as int]);
            }
            assert(nb_t =~= nb0 + bs_t.skip(bs0.len() as int));
            assert(bs1.skip(bs0.len() as int) =~= bs_t.skip(bs0.len() as int) + bs1.skip(bs_t.len() as int));
        }
    }

    /// Stages 3 and 4 of a tick: deaths, bursts, `$8` to each recorded death,
    /// removal of the dead and `$7` entries to the survivors.
    pub fn resolve_deaths(&mut self, new_baits: &mut Vec<Bait>, out: &mut Vec<Outgoing>)
        requires
            old(self).wf(),
            old(out)@.len() == 0,
        ensures
            final(self).wf(),
            ({
                let ps1 = old(self).players@;
                let dead = deaths(ps1, ps1.len() as int);
                &&& final(self).players@ == kept(ps1, death_marks(ps1), 0)
                &&& final(self).baits@.len() == old(self).baits@.len() + burst_total(ps1, dead)
                &&& final(self).baits@.take(old(self).baits@.len() as int) == old(self).baits@
                &&& bursts(ps1, dead, final(self).baits@.skip(old(self).baits@.len() as int))
                &&& dead.no_duplicates()
                &&& msgs(final(out)@) == death_messages(ps1)
            }),
            final(new_baits)@ == old(new_baits)@ + final(self).baits@.skip(old(self).baits@.len() as int),
    {
        let ghost o0 = out@;
        let ghost ps1 = self.players@;
        let dead = self.find_deaths();
        self.apply_deaths(&dead, new_baits, out);
        let ghost od = out@;
        let ghost d = deaths(ps1, ps1.len() as int);
        assert(msgs(od) =~= Seq::new(d.len(), |k: int| (ps1[d[k] as int].addr, header(COMM_DIE)))) by {
            assert forall|k: int| 0 <= k < d.len() implies #[trigger] msgs(od)[k] == (ps1[d[k] as int].addr, header(COMM_DIE)) by {
                assert(od[o0.len() + k] == od[k]);
            }
        }
        let dead_ids = ids_at(&self.players, &dead);
        let dead_marks = index_marks(self.players.len(), &dead);
        assert(dead_marks@ =~= death_marks(old(self).players@));
        self.remove_players(&dead_marks);
        if dead_ids.len() > 0 {
            let msg = encode_ids(COMM_DEAD_ENEMY, &dead_ids);
            broadcast(out, &self.players, &msg);
        }
        assert(msgs(out@) =~= death_messages(ps1));
    }

    /// Stages 6 to 8 of a tick: deletions and growth notices, full state,
    /// new baits (see `update_messages`).
    pub fn send_updates(
        &self,
        deleted: &Vec<Bait>,
        grown_log: &Vec<u128>,
        new_baits: &Vec<Bait>,
        out: &mut Vec<Outgoing>,
    )
        ensures
            msgs(final(out)@) == msgs(old(out)@) + update_messages(self.players@, deleted@, grown_log@, new_baits@),
            final(out)@.len() >= old(out)@.len(),
            final(out)@.take(old(out)@.len() as int) == old(out)@,
    {
        let ghost od = out@;
        let msg_deleted = encode_baits(deleted, true);
        let msg_grown = encode_ids(COMM_GROWN, grown_log);
        self.send_notices(&msg_deleted, &msg_grown, out);
        let ghost o1 = out@;
        self.send_own_states(out);
        let ghost o2 = out@;
        self.send_enemy_states(out);
        let ghost o3 = out@;
        if new_baits.len() > 0 {
            let msg = encode_baits(new_baits, false);
            broadcast(out, &self.players, &msg);
        }
        proof {
            assert(out@.take(o3.len() as int) == o3);
            assert(o3.take(o2.len() as int) == o2);
            assert(o2.take(o1.len() as int) == o1);
            assert(o1.take(od.len() as int) == od);
            assert forall|k: int| 0 <= k < od.len() implies out@[k] == od[k] by {
                assert(out@[k] == out@.take(o3.len() as int)[k]);
                assert(o3[k] == o3.take(o2.len() as int)[k]);
                assert(o2[k] == o2.take(o1.len() as int)[k]);
                assert(o1[k] == o1.take(od.len() as int)[k]);
            }
            assert(out@.take(od.len() as int) =~= od);
            assert(msgs(out@) =~= msgs(od) + update_messages(self.players@, deleted@, grown_log@, new_baits@));
        }
    }

    /// Stage 6: to each player, `del` then `grown`, each only if not empty.
    fn send_notices(&self, del: &Vec<u8>, grown: &Vec<u8>, out: &mut Vec<Outgoing>)
        ensures
            msgs(final(out)@) == msgs(old(out)@) + notices(self.players@, del@, grown@),
            final(out)@.len() >= old(out)@.len(),
            final(out)@.take(old(out)@.len() as int) == old(out)@,
    {
        let ghost od = out@;
        let ghost ps = self.players@;
        let mut i: usize = 0;
        while i < self.players.len()
            invariant
                ps == self.players@,
                i <= ps.len(),
                out@.len() >= od.len(),
                out@.take(od.len() as int) == od,
                msgs(out@) == msgs(od) + notices(ps.take(i as int), del@, grown@),
            decreases ps.len() - i,
        {
            let ghost before = out@;
            let to = self.players[i].addr;
            if del.len() > 0 {
                push_msg(out, to, clone_bytes(del));
            }
            let ghost mid = out@;
            assert(mid.take(before.len() as int) == before) by {
                if del.len() == 0 {
                    assert(mid.take(before.len() as int) =~= before);
                }
            }
            if grown.len() > 0 {
                push_msg(out, to, clone_bytes(grown));
            }
            proof {
                if grown.len() == 0 {
                    assert(out@.take(mid.len() as int) =~= mid);
                }
                let t = ps.take(i + 1);
                assert(t.drop_last() =~= ps.take(i as int));
                assert forall|k: int| 0 <= k < od.len() implies out@[k] == od[k] by {
                    assert(out@[k] == out@.take(mid.len() as int)[k]);
                    assert(mid[k] == mid.take(before.len() as int)[k]);
                    assert(before[k] == before.take(od.len() as int)[k]);
                }
                assert(out@.take(od.len() as int) =~= od);
                assert(msgs(out@) =~= msgs(od) + notices(t, del@, grown@));
            }
            i = i + 1;
        }
        assert(ps.take(ps.len() as int) =~= ps);
    }

    /// Stage 7, first part: each player's own nodes.
    fn send_own_states(&self, out: &mut Vec<Outgoing>)
        ensures
            msgs(final(out)@) == msgs(old(out)@) + own_states(self.players@),
            final(out)@.len() >= old(out)@.len(),
            final(out)@.take(old(out)@.len() as int) == old(out)@,
    {
        let ghost od = out@;
        let ghost ps = self.players@;
        let mut i: usize = 0;
        while i < self.players.len()
            invariant
                ps == self.players@,
                i <= ps.len(),
                out@.len() >= od.len(),
                out@.take(od.len() as int) == od,
                msgs(out@) == msgs(od) + own_states(ps.take(i as int)),
            decreases ps.len() - i,
        {
            let msg = encode_snake(COMM_UPDATE_SNAKE, &self.players[i].snake.nodes);
            let ghost before = out@;
            push_msg(out, self.players[i].addr, msg);
            proof {
                assert(own_states(ps.take(i + 1)) =~= own_states(ps.take(i as int)).push(
                    (ps[i as int].addr, snake_message(COMM_UPDATE_SNAKE, ps[i as int].snake.nodes@)),
                ));
                assert forall|k: int| 0 <= k < od.len() implies out@[k] == od[k] by {
                    assert(out@[k] == out@.take(before.len() as int)[k]);
                    assert(before[k] == before.take(od.len() as int)[k]);
                }
                assert(out@.take(od.len() as int) =~= od);
            }
            i = i + 1;
        }
        assert(ps.take(ps.len() as int) =~= ps);
    }

    /// Stage 7, second part: to each player, every other player's nodes.
    fn send_enemy_states(&self, out: &mut Vec<Outgoing>)
        ensures
            msgs(final(out)@) == msgs(old(out)@) + enemy_states(self.players@, self.players@.len() as int),
            final(out)@.len() >= old(out)@.len(),
            final(out)@.take(old(out)@.len() as int) == old(out)@,
    {
        let ghost od = out@;
        let ghost ps = self.players@;
        let mut i: usize = 0;
        while i < self.players.len()
            invariant
                ps == self.players@,
                i <= ps.len(),
                out@.len() >= od.len(),
                out@.take(od.len() as int) == od,
                msgs(out@) == msgs(od) + enemy_states(ps, i as int),
            decreases ps.len() - i,
        {
            let msg = encode_others(&self.players, i);
            let ghost before = out@;
            if msg.len() > 0 {
                push_msg(out, self.players[i].addr, msg);
                proof {
                    assert forall|k: int| 0 <= k < od.len() implies out@[k] == od[k] by {
                        assert(out@[k] == out@.take(before.len() as int)[k]);
                        assert(before[k] == before.take(od.len() as int)[k]);
                    }
                    assert(out@.take(od.len() as int) =~= od);
                }
            }
            proof {
                assert(msgs(out@) =~= msgs(od) + enemy_states(ps, i + 1));
            }
            i = i + 1;
        }
    }

    /// Stage 9 of a tick: silent sessions are removed and each survivor gets
    /// `$7,<id>` for every one of them (see `departures`).
    pub fn reap(&mut self, now: u64, out: &mut Vec<Outgoing>)
        requires
            old(self).wf(),
        ensures
            final(self).wf(),
            final(self).baits@ == old(self).baits@,
            final(self).players@ == kept(old(self).players@, inactive_marks_spec(old(self).players@, now), 0),
            msgs(final(out)@) == msgs(old(out)@) + departures(
                final(self).players@,
                dropped(old(self).players@, inactive_marks_spec(old(self).players@, now), 0).map_values(
                    |p: Player| p.id,
                ),
            ),
            final(out)@.len() >= old(out)@.len(),
            final(out)@.take(old(out)@.len() as int) == old(out)@,
    {
        let ghost od = out@;
        let marks = self.inactive_marks(INACTIVITY_TIMEOUT_SECS, now);
        assert(marks@ =~= inactive_marks_spec(self.players@, now));
        let gone_ids = marked_ids(&self.players, &marks);
        self.remove_players(&marks);
        let mut k: usize = 0;
        while k < gone_ids.len()
            invariant
                self.wf(),
                k <= gone_ids@.len(),
                out@.len() >= od.len(),
                out@.take(od.len() as int) == od,
                msgs(out@) == msgs(od) + departures(self.players@, gone_ids@.take(k as int)),
            decreases gone_ids@.len() - k,
        {
            let mut msg: Vec<u8> = Vec::new();
            push_id(&mut msg, COMM_DEAD_ENEMY, gone_ids[k]);
            let ghost before = out@;
            broadcast(out, &self.players, &msg);
            proof {
                assert(out@.take(od.len() as int) =~= od) by {
                    assert(out@.take(before.len() as int) == before);
                }
                assert(gone_ids@.take(k + 1).drop_last() =~= gone_ids@.take(k as int));
            }
            k = k + 1;
        }
        assert(gone_ids@.take(gone_ids@.len() as int) =~= gone_ids@);
    }
}

} // verus!
