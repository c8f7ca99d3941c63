use vstd::prelude::*;

use crate::constants::{
    BORDER_HEIGHT, BORDER_WIDTH, MAP_HEIGHT, MAP_WIDTH, MAX_NODE_X, MAX_NODE_Y, MIN_NODE_X,
    MIN_NODE_Y, SNAKE_INITIAL_LENGTH, SNAKE_MAX_LENGTH, SNAKE_NODE_INITIAL_DISTANCE,
    SNAKE_NODE_SPACE, SNAKE_ROTATE_SPEED, SNAKE_SPEED, SNAKE_SPEED_ACCELERATE, SPAWN_MARGIN, HALF_UNIT,
};
use crate::random::random_between;

verus! {

/// One body point of a snake, in fixed-point world coordinates.
#[derive(Clone, Copy, Debug, PartialEq, Eq, Structural)]
pub struct SnakeNode {
    pub x: i64,
    pub y: i64,
}

/// A snake: a head-first chain of nodes plus its movement state.
#[derive(Clone, Debug)]
pub struct Snake {
    pub length: i32,
    pub skin: i64,
    pub speed: i64,
    pub current_speed_sec: i64,
    pub nodes: Vec<SnakeNode>,
    pub current_angle: i64,
    pub rotate_angle: i64,
    pub is_dead: bool,
    pub accelerate: bool,
    pub accelerate_time: i32,
}

/// The rectangle that every moved node is clamped into.
pub open spec fn in_play_area(n: SnakeNode) -> bool {
    &&& MIN_NODE_X <= n.x <= MAX_NODE_X
    &&& MIN_NODE_Y <= n.y <= MAX_NODE_Y
}

pub open spec fn clamp_spec(v: int, lo: int, hi: int) -> int {
    if v < lo {
        lo
    } else if v > hi {
        hi
    } else {
        v
    }
}

/// Per-tick speed of a head, and of a body node at rest distance.
pub open spec fn base_speed(accelerate: bool) -> int {
    if accelerate {
        SNAKE_SPEED_ACCELERATE * SNAKE_SPEED
    } else {
        SNAKE_SPEED as int
    }
}

/// `d * num / den`, rounded toward zero.
pub open spec fn scale_toward_zero(d: int, num: int, den: int) -> int {
    if d >= 0 {
        d * num / den
    } else {
        -((-d) * num / den)
    }
}

/// Elastic follow along one axis: a node separated from its predecessor by
/// `d` moves `d * speed / rest_distance` toward it, so a stretched link
/// catches up faster and a compressed one slows down.
pub open spec fn follow_step(d: int, speed: int) -> int {
    scale_toward_zero(d, speed, SNAKE_NODE_INITIAL_DISTANCE as int)
}

pub open spec fn moved_body_node(prev: SnakeNode, cur: SnakeNode, speed: int) -> SnakeNode {
    SnakeNode {
        x: clamp_spec(cur.x + follow_step(prev.x - cur.x, speed), MIN_NODE_X as int, MAX_NODE_X as int) as i64,
        y: clamp_spec(cur.y + follow_step(prev.y - cur.y, speed), MIN_NODE_Y as int, MAX_NODE_Y as int) as i64,
    }
}

/// `r` is the integer square root of `n`, rounded down.
pub open spec fn is_floor_sqrt(n: int, r: int) -> bool {
    0 <= r && r * r <= n < (r + 1) * (r + 1)
}

pub open spec fn floor_sqrt(n: int) -> int {
    choose|r: int| is_floor_sqrt(n, r)
}

/// Aim vector of a head, relative to the centre of a `w` x `h` window
/// (window sizes are in whole world units).
pub open spec fn aim_dx(to_x: int, w: int) -> int {
    to_x - w * HALF_UNIT
}

/// Displacement along one axis of a head aiming along `(d, other)`: the unit
/// vector scaled by `speed`, rounded toward zero; a zero aim gives none.
pub open spec fn head_step(d: int, other: int, speed: int) -> int {
    let dist = floor_sqrt(d * d + other * other);
    if dist == 0 {
        0
    } else {
        scale_toward_zero(d, speed, dist)
    }
}

pub open spec fn moved_head(
    head: SnakeNode,
    to_x: int,
    to_y: int,
    center_x: int,
    center_y: int,
    speed: int,
) -> SnakeNode {
    let dx = aim_dx(to_x, center_x);
    let dy = aim_dx(to_y, center_y);
    SnakeNode {
        x: clamp_spec(head.x + head_step(dx, dy, speed), MIN_NODE_X as int, MAX_NODE_X as int) as i64,
        y: clamp_spec(head.y + head_step(dy, dx, speed), MIN_NODE_Y as int, MAX_NODE_Y as int) as i64,
    }
}

/// The node chain after one movement step; every body node follows the
/// position its predecessor had before the step.
pub open spec fn moved_nodes(
    nodes: Seq<SnakeNode>,
    to_x: int,
    to_y: int,
    center_x: int,
    center_y: int,
    speed: int,
) -> Seq<SnakeNode> {
    Seq::new(
        nodes.len(),
        |i: int|
            if i == 0 {
                moved_head(nodes[0], to_x, to_y, center_x, center_y, speed)
            } else {
                moved_body_node(nodes[i - 1], nodes[i], speed)
            },
    )
}

/// The chain after `grow`: the tail duplicated, up to the cap.
pub open spec fn grown(nodes: Seq<SnakeNode>) -> Seq<SnakeNode> {
    if nodes.len() < SNAKE_MAX_LENGTH {
        nodes.push(nodes.last())
    } else {
        nodes
    }
}

/// The chain after `shorter`: the tail removed, if there is one.
pub open spec fn shortened(nodes: Seq<SnakeNode>) -> Seq<SnakeNode> {
    if nodes.len() > 0 {
        nodes.drop_last()
    } else {
        nodes
    }
}

/// Everything of a snake but its nodes is the same in `a` and `b`.
pub open spec fn same_but_nodes(a: Snake, b: Snake) -> bool {
    &&& same_settings(a, b)
    &&& a.current_angle == b.current_angle
    &&& a.rotate_angle == b.rotate_angle
    &&& a.accelerate == b.accelerate
    &&& a.accelerate_time == b.accelerate_time
}

/// The fields set when a snake is made are the same in `a` and `b`.
pub open spec fn same_settings(a: Snake, b: Snake) -> bool {
    &&& a.length == b.length
    &&& a.skin == b.skin
    &&& a.speed == b.speed
    &&& a.current_speed_sec == b.current_speed_sec
    &&& a.is_dead == b.is_dead
}

proof fn lemma_floor_sqrt_unique(n: int, r: int)
    requires
        is_floor_sqrt(n, r),
    ensures
        floor_sqrt(n) == r,
{
    let s = floor_sqrt(n);
    assert(is_floor_sqrt(n, s));
    if s < r {
        assert((s + 1) * (s + 1) <= r * r) by (nonlinear_arith)
            requires
                0 <= s < r,
        ;
    } else if r < s {
        assert((r + 1) * (r + 1) <= s * s) by (nonlinear_arith)
            requires
                0 <= r < s,
        ;
    }
}

/// The chain after a sequence of calls: `true` for `grow`, `false` for
/// `shorter`.
pub open spec fn replay(nodes: Seq<SnakeNode>, ops: Seq<bool>) -> Seq<SnakeNode>
    decreases ops.len(),
{
    if ops.len() == 0 {
        nodes
    } else {
        let prev = replay(nodes, ops.drop_last());
        if ops.last() {
            grown(prev)
        } else {
            shortened(prev)
        }
    }
}

/// A snake of 1 to `SNAKE_MAX_LENGTH` nodes keeps between 1 and
/// `SNAKE_MAX_LENGTH` nodes through any sequence of `grow` and `shorter`
/// calls in which `shorter` is never called on a single node.
pub proof fn lemma_length_stays_bounded(nodes: Seq<SnakeNode>, ops: Seq<bool>)
    requires
        1 <= nodes.len() <= SNAKE_MAX_LENGTH,
        forall|i: int| 0 <= i < ops.len() && !ops[i] ==> replay(nodes, #[trigger] ops.take(i)).len() > 1,
    ensures
        1 <= replay(nodes, ops).len() <= SNAKE_MAX_LENGTH,
    decreases ops.len(),
{
    if ops.len() > 0 {
        let p = ops.drop_last();
        assert forall|i: int| 0 <= i < p.len() && !p[i] implies replay(nodes, #[trigger] p.take(i)).len() > 1 by {
            assert(p.take(i) =~= ops.take(i));
            assert(!ops[i]);
        }
        lemma_length_stays_bounded(nodes, p);
        assert(ops.take(p.len() as int) =~= p);
    }
}

impl Snake {
    /// A usable snake: between one node and the cap.
    pub open spec fn wf(&self) -> bool {
        1 <= self.nodes@.len() <= SNAKE_MAX_LENGTH
    }

    /// A new snake whose `SNAKE_INITIAL_LENGTH` coincident nodes stand at a
    /// uniformly drawn point of the map, `SPAWN_MARGIN` away from its edges.
    pub fn new(length: i32, skin: i64, speed: i64) -> (s: Snake)
        ensures
            s.wf(),
            s.nodes@.len() == SNAKE_INITIAL_LENGTH,
            forall|i: int| 0 <= i < s.nodes@.len() ==> #[trigger] s.nodes@[i] == s.nodes@[0],
            spawn_area(s.nodes@[0]),
            s.length == length,
            s.skin == skin,
            s.speed == speed,
            !s.accelerate,
            !s.is_dead,
            s.accelerate_time == 0,
    {
        let map_border_w = BORDER_WIDTH - MAP_WIDTH;
        let map_border_h = BORDER_HEIGHT - MAP_HEIGHT;
        let initial_x = random_between(
            map_border_w / 2 + SPAWN_MARGIN,
            map_border_w / 2 + MAP_WIDTH - SPAWN_MARGIN,
        );
        let initial_y = random_between(
            map_border_h / 2 + SPAWN_MARGIN,
            map_border_h / 2 + MAP_HEIGHT - SPAWN_MARGIN,
        );
        Snake::new_at(length, skin, speed, initial_x, initial_y)
    }

    /// A new snake whose initial nodes stand at `(initial_x, initial_y)`.
    pub fn new_at(length: i32, skin: i64, speed: i64, initial_x: i64, initial_y: i64) -> (s: Snake)
        ensures
            s.wf(),
            s.nodes@.len() == SNAKE_INITIAL_LENGTH,
            forall|i: int|
                0 <= i < s.nodes@.len() ==> #[trigger] s.nodes@[i] == (SnakeNode {
                    x: initial_x,
                    y: initial_y,
                }),
            s.length == length,
            s.skin == skin,
            s.speed == speed,
            s.current_speed_sec == 0,
            s.current_angle == 0,
            s.rotate_angle == 0,
            !s.accelerate,
            !s.is_dead,
            s.accelerate_time == 0,
    {
        let nodes = create_first_five_nodes(initial_x, initial_y);
        Snake {
            length,
            skin,
            speed,
            current_speed_sec: 0,
            nodes,
            current_angle: 0,
            rotate_angle: 0,
            is_dead: false,
            accelerate: false,
            accelerate_time: 0,
        }
    }

    /// Appends a copy of the tail node; a no-op once the cap is reached.
    pub fn grow(&mut self)
        requires
            old(self).nodes@.len() >= 1,
        ensures
            final(self).nodes@ == grown(old(self).nodes@),
            same_but_nodes(*old(self), *final(self)),
    {
        if self.nodes.len() < SNAKE_MAX_LENGTH {
            let last_node = self.nodes[self.nodes.len() - 1];
            self.nodes.push(SnakeNode { x: last_node.x, y: last_node.y });
        }
    }

    pub fn new_rotate_angle(&mut self, angle: i64)
        ensures
            final(self).rotate_angle == angle,
            final(self).nodes@ == old(self).nodes@,
            final(self).current_angle == old(self).current_angle,
            final(self).accelerate == old(self).accelerate,
            final(self).accelerate_time == old(self).accelerate_time,
            same_settings(*old(self), *final(self)),
    {
        self.rotate_angle = angle;
    }

    /// Turns the heading toward `rotate_angle` by at most `SNAKE_ROTATE_SPEED`.
    pub fn rotate(&mut self)
        ensures
            final(self).current_angle == (if old(self).rotate_angle > old(self).current_angle {
                if old(self).rotate_angle < old(self).current_angle + SNAKE_ROTATE_SPEED {
                    old(self).rotate_angle as int
                } else {
                    old(self).current_angle + SNAKE_ROTATE_SPEED
                }
            } else {
                if old(self).rotate_angle > old(self).current_angle - SNAKE_ROTATE_SPEED {
                    old(self).rotate_angle as int
                } else {
                    old(self).current_angle - SNAKE_ROTATE_SPEED
                }
            }),
            final(self).rotate_angle == old(self).rotate_angle,
            final(self).nodes@ == old(self).nodes@,
            final(self).accelerate == old(self).accelerate,
            final(self).accelerate_time == old(self).accelerate_time,
            same_settings(*old(self), *final(self)),
    {
        let cur = self.current_angle as i128;
        let target = self.rotate_angle as i128;
        if target > cur {
            let up = cur + SNAKE_ROTATE_SPEED as i128;
            self.current_angle = if target < up { target as i64 } else { up as i64 };
        } else {
            let down = cur - SNAKE_ROTATE_SPEED as i128;
            self.current_angle = if target > down { target as i64 } else { down as i64 };
        }
    }

    /// One movement step: every body node follows its predecessor
    /// (`moved_body_node`), the head heads for the aim point relative to the
    /// centre of the window (`moved_head`), and all nodes are clamped into
    /// the play area.
    pub fn move_snake(&mut self, to_x: i64, to_y: i64, center_x: u32, center_y: u32)
        ensures
            final(self).nodes@ == moved_nodes(
                old(self).nodes@,
                to_x as int,
                to_y as int,
                center_x as int,
                center_y as int,
                base_speed(old(self).accelerate),
            ),
            forall|i: int| 0 <= i < final(self).nodes@.len() ==> in_play_area(#[trigger] final(self).nodes@[i]),
            same_but_nodes(*old(self), *final(self)),
    {
        let speed: i64 = if self.accelerate {
            SNAKE_SPEED_ACCELERATE * SNAKE_SPEED
        } else {
            SNAKE_SPEED
        };
        let n = self.nodes.len();
        let ghost before = self.nodes@;
        let mut i: usize = n;
        while i > 1
            invariant
                i <= n,
                n >= 1 ==> i >= 1,
                n == before.len(),
                self.nodes@.len() == n,
                speed == base_speed(self.accelerate),
                forall|j: int| 0 <= j < i ==> #[trigger] self.nodes@[j] == before[j],
                forall|j: int|
                    i <= j < n && j >= 1 ==> #[trigger] self.nodes@[j] == moved_body_node(
                        before[j - 1],
                        before[j],
                        speed as int,
                    ),
                same_but_nodes(*old(self), *self),
            decreases i,
        {
            let k = i - 1;
            let prev = self.nodes[k - 1];
            let cur = self.nodes[k];
            let sx = scale_coord(prev.x as i128 - cur.x as i128, speed, SNAKE_NODE_INITIAL_DISTANCE as u128);
            let sy = scale_coord(prev.y as i128 - cur.y as i128, speed, SNAKE_NODE_INITIAL_DISTANCE as u128);
            let node = SnakeNode {
                x: clamp_coord(cur.x as i128 + sx, MIN_NODE_X, MAX_NODE_X),
                y: clamp_coord(cur.y as i128 + sy, MIN_NODE_Y, MAX_NODE_Y),
            };
            self.nodes[k] = node;
            i = k;
        }
        if n > 0 {
            let head = self.nodes[0];
            let cx = half_window(center_x);
            let cy = half_window(center_y);
            let dx: i128 = to_x as i128 - cx;
            let dy: i128 = to_y as i128 - cy;
            let (sx, sy) = head_velocity(dx, dy, speed);
            self.nodes[0] = SnakeNode {
                x: clamp_coord(head.x as i128 + sx, MIN_NODE_X, MAX_NODE_X),
                y: clamp_coord(head.y as i128 + sy, MIN_NODE_Y, MAX_NODE_Y),
            };
            assert(self.nodes@[0] == moved_head(
                before[0],
                to_x as int,
                to_y as int,
                center_x as int,
                center_y as int,
                speed as int,
            ));
        }
        assert(self.nodes@ =~= moved_nodes(
            before,
            to_x as int,
            to_y as int,
            center_x as int,
            center_y as int,
            speed as int,
        ));
    }

    /// Removes the tail node; a no-op on an empty chain.
    pub fn shorter(&mut self)
        ensures
            final(self).nodes@ == shortened(old(self).nodes@),
            same_but_nodes(*old(self), *final(self)),
    {
        if self.nodes.len() > 0 {
            self.nodes.pop();
        }
    }
}

/// Where `Snake::new` places a new snake.
pub open spec fn spawn_area(n: SnakeNode) -> bool {
    &&& (BORDER_WIDTH - MAP_WIDTH) / 2 + SPAWN_MARGIN <= n.x < (BORDER_WIDTH - MAP_WIDTH) / 2 + MAP_WIDTH - SPAWN_MARGIN
    &&& (BORDER_HEIGHT - MAP_HEIGHT) / 2 + SPAWN_MARGIN <= n.y < (BORDER_HEIGHT - MAP_HEIGHT) / 2 + MAP_HEIGHT - SPAWN_MARGIN
}

/// Half of a window size, in coordinate units.
fn half_window(w: u32) -> (r: i128)
    ensures
        r == w * HALF_UNIT,
        0 <= r <= 0xFFFF_FFFF * HALF_UNIT,
{
    assert(0 <= w * HALF_UNIT <= 0xFFFF_FFFF * HALF_UNIT) by (nonlinear_arith)
        requires
            0 <= w <= 0xFFFF_FFFF,
    ;
    w as i128 * HALF_UNIT as i128
}

/// Head displacement for the aim vector `(dx, dy)` at `speed`.
fn head_velocity(dx: i128, dy: i128, speed: i64) -> (r: (i128, i128))
    requires
        -0x8000_2000_0000_0000 <= dx <= 0x8000_2000_0000_0000,
        -0x8000_2000_0000_0000 <= dy <= 0x8000_2000_0000_0000,
        0 <= speed <= 0x1_0000_0000,
    ensures
        r.0 == head_step(dx as int, dy as int, speed as int),
        r.1 == head_step(dy as int, dx as int, speed as int),
        -0x1_0000_0000_0000_0000 * 0x1_0000_0000 <= r.0 <= 0x1_0000_0000_0000_0000 * 0x1_0000_0000,
        -0x1_0000_0000_0000_0000 * 0x1_0000_0000 <= r.1 <= 0x1_0000_0000_0000_0000 * 0x1_0000_0000,
{
    let mx: u128 = if dx >= 0 { dx as u128 } else { (-dx) as u128 };
    let my: u128 = if dy >= 0 { dy as u128 } else { (-dy) as u128 };
    assert(mx * mx + my * my <= u128::MAX && mx * mx == dx * dx && my * my == dy * dy) by (nonlinear_arith)
        requires
            mx <= 0x8000_2000_0000_0000,
            my <= 0x8000_2000_0000_0000,
            mx == dx || mx == -dx,
            my == dy || my == -dy,
    ;
    let dist = floor_sqrt_u128(mx * mx + my * my);
    proof {
        lemma_floor_sqrt_unique(dx * dx + dy * dy, dist as int);
        assert(dy * dy + dx * dx == dx * dx + dy * dy);
    }
    if dist == 0 {
        (0, 0)
    } else {
        (scale_coord(dx, speed, dist), scale_coord(dy, speed, dist))
    }
}

/// Integer square root of `n`, rounded down.
fn floor_sqrt_u128(n: u128) -> (r: u128)
    ensures
        is_floor_sqrt(n as int, r as int),
        r < 0x1_0000_0000_0000_0000,
{
    let mut lo: u128 = 0;
    let mut hi: u128 = 0x1_0000_0000_0000_0000;
    assert(n < hi * hi) by (nonlinear_arith)
        requires
            hi == 0x1_0000_0000_0000_0000u128,
            n <= u128::MAX,
    ;
    while hi - lo > 1
        invariant
            lo < hi <= 0x1_0000_0000_0000_0000,
            lo * lo <= n,
            n < hi * hi,
        decreases hi - lo,
    {
        let mid = lo + (hi - lo) / 2;
        assert(mid * mid < 0x1_0000_0000_0000_0000 * 0x1_0000_0000_0000_0000) by (nonlinear_arith)
            requires
                mid < 0x1_0000_0000_0000_0000,
        ;
        if mid * mid <= n {
            lo = mid;
        } else {
            hi = mid;
        }
    }
    assert(hi == lo + 1);
    lo
}

/// Clamps `v` into `[lo, hi]`.
fn clamp_coord(v: i128, lo: i64, hi: i64) -> (r: i64)
    requires
        lo <= hi,
    ensures
        r == clamp_spec(v as int, lo as int, hi as int),
{
    if v < lo as i128 {
        lo
    } else if v > hi as i128 {
        hi
    } else {
        v as i64
    }
}

/// `d * num / den` rounded toward zero, for `|d| < 2^64`.
fn scale_coord(d: i128, num: i64, den: u128) -> (r: i128)
    requires
        -0x1_0000_0000_0000_0000 < d < 0x1_0000_0000_0000_0000,
        0 <= num <= 0x1_0000_0000,
        0 < den,
    ensures
        r == scale_toward_zero(d as int, num as int, den as int),
        -0x1_0000_0000_0000_0000 * 0x1_0000_0000 <= r <= 0x1_0000_0000_0000_0000 * 0x1_0000_0000,
{
    let mag: u128 = if d >= 0 { d as u128 } else { (-d) as u128 };
    assert(mag * (num as u128) <= 0x1_0000_0000_0000_0000 * 0x1_0000_0000) by (nonlinear_arith)
        requires
            mag <= 0x1_0000_0000_0000_0000,
            0 <= num <= 0x1_0000_0000,
    ;
    let q = mag * (num as u128) / den;
    assert(q as int <= mag as int * num as int) by (nonlinear_arith)
        requires
            q as int == (mag as int * num as int) / den as int,
            den > 0,
    ;
    if d >= 0 {
        q as i128
    } else {
        -(q as i128)
    }
}

/// `SNAKE_INITIAL_LENGTH` nodes from `(initial_x, initial_y)`, each offset
/// from the previous one by `SNAKE_NODE_SPACE` on both axes.
pub fn create_first_five_nodes(initial_x: i64, initial_y: i64) -> (nodes: Vec<SnakeNode>)
    ensures
        nodes@.len() == SNAKE_INITIAL_LENGTH,
        forall|i: int|
            0 <= i < nodes@.len() ==> #[trigger] nodes@[i] == (SnakeNode {
                x: (initial_x + i * SNAKE_NODE_SPACE) as i64,
                y: (initial_y + i * SNAKE_NODE_SPACE) as i64,
            }),
{
    let mut nodes: Vec<SnakeNode> = Vec::new();
    nodes.push(SnakeNode { x: initial_x, y: initial_y });
    let mut k: usize = 1;
    while k < SNAKE_INITIAL_LENGTH
        invariant
            1 <= k <= SNAKE_INITIAL_LENGTH,
            nodes@.len() == k,
            forall|i: int|
                0 <= i < k ==> #[trigger] nodes@[i] == (SnakeNode {
                    x: (initial_x + i * SNAKE_NODE_SPACE) as i64,
                    y: (initial_y + i * SNAKE_NODE_SPACE) as i64,
                }),
        decreases SNAKE_INITIAL_LENGTH - k,
    {
        let last = nodes[k - 1];
        nodes.push(SnakeNode { x: last.x + SNAKE_NODE_SPACE, y: last.y + SNAKE_NODE_SPACE });
        k = k + 1;
    }
    nodes
}

} // verus!
