use vstd::prelude::*;

use crate::constants::{DEATH_BAIT_JITTER, MAX_BAITS_SIZE_ON_DEAD, MAX_BAIT_COLOR_RANGE, MAX_BAIT_SIZE};
use crate::random::random_between;
use crate::snake::{Snake, SnakeNode};

verus! {

/// A consumable lying on the map, in fixed-point world coordinates.
#[derive(Clone, Copy, Debug, PartialEq, Eq, Structural)]
pub struct Bait {
    pub x: i64,
    pub y: i64,
    /// Colour index, below `MAX_BAIT_COLOR_RANGE` for spawned bait.
    pub color: i64,
    pub size: i64,
}

/// Coordinates far enough from the ends of `i64` for the arithmetic done
/// around a node or a bait.
pub const COORD_LIMIT: i64 = 0x4000_0000_0000_0000;

pub open spec fn node_fits(n: SnakeNode) -> bool {
    -COORD_LIMIT <= n.x <= COORD_LIMIT && -COORD_LIMIT <= n.y <= COORD_LIMIT
}

impl Bait {
    pub fn new(x: i64, y: i64, color: i64, size: i64) -> (b: Bait)
        ensures
            b == (Bait { x, y, color, size }),
    {
        Bait { x, y, color, size }
    }
}

/// Adds a bait to the pool and returns it.
pub fn create(baits: &mut Vec<Bait>, x: i64, y: i64, color: i64, size: i64) -> (b: Bait)
    ensures
        b == (Bait { x, y, color, size }),
        final(baits)@ == old(baits)@.push(b),
{
    let b = Bait::new(x, y, color, size);
    baits.push(b);
    b
}

/// The bait at index `id`, if there is one.
pub fn read(baits: &Vec<Bait>, id: usize) -> (r: Option<Bait>)
    ensures
        r == (if id < baits@.len() {
            Some(baits@[id as int])
        } else {
            None
        }),
{
    if id < baits.len() {
        Some(baits[id])
    } else {
        None
    }
}

/// Removes the bait at index `id`; an index past the end changes nothing.
pub fn destroy(baits: &mut Vec<Bait>, id: usize)
    ensures
        final(baits)@ == (if id < old(baits)@.len() {
            old(baits)@.remove(id as int)
        } else {
            old(baits)@
        }),
{
    if id < baits.len() {
        baits.remove(id);
    }
}

/// The indices of the pool, in order.
pub fn keys(baits: &Vec<Bait>) -> (r: Vec<usize>)
    ensures
        r@ == Seq::new(baits@.len(), |i: int| i as usize),
{
    let mut r: Vec<usize> = Vec::new();
    let mut i: usize = 0;
    while i < baits.len()
        invariant
            i <= baits@.len(),
            r@ == Seq::new(i as nat, |k: int| k as usize),
        decreases baits@.len() - i,
    {
        r.push(i);
        i = i + 1;
        assert(r@ =~= Seq::new(i as nat, |k: int| k as usize));
    }
    r
}

/// Number of baits in the pool.
pub fn length(baits: &Vec<Bait>) -> (r: usize)
    ensures
        r == baits@.len(),
{
    baits.len()
}

/// What `generate_bait(low, high)` may return.
pub open spec fn random_bait(b: Bait, low: int, high: int) -> bool {
    &&& low <= b.x < high
    &&& low <= b.y < high
    &&& 0 <= b.color < MAX_BAIT_COLOR_RANGE
    &&& 0 <= b.size < MAX_BAIT_SIZE
}

/// A bait at a uniformly drawn point of `[low, high)` on both axes, with a
/// drawn colour index and size.
pub fn generate_bait(low: i64, high: i64) -> (b: Bait)
    requires
        low < high,
    ensures
        random_bait(b, low as int, high as int),
{
    let x = random_between(low, high);
    let y = random_between(low, high);
    let color = random_between(0, MAX_BAIT_COLOR_RANGE);
    let size = random_between(0, MAX_BAIT_SIZE);
    Bait::new(x, y, color, size)
}

/// Number of baits a dying snake of `n` nodes leaves: one per even index
/// below the last index.
pub open spec fn death_bait_count(n: nat) -> nat {
    n / 2
}

/// `b` is the `k`-th bait of the burst of a snake with nodes `nodes`.
pub open spec fn death_bait_at(b: Bait, nodes: Seq<SnakeNode>, k: int, color: int) -> bool {
    &&& nodes[2 * k].x - DEATH_BAIT_JITTER <= b.x < nodes[2 * k].x + DEATH_BAIT_JITTER
    &&& nodes[2 * k].y - DEATH_BAIT_JITTER <= b.y < nodes[2 * k].y + DEATH_BAIT_JITTER
    &&& b.color == color
    &&& b.size == MAX_BAITS_SIZE_ON_DEAD
}

/// What `generate_mass_bait` may return for a snake with nodes `nodes`.
pub open spec fn death_burst(r: Seq<Bait>, nodes: Seq<SnakeNode>) -> bool {
    &&& r.len() == death_bait_count(nodes.len())
    &&& r.len() > 0 ==> 0 <= r[0].color < MAX_BAIT_COLOR_RANGE
    &&& forall|k: int| 0 <= k < r.len() ==> death_bait_at(#[trigger] r[k], nodes, k, r[0].color as int)
}

/// The death burst of `snake`: one bait per even node index below the last
/// one, each jittered by up to `DEATH_BAIT_JITTER` on both axes, all of one
/// drawn colour and of size `MAX_BAITS_SIZE_ON_DEAD`.
pub fn generate_mass_bait(snake: &Snake) -> (r: Vec<Bait>)
    requires
        snake.nodes@.len() >= 1,
        forall|i: int| 0 <= i < snake.nodes@.len() ==> node_fits(#[trigger] snake.nodes@[i]),
    ensures
        death_burst(r@, snake.nodes@),
{
    let mut new_bait_arr: Vec<Bait> = Vec::new();
    let color = random_between(0, MAX_BAIT_COLOR_RANGE);
    let n = snake.nodes.len();
    let mut i: usize = 0;
    while i < n - 1
        invariant
            n == snake.nodes@.len(),
            n >= 1,
            i % 2 == 0,
            i <= n,
            new_bait_arr@.len() == i / 2,
            0 <= color < MAX_BAIT_COLOR_RANGE,
            forall|i: int| 0 <= i < n ==> node_fits(#[trigger] snake.nodes@[i]),
            forall|k: int|
                0 <= k < new_bait_arr@.len() ==> death_bait_at(
                    #[trigger] new_bait_arr@[k],
                    snake.nodes@,
                    k,
                    color as int,
                ),
        decreases n - i,
    {
        let node = snake.nodes[i];
        let offset_x = random_between(-DEATH_BAIT_JITTER, DEATH_BAIT_JITTER);
        let offset_y = random_between(-DEATH_BAIT_JITTER, DEATH_BAIT_JITTER);
        new_bait_arr.push(Bait::new(node.x + offset_x, node.y + offset_y, color, MAX_BAITS_SIZE_ON_DEAD));
        i = i + 2;
    }
    assert(new_bait_arr@.len() == n / 2);
    new_bait_arr
}


/// A death burst of a snake with an odd number `n` of nodes holds exactly
/// `(n - 1) / 2` baits.
pub proof fn lemma_death_burst_count(r: Seq<Bait>, nodes: Seq<SnakeNode>)
    requires
        death_burst(r, nodes),
        nodes.len() % 2 == 1,
    ensures
        r.len() == (nodes.len() - 1) / 2,
{
}

} // verus!
