use vstd::prelude::*;

use crate::bait::Bait;
use crate::constants::UNIT;
use crate::snake::SnakeNode;

verus! {

pub const DOLLAR: u8 = 36;
pub const COMMA: u8 = 44;
pub const MINUS: u8 = 45;
pub const DOT: u8 = 46;
pub const ZERO: u8 = 48;

// Outbound command codes.
pub const COMM_NEW_SNAKE: u8 = 1;
pub const COMM_UPDATE_SNAKE: u8 = 2;
pub const COMM_NEW_BAIT: u8 = 3;
pub const COMM_DELETE_BAIT: u8 = 4;
pub const COMM_NEW_ENEMY: u8 = 5;
pub const COMM_UPDATE_ENEMY: u8 = 6;
pub const COMM_DEAD_ENEMY: u8 = 7;
pub const COMM_DIE: u8 = 8;
pub const COMM_ENEMY_NAME: u8 = 9;
pub const COMM_GROWN: u8 = 62;

pub open spec fn digit(d: int) -> u8 {
    (ZERO + d) as u8
}

/// Decimal digits of `v`, most significant first, no leading zeros.
pub open spec fn decimal(v: nat) -> Seq<u8>
    decreases v,
{
    if v < 10 {
        seq![digit(v as int)]
    } else {
        decimal(v / 10).push(digit((v % 10) as int))
    }
}

/// Four decimals of a fraction given in ten-thousandths.
pub open spec fn four_decimals(f: int) -> Seq<u8> {
    seq![digit(f / 1000), digit((f / 100) % 10), digit((f / 10) % 10), digit(f % 10)]
}

pub open spec fn abs(v: int) -> nat {
    if v < 0 {
        (-v) as nat
    } else {
        v as nat
    }
}

/// A fixed-point coordinate as text with four decimals (`-12.0500`).
pub open spec fn fixed_text(v: int) -> Seq<u8> {
    let sign = if v < 0 {
        seq![MINUS]
    } else {
        Seq::<u8>::empty()
    };
    sign + decimal(abs(v) / (UNIT as nat)) + seq![DOT] + four_decimals(abs(v) as int % (UNIT as int))
}

/// `"x,y"` of one node.
pub open spec fn node_text(n: SnakeNode) -> Seq<u8> {
    fixed_text(n.x as int) + seq![COMMA] + fixed_text(n.y as int)
}

/// The comma-separated coordinates of a node list: `x0,y0,x1,y1,...`.
pub open spec fn nodes_text(s: Seq<SnakeNode>) -> Seq<u8>
    decreases s.len(),
{
    if s.len() == 0 {
        Seq::empty()
    } else if s.len() == 1 {
        node_text(s[0])
    } else {
        nodes_text(s.drop_last()) + seq![COMMA] + node_text(s.last())
    }
}

/// `$` followed by a command code.
pub open spec fn header(code: u8) -> Seq<u8> {
    seq![DOLLAR] + decimal(code as nat)
}

/// `$<code>,` followed by the node list.
pub open spec fn snake_message(code: u8, nodes: Seq<SnakeNode>) -> Seq<u8> {
    header(code) + seq![COMMA] + nodes_text(nodes)
}

pub open spec fn new_bait_text(b: Bait) -> Seq<u8> {
    header(COMM_NEW_BAIT) + seq![COMMA] + fixed_text(b.x as int) + seq![COMMA] + fixed_text(
        b.y as int,
    ) + seq![COMMA] + fixed_text(b.size as int)
}

pub open spec fn deleted_bait_text(b: Bait) -> Seq<u8> {
    header(COMM_DELETE_BAIT) + seq![COMMA] + fixed_text(b.x as int) + seq![COMMA] + fixed_text(
        b.y as int,
    )
}

/// `$<code>,<id>`.
pub open spec fn id_text(code: u8, id: u128) -> Seq<u8> {
    header(code) + seq![COMMA] + decimal(id as nat)
}

/// The concatenation of the texts of each bait.
pub open spec fn baits_text(s: Seq<Bait>, deleted: bool) -> Seq<u8>
    decreases s.len(),
{
    if s.len() == 0 {
        Seq::empty()
    } else {
        baits_text(s.drop_last(), deleted) + if deleted {
            deleted_bait_text(s.last())
        } else {
            new_bait_text(s.last())
        }
    }
}

/// The concatenation of `$<code>,<id>` for each id.
pub open spec fn ids_text(code: u8, s: Seq<u128>) -> Seq<u8>
    decreases s.len(),
{
    if s.len() == 0 {
        Seq::empty()
    } else {
        ids_text(code, s.drop_last()) + id_text(code, s.last())
    }
}

/// Appends the decimal digits of `v`.
pub fn push_decimal(out: &mut Vec<u8>, v: u128)
    ensures
        final(out)@ == old(out)@ + decimal(v as nat),
    decreases v,
{
    if v >= 10 {
        push_decimal(out, v / 10);
        out.push(ZERO + (v % 10) as u8);
    } else {
        out.push(ZERO + v as u8);
    }
    assert(final(out)@ =~= old(out)@ + decimal(v as nat));
}

/// Appends a fixed-point coordinate with four decimals.
pub fn push_fixed(out: &mut Vec<u8>, v: i64)
    ensures
        final(out)@ == old(out)@ + fixed_text(v as int),
{
    let ghost start = out@;
    let m: u64 = if v < 0 {
        out.push(MINUS);
        (-(v as i128)) as u64
    } else {
        v as u64
    };
    let unit = UNIT as u64;
    push_decimal(out, (m / unit) as u128);
    out.push(DOT);
    let f = m % unit;
    out.push(ZERO + (f / 1000) as u8);
    out.push(ZERO + ((f / 100) % 10) as u8);
    out.push(ZERO + ((f / 10) % 10) as u8);
    out.push(ZERO + (f % 10) as u8);
    assert(out@ =~= start + fixed_text(v as int));
}

/// Appends `$<code>`.
pub fn push_header(out: &mut Vec<u8>, code: u8)
    ensures
        final(out)@ == old(out)@ + header(code),
{
    out.push(DOLLAR);
    push_decimal(out, code as u128);
    assert(final(out)@ =~= old(out)@ + header(code));
}

/// Appends `"x,y"` of a node.
fn push_node(out: &mut Vec<u8>, n: SnakeNode)
    ensures
        final(out)@ == old(out)@ + node_text(n),
{
    let ghost start = out@;
    push_fixed(out, n.x);
    out.push(COMMA);
    push_fixed(out, n.y);
    assert(out@ =~= start + node_text(n));
}

/// Appends the comma-separated coordinates of `nodes`.
pub fn push_nodes(out: &mut Vec<u8>, nodes: &Vec<SnakeNode>)
    ensures
        final(out)@ == old(out)@ + nodes_text(nodes@),
{
    let ghost start = out@;
    let mut i: usize = 0;
    while i < nodes.len()
        invariant
            i <= nodes@.len(),
            out@ == start + nodes_text(nodes@.take(i as int)),
        decreases nodes@.len() - i,
    {
        if i > 0 {
            out.push(COMMA);
        }
        push_node(out, nodes[i]);
        proof {
            let t = nodes@.take(i + 1);
            assert(t.drop_last() =~= nodes@.take(i as int));
            if i == 0 {
                assert(nodes@.take(0) =~= Seq::<SnakeNode>::empty());
                assert(nodes_text(t) == node_text(t[0]));
            }
            assert(out@ =~= start + nodes_text(t));
        }
        i = i + 1;
    }
    assert(nodes@.take(nodes@.len() as int) =~= nodes@);
}

/// `$<code>,x0,y0,x1,y1,...` for a snake's nodes.
pub fn encode_snake(code: u8, nodes: &Vec<SnakeNode>) -> (r: Vec<u8>)
    ensures
        r@ == snake_message(code, nodes@),
{
    let mut out: Vec<u8> = Vec::new();
    push_header(&mut out, code);
    out.push(COMMA);
    push_nodes(&mut out, nodes);
    assert(out@ =~= snake_message(code, nodes@));
    out
}

/// `$<code>,<id>` appended to `out`.
pub fn push_id(out: &mut Vec<u8>, code: u8, id: u128)
    ensures
        final(out)@ == old(out)@ + id_text(code, id),
{
    let ghost start = out@;
    push_header(out, code);
    out.push(COMMA);
    push_decimal(out, id);
    assert(out@ =~= start + id_text(code, id));
}

/// One `$<code>,<id>` entry per id, concatenated.
pub fn encode_ids(code: u8, ids: &Vec<u128>) -> (r: Vec<u8>)
    ensures
        r@ == ids_text(code, ids@),
{
    let mut out: Vec<u8> = Vec::new();
    let mut i: usize = 0;
    while i < ids.len()
        invariant
            i <= ids@.len(),
            out@ == ids_text(code, ids@.take(i as int)),
        decreases ids@.len() - i,
    {
        push_id(&mut out, code, ids[i]);
        proof {
            assert(ids@.take(i + 1).drop_last() =~= ids@.take(i as int));
        }
        i = i + 1;
    }
    assert(ids@.take(ids@.len() as int) =~= ids@);
    out
}

/// One `$3,x,y,size` (new) or `$4,x,y` (deleted) entry per bait.
pub fn encode_baits(baits: &Vec<Bait>, deleted: bool) -> (r: Vec<u8>)
    ensures
        r@ == baits_text(baits@, deleted),
{
    let mut out: Vec<u8> = Vec::new();
    let mut i: usize = 0;
    while i < baits.len()
        invariant
            i <= baits@.len(),
            out@ == baits_text(baits@.take(i as int), deleted),
        decreases baits@.len() - i,
    {
        let ghost before = out@;
        let b = baits[i];
        if deleted {
            push_header(&mut out, COMM_DELETE_BAIT);
        } else {
            push_header(&mut out, COMM_NEW_BAIT);
        }
        out.push(COMMA);
        push_fixed(&mut out, b.x);
        out.push(COMMA);
        push_fixed(&mut out, b.y);
        if !deleted {
            out.push(COMMA);
            push_fixed(&mut out, b.size);
        }
        proof {
            assert(baits@.take(i + 1).drop_last() =~= baits@.take(i as int));
            if deleted {
                assert(out@ =~= before + deleted_bait_text(b));
            } else {
                assert(out@ =~= before + new_bait_text(b));
            }
        }
        i = i + 1;
    }
    assert(baits@.take(baits@.len() as int) =~= baits@);
    out
}

} // verus!
