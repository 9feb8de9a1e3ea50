use vstd::prelude::*;

verus! {

/// Which edge of a chain's outline a point lies on: `Right` is a joint's
/// heading turned back by a quarter turn, `Left` turned on by a quarter turn.
#[derive(Clone, Copy, Debug, PartialEq, Eq, Structural)]
pub enum Side {
    Right,
    Left,
}

/// A point of a chain's outline: on the circumference of `joint`, at `side`.
#[derive(Clone, Copy, Debug, PartialEq, Eq, Structural)]
pub struct RimPoint {
    pub joint: usize,
    pub side: Side,
}

/// The outline of a chain as a flat vertex list: for each joint from root to
/// tip, its right point, then its left point.
pub open spec fn rim_points(nodes: Seq<usize>) -> Seq<RimPoint> {
    Seq::new(
        2 * nodes.len(),
        |i: int|
            RimPoint {
                joint: nodes[i / 2],
                side: if i % 2 == 0 {
                    Side::Right
                } else {
                    Side::Left
                },
            },
    )
}

/// The two triangles of the quad between outline vertices `2q .. 2q + 3`.
pub open spec fn quad_corners(q: int) -> Seq<int> {
    seq![2 * q, 2 * q + 1, 2 * q + 2, 2 * q + 2, 2 * q + 1, 2 * q + 3]
}

/// The triangle indices of the first `count` quads of a strip.
pub open spec fn strip_quads(count: nat) -> Seq<int>
    decreases count,
{
    if count == 0 {
        Seq::empty()
    } else {
        strip_quads((count - 1) as nat) + quad_corners(count - 1)
    }
}

/// How many quads an outline of `vertex_count` vertices closes: none below
/// four vertices, and one more for every further pair.
pub open spec fn strip_quad_count(vertex_count: nat) -> nat {
    if vertex_count < 4 {
        0
    } else {
        ((vertex_count - 2) / 2) as nat
    }
}

/// The outline vertices of a chain, in the order the mesh strip takes them.
pub fn triangle_list(nodes: &Vec<usize>) -> (r: Vec<RimPoint>)
    ensures
        r@ == rim_points(nodes@),
{
    let mut r: Vec<RimPoint> = Vec::new();
    let mut i: usize = 0;
    while i < nodes.len()
        invariant
            i <= nodes@.len(),
            r@ =~= rim_points(nodes@.take(i as int)),
        decreases nodes@.len() - i,
    {
        r.push(RimPoint { joint: nodes[i], side: Side::Right });
        r.push(RimPoint { joint: nodes[i], side: Side::Left });
        i = i + 1;
    }
    assert(nodes@.take(i as int) =~= nodes@);
    r
}

/// The triangle list that fills an outline of `vertex_count` vertices, as
/// 16-bit indices: each quad of two right and two left points is split along
/// its diagonal into two triangles.
pub fn strip_indices(vertex_count: usize) -> (r: Vec<u16>)
    requires
        vertex_count <= 0x10000,
    ensures
        r@.map_values(|x: u16| x as int) == strip_quads(strip_quad_count(vertex_count as nat)),
{
    let mut r: Vec<u16> = Vec::new();
    if vertex_count < 4 {
        assert(r@.map_values(|x: u16| x as int) =~= strip_quads(0));
        return r;
    }
    let mut index: usize = 3;
    let ghost mut done: nat = 0;
    while index < vertex_count
        invariant
            4 <= vertex_count <= 0x10000,
            index == 3 + 2 * done,
            index <= vertex_count + 1,
            r@.map_values(|x: u16| x as int) =~= strip_quads(done),
        decreases vertex_count + 1 - index,
    {
        let i = index as u16;
        let ghost before = r@;
        r.push(i - 3);
        r.push(i - 2);
        r.push(i - 1);
        r.push(i - 1);
        r.push(i - 2);
        r.push(i);
        proof {
            assert(r@ =~= before + seq![
                (i - 3) as u16,
                (i - 2) as u16,
                (i - 1) as u16,
                (i - 1) as u16,
                (i - 2) as u16,
                i,
            ]);
            assert(r@.map_values(|x: u16| x as int) =~= before.map_values(|x: u16| x as int)
                + quad_corners(done as int));
            done = done + 1;
        }
        index = index + 2;
    }
    r
}

} // verus!
