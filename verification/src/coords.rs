//! Addressing: how a position in tile space splits into the coordinate of a
//! chunk and a position inside that chunk.

use vstd::prelude::*;

verus! {

/// The chunk coordinate of tile coordinate `p` along one axis, for chunks
/// that are `size` tiles long: the floor of `p / size`.
pub open spec fn chunk_coord(p: int, size: int) -> int {
    p / size
}

/// The offset of tile coordinate `p` inside its chunk along one axis.
pub open spec fn local_coord(p: int, size: int) -> int {
    p % size
}

/// The chunk coordinate of tile position `p` for chunks of extent `size`.
pub open spec fn chunk_of(p: (int, int), size: (u32, u32)) -> (int, int) {
    (chunk_coord(p.0, size.0 as int), chunk_coord(p.1, size.1 as int))
}

/// The cell inside its chunk of tile position `p` for chunks of extent
/// `size`.
pub open spec fn local_of(p: (int, int), size: (u32, u32)) -> (u32, u32) {
    (local_coord(p.0, size.0 as int) as u32, local_coord(p.1, size.1 as int) as u32)
}

/// A tile coordinate lies inside the span of its chunk: the chunk starts at
/// or before it and the next chunk starts after it. This holds for negative
/// coordinates as well, because the division is floored.
pub proof fn lemma_chunk_coord_bounds(p: int, size: int)
    requires
        size > 0,
    ensures
        chunk_coord(p, size) * size <= p < (chunk_coord(p, size) + 1) * size,
        p == chunk_coord(p, size) * size + local_coord(p, size),
        0 <= local_coord(p, size) < size,
{
    lemma_floor_parts(p, size);
    assert((p / size + 1) * size == (p / size) * size + size) by (nonlinear_arith);
}

/// The chunk coordinate of a tile coordinate that fits thirty-two signed bits
/// fits them too.
pub proof fn lemma_chunk_coord_range(p: int, size: int)
    requires
        size > 0,
        i32::MIN <= p <= i32::MAX,
    ensures
        i32::MIN <= chunk_coord(p, size) <= i32::MAX,
{
    lemma_floor_parts(p, size);
    let q = p / size;
    assert(i32::MIN <= q <= i32::MAX) by (nonlinear_arith)
        requires
            size > 0,
            i32::MIN <= p <= i32::MAX,
            q * size <= p < q * size + size,
    ;
}

/// The split is the only one: whatever chunk coordinate `c` and offset `l`
/// inside a chunk recompose to `p` are the ones the mapping gives.
pub proof fn lemma_split_unique(p: int, size: int, c: int, l: int)
    requires
        size > 0,
        0 <= l < size,
        p == c * size + l,
    ensures
        c == chunk_coord(p, size),
        l == local_coord(p, size),
{
    vstd::arithmetic::div_mod::lemma_fundamental_div_mod_converse(p, size, c, l);
}

/// Splits one tile coordinate into its chunk coordinate and the offset inside
/// the chunk. Division is floored, so negative coordinates land in the chunk
/// to their left rather than being pulled toward zero.
pub fn split_axis(p: i32, size: u32) -> (r: (i32, u32))
    requires
        size > 0,
    ensures
        r.0 == chunk_coord(p as int, size as int),
        r.1 == local_coord(p as int, size as int),
        r.0 * size + r.1 == p,
        r.1 < size,
{
    let pw: i64 = p as i64;
    let sw: i64 = size as i64;
    if pw >= 0 {
        let q: i64 = pw / sw;
        let r: i64 = pw % sw;
        proof {
            lemma_floor_parts(p as int, size as int);
        }
        (q as i32, r as u32)
    } else {
        // Work on the mirrored, non-negative coordinate and mirror back.
        let n: i64 = -pw - 1;
        let qn: i64 = n / sw;
        let rn: i64 = n % sw;
        let q: i64 = -qn - 1;
        let r: i64 = sw - 1 - rn;
        proof {
            lemma_floor_parts(n as int, size as int);
            assert(qn * sw >= 0) by (nonlinear_arith)
                requires
                    qn >= 0,
                    sw > 0,
            ;
            assert(q * sw + r == pw) by (nonlinear_arith)
                requires
                    sw * qn + rn == n,
                    n == -pw - 1,
                    q == -qn - 1,
                    r == sw - 1 - rn,
            ;
            vstd::arithmetic::div_mod::lemma_fundamental_div_mod_converse(
                p as int,
                size as int,
                q as int,
                r as int,
            );
        }
        (q as i32, r as u32)
    }
}

/// A coordinate is its floored quotient times the divisor plus a remainder
/// that is at least zero and less than the divisor.
proof fn lemma_floor_parts(p: int, size: int)
    requires
        size > 0,
    ensures
        size * (p / size) + p % size == p,
        (p / size) * size + p % size == p,
        0 <= p % size < size,
{
    vstd::arithmetic::div_mod::lemma_fundamental_div_mod(p, size);
    vstd::arithmetic::div_mod::lemma_mod_bound(p, size);
    vstd::arithmetic::mul::lemma_mul_is_commutative(size, p / size);
}

} // verus!
