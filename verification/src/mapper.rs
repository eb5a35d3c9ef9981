use vstd::prelude::*;
use vstd::arithmetic::div_mod::lemma_fundamental_div_mod_converse;
use vstd::arithmetic::div_mod::lemma_fundamental_div_mod;
use vstd::arithmetic::div_mod::lemma_mod_bound;
use crate::chunk::ChunkCoord;
use crate::chunk::HalfPos;
use crate::chunk::WorldPos;

verus! {

/// Index of the grid cell of width `size` that holds the coordinate `v`:
/// the quotient rounded towards minus infinity.
pub open spec fn cell_of(v: int, size: int) -> int {
    v / size
}

/// The cell of `v` is the one whose half-open interval holds `v`.
pub proof fn lemma_cell_of_bounds(v: int, size: int)
    requires
        size > 0,
    ensures
        cell_of(v, size) * size <= v < (cell_of(v, size) + 1) * size,
{
    lemma_fundamental_div_mod(v, size);
    lemma_mod_bound(v, size);
    assert(v == size * (v / size) + v % size);
    assert(size * (v / size) == (v / size) * size) by (nonlinear_arith);
    assert((v / size + 1) * size == (v / size) * size + size) by (nonlinear_arith);
}

/// Only one cell's interval holds `v`.
pub proof fn lemma_cell_of_unique(v: int, size: int, c: int)
    requires
        size > 0,
        c * size <= v < (c + 1) * size,
    ensures
        cell_of(v, size) == c,
{
    let r = v - c * size;
    assert((c + 1) * size == c * size + size) by (nonlinear_arith);
    assert(v == c * size + r);
    lemma_fundamental_div_mod_converse(v, size, c, r);
}

impl ChunkCoord {
    /// The chunk that holds a world position.
    pub open spec fn spec_of(pos: WorldPos, chunk_size: u32) -> ChunkCoord {
        ChunkCoord {
            x: cell_of(pos.x as int, chunk_size as int) as i32,
            y: cell_of(pos.y as int, chunk_size as int) as i32,
        }
    }

    /// World coordinates of the chunk's lower left corner.
    pub open spec fn spec_origin(self, chunk_size: u32) -> (int, int) {
        (self.x * chunk_size, self.y * chunk_size)
    }

    /// Twice the world coordinates of the chunk's centre, which lies half a
    /// chunk above and to the right of the corner: `(x + 1/2) * chunk_size`
    /// doubled is `(2 * x + 1) * chunk_size`.
    pub open spec fn spec_twice_center(self, chunk_size: u32) -> (int, int) {
        ((2 * self.x + 1) * chunk_size, (2 * self.y + 1) * chunk_size)
    }

    /// Whether the position lies in the chunk's square, which is closed at
    /// its lower and left edge and open at its upper and right edge.
    pub open spec fn spec_contains(self, chunk_size: u32, pos: WorldPos) -> bool {
        let (ox, oy) = self.spec_origin(chunk_size);
        &&& ox <= pos.x < ox + chunk_size
        &&& oy <= pos.y < oy + chunk_size
    }
}

/// Quotient of `v` by `size`, rounded towards minus infinity.
fn floor_div(v: i32, size: u32) -> (q: i32)
    requires
        size > 0,
    ensures
        q == cell_of(v as int, size as int),
        q * size <= v < (q + 1) * size,
{
    let wide: i64 = v as i64;
    let width: i64 = size as i64;
    let q: i64 = if wide >= 0 {
        wide / width
    } else {
        let below: i64 = (-wide - 1) / width;
        -below - 1
    };
    proof {
        let s = size as int;
        if wide >= 0 {
            lemma_cell_of_bounds(wide as int, s);
        } else {
            let n = -(wide as int) - 1;
            let b = n / s;
            lemma_cell_of_bounds(n, s);
            assert(b * s <= n < (b + 1) * s);
            assert((-b - 1) * s == -(b * s) - s) by (nonlinear_arith);
            assert((-b - 1 + 1) * s == -(b * s)) by (nonlinear_arith);
            assert((b + 1) * s == b * s + s) by (nonlinear_arith);
            lemma_cell_of_unique(wide as int, s, -b - 1);
            lemma_cell_of_bounds(wide as int, s);
        }
        lemma_cell_in_i32(wide as int, s);
    }
    q as i32
}

/// The cell of a 32-bit coordinate is a 32-bit number.
pub proof fn lemma_cell_in_i32(v: int, size: int)
    requires
        size > 0,
        i32::MIN <= v <= i32::MAX,
    ensures
        i32::MIN <= cell_of(v, size) <= i32::MAX,
{
    let c = cell_of(v, size);
    lemma_cell_of_bounds(v, size);
    if c > i32::MAX {
        assert(c * size >= c) by (nonlinear_arith)
            requires
                c > 0,
                size >= 1,
        ;
    }
    if c < i32::MIN {
        assert((c + 1) * size <= c + 1) by (nonlinear_arith)
            requires
                c + 1 <= 0,
                size >= 1,
        ;
    }
}

/// The chunk that holds a world position. Positions below zero fall in
/// chunks below zero: the quotient is rounded down, not towards zero.
pub fn world_to_chunk(pos: WorldPos, chunk_size: u32) -> (c: ChunkCoord)
    requires
        chunk_size > 0,
    ensures
        c == ChunkCoord::spec_of(pos, chunk_size),
        c.spec_contains(chunk_size, pos),
{
    let x: i32 = floor_div(pos.x, chunk_size);
    let y: i32 = floor_div(pos.y, chunk_size);
    proof {
        assert((x + 1) * chunk_size == x * chunk_size + chunk_size) by (nonlinear_arith);
        assert((y + 1) * chunk_size == y * chunk_size + chunk_size) by (nonlinear_arith);
    }
    ChunkCoord { x, y }
}

/// A product of a 32-bit signed and a 32-bit unsigned number stays well
/// inside the 64-bit signed range.
pub proof fn lemma_scaled_bounds(c: int, size: int)
    requires
        i32::MIN <= c <= i32::MAX,
        0 <= size <= u32::MAX,
    ensures
        -0x8000_0000 * 0xffff_ffff <= c * size <= 0x7fff_ffff * 0xffff_ffff,
{
    assert(c * size <= 0x7fff_ffff * 0xffff_ffff) by (nonlinear_arith)
        requires
            c <= 0x7fff_ffff,
            0 <= size <= 0xffff_ffff,
    ;
    assert(-0x8000_0000 * 0xffff_ffff <= c * size) by (nonlinear_arith)
        requires
            -0x8000_0000 <= c,
            0 <= size <= 0xffff_ffff,
    ;
}

/// World coordinates of the lower left corner of a chunk. The corner of a
/// far chunk lies outside the 32-bit world, so the result is 64 bits wide.
pub fn chunk_origin(coord: ChunkCoord, chunk_size: u32) -> (o: (i64, i64))
    ensures
        (o.0 as int, o.1 as int) == coord.spec_origin(chunk_size),
{
    proof {
        lemma_scaled_bounds(coord.x as int, chunk_size as int);
        lemma_scaled_bounds(coord.y as int, chunk_size as int);
    }
    let size: i64 = chunk_size as i64;
    (coord.x as i64 * size, coord.y as i64 * size)
}

/// A number no further from zero than `bound` has a square no greater than
/// that of `bound`.
pub proof fn lemma_square_bounded(d: int, bound: int)
    requires
        -bound <= d <= bound,
    ensures
        0 <= d * d <= bound * bound,
{
    assert(0 <= d * d <= bound * bound) by (nonlinear_arith)
        requires
            -bound <= d <= bound,
    ;
}

/// The centre of a chunk: the corner plus half the chunk size on both
/// axes. It is given in half units, so that it is exact for an odd chunk
/// size too.
pub fn chunk_center(coord: ChunkCoord, chunk_size: u32) -> (m: HalfPos)
    ensures
        (m.twice_x as int, m.twice_y as int) == coord.spec_twice_center(chunk_size),
{
    let size: i128 = chunk_size as i128;
    let odd_x: i128 = 2 * (coord.x as i128) + 1;
    let odd_y: i128 = 2 * (coord.y as i128) + 1;
    proof {
        lemma_twice_center_bounds(odd_x as int, chunk_size as int);
        lemma_twice_center_bounds(odd_y as int, chunk_size as int);
    }
    HalfPos { twice_x: odd_x * size, twice_y: odd_y * size }
}

/// Twice a chunk's centre is a number of at most 65 bits.
pub proof fn lemma_twice_center_bounds(odd: int, size: int)
    requires
        -0x1_0000_0000 <= odd <= 0x1_0000_0000,
        0 <= size <= u32::MAX,
    ensures
        -0x1_0000_0000 * 0x1_0000_0000 <= odd * size <= 0x1_0000_0000 * 0x1_0000_0000,
{
    assert(odd * size <= 0x1_0000_0000 * 0x1_0000_0000) by (nonlinear_arith)
        requires
            odd <= 0x1_0000_0000,
            0 <= size <= 0x1_0000_0000,
    ;
    assert(-0x1_0000_0000 * 0x1_0000_0000 <= odd * size) by (nonlinear_arith)
        requires
            -0x1_0000_0000 <= odd,
            0 <= size <= 0x1_0000_0000,
    ;
}

impl ChunkCoord {
    /// Whether the position lies in the chunk's square, which is closed at
    /// its lower and left edge and open at its upper and right edge.
    pub fn contains(&self, chunk_size: u32, pos: WorldPos) -> (b: bool)
        ensures
            b == self.spec_contains(chunk_size, pos),
            chunk_size > 0 ==> b == (*self == ChunkCoord::spec_of(pos, chunk_size)),
    {
        let (ox, oy) = chunk_origin(*self, chunk_size);
        let size: i64 = chunk_size as i64;
        let px: i64 = pos.x as i64;
        let py: i64 = pos.y as i64;
        proof {
            lemma_scaled_bounds(self.x as int, chunk_size as int);
            lemma_scaled_bounds(self.y as int, chunk_size as int);
            if chunk_size > 0 {
                lemma_contains_iff_home(*self, chunk_size, pos);
            }
        }
        ox <= px && px < ox + size && oy <= py && py < oy + size
    }
}

/// A chunk holds a position exactly when it is the chunk the position maps
/// to.
pub proof fn lemma_contains_iff_home(coord: ChunkCoord, chunk_size: u32, pos: WorldPos)
    requires
        chunk_size > 0,
    ensures
        coord.spec_contains(chunk_size, pos) <==> coord == ChunkCoord::spec_of(pos, chunk_size),
{
    let s = chunk_size as int;
    let home = ChunkCoord::spec_of(pos, chunk_size);
    lemma_cell_of_bounds(pos.x as int, s);
    lemma_cell_of_bounds(pos.y as int, s);
    lemma_cell_in_i32(pos.x as int, s);
    lemma_cell_in_i32(pos.y as int, s);
    assert((coord.x + 1) * s == coord.x * s + s) by (nonlinear_arith);
    assert((coord.y + 1) * s == coord.y * s + s) by (nonlinear_arith);
    assert((home.x + 1) * s == home.x * s + s) by (nonlinear_arith);
    assert((home.y + 1) * s == home.y * s + s) by (nonlinear_arith);
    if coord.spec_contains(chunk_size, pos) {
        lemma_cell_of_unique(pos.x as int, s, coord.x as int);
        lemma_cell_of_unique(pos.y as int, s, coord.y as int);
    }
}

} // verus!
