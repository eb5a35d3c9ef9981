use vstd::prelude::*;
use std::collections::HashSet;
use crate::chunk::ChunkCoord;
use crate::chunk::VisionProvider;
use crate::fog::FogOfWarConfig;
use crate::mapper::chunk_center;
use crate::mapper::lemma_square_bounded;
use crate::mapper::lemma_twice_center_bounds;
use crate::mapper::world_to_chunk;

verus! {

broadcast use vstd::std_specs::hash::group_hash_axioms;

/// How many chunks to either side of a provider's own chunk are searched:
/// the range, stretched by the safety factor, in chunks, rounded up.
pub open spec fn search_radius(range: u32, chunk_size: u32, safety_percent: u32) -> int {
    let reach = range * safety_percent;
    let unit = chunk_size * 100;
    if reach % unit == 0 {
        reach / unit
    } else {
        reach / unit + 1
    }
}

/// The widest search window that makes a difference: no two chunks are
/// further apart than this.
const GRID_SPAN: i64 = 0x1_0000_0000;

impl VisionProvider {
    /// Whether the chunk is one of those searched around the provider: at
    /// most `search_radius` chunks away from the provider's own chunk along
    /// each axis.
    pub open spec fn spec_in_window(
        self,
        coord: ChunkCoord,
        chunk_size: u32,
        safety_percent: u32,
    ) -> bool {
        let home = ChunkCoord::spec_of(self.position, chunk_size);
        let radius = search_radius(self.range, chunk_size, safety_percent);
        &&& -radius <= coord.x - home.x <= radius
        &&& -radius <= coord.y - home.y <= radius
    }

    /// Whether the centre of the chunk is no further from the provider than
    /// its range, by the straight line. The distance is taken in half
    /// units, where the centre of every chunk is a whole number: twice the
    /// distance is compared with twice the range.
    pub open spec fn spec_reaches(self, coord: ChunkCoord, chunk_size: u32) -> bool {
        let dx = 2 * self.position.x - (2 * coord.x + 1) * chunk_size;
        let dy = 2 * self.position.y - (2 * coord.y + 1) * chunk_size;
        dx * dx + dy * dy <= 4 * (self.range * self.range)
    }

    /// Whether the provider uncovers the chunk: the chunk is searched and
    /// its centre is within range.
    pub open spec fn spec_sees(self, coord: ChunkCoord, chunk_size: u32, safety_percent: u32) -> bool {
        &&& self.spec_in_window(coord, chunk_size, safety_percent)
        &&& self.spec_reaches(coord, chunk_size)
    }

    /// Whether the centre of the chunk is no further from the provider than
    /// its range.
    pub fn reaches(&self, coord: ChunkCoord, chunk_size: u32) -> (b: bool)
        ensures
            b == self.spec_reaches(coord, chunk_size),
    {
        let center = chunk_center(coord, chunk_size);
        proof {
            lemma_twice_center_bounds(2 * coord.x + 1, chunk_size as int);
            lemma_twice_center_bounds(2 * coord.y + 1, chunk_size as int);
        }
        let dx: i128 = 2 * (self.position.x as i128) - center.twice_x;
        let dy: i128 = 2 * (self.position.y as i128) - center.twice_y;
        let reach: i128 = 2 * (self.range as i128);
        proof {
            assert(reach * reach == 4 * (self.range * self.range)) by (nonlinear_arith)
                requires
                    reach == 2 * self.range,
            ;
        }
        if dx > reach || dx < -reach {
            proof {
                lemma_square_exceeds(dx as int, reach as int);
                assert(dy * dy >= 0) by (nonlinear_arith);
            }
            return false;
        }
        if dy > reach || dy < -reach {
            proof {
                lemma_square_exceeds(dy as int, reach as int);
                assert(dx * dx >= 0) by (nonlinear_arith);
            }
            return false;
        }
        proof {
            lemma_square_bounded(dx as int, reach as int);
            lemma_square_bounded(dy as int, reach as int);
            lemma_square_bounded(reach as int, 0x2_0000_0000);
        }
        dx * dx + dy * dy <= reach * reach
    }
}

/// A number further from zero than `r` has a square above that of `r`.
proof fn lemma_square_exceeds(d: int, r: int)
    requires
        r >= 0,
        d > r || d < -r,
    ensures
        d * d > r * r,
{
    assert(d * d > r * r) by (nonlinear_arith)
        requires
            r >= 0,
            d > r || d < -r,
    ;
}

/// The chunks that the providers uncover between them.
pub open spec fn visible_region(providers: Seq<VisionProvider>, config: FogOfWarConfig) -> Set<
    ChunkCoord,
> {
    Set::new(
        |coord: ChunkCoord|
            exists|i: int|
                0 <= i < providers.len() && #[trigger] providers[i].spec_sees(
                    coord,
                    config.chunk_size(),
                    config.radius_safety_percent(),
                ),
    )
}

/// The search radius is the least number of chunks that covers the
/// stretched range.
pub proof fn lemma_search_radius_is_ceiling(range: u32, chunk_size: u32, safety_percent: u32)
    requires
        chunk_size > 0,
    ensures
        search_radius(range, chunk_size, safety_percent) >= 0,
        search_radius(range, chunk_size, safety_percent) * (chunk_size * 100) >= range
            * safety_percent,
        (search_radius(range, chunk_size, safety_percent) - 1) * (chunk_size * 100) < range
            * safety_percent,
{
    let reach = range * safety_percent;
    let unit = chunk_size * 100;
    let whole = reach / unit;
    assert(reach >= 0) by (nonlinear_arith)
        requires
            reach == range * safety_percent,
            range >= 0,
            safety_percent >= 0,
    ;
    vstd::arithmetic::div_mod::lemma_fundamental_div_mod(reach, unit);
    vstd::arithmetic::div_mod::lemma_mod_bound(reach, unit);
    assert(unit * whole == whole * unit) by (nonlinear_arith);
    assert((whole + 1) * unit == whole * unit + unit) by (nonlinear_arith);
    assert((whole - 1) * unit == whole * unit - unit) by (nonlinear_arith);
    assert(whole >= 0) by (nonlinear_arith)
        requires
            whole * unit + reach % unit == reach,
            reach >= 0,
            0 <= reach % unit < unit,
    ;
}

/// The search radius, cut off at the span of the grid.
fn window_radius(range: u32, chunk_size: u32, safety_percent: u32) -> (radius: i64)
    requires
        chunk_size > 0,
    ensures
        0 <= radius <= GRID_SPAN,
        search_radius(range, chunk_size, safety_percent) <= GRID_SPAN ==> radius == search_radius(
            range,
            chunk_size,
            safety_percent,
        ),
        search_radius(range, chunk_size, safety_percent) > GRID_SPAN ==> radius == GRID_SPAN,
{
    proof {
        lemma_search_radius_is_ceiling(range, chunk_size, safety_percent);
        assert(range * safety_percent <= 0xffff_ffff * 0xffff_ffff) by (nonlinear_arith)
            requires
                0 <= range <= 0xffff_ffff,
                0 <= safety_percent <= 0xffff_ffff,
        ;
        assert(range * safety_percent >= 0) by (nonlinear_arith)
            requires
                0 <= range,
                0 <= safety_percent,
        ;
    }
    let reach: u64 = range as u64 * safety_percent as u64;
    let unit: u64 = chunk_size as u64 * 100;
    let whole: u64 = reach / unit;
    proof {
        assert(reach as int / unit as int <= reach) by (nonlinear_arith)
            requires
                reach >= 0,
                unit >= 1,
        ;
    }
    let up: u64 = if reach % unit == 0 {
        whole
    } else {
        whole + 1
    };
    if up > 0x1_0000_0000 {
        GRID_SPAN
    } else {
        up as i64
    }
}

/// Adds to `seen` the chunks that one provider uncovers.
fn mark_provider(
    seen: &mut HashSet<u64>,
    provider: &VisionProvider,
    chunk_size: u32,
    safety_percent: u32,
)
    requires
        chunk_size > 0,
    ensures
        forall|c: ChunkCoord| #[trigger]
            final(seen)@.contains(c.spec_key()) <==> (old(seen)@.contains(c.spec_key())
                || provider.spec_sees(c, chunk_size, safety_percent)),
{
    let home = world_to_chunk(provider.position, chunk_size);
    let radius: i64 = window_radius(provider.range, chunk_size, safety_percent);
    let floor: i64 = i32::MIN as i64;
    let ceiling: i64 = i32::MAX as i64;
    let x_lo: i64 = if home.x as i64 - radius < floor {
        floor
    } else {
        home.x as i64 - radius
    };
    let x_hi: i64 = if home.x as i64 + radius > ceiling {
        ceiling
    } else {
        home.x as i64 + radius
    };
    let y_lo: i64 = if home.y as i64 - radius < floor {
        floor
    } else {
        home.y as i64 - radius
    };
    let y_hi: i64 = if home.y as i64 + radius > ceiling {
        ceiling
    } else {
        home.y as i64 + radius
    };
    let ghost before = seen@;
    proof {
        ChunkCoord::lemma_key_bijective();
        lemma_search_radius_is_ceiling(provider.range, chunk_size, safety_percent);
        assert forall|c: ChunkCoord| #[trigger]
            provider.spec_in_window(c, chunk_size, safety_percent) <==> (x_lo <= c.x <= x_hi
                && y_lo <= c.y <= y_hi) by {}
    }
    let mut x: i64 = x_lo;
    while x <= x_hi
        invariant
            chunk_size > 0,
            i32::MIN <= x_lo <= x <= x_hi + 1 <= i32::MAX + 1,
            i32::MIN <= y_lo <= y_hi <= i32::MAX,
            forall|c: ChunkCoord| #[trigger]
                provider.spec_in_window(c, chunk_size, safety_percent) <==> (x_lo <= c.x <= x_hi
                    && y_lo <= c.y <= y_hi),
            forall|c: ChunkCoord| #[trigger]
                seen@.contains(c.spec_key()) <==> (before.contains(c.spec_key()) || (
                provider.spec_sees(c, chunk_size, safety_percent) && c.x < x)),
        decreases x_hi + 1 - x,
    {
        let mut y: i64 = y_lo;
        while y <= y_hi
            invariant
                chunk_size > 0,
                i32::MIN <= x_lo <= x <= x_hi <= i32::MAX,
                i32::MIN <= y_lo <= y <= y_hi + 1 <= i32::MAX + 1,
                forall|c: ChunkCoord| #[trigger]
                    provider.spec_in_window(c, chunk_size, safety_percent) <==> (x_lo <= c.x
                        <= x_hi && y_lo <= c.y <= y_hi),
                forall|c: ChunkCoord| #[trigger]
                    seen@.contains(c.spec_key()) <==> (before.contains(c.spec_key()) || (
                    provider.spec_sees(c, chunk_size, safety_percent) && (c.x < x || (c.x == x
                        && c.y < y)))),
            decreases y_hi + 1 - y,
        {
            let coord = ChunkCoord { x: x as i32, y: y as i32 };
            if provider.reaches(coord, chunk_size) {
                proof {
                    ChunkCoord::lemma_key_bijective();
                }
                seen.insert(coord.key());
            }
            y = y + 1;
        }
        x = x + 1;
    }
}

/// Whether one of the first `count` providers uncovers the chunk.
spec fn seen_by_first(
    providers: Seq<VisionProvider>,
    count: int,
    coord: ChunkCoord,
    chunk_size: u32,
    safety_percent: u32,
) -> bool {
    exists|i: int|
        0 <= i < count && #[trigger] providers[i].spec_sees(coord, chunk_size, safety_percent)
}

/// The numbers of the chunks that the providers uncover between them.
pub(crate) fn visible_keys(providers: &[VisionProvider], config: &FogOfWarConfig) -> (seen: HashSet<u64>)
    ensures
        forall|c: ChunkCoord| #[trigger]
            seen@.contains(c.spec_key()) <==> visible_region(providers@, *config).contains(c),
{
    let chunk_size: u32 = config.chunk_size();
    let safety_percent: u32 = config.radius_safety_percent();
    let mut seen: HashSet<u64> = HashSet::new();
    let mut n: usize = 0;
    while n < providers.len()
        invariant
            chunk_size > 0,
            n <= providers.len(),
            forall|c: ChunkCoord| #[trigger]
                seen@.contains(c.spec_key()) <==> seen_by_first(
                    providers@,
                    n as int,
                    c,
                    chunk_size,
                    safety_percent,
                ),
        decreases providers.len() - n,
    {
        let ghost before = seen@;
        mark_provider(&mut seen, &providers[n], chunk_size, safety_percent);
        proof {
            assert forall|c: ChunkCoord| #[trigger]
                seen@.contains(c.spec_key()) <==> seen_by_first(
                    providers@,
                    n + 1,
                    c,
                    chunk_size,
                    safety_percent,
                ) by {
                if seen_by_first(providers@, n + 1, c, chunk_size, safety_percent) {
                    let i = choose|i: int|
                        0 <= i < n + 1 && #[trigger] providers@[i].spec_sees(
                            c,
                            chunk_size,
                            safety_percent,
                        );
                    if i < n {
                        assert(seen_by_first(providers@, n as int, c, chunk_size, safety_percent));
                    }
                }
                if before.contains(c.spec_key()) {
                    assert(seen_by_first(providers@, n as int, c, chunk_size, safety_percent));
                }
            }
        }
        n = n + 1;
    }
    seen
}

/// Along one axis, in half units: a chunk whose centre is within `range`
/// of the position `p` is at most `radius` chunks from the chunk of `p`,
/// if `radius` chunks are at least as long as `range`.
proof fn lemma_axis_within_window(p: int, c: int, size: int, range: int, radius: int)
    requires
        size > 0,
        range >= 0,
        radius * size >= range,
        -(2 * range) <= 2 * p - (2 * c + 1) * size <= 2 * range,
    ensures
        -radius <= c - crate::mapper::cell_of(p, size) <= radius,
{
    let home = crate::mapper::cell_of(p, size);
    let d = c - home;
    crate::mapper::lemma_cell_of_bounds(p, size);
    assert((2 * c + 1) * size == 2 * (home * size) + 2 * (d * size) + size) by (nonlinear_arith)
        requires
            c == home + d,
    ;
    assert((home + 1) * size == home * size + size) by (nonlinear_arith);
    if d > radius {
        assert(d * size >= radius * size + size) by (nonlinear_arith)
            requires
                d >= radius + 1,
                size > 0,
        ;
    }
    if d < -radius {
        assert(d * size <= -(radius * size) - size) by (nonlinear_arith)
            requires
                d <= -radius - 1,
                size > 0,
        ;
    }
}

/// With a safety factor of at least one the search window misses no chunk
/// in range: a provider sees exactly the chunks whose centre lies within
/// its range.
pub proof fn law_window_covers_range(
    provider: VisionProvider,
    coord: ChunkCoord,
    chunk_size: u32,
    safety_percent: u32,
)
    requires
        chunk_size > 0,
        safety_percent >= 100,
    ensures
        provider.spec_sees(coord, chunk_size, safety_percent) == provider.spec_reaches(
            coord,
            chunk_size,
        ),
{
    if provider.spec_reaches(coord, chunk_size) {
        let size = chunk_size as int;
        let range = provider.range as int;
        let radius = search_radius(provider.range, chunk_size, safety_percent);
        let dx = 2 * provider.position.x - (2 * coord.x + 1) * chunk_size;
        let dy = 2 * provider.position.y - (2 * coord.y + 1) * chunk_size;
        lemma_search_radius_is_ceiling(provider.range, chunk_size, safety_percent);
        assert(radius * size >= range) by (nonlinear_arith)
            requires
                radius * (size * 100) >= range * safety_percent,
                safety_percent >= 100,
                range >= 0,
                size > 0,
                radius >= 0,
        ;
        assert((2 * range) * (2 * range) == 4 * (range * range)) by (nonlinear_arith);
        assert(dx * dx >= 0) by (nonlinear_arith);
        assert(dy * dy >= 0) by (nonlinear_arith);
        if dx > 2 * range || dx < -(2 * range) {
            lemma_square_exceeds(dx, 2 * range);
        }
        if dy > 2 * range || dy < -(2 * range) {
            lemma_square_exceeds(dy, 2 * range);
        }
        lemma_axis_within_window(provider.position.x as int, coord.x as int, size, range, radius);
        lemma_axis_within_window(provider.position.y as int, coord.y as int, size, range, radius);
        crate::mapper::lemma_cell_in_i32(provider.position.x as int, size);
        crate::mapper::lemma_cell_in_i32(provider.position.y as int, size);
    }
}

/// With a safety factor of at least one the visible region is the set of
/// chunks whose centre lies within the range of some provider.
pub proof fn law_region_is_reach(
    providers: Seq<VisionProvider>,
    config: FogOfWarConfig,
    coord: ChunkCoord,
)
    requires
        config.wf(),
        config.radius_safety_percent() >= 100,
    ensures
        visible_region(providers, config).contains(coord) <==> exists|i: int|
            0 <= i < providers.len() && #[trigger] providers[i].spec_reaches(
                coord,
                config.chunk_size(),
            ),
{
    config.lemma_wf_chunk_size();
    let size = config.chunk_size();
    let percent = config.radius_safety_percent();
    if visible_region(providers, config).contains(coord) {
        let i = choose|i: int|
            0 <= i < providers.len() && #[trigger] providers[i].spec_sees(coord, size, percent);
        assert(providers[i].spec_reaches(coord, size));
    }
    if exists|i: int| 0 <= i < providers.len() && #[trigger] providers[i].spec_reaches(coord, size) {
        let i = choose|i: int|
            0 <= i < providers.len() && #[trigger] providers[i].spec_reaches(coord, size);
        law_window_covers_range(providers[i], coord, size, percent);
        assert(providers[i].spec_sees(coord, size, percent));
    }
}

} // verus!
