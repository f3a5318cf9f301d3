use vstd::prelude::*;
use vstd::arithmetic::div_mod::{lemma_fundamental_div_mod, lemma_fundamental_div_mod_converse_mod};
use crate::coord::CHUNK_WIDTH;
use crate::point::{ChunkOrigin, WorldPoint};

verus! {

/// The size of `x`.
pub open spec fn magnitude(x: int) -> int {
    if x < 0 {
        -x
    } else {
        x
    }
}

/// The multiple of `x` next to `n`: for a positive `x` the lowest multiple
/// that is not below `n`, for a negative `x` the highest multiple that is not
/// above `n`.
pub open spec fn spec_lowest_multiple_above(x: int, n: int) -> int
    recommends
        x != 0,
{
    let r = n % magnitude(x);
    if r == 0 {
        n
    } else if x > 0 {
        n - r + x
    } else {
        n - r
    }
}

/// The multiple of `x` next to `n` is a multiple of `x`, lies less than the
/// size of `x` away from `n`, on the side that the sign of `x` names, and is
/// the only number of which all this holds.
pub proof fn lemma_lowest_multiple_above(x: int, n: int, m: int)
    requires
        x != 0,
    ensures
        spec_lowest_multiple_above(x, n) % magnitude(x) == 0,
        x > 0 ==> n <= spec_lowest_multiple_above(x, n) < n + x,
        x < 0 ==> n + x < spec_lowest_multiple_above(x, n) <= n,
        m % magnitude(x) == 0 && (x > 0 ==> n <= m < n + x) && (x < 0 ==> n + x < m <= n) ==> m
            == spec_lowest_multiple_above(x, n),
{
    let w = magnitude(x);
    let r = n % w;
    let q = n / w;
    let found = spec_lowest_multiple_above(x, n);
    lemma_fundamental_div_mod(n, w);
    assert(0 <= r < w);
    if r == 0 {
    } else if x > 0 {
        assert(found == w * (q + 1) + 0) by (nonlinear_arith)
            requires
                found == n - r + w,
                n == w * q + r,
        ;
        lemma_fundamental_div_mod_converse_mod(found, w, q + 1, 0);
    } else {
        assert(found == w * q + 0);
        lemma_fundamental_div_mod_converse_mod(found, w, q, 0);
    }
    if m % w == 0 && (x > 0 ==> n <= m < n + x) && (x < 0 ==> n + x < m <= n) {
        lemma_fundamental_div_mod(m, w);
        lemma_fundamental_div_mod(found, w);
        let a = m / w;
        let b = found / w;
        assert(m == w * a);
        assert(found == w * b);
        assert(-w < m - found < w);
        assert(a == b) by (nonlinear_arith)
            requires
                w > 0,
                -w < w * a - w * b < w,
        ;
    }
}

/// The place of `n` between two multiples of `w`: `n` modulo `w`.
fn remainder(n: i64, w: i64) -> (r: i64)
    requires
        w > 0,
        n > i64::MIN,
    ensures
        r == n as int % w as int,
        0 <= r < w,
{
    if n >= 0 {
        n % w
    } else {
        let m: i64 = (-n) % w;
        proof {
            let q = (-n) as int / w as int;
            lemma_fundamental_div_mod((-n) as int, w as int);
            if m == 0 {
                assert(n as int == w * (-q) + 0) by (nonlinear_arith)
                    requires
                        -n == w * q + 0,
                ;
                lemma_fundamental_div_mod_converse_mod(n as int, w as int, -q, 0);
            } else {
                assert(n as int == w * (-q - 1) + (w - m)) by (nonlinear_arith)
                    requires
                        -n == w * q + m,
                ;
                lemma_fundamental_div_mod_converse_mod(n as int, w as int, -q - 1, w - m);
            }
        }
        if m == 0 {
            0
        } else {
            w - m
        }
    }
}

/// The multiple of `x` next to `n`, on numbers wide enough for every chunk
/// distance.
fn next_multiple(x: i64, n: i64) -> (m: i64)
    requires
        x != 0,
        -0x1000_0000_0000 < x < 0x1000_0000_0000,
        -0x1000_0000_0000 < n < 0x1000_0000_0000,
    ensures
        m == spec_lowest_multiple_above(x as int, n as int),
{
    let w: i64 = if x < 0 {
        -x
    } else {
        x
    };
    let r = remainder(n, w);
    if r == 0 {
        n
    } else if x > 0 {
        n - r + x
    } else {
        n - r
    }
}

/// The multiple of `x` next to `n`: for a positive `x` the lowest multiple
/// that is not below `n`, for a negative `x` the highest multiple that is not
/// above `n`.
pub fn lowest_multiple_above(x: i32, n: i32) -> (m: i32)
    requires
        x != 0,
        i32::MIN <= spec_lowest_multiple_above(x as int, n as int) <= i32::MAX,
    ensures
        m == spec_lowest_multiple_above(x as int, n as int),
        m as int % magnitude(x as int) == 0,
        x > 0 ==> n <= m < n + x,
        x < 0 ==> n + x < m <= n,
{
    proof {
        lemma_lowest_multiple_above(x as int, n as int, 0);
    }
    next_multiple(x as i64, n as i64) as i32
}

/// The square of `v`.
pub open spec fn square(v: int) -> int {
    v * v
}

/// Whether the chunk at `origin` is within `dist` chunk widths of `player`:
/// the origin lies on the chunk grid, inside the square of side
/// `2 * dist * 16` centred on the player, its lower sides included and its
/// upper sides not, and the chunk's centre is less than `dist * 16` away from
/// the player.
pub open spec fn near_player(player: WorldPoint, dist: int, origin: ChunkOrigin) -> bool {
    &&& origin.aligned()
    &&& player.x - CHUNK_WIDTH * dist <= origin.x < player.x + CHUNK_WIDTH * dist
    &&& player.y - CHUNK_WIDTH * dist <= origin.y < player.y + CHUNK_WIDTH * dist
    &&& square(player.x - origin.x - CHUNK_WIDTH / 2) + square(
        player.y - origin.y - CHUNK_WIDTH / 2,
    ) < square(CHUNK_WIDTH * dist)
}

/// Whether the chunk at `origin` is close enough to `player`, given both
/// inside the square.
fn within_reach(px: i64, py: i64, ox: i64, oy: i64, reach: i64) -> (r: bool)
    requires
        0 <= reach <= 0x10_0000_0000,
        -0x20_0000_0000 <= px - ox <= 0x20_0000_0000,
        -0x20_0000_0000 <= py - oy <= 0x20_0000_0000,
    ensures
        r == (square(px - ox - CHUNK_WIDTH / 2) + square(py - oy - CHUNK_WIDTH / 2) < square(
            reach as int,
        )),
{
    let dx: i128 = (px - ox - 8) as i128;
    let dy: i128 = (py - oy - 8) as i128;
    let far: i128 = reach as i128;
    assert(0 <= dx * dx <= 0x1000_0000_0000_0000_0000) by (nonlinear_arith)
        requires
            -0x20_0000_0008 <= dx <= 0x20_0000_0000,
    ;
    assert(0 <= dy * dy <= 0x1000_0000_0000_0000_0000) by (nonlinear_arith)
        requires
            -0x20_0000_0008 <= dy <= 0x20_0000_0000,
    ;
    assert(0 <= far * far <= 0x1000_0000_0000_0000_0000) by (nonlinear_arith)
        requires
            0 <= far <= 0x10_0000_0000,
    ;
    dx * dx + dy * dy < far * far
}

/// Whether `v` is a coordinate of the chunk grid.
pub open spec fn on_grid(v: int) -> bool {
    v % (CHUNK_WIDTH as int) == 0
}

/// The lowest origin coordinate on the chunk grid that is not below `low`
/// and not below the integer range.
fn first_origin(low: i64) -> (start: i64)
    requires
        -0x1000_0000_0000 < low < 0x1000_0000_0000,
    ensures
        start % 16 == 0,
        start >= low,
        start >= i32::MIN,
        start < low + 16 || start == i32::MIN,
        forall|v: int| #[trigger] on_grid(v) && v >= low && v >= i32::MIN ==> v >= start,
{
    let aligned = next_multiple(16, low);
    proof {
        lemma_lowest_multiple_above(16, low as int, 0);
    }
    if aligned < i32::MIN as i64 {
        i32::MIN as i64
    } else {
        aligned
    }
}

/// The origins of the chunks within `dist` chunk widths of `player_pos`, each once.
pub fn gen_chunk_origins_near_player(player_pos: WorldPoint, dist: u32) -> (origins: Vec<
    ChunkOrigin,
>)
    ensures
        origins@.no_duplicates(),
        forall|o: ChunkOrigin| origins@.contains(o) <==> near_player(player_pos, dist as int, o),
{
    let mut origins: Vec<ChunkOrigin> = Vec::new();
    let px: i64 = player_pos.x as i64;
    let py: i64 = player_pos.y as i64;
    let reach: i64 = 16 * (dist as i64);
    let max_x: i64 = px + reach;
    let max_y: i64 = py + reach;
    let start_x = first_origin(px - reach);
    let start_y = first_origin(py - reach);
    let mut ox: i64 = start_x;
    while ox < max_x && ox <= i32::MAX as i64
        invariant
            px == player_pos.x,
            py == player_pos.y,
            reach == 16 * dist,
            max_x == px + reach,
            max_y == py + reach,
            start_x % 16 == 0,
            start_x >= px - reach,
            start_x >= i32::MIN,
            start_x < px - reach + 16 || start_x == i32::MIN,
            forall|v: int|
                #[trigger] on_grid(v) && v >= px - reach && v >= i32::MIN ==> v >= start_x,
            start_y % 16 == 0,
            start_y >= py - reach,
            start_y >= i32::MIN,
            start_y < py - reach + 16 || start_y == i32::MIN,
            forall|v: int|
                #[trigger] on_grid(v) && v >= py - reach && v >= i32::MIN ==> v >= start_y,
            ox % 16 == 0,
            start_x <= ox,
            ox <= max_x + 16,
            ox <= i32::MAX + 16,
            origins@.no_duplicates(),
            forall|o: ChunkOrigin|
                origins@.contains(o) <==> near_player(player_pos, dist as int, o) && o.x < ox,
        decreases i32::MAX + 16 - ox,
    {
        let mut oy: i64 = start_y;
        while oy < max_y && oy <= i32::MAX as i64
            invariant
                px == player_pos.x,
                py == player_pos.y,
                reach == 16 * dist,
                max_x == px + reach,
                max_y == py + reach,
                start_y % 16 == 0,
                start_y >= py - reach,
                start_y >= i32::MIN,
                start_y < py - reach + 16 || start_y == i32::MIN,
                forall|v: int|
                #[trigger] on_grid(v) && v >= py - reach && v >= i32::MIN ==> v >= start_y,
                ox % 16 == 0,
                px - reach <= ox < max_x,
                i32::MIN <= ox <= i32::MAX,
                oy % 16 == 0,
                start_y <= oy,
                oy <= max_y + 16,
                oy <= i32::MAX + 16,
                origins@.no_duplicates(),
                forall|o: ChunkOrigin|
                    origins@.contains(o) <==> near_player(player_pos, dist as int, o) && (o.x
                        < ox || (o.x == ox && o.y < oy)),
            decreases i32::MAX + 16 - oy,
        {
            let ghost before = origins@;
            let origin = ChunkOrigin { x: ox as i32, y: oy as i32 };
            if within_reach(px, py, ox, oy, reach) {
                origins.push(origin);
                proof {
                    assert(near_player(player_pos, dist as int, origin));
                    assert(!before.contains(origin));
                    assert forall|o: ChunkOrigin| origins@.contains(o) <==> near_player(
                        player_pos,
                        dist as int,
                        o,
                    ) && (o.x < ox || (o.x == ox && o.y < oy + 16)) by {
                        assert(on_grid(o.x as int) == (o.x as int % 16 == 0));
                        assert(on_grid(o.y as int) == (o.y as int % 16 == 0));
                        if origins@.contains(o) {
                            let i = choose|i: int| 0 <= i < origins@.len() && origins@[i] == o;
                            if i < before.len() {
                                assert(before[i] == o);
                                assert(before.contains(o));
                            }
                        }
                        if near_player(player_pos, dist as int, o) && (o.x < ox || (o.x == ox
                            && o.y < oy + 16)) {
                            if o.x == ox && o.y >= oy {
                                assert(o == origin);
                                assert(origins@[before.len() as int] == o);
                            } else {
                                assert(before.contains(o));
                                let i = choose|i: int| 0 <= i < before.len() && before[i] == o;
                                assert(origins@[i] == o);
                            }
                        }
                    }
                }
            }
            oy += 16;
        }
        ox += 16;
    }
    origins
}

/// Whether the observer stands over the chunk at `chunk_origin`, its sides included.
pub open spec fn stands_over(observer: WorldPoint, chunk_origin: ChunkOrigin) -> bool {
    &&& chunk_origin.x <= observer.x <= chunk_origin.x + CHUNK_WIDTH
    &&& chunk_origin.y <= observer.y <= chunk_origin.y + CHUNK_WIDTH
}

/// Whether the chunk at `chunk_origin` is in the observer's view: it is
/// where the observer stands over it, and otherwise where one of its four
/// corners lies within the field of view, which `corner_in_view` tells.
pub fn in_camera_view(observer: WorldPoint, chunk_origin: ChunkOrigin, corner_in_view: bool) -> (r:
    bool)
    ensures
        r == (stands_over(observer, chunk_origin) || corner_in_view),
{
    let px: i64 = observer.x as i64;
    let py: i64 = observer.y as i64;
    let ox: i64 = chunk_origin.x as i64;
    let oy: i64 = chunk_origin.y as i64;
    if px >= ox && px <= ox + CHUNK_WIDTH as i64 && py >= oy && py <= oy + CHUNK_WIDTH as i64 {
        return true;
    }
    corner_in_view
}

} // verus!
