use crate::fixed_point::{
    abs_bits, div_bits, mul_bits, mul_int_bits, sub_bits, FixedPoint, HALF_BITS,
};
use crate::grid::{
    at, get_cell, in_block, is_grid, lemma_cell_of_index, lemma_index, lemma_index_before,
    place_surrounded_tile, surrounded, with_block,
};
use crate::noise::{generate_noise, noise_of};
use crate::random::Random;
use crate::tile::Tile;
use vstd::prelude::*;

verus! {

/// A cell whose coast value lies below -1.3 is water.
pub const WATER_BELOW_BITS: i32 = -85197;

/// A cell whose coast value lies above 0.3 is land.
pub const LAND_ABOVE_BITS: i32 = 19661;

/// A land cell whose coast value lies above 0.6 is inland.
pub const INLAND_ABOVE_BITS: i32 = 39322;

/// A difference of noise above 0.5 gives a vein of the third or fourth tile.
pub const VEIN_ABOVE_BITS: i32 = 32768;

/// What a kind of level is made of: its side, its five terrain tiles, the
/// tile round its ladder, and the least counts of the terrain tiles one, three
/// and four that an accepted terrain holds.
#[derive(Clone, Copy)]
pub struct LevelProfile {
    pub size: usize,
    pub t0: Tile,
    pub t1: Tile,
    pub t2: Tile,
    pub t3: Tile,
    pub t4: Tile,
    pub around: Tile,
    pub min_1: usize,
    pub min_3: usize,
    pub min_4: usize,
}

/// A side the generator supports.
pub open spec fn valid_size(n: int) -> bool {
    8 <= n <= 64
}

/// Bits of `|i / n - 1/2| * 2`, the distance of a row or column from the centre.
pub open spec fn axis_dist_bits(i: int, n: int) -> i32 {
    mul_int_bits(abs_bits(sub_bits(div_bits((i * 65536) as i32, (n * 65536) as i32), HALF_BITS)), 2)
}

pub open spec fn max_bits(a: i32, b: i32) -> i32 {
    if b >= a {
        b
    } else {
        a
    }
}

/// Bits of `v * 4 - dist^4 * 4`.
pub open spec fn coast_bits(v: i32, dist: i32) -> i32 {
    sub_bits(mul_int_bits(v, 4), mul_int_bits(mul_bits(mul_bits(mul_bits(dist, dist), dist), dist), 4))
}

/// The tile of a cell from its coast value and its two vein differences.
pub open spec fn classify(p: LevelProfile, coast: i32, v2: i32, v3: i32) -> Tile {
    if coast < WATER_BELOW_BITS {
        Tile::Water
    } else if coast > LAND_ABOVE_BITS {
        if v2 > VEIN_ABOVE_BITS {
            p.t3
        } else if coast > INLAND_ABOVE_BITS {
            if v3 > VEIN_ABOVE_BITS {
                p.t4
            } else {
                p.t2
            }
        } else {
            p.t1
        }
    } else {
        p.t0
    }
}

/// The tile of cell `(i, j)` from the four noise values there.
pub open spec fn cell_tile(p: LevelProfile, i: int, j: int, c: i32, c2: i32, c3: i32, c4: i32) -> Tile {
    let dist = max_bits(axis_dist_bits(i, p.size as int), axis_dist_bits(j, p.size as int));
    classify(
        p,
        coast_bits(abs_bits(sub_bits(c, c2)), dist),
        abs_bits(sub_bits(c, c3)),
        abs_bits(sub_bits(c, c4)),
    )
}

/// A tile that terrain of profile `p` may hold.
pub open spec fn is_terrain(p: LevelProfile, t: Tile) -> bool {
    t == Tile::Water || t == p.t0 || t == p.t1 || t == p.t2 || t == p.t3 || t == p.t4
}

/// How many cells of `s` hold `t`.
pub open spec fn count(s: Seq<Tile>, t: Tile) -> nat
    decreases s.len(),
{
    if s.len() == 0 {
        0
    } else {
        count(s.drop_last(), t) + if s.last() == t {
            1nat
        } else {
            0nat
        }
    }
}

/// The number of cells that hold `t`.
pub fn count_tile(g: &Vec<Tile>, t: Tile) -> (r: usize)
    ensures
        r == count(g@, t),
{
    let mut c: usize = 0;
    let mut k: usize = 0;
    while k < g.len()
        invariant
            k <= g@.len(),
            c <= k,
            c == count(g@.subrange(0, k as int), t),
        decreases g.len() - k,
    {
        assert(g@.subrange(0, k + 1).drop_last() =~= g@.subrange(0, k as int));
        if g[k] == t {
            c += 1;
        }
        k += 1;
    }
    assert(g@.subrange(0, g@.len() as int) =~= g@);
    c
}

/// The tiles of every cell of the four noise grids, row by row in `x`.
pub open spec fn classified(
    p: LevelProfile,
    c1: Seq<FixedPoint>,
    c2: Seq<FixedPoint>,
    c3: Seq<FixedPoint>,
    c4: Seq<FixedPoint>,
) -> Seq<Tile> {
    let n = p.size as int;
    Seq::new(
        (n * n) as nat,
        |k: int| cell_tile(p, k / n, k % n, c1[k].bits, c2[k].bits, c3[k].bits, c4[k].bits),
    )
}

/// Classifies every cell of the four noise grids.
pub fn classify_terrain(
    p: &LevelProfile,
    cur: &Vec<FixedPoint>,
    cur2: &Vec<FixedPoint>,
    cur3: &Vec<FixedPoint>,
    cur4: &Vec<FixedPoint>,
) -> (r: Vec<Tile>)
    requires
        valid_size(p.size as int),
        is_grid(cur@, p.size as int),
        is_grid(cur2@, p.size as int),
        is_grid(cur3@, p.size as int),
        is_grid(cur4@, p.size as int),
    ensures
        is_grid(r@, p.size as int),
        r@ == classified(*p, cur@, cur2@, cur3@, cur4@),
        forall|a: int, b: int|
            0 <= a < p.size && 0 <= b < p.size ==> #[trigger] at(r@, p.size as int, a, b)
                == cell_tile(
                *p,
                a,
                b,
                at(cur@, p.size as int, a, b).bits,
                at(cur2@, p.size as int, a, b).bits,
                at(cur3@, p.size as int, a, b).bits,
                at(cur4@, p.size as int, a, b).bits,
            ),
{
    let n = p.size;
    let half = FixedPoint::from_bits(HALF_BITS);
    let size_f = FixedPoint::from_usize(n);
    let mut tiles: Vec<Tile> = Vec::new();
    let mut i: usize = 0;
    while i < n
        invariant
            n == p.size,
            valid_size(n as int),
            i <= n,
            is_grid(cur@, n as int),
            is_grid(cur2@, n as int),
            is_grid(cur3@, n as int),
            is_grid(cur4@, n as int),
            half.bits == HALF_BITS,
            size_f.bits == n * 65536,
            tiles@.len() == i * n,
            forall|a: int, b: int|
                0 <= a < i && 0 <= b < n ==> #[trigger] at(tiles@, n as int, a, b) == cell_tile(
                    *p,
                    a,
                    b,
                    at(cur@, n as int, a, b).bits,
                    at(cur2@, n as int, a, b).bits,
                    at(cur3@, n as int, a, b).bits,
                    at(cur4@, n as int, a, b).bits,
                ),
        decreases n - i,
    {
        let di = FixedPoint::from_usize(i).div(size_f).sub(half).abs().mul_int(2);
        let mut j: usize = 0;
        while j < n
            invariant
                n == p.size,
                valid_size(n as int),
                i < n,
                j <= n,
                is_grid(cur@, n as int),
                is_grid(cur2@, n as int),
                is_grid(cur3@, n as int),
                is_grid(cur4@, n as int),
                half.bits == HALF_BITS,
                size_f.bits == n * 65536,
                di.bits == axis_dist_bits(i as int, n as int),
                tiles@.len() == i * n + j,
                forall|a: int, b: int|
                    (0 <= a < i && 0 <= b < n) || (a == i && 0 <= b < j) ==> #[trigger] at(
                        tiles@,
                        n as int,
                        a,
                        b,
                    ) == cell_tile(
                        *p,
                        a,
                        b,
                        at(cur@, n as int, a, b).bits,
                        at(cur2@, n as int, a, b).bits,
                        at(cur3@, n as int, a, b).bits,
                        at(cur4@, n as int, a, b).bits,
                    ),
            decreases n - j,
        {
            let c = get_cell(cur, n, i, j);
            let c2 = get_cell(cur2, n, i, j);
            let c3 = get_cell(cur3, n, i, j);
            let c4 = get_cell(cur4, n, i, j);
            let v = c.sub(c2).abs();
            let v2 = c.sub(c3).abs();
            let v3 = c.sub(c4).abs();
            let dj = FixedPoint::from_usize(j).div(size_f).sub(half).abs().mul_int(2);
            let dist = if dj.bits >= di.bits {
                dj
            } else {
                di
            };
            let coast = v.mul_int(4).sub(dist.mul(dist).mul(dist).mul(dist).mul_int(4));
            let id = if coast.bits < WATER_BELOW_BITS {
                Tile::Water
            } else if coast.bits > LAND_ABOVE_BITS {
                if v2.bits > VEIN_ABOVE_BITS {
                    p.t3
                } else if coast.bits > INLAND_ABOVE_BITS {
                    if v3.bits > VEIN_ABOVE_BITS {
                        p.t4
                    } else {
                        p.t2
                    }
                } else {
                    p.t1
                }
            } else {
                p.t0
            };
            let ghost before = tiles@;
            proof {
                lemma_index(n as int, i as int, j as int);
            }
            tiles.push(id);
            proof {
                assert forall|a: int, b: int|
                    (0 <= a < i && 0 <= b < n) || (a == i && 0 <= b < j + 1) implies #[trigger] at(
                    tiles@,
                    n as int,
                    a,
                    b,
                ) == cell_tile(
                    *p,
                    a,
                    b,
                    at(cur@, n as int, a, b).bits,
                    at(cur2@, n as int, a, b).bits,
                    at(cur3@, n as int, a, b).bits,
                    at(cur4@, n as int, a, b).bits,
                ) by {
                    if a == i && b == j {
                    } else {
                        if a < i {
                            lemma_index_before(n as int, a, b, i as int, j as int);
                        }
                        assert(at(tiles@, n as int, a, b) == at(before, n as int, a, b));
                    }
                }
            }
            j += 1;
        }
        proof {
            assert(i * n + n == (i + 1) * n) by (nonlinear_arith);
        }
        i += 1;
    }
    proof {
        assert forall|k: int| 0 <= k < n * n implies tiles@[k] == classified(
            *p,
            cur@,
            cur2@,
            cur3@,
            cur4@,
        )[k] by {
            lemma_cell_of_index(n as int, k);
            assert(at(tiles@, n as int, k / n as int, k % n as int) == tiles@[k]);
        }
        assert(tiles@ =~= classified(*p, cur@, cur2@, cur3@, cur4@));
    }
    tiles
}

/// Starting scale, scale multiplier and features step of the four noise grids
/// of a terrain pass, as bits (0.9 and 0.2, 0.9 and 0.4, 0.9 and 0.3, 0.8 and
/// 1.1).
pub const NOISE_1_SCALE_BITS: i32 = 58982;

pub const NOISE_1_MULTIPLIER_BITS: i32 = 13107;

pub const NOISE_2_SCALE_BITS: i32 = 58982;

pub const NOISE_2_MULTIPLIER_BITS: i32 = 26214;

pub const NOISE_2_FEATURES_STEP: usize = 8;

pub const NOISE_3_SCALE_BITS: i32 = 58982;

pub const NOISE_3_MULTIPLIER_BITS: i32 = 19661;

pub const NOISE_3_FEATURES_STEP: usize = 8;

pub const NOISE_4_SCALE_BITS: i32 = 52429;

pub const NOISE_4_MULTIPLIER_BITS: i32 = 72090;

pub const NOISE_4_FEATURES_STEP: usize = 4;

/// What an accepted terrain of profile `p` satisfies: a grid of its side,
/// made of its terrain tiles, with at least the least counts of tiles one,
/// three and four.
pub open spec fn accepted_terrain(p: LevelProfile, g: Seq<Tile>) -> bool {
    &&& is_grid(g, p.size as int)
    &&& count(g, p.t1) >= p.min_1
    &&& count(g, p.t3) >= p.min_3
    &&& count(g, p.t4) >= p.min_4
    &&& forall|a: int, b: int|
        0 <= a < p.size && 0 <= b < p.size ==> is_terrain(p, #[trigger] at(g, p.size as int, a, b))
}

/// The terrain of one pass from state `s`, and the state after it.
pub open spec fn terrain_pass(p: LevelProfile, s: (u32, u32)) -> (Seq<Tile>, (u32, u32)) {
    let n = p.size as int;
    let (c1, s1) = noise_of(s, n, NOISE_1_SCALE_BITS, NOISE_1_MULTIPLIER_BITS, n);
    let (c2, s2) = noise_of(s1, n, NOISE_2_SCALE_BITS, NOISE_2_MULTIPLIER_BITS, NOISE_2_FEATURES_STEP as int);
    let (c3, s3) = noise_of(s2, n, NOISE_3_SCALE_BITS, NOISE_3_MULTIPLIER_BITS, NOISE_3_FEATURES_STEP as int);
    let (c4, s4) = noise_of(s3, n, NOISE_4_SCALE_BITS, NOISE_4_MULTIPLIER_BITS, NOISE_4_FEATURES_STEP as int);
    (classified(p, c1, c2, c3, c4), s4)
}

/// A terrain holds enough tiles one, three and four.
pub open spec fn enough_tiles(p: LevelProfile, g: Seq<Tile>) -> bool {
    count(g, p.t1) >= p.min_1 && count(g, p.t3) >= p.min_3 && count(g, p.t4) >= p.min_4
}

/// Up to `k` terrain passes from state `s`: the first terrain with enough
/// tiles, and the state after it.
pub open spec fn terrain_search(p: LevelProfile, s: (u32, u32), k: nat) -> (Option<Seq<Tile>>, (u32, u32))
    decreases k,
{
    if k == 0 {
        (None, s)
    } else {
        let (g, s1) = terrain_pass(p, s);
        if enough_tiles(p, g) {
            (Some(g), s1)
        } else {
            terrain_search(p, s1, (k - 1) as nat)
        }
    }
}

/// Every terrain that the search accepts holds at least the least counts of
/// tiles one, three and four of its profile.
pub proof fn lemma_accepted_terrain_has_enough_tiles(p: LevelProfile, s: (u32, u32), k: nat)
    ensures
        terrain_search(p, s, k).0 matches Some(g) ==> enough_tiles(p, g),
    decreases k,
{
    if k > 0 {
        lemma_accepted_terrain_has_enough_tiles(p, terrain_pass(p, s).1, (k - 1) as nat);
    }
}

/// How many terrain passes a level makes at most.
pub open spec fn terrain_attempts() -> nat {
    u64::MAX as nat
}

/// What a call that returned `r` and left the generator in `s` gave for a
/// terrain result `expected`.
pub open spec fn terrain_result(r: Option<Vec<Tile>>, expected: (Option<Seq<Tile>>, (u32, u32)), s: (u32, u32)) -> bool {
    &&& s == expected.1
    &&& r is Some <==> expected.0 is Some
    &&& r matches Some(t) ==> expected.0 == Some(t@)
}

/// One terrain pass: four noise grids, classified cell by cell; the terrain
/// is kept only where it holds enough tiles one, three and four.
pub fn try_generate_terrain(random: &mut Random, p: &LevelProfile) -> (r: Option<Vec<Tile>>)
    requires
        valid_size(p.size as int),
    ensures
        r matches Some(t) ==> accepted_terrain(*p, t@),
        terrain_result(
            r,
            if enough_tiles(*p, terrain_pass(*p, old(random)@).0) {
                (Some(terrain_pass(*p, old(random)@).0), terrain_pass(*p, old(random)@).1)
            } else {
                (None, terrain_pass(*p, old(random)@).1)
            },
            final(random)@,
        ),
{
    let n = p.size;
    proof {
        assert(n * n <= 4096) by (nonlinear_arith)
            requires
                valid_size(n as int),
        ;
    }
    let cur = generate_noise(
        random,
        n,
        FixedPoint::from_bits(NOISE_1_SCALE_BITS),
        FixedPoint::from_bits(NOISE_1_MULTIPLIER_BITS),
        n,
    );
    let cur2 = generate_noise(
        random,
        n,
        FixedPoint::from_bits(NOISE_2_SCALE_BITS),
        FixedPoint::from_bits(NOISE_2_MULTIPLIER_BITS),
        NOISE_2_FEATURES_STEP,
    );
    let cur3 = generate_noise(
        random,
        n,
        FixedPoint::from_bits(NOISE_3_SCALE_BITS),
        FixedPoint::from_bits(NOISE_3_MULTIPLIER_BITS),
        NOISE_3_FEATURES_STEP,
    );
    let cur4 = generate_noise(
        random,
        n,
        FixedPoint::from_bits(NOISE_4_SCALE_BITS),
        FixedPoint::from_bits(NOISE_4_MULTIPLIER_BITS),
        NOISE_4_FEATURES_STEP,
    );
    let tiles = classify_terrain(p, &cur, &cur2, &cur3, &cur4);
    let tile_1_count = count_tile(&tiles, p.t1);
    let tile_3_count = count_tile(&tiles, p.t3);
    let tile_4_count = count_tile(&tiles, p.t4);
    if tile_1_count >= p.min_1 && tile_3_count >= p.min_3 && tile_4_count >= p.min_4 {
        proof {
            assert forall|a: int, b: int| 0 <= a < p.size && 0 <= b < p.size implies is_terrain(
                *p,
                #[trigger] at(tiles@, p.size as int, a, b),
            ) by {
                assert(at(tiles@, p.size as int, a, b) == cell_tile(
                    *p,
                    a,
                    b,
                    at(cur@, p.size as int, a, b).bits,
                    at(cur2@, p.size as int, a, b).bits,
                    at(cur3@, p.size as int, a, b).bits,
                    at(cur4@, p.size as int, a, b).bits,
                ));
            }
        }
        Some(tiles)
    } else {
        None
    }
}

/// Repeats terrain passes until one is accepted. The attempts are counted in
/// 64 bits; `None` comes only once all of them are spent, which no run lasts
/// long enough to see.
pub fn generate_terrain(random: &mut Random, p: &LevelProfile) -> (r: Option<Vec<Tile>>)
    requires
        valid_size(p.size as int),
    ensures
        r matches Some(t) ==> accepted_terrain(*p, t@),
        terrain_result(r, terrain_search(*p, old(random)@, terrain_attempts()), final(random)@),
{
    let ghost goal = terrain_search(*p, random@, terrain_attempts());
    let mut attempts: u64 = 0;
    while attempts < u64::MAX
        invariant
            valid_size(p.size as int),
            goal == terrain_search(*p, old(random)@, terrain_attempts()),
            goal == terrain_search(*p, random@, (u64::MAX - attempts) as nat),
        decreases u64::MAX - attempts,
    {
        if let Some(tiles) = try_generate_terrain(random, p) {
            return Some(tiles);
        }
        attempts += 1;
    }
    None
}

/// The ladder sits at the centre of `g`, and the rest of the 3x3 block round it
/// holds `around`.
pub open spec fn has_ladder(g: Seq<Tile>, n: int, around: Tile) -> bool {
    &&& at(g, n, n / 2, n / 2) == Tile::Ladder
    &&& forall|a: int, b: int|
        in_block(a, b, n / 2, n / 2) && !(a == n / 2 && b == n / 2) ==> #[trigger] at(g, n, a, b)
            == around
}

/// Places the ladder at the centre, surrounded by the profile's tile.
pub fn place_ladder(g: &mut Vec<Tile>, p: &LevelProfile)
    requires
        valid_size(p.size as int),
        is_grid(old(g)@, p.size as int),
    ensures
        surrounded(
            final(g)@,
            old(g)@,
            p.size as int,
            p.size as int / 2,
            p.size as int / 2,
            Tile::Ladder,
            p.around,
        ),
        final(g)@ == with_block(
            old(g)@,
            p.size as int,
            p.size as int / 2,
            p.size as int / 2,
            Tile::Ladder,
            p.around,
        ),
        is_grid(final(g)@, p.size as int),
        has_ladder(final(g)@, p.size as int, p.around),
{
    let n = p.size;
    place_surrounded_tile(g, n, n / 2, n / 2, Tile::Ladder, p.around);
}

} // verus!
