use crate::fixed_point::{FixedPoint, HALF_BITS, ONE_BITS};
use crate::grid::{
    at, get_cell, in_block, is_grid, lemma_index, place_surrounded_tile, set_cell, surrounded,
    with_block,
};
use crate::random::{cycle, cycles, draw_below, draw_bits, uint_draw, Random};
use crate::terrain::{
    generate_terrain, has_ladder, is_terrain, place_ladder, terrain_attempts, terrain_search,
    LevelProfile,
};
use crate::tile::{artifact_of, Tile};
use vstd::prelude::*;

verus! {

/// A generated level whose cells can be read.
pub trait Level {
    /// The side of the level's grid.
    spec fn side() -> nat;

    spec fn level_grid(&self) -> Seq<Tile>;

    spec fn level_wf(&self) -> bool;

    /// The tile at `(x, y)`.
    fn tile(&self, x: usize, y: usize) -> (r: Tile)
        requires
            self.level_wf(),
            x < Self::side(),
            y < Self::side(),
        ensures
            r == at(self.level_grid(), Self::side() as int, x as int, y as int),
    ;
}

pub open spec fn is_sand_or_grass(t: Tile) -> bool {
    t == Tile::Sand || t == Tile::Grass
}

/// How many values a draw below `m` can take: one where `m` is zero.
pub open spec fn span(m: nat) -> nat {
    if m == 0 {
        1
    } else {
        m
    }
}

/// The result and final state of up to `k` attempts, from state `s`, to hit a
/// Sand or Grass cell of `g` (of side `n`) by drawing `x` and then `y` as `lo`
/// plus an integer below `m`.
pub open spec fn search(g: Seq<Tile>, n: int, lo: nat, m: nat, s: (u32, u32), k: nat) -> (Option<
    (u8, u8),
>, (u32, u32))
    decreases k,
{
    if k == 0 {
        (None, s)
    } else {
        let (dx, s1) = draw_below(s, m);
        let (dy, s2) = draw_below(s1, m);
        let x = lo + dx;
        let y = lo + dy;
        if is_sand_or_grass(at(g, n, x as int, y as int)) {
            (Some((x as u8, y as u8)), s2)
        } else {
            search(g, n, lo, m, s2, (k - 1) as nat)
        }
    }
}

/// The draws of a position cover the inner six eighths of the grid.
pub open spec fn inner_search(g: Seq<Tile>, n: nat, s: (u32, u32)) -> (Option<(u8, u8)>, (
    u32,
    u32,
)) {
    search(g, n as int, n / 8, n * 6 / 8, s, POSITION_ATTEMPTS as nat)
}

/// How many draws of a position a level makes before it gives up.
pub const POSITION_ATTEMPTS: usize = 501;

proof fn lemma_uint_draw_lt(s: (u32, u32), m: nat)
    requires
        m > 0,
    ensures
        uint_draw(s, m) < m,
{
    reveal(uint_draw);
    let h = cycle(s).0 as int;
    let mm = m as int * 65536;
    assert(0 <= h % mm < mm);
    assert((h % mm) / 65536 < m) by (nonlinear_arith)
        requires
            0 <= h % mm < mm,
            mm == m * 65536,
    ;
}

proof fn lemma_draw_below_lt(s: (u32, u32), m: nat)
    ensures
        draw_below(s, m).0 < span(m),
{
    if m > 0 {
        lemma_uint_draw_lt(s, m);
    }
}

proof fn lemma_search_found(g: Seq<Tile>, n: int, lo: nat, m: nat, s: (u32, u32), k: nat)
    requires
        lo + span(m) <= 256,
    ensures
        search(g, n, lo, m, s, k).0 matches Some(p) ==> {
            &&& lo <= p.0 < lo + span(m)
            &&& lo <= p.1 < lo + span(m)
            &&& is_sand_or_grass(at(g, n, p.0 as int, p.1 as int))
        },
    decreases k,
{
    if k > 0 {
        let (dx, s1) = draw_below(s, m);
        let (dy, s2) = draw_below(s1, m);
        lemma_draw_below_lt(s, m);
        lemma_draw_below_lt(s1, m);
        lemma_search_found(g, n, lo, m, s2, (k - 1) as nat);
        let x = lo + dx;
        let y = lo + dy;
        assert((x as u8) as int == x);
        assert((y as u8) as int == y);
    }
}

/// Draws up to `POSITION_ATTEMPTS` positions from the inner six eighths of the
/// grid (its first cell where that holds none) and returns the first that
/// holds Sand or Grass.
pub fn choose_random_sand_or_grass_position(g: &Vec<Tile>, n: usize, random: &mut Random) -> (r:
    Option<(u8, u8)>)
    requires
        is_grid(g@, n as int),
        1 <= n <= 256,
    ensures
        (r, final(random)@) == inner_search(g@, n as nat, old(random)@),
        r matches Some(p) ==> {
            &&& n / 8 <= p.0 < n / 8 + span(n as nat * 6 / 8)
            &&& n / 8 <= p.1 < n / 8 + span(n as nat * 6 / 8)
            &&& p.0 < n && p.1 < n
            &&& is_sand_or_grass(at(g@, n as int, p.0 as int, p.1 as int))
        },
{
    let lo = n / 8;
    let m = n * 6 / 8;
    assert(lo + span(m as nat) <= n);
    proof {
        lemma_search_found(g@, n as int, lo as nat, m as nat, random@, POSITION_ATTEMPTS as nat);
    }
    let ghost total = inner_search(g@, n as nat, random@);
    let mut k: usize = 0;
    while k < POSITION_ATTEMPTS
        invariant
            k <= POSITION_ATTEMPTS,
            is_grid(g@, n as int),
            lo + span(m as nat) <= n <= 256,
            m < 32768,
            lo == n / 8,
            m == n * 6 / 8,
            total == inner_search(g@, n as nat, old(random)@),
            total == search(g@, n as int, lo as nat, m as nat, random@, (POSITION_ATTEMPTS - k) as nat),
            total.0 matches Some(p) ==> {
                &&& lo <= p.0 < lo + span(m as nat)
                &&& lo <= p.1 < lo + span(m as nat)
                &&& is_sand_or_grass(at(g@, n as int, p.0 as int, p.1 as int))
            },
        decreases POSITION_ATTEMPTS - k,
    {
        let ghost s = random@;
        let dx = random.next_uint_max(m);
        let ghost s1 = random@;
        let dy = random.next_uint_max(m);
        proof {
            lemma_draw_below_lt(s, m as nat);
            lemma_draw_below_lt(s1, m as nat);
        }
        let x = lo + dx;
        let y = lo + dy;
        let tile = get_cell(g, n, x, y);
        if tile == Tile::Sand || tile == Tile::Grass {
            assert(search(g@, n as int, lo as nat, m as nat, s, (POSITION_ATTEMPTS - k) as nat) == (
            Some((x as u8, y as u8)), random@));
            return Some((x as u8, y as u8));
        }
        k += 1;
    }
    None
}

/// `a` comes before `b` in the order of `x`, then `y`.
pub open spec fn position_lt(a: (u8, u8), b: (u8, u8)) -> bool {
    a.0 < b.0 || (a.0 == b.0 && a.1 < b.1)
}

/// Enemy positions lie on the grid, off tiles that block enemies, in strictly
/// increasing order of `x`, then `y`.
pub open spec fn enemies_valid(g: Seq<Tile>, n: int, e: Seq<(u8, u8)>) -> bool {
    &&& forall|k: int|
        0 <= k < e.len() ==> {
            let p = #[trigger] e[k];
            &&& p.0 < n && p.1 < n
            &&& !blocks_enemies(at(g, n, p.0 as int, p.1 as int))
        }
    &&& forall|k: int, l: int| 0 <= k < l < e.len() ==> position_lt(#[trigger] e[k], #[trigger] e[l])
}

/// Tiles that no enemy stands on.
pub open spec fn blocks_enemies(t: Tile) -> bool {
    t == Tile::Water || t == Tile::Stone || t == Tile::Tree || t == Tile::Iron || t == Tile::Gold
        || t == Tile::Gem
}

/// Bits of the number 3, below which a draw out of 100 places an enemy.
pub const ENEMY_CHANCE_BITS: i32 = 196608;

/// Bits of the number 100, the bound of the draw made for each cell.
pub const ENEMY_DRAW_BITS: i32 = 6553600;

/// The enemies found from the cell with index `k` on (cells row by row in
/// `x`), drawing from state `s`, and the state after the last cell.
pub open spec fn enemies_scan(g: Seq<Tile>, n: int, s: (u32, u32), k: int) -> (Seq<(u8, u8)>, (
    u32,
    u32,
))
    decreases n * n - k,
{
    if k < 0 || k >= n * n {
        (Seq::empty(), s)
    } else {
        let x = k / n;
        let y = k % n;
        let keep = draw_bits(s, ENEMY_DRAW_BITS) < ENEMY_CHANCE_BITS && !blocks_enemies(
            at(g, n, x, y),
        );
        let rest = enemies_scan(g, n, cycle(s), k + 1);
        (
            if keep {
                seq![(x as u8, y as u8)] + rest.0
            } else {
                rest.0
            },
            rest.1,
        )
    }
}

/// Visits every cell in order of `x`, then `y`, draws a number below 100 for
/// each, and keeps the cells whose draw is below 3 and whose tile does not
/// block enemies.
pub fn generate_enemies(g: &Vec<Tile>, n: usize, random: &mut Random) -> (r: Vec<(u8, u8)>)
    requires
        is_grid(g@, n as int),
        1 <= n <= 256,
    ensures
        (r@, final(random)@) == enemies_scan(g@, n as int, old(random)@, 0),
        final(random)@ == cycles(old(random)@, (n * n) as nat),
        enemies_valid(g@, n as int, r@),
{
    let ghost s0 = random@;
    let ghost goal = enemies_scan(g@, n as int, random@, 0);
    let mut enemies: Vec<(u8, u8)> = Vec::new();
    let mut x: usize = 0;
    while x < n
        invariant
            x <= n,
            1 <= n <= 256,
            is_grid(g@, n as int),
            s0 == old(random)@,
            goal == enemies_scan(g@, n as int, s0, 0),
            goal == (enemies@ + enemies_scan(g@, n as int, random@, x * n).0, enemies_scan(
                g@,
                n as int,
                random@,
                x * n,
            ).1),
            random@ == cycles(s0, (x * n) as nat),
            forall|k: int|
                0 <= k < enemies@.len() ==> {
                    let p = #[trigger] enemies@[k];
                    &&& p.0 < x && p.1 < n
                    &&& !blocks_enemies(at(g@, n as int, p.0 as int, p.1 as int))
                },
            forall|k: int, l: int|
                0 <= k < l < enemies@.len() ==> position_lt(
                    #[trigger] enemies@[k],
                    #[trigger] enemies@[l],
                ),
        decreases n - x,
    {
        let mut y: usize = 0;
        while y < n
            invariant
                x < n,
                y <= n,
                1 <= n <= 256,
                is_grid(g@, n as int),
                goal == (enemies@ + enemies_scan(g@, n as int, random@, x * n + y).0, enemies_scan(
                    g@,
                    n as int,
                    random@,
                    x * n + y,
                ).1),
                random@ == cycles(s0, (x * n + y) as nat),
                forall|k: int|
                    0 <= k < enemies@.len() ==> {
                        let p = #[trigger] enemies@[k];
                        &&& (p.0 < x || (p.0 == x && p.1 < y)) && p.1 < n
                        &&& !blocks_enemies(at(g@, n as int, p.0 as int, p.1 as int))
                    },
                forall|k: int, l: int|
                    0 <= k < l < enemies@.len() ==> position_lt(
                        #[trigger] enemies@[k],
                        #[trigger] enemies@[l],
                    ),
            decreases n - y,
        {
            proof {
                lemma_index(n as int, x as int, y as int);
            }
            let ghost before = enemies@;
            let ghost rest = enemies_scan(g@, n as int, cycle(random@), x * n + y + 1);
            let draw = random.next_max(FixedPoint::from_bits(ENEMY_DRAW_BITS));
            if draw.bits < ENEMY_CHANCE_BITS {
                let tile = get_cell(g, n, x, y);
                if !(tile == Tile::Water || tile == Tile::Stone || tile == Tile::Tree || tile
                    == Tile::Iron || tile == Tile::Gold || tile == Tile::Gem) {
                    enemies.push((x as u8, y as u8));
                    proof {
                        assert(before + (seq![(x as u8, y as u8)] + rest.0) =~= enemies@ + rest.0);
                    }
                }
            }
            y += 1;
        }
        proof {
            assert(x * n + n == (x + 1) * n) by (nonlinear_arith);
        }
        x += 1;
    }
    proof {
        assert(enemies_scan(g@, n as int, random@, n * n).0 =~= Seq::<(u8, u8)>::empty());
        assert(enemies@ + Seq::<(u8, u8)>::empty() =~= enemies@);
    }
    enemies
}

/// Side of the surface grid.
pub const SURFACE_SIZE: usize = 64;

/// Side of the cave grid.
pub const CAVE_SIZE: usize = 32;

/// How many artifacts lie on the surface.
pub const ARTIFACT_COUNT: usize = 4;

/// The surface: water, sand, grass, stone and trees; the ladder is ringed
/// with stone; at least 30 stone and 30 tree cells.
pub open spec fn surface_profile_spec() -> LevelProfile {
    LevelProfile {
        size: SURFACE_SIZE,
        t0: Tile::Water,
        t1: Tile::Sand,
        t2: Tile::Grass,
        t3: Tile::Stone,
        t4: Tile::Tree,
        around: Tile::Stone,
        min_1: 0,
        min_3: 30,
        min_4: 30,
    }
}

/// The cave: stone, iron, sand, gold and gems; the ladder is ringed with
/// sand; at least 30 iron, 20 gold and 15 gem cells.
pub open spec fn cave_profile_spec() -> LevelProfile {
    LevelProfile {
        size: CAVE_SIZE,
        t0: Tile::Stone,
        t1: Tile::Iron,
        t2: Tile::Sand,
        t3: Tile::Gold,
        t4: Tile::Gem,
        around: Tile::Sand,
        min_1: 30,
        min_3: 20,
        min_4: 15,
    }
}

pub fn surface_profile() -> (r: LevelProfile)
    ensures
        r == surface_profile_spec(),
{
    LevelProfile {
        size: SURFACE_SIZE,
        t0: Tile::Water,
        t1: Tile::Sand,
        t2: Tile::Grass,
        t3: Tile::Stone,
        t4: Tile::Tree,
        around: Tile::Stone,
        min_1: 0,
        min_3: 30,
        min_4: 30,
    }
}

pub fn cave_profile() -> (r: LevelProfile)
    ensures
        r == cave_profile_spec(),
{
    LevelProfile {
        size: CAVE_SIZE,
        t0: Tile::Stone,
        t1: Tile::Iron,
        t2: Tile::Sand,
        t3: Tile::Gold,
        t4: Tile::Gem,
        around: Tile::Sand,
        min_1: 30,
        min_3: 20,
        min_4: 15,
    }
}

pub open spec fn is_artifact_tile(t: Tile) -> bool {
    t == Tile::SandWithArtifact || t == Tile::GrassWithArtifact
}

/// Every recorded artifact lies on the grid and holds its recorded tile there.
pub open spec fn artifacts_on_grid(g: Seq<Tile>, n: int, arts: Seq<(u8, u8, Tile)>) -> bool {
    forall|k: int|
        0 <= k < arts.len() ==> {
            let a = #[trigger] arts[k];
            &&& a.0 < n && a.1 < n
            &&& is_artifact_tile(a.2)
            &&& at(g, n, a.0 as int, a.1 as int) == a.2
        }
}

/// The error that generation reports when no accepted terrain came.
pub open spec fn terrain_error() -> Seq<char> {
    "failed to generate terrain"@
}

/// The error that generation reports when no start could be drawn.
pub open spec fn start_error() -> Seq<char> {
    "failed to choose start position"@
}

/// The error that generation reports when an artifact could not be placed.
pub open spec fn artifact_error() -> Seq<char> {
    "failed to choose tile for artifact"@
}

/// The error that generation reports when the cave holds no cell that a
/// draw of a Sand or Grass position hits.
pub open spec fn drop_error() -> Seq<char> {
    "failed to choose discarded tile while generating cave"@
}

/// What placing up to `k` artifacts on `g` from state `s` gives, each on a
/// Sand or Grass cell drawn as for the start: the list of them, or `None`
/// where a draw fails; the grid after them (with the artifacts placed before a
/// failing draw); and the state after.
pub open spec fn artifacts_from(g: Seq<Tile>, s: (u32, u32), k: nat) -> (
    Option<Seq<(u8, u8, Tile)>>,
    Seq<Tile>,
    (u32, u32),
)
    decreases k,
{
    if k == 0 {
        (Some(Seq::empty()), g, s)
    } else {
        let (pos, s1) = inner_search(g, SURFACE_SIZE as nat, s);
        match pos {
            None => (None, g, s1),
            Some(q) => match artifact_of(at(g, SURFACE_SIZE as int, q.0 as int, q.1 as int)) {
                None => (None, g, s1),
                Some(t) => prefixed(
                    seq![(q.0, q.1, t)],
                    artifacts_from(g.update(q.0 * SURFACE_SIZE + q.1, t), s1, (k - 1) as nat),
                ),
            },
        }
    }
}

/// `r` with `pl` put before its list of artifacts.
pub open spec fn prefixed(
    pl: Seq<(u8, u8, Tile)>,
    r: (Option<Seq<(u8, u8, Tile)>>, Seq<Tile>, (u32, u32)),
) -> (Option<Seq<(u8, u8, Tile)>>, Seq<Tile>, (u32, u32)) {
    (
        match r.0 {
            None => None,
            Some(l) => Some(pl + l),
        },
        r.1,
        r.2,
    )
}

proof fn lemma_prefixed_empty(r: (Option<Seq<(u8, u8, Tile)>>, Seq<Tile>, (u32, u32)))
    ensures
        prefixed(Seq::empty(), r) == r,
{
    if let Some(l) = r.0 {
        assert(Seq::<(u8, u8, Tile)>::empty() + l =~= l);
    }
}

proof fn lemma_prefixed_push(
    pl: Seq<(u8, u8, Tile)>,
    a: (u8, u8, Tile),
    r: (Option<Seq<(u8, u8, Tile)>>, Seq<Tile>, (u32, u32)),
)
    ensures
        prefixed(pl, prefixed(seq![a], r)) == prefixed(pl.push(a), r),
{
    if let Some(l) = r.0 {
        assert(pl + (seq![a] + l) =~= pl.push(a) + l);
    }
}

/// Which error surface generation from state `s` reports where it fails.
pub open spec fn surface_error(s: (u32, u32)) -> Seq<char> {
    let (t, s1) = terrain_search(surface_profile_spec(), s, terrain_attempts());
    match t {
        None => terrain_error(),
        Some(g0) => {
            let g1 = with_block(
                g0,
                SURFACE_SIZE as int,
                SURFACE_SIZE as int / 2,
                SURFACE_SIZE as int / 2,
                Tile::Ladder,
                Tile::Stone,
            );
            match inner_search(g1, SURFACE_SIZE as nat, s1).0 {
                None => start_error(),
                Some(_) => artifact_error(),
            }
        },
    }
}

/// The surface made from state `s`: its grid, artifacts and start, or `None`
/// where a draw fails; and the state after.
pub open spec fn surface_of(s: (u32, u32)) -> (Option<(Seq<Tile>, Seq<(u8, u8, Tile)>, (u8, u8))>, (
    u32,
    u32,
)) {
    let (t, s1) = terrain_search(surface_profile_spec(), s, terrain_attempts());
    match t {
        None => (None, s1),
        Some(g0) => {
            let g1 = with_block(
                g0,
                SURFACE_SIZE as int,
                SURFACE_SIZE as int / 2,
                SURFACE_SIZE as int / 2,
                Tile::Ladder,
                Tile::Stone,
            );
            let (start, s2) = inner_search(g1, SURFACE_SIZE as nat, s1);
            match start {
                None => (None, s2),
                Some(st) => {
                    let (arts, g2, s3) = artifacts_from(g1, s2, ARTIFACT_COUNT as nat);
                    match arts {
                        None => (None, s3),
                        Some(l) => (Some((g2, l, st)), s3),
                    }
                },
            }
        },
    }
}

/// The surface level: its grid, its artifacts and the player's start.
pub struct Surface {
    tiles: Vec<Tile>,
    artifacts: [(u8, u8, Tile); 4],
    start_position: (u8, u8),
}

impl Surface {
    pub closed spec fn grid(&self) -> Seq<Tile> {
        self.tiles@
    }

    pub closed spec fn artifact_list(&self) -> Seq<(u8, u8, Tile)> {
        self.artifacts@
    }

    pub closed spec fn start(&self) -> (u8, u8) {
        self.start_position
    }

    /// What every generated surface satisfies: a 64x64 grid with the ladder
    /// ringed by stone at its centre, four artifacts that the grid shows, and
    /// a start inside the inner six eighths.
    pub open spec fn wf(&self) -> bool {
        &&& is_grid(self.grid(), SURFACE_SIZE as int)
        &&& has_ladder(self.grid(), SURFACE_SIZE as int, Tile::Stone)
        &&& self.artifact_list().len() == ARTIFACT_COUNT
        &&& artifacts_on_grid(self.grid(), SURFACE_SIZE as int, self.artifact_list())
        &&& 8 <= self.start().0 < 56
        &&& 8 <= self.start().1 < 56
    }

    pub fn start_position(&self) -> (r: (u8, u8))
        ensures
            r == self.start(),
    {
        self.start_position
    }

    pub fn artifacts(&self) -> (r: &[(u8, u8, Tile); 4])
        ensures
            r@ == self.artifact_list(),
    {
        &self.artifacts
    }

    /// Enemy positions on the surface, drawn from `random`.
    pub fn generate_enemies(&self, random: &mut Random) -> (r: Vec<(u8, u8)>)
        requires
            self.wf(),
        ensures
            (r@, final(random)@) == enemies_scan(self.grid(), SURFACE_SIZE as int, old(random)@, 0),
            final(random)@ == cycles(old(random)@, (SURFACE_SIZE * SURFACE_SIZE) as nat),
            enemies_valid(self.grid(), SURFACE_SIZE as int, r@),
    {
        generate_enemies(&self.tiles, SURFACE_SIZE, random)
    }

    fn choose_start_position(&mut self, random: &mut Random) -> (r: Result<(), String>)
        requires
            is_grid(old(self).grid(), SURFACE_SIZE as int),
        ensures
            final(self).grid() == old(self).grid(),
            final(self).artifact_list() == old(self).artifact_list(),
            inner_search(old(self).grid(), SURFACE_SIZE as nat, old(random)@) matches (found, s)
                && final(random)@ == s && (found matches Some(pos) ==> r is Ok
                && final(self).start() == pos) && (found is None ==> r is Err),
            r matches Err(e) ==> e@ == start_error() && final(self).start() == old(self).start(),
            r is Ok ==> 8 <= final(self).start().0 < 56 && 8 <= final(self).start().1 < 56,
    {
        let chosen = choose_random_sand_or_grass_position(&self.tiles, SURFACE_SIZE, random);
        match chosen {
            Some(position) => {
                self.start_position = position;
                Ok(())
            },
            None => Err(String::from_str("failed to choose start position")),
        }
    }

    fn place_artifacts(&mut self, random: &mut Random) -> (r: Result<(), String>)
        requires
            is_grid(old(self).grid(), SURFACE_SIZE as int),
            has_ladder(old(self).grid(), SURFACE_SIZE as int, Tile::Stone),
        ensures
            is_grid(final(self).grid(), SURFACE_SIZE as int),
            has_ladder(final(self).grid(), SURFACE_SIZE as int, Tile::Stone),
            final(self).start() == old(self).start(),
            r is Ok ==> final(self).artifact_list().len() == ARTIFACT_COUNT && artifacts_on_grid(
                final(self).grid(),
                SURFACE_SIZE as int,
                final(self).artifact_list(),
            ),
            final(random)@ == artifacts_from(old(self).grid(), old(random)@, ARTIFACT_COUNT as nat).2,
            final(self).grid() == artifacts_from(old(self).grid(), old(random)@, ARTIFACT_COUNT as nat).1,
            r is Ok <==> artifacts_from(old(self).grid(), old(random)@, ARTIFACT_COUNT as nat).0 is Some,
            r is Ok ==> artifacts_from(old(self).grid(), old(random)@, ARTIFACT_COUNT as nat).0 == Some(
                final(self).artifact_list(),
            ),
            r matches Err(e) ==> e@ == artifact_error() && final(self).artifact_list() == old(
                self,
            ).artifact_list(),
    {
        let n = SURFACE_SIZE;
        let ghost goal = artifacts_from(self.grid(), random@, ARTIFACT_COUNT as nat);
        proof {
            lemma_prefixed_empty(goal);
        }
        let mut placed: Vec<(u8, u8, Tile)> = Vec::new();
        while placed.len() < ARTIFACT_COUNT
            invariant
                n == SURFACE_SIZE,
                placed@.len() <= ARTIFACT_COUNT,
                is_grid(self.grid(), n as int),
                has_ladder(self.grid(), n as int, Tile::Stone),
                artifacts_on_grid(self.grid(), n as int, placed@),
                self.start() == old(self).start(),
                self.artifact_list() == old(self).artifact_list(),
                goal == artifacts_from(old(self).grid(), old(random)@, ARTIFACT_COUNT as nat),
                goal == prefixed(
                    placed@,
                    artifacts_from(self.grid(), random@, (ARTIFACT_COUNT - placed@.len()) as nat),
                ),
            decreases ARTIFACT_COUNT - placed@.len(),
        {
            let ghost g_before = self.grid();
            let ghost s_before = random@;
            let chosen = choose_random_sand_or_grass_position(&self.tiles, n, random);
            match chosen {
                Some((ax, ay)) => {
                    let old_tile = get_cell(&self.tiles, n, ax as usize, ay as usize);
                    match old_tile.to_tile_with_artifact() {
                        Some(new_tile) => {
                            let ghost g0 = self.grid();
                            set_cell(&mut self.tiles, n, ax as usize, ay as usize, new_tile);
                            proof {
                                assert forall|k: int| 0 <= k < placed@.len() implies ({
                                    let a = #[trigger] placed@[k];
                                    at(self.grid(), n as int, a.0 as int, a.1 as int) == a.2
                                }) by {
                                    let a = placed@[k];
                                    assert(is_artifact_tile(at(g0, n as int, a.0 as int, a.1 as int)));
                                }
                                assert forall|a: int, b: int|
                                    in_block(a, b, n as int / 2, n as int / 2) && !(a == n as int / 2
                                        && b == n as int / 2) implies #[trigger] at(
                                    self.grid(),
                                    n as int,
                                    a,
                                    b,
                                ) == Tile::Stone by {
                                    assert(at(g0, n as int, a, b) == Tile::Stone);
                                }
                            }
                            proof {
                                lemma_prefixed_push(
                                    placed@,
                                    (ax, ay, new_tile),
                                    artifacts_from(
                                        self.grid(),
                                        random@,
                                        (ARTIFACT_COUNT - placed@.len() - 1) as nat,
                                    ),
                                );
                            }
                            placed.push((ax, ay, new_tile));
                        },
                        None => {
                            return Err(String::from_str("failed to choose tile for artifact"));
                        },
                    }
                },
                None => {
                    return Err(String::from_str("failed to choose tile for artifact"));
                },
            }
        }
        self.artifacts = [placed[0], placed[1], placed[2], placed[3]];
        proof {
            assert(self.artifact_list() =~= placed@);
        }
        Ok(())
    }

    /// Generates terrain until it is accepted, places the ladder, chooses the
    /// start, then places the four artifacts.
    pub fn generate(random: &mut Random) -> (r: Result<Surface, String>)
        ensures
            r matches Ok(s) ==> s.wf(),
            final(random)@ == surface_of(old(random)@).1,
            r is Ok <==> surface_of(old(random)@).0 is Some,
            r matches Ok(s) ==> surface_of(old(random)@).0 == Some(
                (s.grid(), s.artifact_list(), s.start()),
            ),
            r matches Err(e) ==> e@ == surface_error(old(random)@),
    {
        let p = surface_profile();
        let tiles = match generate_terrain(random, &p) {
            Some(t) => t,
            None => {
                return Err(String::from_str("failed to generate terrain"));
            },
        };
        let mut level = Surface {
            tiles,
            artifacts: [(0, 0, Tile::Blank); 4],
            start_position: (0, 0),
        };
        place_ladder(&mut level.tiles, &p);
        match level.choose_start_position(random) {
            Ok(()) => {},
            Err(e) => {
                return Err(e);
            },
        }
        match level.place_artifacts(random) {
            Ok(()) => {},
            Err(e) => {
                return Err(e);
            },
        }
        Ok(level)
    }
}

/// Where the boss entrance goes for state `s`: `x` is drawn in `[1, n - 2]`,
/// `y` is 1 or `n - 2` by a second draw, and a third draw may swap the two.
pub open spec fn boss_position(s: (u32, u32)) -> (int, int) {
    let bx = uint_draw(s, (CAVE_SIZE - 2) as nat) + 1;
    let by = if draw_bits(cycle(s), ONE_BITS) > HALF_BITS {
        1
    } else {
        CAVE_SIZE - 2
    };
    if draw_bits(cycle(cycle(s)), ONE_BITS) > HALF_BITS {
        (by as int, bx as int)
    } else {
        (bx as int, by as int)
    }
}

/// A position one cell in from a border of the cave, off its centre.
pub open spec fn near_border(a: int, b: int) -> bool {
    &&& a == 1 || a == CAVE_SIZE - 2 || b == 1 || b == CAVE_SIZE - 2
    &&& !(a == CAVE_SIZE / 2 && b == CAVE_SIZE / 2)
}

/// The boss entrance lies in `[1, n - 2]` on both axes, one cell in from a
/// border, and off the centre, whatever the state.
pub proof fn lemma_boss_position(s: (u32, u32))
    ensures
        1 <= boss_position(s).0 <= CAVE_SIZE - 2,
        1 <= boss_position(s).1 <= CAVE_SIZE - 2,
        near_border(boss_position(s).0, boss_position(s).1),
{
    lemma_uint_draw_lt(s, (CAVE_SIZE - 2) as nat);
}

/// The cave made from state `s`: its grid, or `None` where the check for a
/// Sand or Grass cell fails; and the state after.
pub open spec fn cave_of(s: (u32, u32)) -> (Option<Seq<Tile>>, (u32, u32)) {
    let (t, s1) = terrain_search(cave_profile_spec(), s, terrain_attempts());
    match t {
        None => (None, s1),
        Some(g0) => {
            let g1 = with_block(
                g0,
                CAVE_SIZE as int,
                CAVE_SIZE as int / 2,
                CAVE_SIZE as int / 2,
                Tile::Ladder,
                Tile::Sand,
            );
            let (found, s2) = inner_search(g1, CAVE_SIZE as nat, s1);
            match found {
                None => (None, s2),
                Some(_) => {
                    let b = boss_position(s2);
                    (
                        Some(with_block(g1, CAVE_SIZE as int, b.0, b.1, Tile::BossLadder, Tile::Gem)),
                        cycle(cycle(cycle(s2))),
                    )
                },
            }
        },
    }
}

/// Which error cave generation from state `s` reports where it fails.
pub open spec fn cave_error(s: (u32, u32)) -> Seq<char> {
    match terrain_search(cave_profile_spec(), s, terrain_attempts()).0 {
        None => terrain_error(),
        Some(_) => drop_error(),
    }
}

/// The cave level.
pub struct Cave {
    tiles: Vec<Tile>,
}

impl Cave {
    pub closed spec fn grid(&self) -> Seq<Tile> {
        self.tiles@
    }

    /// What every generated cave satisfies: a 32x32 grid with the ladder ringed
    /// by sand at its centre, and a boss ladder that lies one cell in from a
    /// border, the only one.
    pub open spec fn wf(&self) -> bool {
        &&& is_grid(self.grid(), CAVE_SIZE as int)
        &&& has_ladder(self.grid(), CAVE_SIZE as int, Tile::Sand)
        &&& exists|a: int, b: int|
            0 <= a < CAVE_SIZE && 0 <= b < CAVE_SIZE && #[trigger] at(
                self.grid(),
                CAVE_SIZE as int,
                a,
                b,
            ) == Tile::BossLadder
        &&& forall|a: int, b: int|
            0 <= a < CAVE_SIZE && 0 <= b < CAVE_SIZE && #[trigger] at(
                self.grid(),
                CAVE_SIZE as int,
                a,
                b,
            ) == Tile::BossLadder ==> near_border(a, b)
    }

    /// Enemy positions on the cave, drawn from `random`.
    pub fn generate_enemies(&self, random: &mut Random) -> (r: Vec<(u8, u8)>)
        requires
            self.wf(),
        ensures
            (r@, final(random)@) == enemies_scan(self.grid(), CAVE_SIZE as int, old(random)@, 0),
            final(random)@ == cycles(old(random)@, (CAVE_SIZE * CAVE_SIZE) as nat),
            enemies_valid(self.grid(), CAVE_SIZE as int, r@),
    {
        generate_enemies(&self.tiles, CAVE_SIZE, random)
    }

    fn place_boss_entrance(&mut self, random: &mut Random)
        requires
            is_grid(old(self).grid(), CAVE_SIZE as int),
        ensures
            final(random)@ == cycle(cycle(cycle(old(random)@))),
            final(self).grid() == with_block(
                old(self).grid(),
                CAVE_SIZE as int,
                boss_position(old(random)@).0,
                boss_position(old(random)@).1,
                Tile::BossLadder,
                Tile::Gem,
            ),
            surrounded(
                final(self).grid(),
                old(self).grid(),
                CAVE_SIZE as int,
                boss_position(old(random)@).0,
                boss_position(old(random)@).1,
                Tile::BossLadder,
                Tile::Gem,
            ),
    {
        proof {
            lemma_boss_position(random@);
            lemma_uint_draw_lt(random@, (CAVE_SIZE - 2) as nat);
        }
        let mut boss_x = random.next_uint_max(CAVE_SIZE - 2) + 1;
        let mut boss_y = if random.next().bits > HALF_BITS {
            1
        } else {
            CAVE_SIZE - 2
        };
        if random.next().bits > HALF_BITS {
            let t = boss_x;
            boss_x = boss_y;
            boss_y = t;
        }
        place_surrounded_tile(&mut self.tiles, CAVE_SIZE, boss_x, boss_y, Tile::BossLadder, Tile::Gem);
    }

    /// Generates terrain until it is accepted, places the ladder, checks that
    /// a Sand or Grass cell can be drawn, then places the boss entrance.
    pub fn generate(random: &mut Random) -> (r: Result<Cave, String>)
        ensures
            r matches Ok(c) ==> c.wf(),
            final(random)@ == cave_of(old(random)@).1,
            r is Ok <==> cave_of(old(random)@).0 is Some,
            r matches Ok(c) ==> cave_of(old(random)@).0 == Some(c.grid()),
            r matches Err(e) ==> e@ == cave_error(old(random)@),
    {
        let p = cave_profile();
        let n = CAVE_SIZE;
        let tiles = match generate_terrain(random, &p) {
            Some(t) => t,
            None => {
                return Err(String::from_str("failed to generate terrain"));
            },
        };
        let mut level = Cave { tiles };
        let ghost g0 = level.grid();
        place_ladder(&mut level.tiles, &p);
        let ghost g1 = level.grid();
        if choose_random_sand_or_grass_position(&level.tiles, n, random).is_none() {
            return Err(String::from_str("failed to choose discarded tile while generating cave"));
        }
        let ghost s = random@;
        level.place_boss_entrance(random);
        proof {
            let g2 = level.grid();
            let (bx, by) = boss_position(s);
            lemma_boss_position(s);
            assert forall|a: int, b: int| 0 <= a < n && 0 <= b < n implies #[trigger] at(
                g1,
                n as int,
                a,
                b,
            ) != Tile::BossLadder by {
                assert(is_terrain(p, at(g0, n as int, a, b)));
            }
            assert forall|a: int, b: int|
                in_block(a, b, n as int / 2, n as int / 2) && !(a == n as int / 2 && b == n as int
                    / 2) implies #[trigger] at(g2, n as int, a, b) == Tile::Sand by {
                assert(at(g1, n as int, a, b) == Tile::Sand);
            }
            assert(at(g2, n as int, n as int / 2, n as int / 2) == Tile::Ladder);
            assert(at(g2, n as int, bx, by) == Tile::BossLadder);
            assert forall|a: int, b: int|
                0 <= a < n && 0 <= b < n && #[trigger] at(g2, n as int, a, b) == Tile::BossLadder implies near_border(
                a,
                b,
            ) by {
                assert(a == bx && b == by);
            }
        }
        Ok(level)
    }
}

impl Level for Surface {
    open spec fn side() -> nat {
        SURFACE_SIZE as nat
    }

    open spec fn level_grid(&self) -> Seq<Tile> {
        self.grid()
    }

    open spec fn level_wf(&self) -> bool {
        self.wf()
    }

    fn tile(&self, x: usize, y: usize) -> (r: Tile) {
        get_cell(&self.tiles, SURFACE_SIZE, x, y)
    }
}

impl Level for Cave {
    open spec fn side() -> nat {
        CAVE_SIZE as nat
    }

    open spec fn level_grid(&self) -> Seq<Tile> {
        self.grid()
    }

    open spec fn level_wf(&self) -> bool {
        self.wf()
    }

    fn tile(&self, x: usize, y: usize) -> (r: Tile) {
        get_cell(&self.tiles, CAVE_SIZE, x, y)
    }
}

} // verus!
