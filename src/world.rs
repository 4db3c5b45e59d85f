use crate::fixed_point::FixedPoint;
use crate::level::{cave_error, cave_of, surface_error, enemies_scan, enemies_valid, surface_of, Cave, Surface, CAVE_SIZE, SURFACE_SIZE};
use crate::tile::Tile;
use crate::random::{cycles, draw_bits, seeded, Random};
use vstd::prelude::*;

verus! {

/// Draws discarded from a fresh generator before the levels are made.
pub const WARMUP_DRAWS: usize = 256;

/// Bits of the most negative number, whose bits read as unsigned are 2^31.
pub const MIN_BITS: i32 = -2147483648;

#[derive(PartialEq, Eq, Structural, Clone, Copy, Hash)]
pub enum LevelType {
    Surface,
    Cave,
}

/// The seed of the enemy generator for a world seeded with `seed`: the bits
/// of the first draw below the most negative number, read as unsigned.
pub open spec fn enemy_seed(seed: u32) -> u32 {
    draw_bits(seeded(seed), MIN_BITS) as u32
}

/// What a world holds once generated: the surface grid, its artifacts, its
/// start, and the cave grid.
pub type WorldView = (Seq<Tile>, Seq<(u8, u8, Tile)>, (u8, u8), Seq<Tile>);

/// The world that `seed` gives, or `None` where generation fails: the
/// generator seeded with `seed` discards its first draws, then makes the cave
/// and then the surface.
pub open spec fn world_of(seed: u32) -> Option<WorldView> {
    let s0 = cycles(seeded(seed), WARMUP_DRAWS as nat);
    let (cave, s1) = cave_of(s0);
    match cave {
        None => None,
        Some(c) => match surface_of(s1).0 {
            None => None,
            Some(v) => Some((v.0, v.1, v.2, c)),
        },
    }
}

/// Which error generation from `seed` reports where it fails: the cave's
/// where the cave fails, else the surface's.
pub open spec fn world_error(seed: u32) -> Seq<char> {
    let s0 = cycles(seeded(seed), WARMUP_DRAWS as nat);
    let (cave, s1) = cave_of(s0);
    match cave {
        None => cave_error(s0),
        Some(_) => surface_error(s1),
    }
}

pub open spec fn world_view(w: World) -> WorldView {
    (
        w.surface_level.grid(),
        w.surface_level.artifact_list(),
        w.surface_level.start(),
        w.cave_level.grid(),
    )
}

/// What `World::generate(seed)` returns: a world exactly when `world_of(seed)`
/// gives one, and then that world, with no enemies yet.
pub open spec fn generation_outcome(seed: u32, r: Result<World, String>) -> bool {
    &&& r is Ok <==> world_of(seed) is Some
    &&& r matches Ok(w) ==> world_of(seed) == Some(world_view(w))
        && w.surface_level_enemies is None && w.cave_level_enemies is None
    &&& r matches Err(e) ==> e@ == world_error(seed)
}

/// Generation depends on the seed alone: two calls with one seed both fail,
/// with the same error, or both succeed and give the same grids, artifacts
/// and start.
pub proof fn lemma_generation_deterministic(
    seed: u32,
    a: Result<World, String>,
    b: Result<World, String>,
)
    requires
        generation_outcome(seed, a),
        generation_outcome(seed, b),
    ensures
        a is Ok <==> b is Ok,
        a matches Ok(wa) ==> b matches Ok(wb) && world_view(wa) == world_view(wb),
        a matches Err(ea) ==> b matches Err(eb) && ea@ == eb@,
{
}

/// A surface and a cave made from one seed, with enemy positions once asked
/// for.
pub struct World {
    pub surface_level: Surface,
    pub surface_level_enemies: Option<Vec<(u8, u8)>>,
    pub cave_level: Cave,
    pub cave_level_enemies: Option<Vec<(u8, u8)>>,
}

impl World {
    /// Seeds a generator, discards its first draws, then makes the cave and
    /// then the surface from the same stream; the first failure is returned.
    pub fn generate(seed: u32) -> (r: Result<World, String>)
        ensures
            generation_outcome(seed, r),
            r matches Ok(w) ==> {
                &&& w.surface_level.wf()
                &&& w.cave_level.wf()
                &&& w.surface_level_enemies is None
                &&& w.cave_level_enemies is None
            },
    {
        let mut random = Random::new(seed);
        let mut i: usize = 0;
        while i < WARMUP_DRAWS
            invariant
                i <= WARMUP_DRAWS,
                random@ == cycles(seeded(seed), i as nat),
            decreases WARMUP_DRAWS - i,
        {
            random.next();
            i += 1;
        }
        let cave_level = match Cave::generate(&mut random) {
            Ok(c) => c,
            Err(e) => {
                return Err(e);
            },
        };
        let surface_level = match Surface::generate(&mut random) {
            Ok(s) => s,
            Err(e) => {
                return Err(e);
            },
        };
        Ok(
            World {
                surface_level,
                surface_level_enemies: None,
                cave_level,
                cave_level_enemies: None,
            },
        )
    }

    /// Scatters enemies over both levels from a generator seeded by a draw of
    /// a generator seeded with `seed`: the cave first, then the surface. No
    /// distance to the player is kept.
    pub fn generate_enemies(&mut self, seed: u32)
        requires
            old(self).surface_level.wf(),
            old(self).cave_level.wf(),
        ensures
            final(self).surface_level == old(self).surface_level,
            final(self).cave_level == old(self).cave_level,
            final(self).cave_level_enemies matches Some(e) && enemies_valid(
                final(self).cave_level.grid(),
                CAVE_SIZE as int,
                e@,
            ),
            final(self).surface_level_enemies matches Some(e) && enemies_valid(
                final(self).surface_level.grid(),
                SURFACE_SIZE as int,
                e@,
            ),
            final(self).cave_level_enemies matches Some(e) && e@ == enemies_scan(
                old(self).cave_level.grid(),
                CAVE_SIZE as int,
                seeded(enemy_seed(seed)),
                0,
            ).0,
            final(self).surface_level_enemies matches Some(e) && e@ == enemies_scan(
                old(self).surface_level.grid(),
                SURFACE_SIZE as int,
                enemies_scan(
                    old(self).cave_level.grid(),
                    CAVE_SIZE as int,
                    seeded(enemy_seed(seed)),
                    0,
                ).1,
                0,
            ).0,
    {
        let mut random_initializer = Random::new(seed);
        let draw = random_initializer.next_max(FixedPoint::from_bits(MIN_BITS));
        let mut random = Random::new(#[verifier::truncate] (draw.bits as u32));
        proof {
            assert(draw.bits as u32 == enemy_seed(seed));
        }
        self.cave_level_enemies = Some(self.cave_level.generate_enemies(&mut random));
        self.surface_level_enemies = Some(self.surface_level.generate_enemies(&mut random));
    }
}

} // verus!
