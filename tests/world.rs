use si_level_gen::grid::place_surrounded_tile;
use si_level_gen::level::{
    cave_profile, choose_random_sand_or_grass_position, surface_profile, Level, Surface,
};
use si_level_gen::terrain::{count_tile, generate_terrain, try_generate_terrain};
use si_level_gen::fixed_point::FixedPoint;
use si_level_gen::noise::generate_noise;
use si_level_gen::random::Random;
use si_level_gen::tile::Tile;
use si_level_gen::world::World;

fn world_to_bytes(world: &World) -> Vec<u8> {
    let mut data = vec![u8::MAX; 0x2000];
    for y in 0..64 {
        for x in 0..64 {
            data[y * 128 + x] = world.surface_level.tile(x, y).code() as u8;
        }
    }
    for y in 0..32 {
        for x in 0..32 {
            data[y * 128 + x + 64] = world.cave_level.tile(x, y).code() as u8;
        }
    }
    data
}

const SEEDS: [u32; 4] = [0, 1, 42, 2_024_061];

#[test]
fn generation_is_deterministic() {
    for seed in SEEDS {
        let a = World::generate(seed).unwrap();
        let b = World::generate(seed).unwrap();
        assert_eq!(world_to_bytes(&a), world_to_bytes(&b));
        assert_eq!(a.surface_level.start_position(), b.surface_level.start_position());
        assert_eq!(a.surface_level.artifacts(), b.surface_level.artifacts());
    }
}

#[test]
fn different_seeds_give_different_maps() {
    let a = World::generate(1).unwrap();
    let b = World::generate(2).unwrap();
    assert_ne!(world_to_bytes(&a), world_to_bytes(&b));
}

#[test]
fn ladders_sit_at_the_centre() {
    for seed in SEEDS {
        let w = World::generate(seed).unwrap();
        for dx in 0..3 {
            for dy in 0..3 {
                let (sx, sy) = (31 + dx, 31 + dy);
                let (cx, cy) = (15 + dx, 15 + dy);
                if dx == 1 && dy == 1 {
                    assert_eq!(w.surface_level.tile(sx, sy), Tile::Ladder);
                    assert_eq!(w.cave_level.tile(cx, cy), Tile::Ladder);
                } else {
                    assert_eq!(w.surface_level.tile(sx, sy), Tile::Stone);
                    assert_eq!(w.cave_level.tile(cx, cy), Tile::Sand);
                }
            }
        }
    }
}

#[test]
fn artifacts_match_the_grid() {
    for seed in SEEDS {
        let w = World::generate(seed).unwrap();
        for &(x, y, t) in w.surface_level.artifacts() {
            assert!(t == Tile::SandWithArtifact || t == Tile::GrassWithArtifact);
            assert_eq!(w.surface_level.tile(x as usize, y as usize), t);
        }
        let (sx, sy) = w.surface_level.start_position();
        assert!((8..56).contains(&sx) && (8..56).contains(&sy));
    }
}

#[test]
fn boss_ladder_is_near_a_border() {
    for seed in SEEDS {
        let w = World::generate(seed).unwrap();
        let mut found = Vec::new();
        for x in 0..32 {
            for y in 0..32 {
                if w.cave_level.tile(x, y) == Tile::BossLadder {
                    found.push((x, y));
                }
            }
        }
        assert_eq!(found.len(), 1);
        let (x, y) = found[0];
        assert!(x == 1 || x == 30 || y == 1 || y == 30);
        assert!((x, y) != (16, 16));
        for dx in 0..3 {
            for dy in 0..3 {
                if (dx, dy) != (1, 1) {
                    assert_eq!(w.cave_level.tile(x + dx - 1, y + dy - 1), Tile::Gem);
                }
            }
        }
    }
}

#[test]
fn accepted_terrain_meets_least_counts() {
    let mut r = Random::new(3);
    for p in [surface_profile(), cave_profile()] {
        let t = generate_terrain(&mut r, &p).unwrap();
        assert_eq!(t.len(), p.size * p.size);
        assert!(count_tile(&t, p.t1) >= p.min_1);
        assert!(count_tile(&t, p.t3) >= p.min_3);
        assert!(count_tile(&t, p.t4) >= p.min_4);
        for &c in &t {
            assert!(
                c == Tile::Water || c == p.t0 || c == p.t1 || c == p.t2 || c == p.t3 || c == p.t4
            );
        }
    }
}

#[test]
fn rejected_terrain_is_none() {
    let mut p = cave_profile();
    p.min_1 = usize::MAX;
    let mut r = Random::new(3);
    assert!(try_generate_terrain(&mut r, &p).is_none());
}

#[test]
fn noise_starts_from_one_half() {
    let mut r = Random::new(9);
    let before = r.state();
    let n = generate_noise(&mut r, 8, FixedPoint::from_bits(0), FixedPoint::from_bits(0), 0);
    assert_eq!(n.len(), 64);
    // a zero scale leaves every displacement zero: corners stay 1/2, the
    // mean of 1/2 and 1/2 is 1/2, and the random stream still advances
    assert!(n.iter().all(|v| v.to_bits() == 32768));
    assert_ne!(r.state(), before);
}

#[test]
fn surrounded_tile_overwrites_block() {
    let mut g = vec![Tile::Water; 64];
    place_surrounded_tile(&mut g, 8, 1, 6, Tile::BossLadder, Tile::Gem);
    for x in 0..8 {
        for y in 0..8 {
            let expect = if (x, y) == (1, 6) {
                Tile::BossLadder
            } else if x <= 2 && y >= 5 {
                Tile::Gem
            } else {
                Tile::Water
            };
            assert_eq!(g[x * 8 + y], expect);
        }
    }
}

#[test]
fn position_search_fails_without_sand_or_grass() {
    let g = vec![Tile::Stone; 64 * 64];
    let mut r = Random::new(11);
    assert_eq!(choose_random_sand_or_grass_position(&g, 64, &mut r), None);
    let g = vec![Tile::Grass; 64 * 64];
    let p = choose_random_sand_or_grass_position(&g, 64, &mut r).unwrap();
    assert!((8..56).contains(&p.0) && (8..56).contains(&p.1));
}

#[test]
fn surface_generate_from_stream() {
    let mut r = Random::new(5);
    let s: Surface = Surface::generate(&mut r).unwrap();
    assert_eq!(s.artifacts().len(), 4);
}

#[test]
fn enemies_are_sorted_and_on_open_ground() {
    let mut w = World::generate(42).unwrap();
    w.generate_enemies(42);
    let cave = w.cave_level_enemies.clone().unwrap();
    let surface = w.surface_level_enemies.clone().unwrap();
    for (list, size) in [(&cave, 32u8), (&surface, 64u8)] {
        for pair in list.windows(2) {
            assert!(pair[0] < pair[1]);
        }
        for &(x, y) in list.iter() {
            assert!(x < size && y < size);
        }
    }
    for &(x, y) in &surface {
        let t = w.surface_level.tile(x as usize, y as usize);
        assert!(!matches!(t, Tile::Water | Tile::Stone | Tile::Tree));
    }
    for &(x, y) in &cave {
        let t = w.cave_level.tile(x as usize, y as usize);
        assert!(!matches!(t, Tile::Stone | Tile::Iron | Tile::Gold | Tile::Gem));
    }
    let mut again = World::generate(42).unwrap();
    again.generate_enemies(42);
    assert_eq!(again.cave_level_enemies, w.cave_level_enemies);
    assert_eq!(again.surface_level_enemies, w.surface_level_enemies);
}

#[test]
fn noise_takes_small_and_large_sides() {
    for side in [1usize, 2, 4, 128] {
        let mut r = Random::new(21);
        let g = generate_noise(&mut r, side, FixedPoint::from_bits(58982), FixedPoint::from_bits(13107), side);
        assert_eq!(g.len(), side * side);
        assert_eq!(g[0].to_bits(), 32768);
        let mut zero = Random::new(21);
        let flat = generate_noise(&mut zero, side, FixedPoint::from_bits(0), FixedPoint::from_bits(0), 0);
        assert!(flat.iter().all(|v| v.to_bits() == 32768));
        // one draw per cell but the top-left corner
        let mut fresh = Random::new(21);
        for _ in 0..side * side - 1 {
            fresh.next();
        }
        assert_eq!(zero.state(), fresh.state());
    }
}

#[test]
fn position_search_on_a_single_cell() {
    let g = vec![Tile::Sand];
    let mut r = Random::new(4);
    let s = r.state();
    assert_eq!(choose_random_sand_or_grass_position(&g, 1, &mut r), Some((0, 0)));
    assert_eq!(r.state(), s);
}
