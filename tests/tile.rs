use si_level_gen::tile::Tile;

#[test]
fn tile_codes() {
    let codes = [
        (Tile::Blank, -1),
        (Tile::Water, 0),
        (Tile::Sand, 1),
        (Tile::Grass, 2),
        (Tile::Stone, 3),
        (Tile::Tree, 4),
        (Tile::Iron, 8),
        (Tile::Gold, 9),
        (Tile::Gem, 10),
        (Tile::Ladder, 11),
        (Tile::SandWithArtifact, 12),
        (Tile::GrassWithArtifact, 13),
        (Tile::BossLadder, 14),
    ];
    for (t, c) in codes {
        assert_eq!(t.code(), c);
    }
}

#[test]
fn artifact_variants() {
    assert_eq!(Tile::Sand.to_tile_with_artifact(), Some(Tile::SandWithArtifact));
    assert_eq!(Tile::Grass.to_tile_with_artifact(), Some(Tile::GrassWithArtifact));
    assert_eq!(Tile::Stone.to_tile_with_artifact(), None);
    assert_eq!(Tile::SandWithArtifact.to_tile_with_artifact(), None);
}
