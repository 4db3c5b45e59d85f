use vstd::prelude::*;

verus! {

/// One cell of a level. `code` gives the number each tile is stored as.
#[derive(Clone, Copy, Debug, PartialEq, Eq, Structural, Hash)]
#[non_exhaustive]
pub enum Tile {
    Blank,
    Water,
    Sand,
    Grass,
    Stone,
    Tree,
    Iron,
    Gold,
    Gem,
    Ladder,
    SandWithArtifact,
    GrassWithArtifact,
    BossLadder,
}

/// The stored number of each tile.
pub open spec fn code_of(t: Tile) -> int {
    match t {
        Tile::Blank => -1,
        Tile::Water => 0,
        Tile::Sand => 1,
        Tile::Grass => 2,
        Tile::Stone => 3,
        Tile::Tree => 4,
        Tile::Iron => 8,
        Tile::Gold => 9,
        Tile::Gem => 10,
        Tile::Ladder => 11,
        Tile::SandWithArtifact => 12,
        Tile::GrassWithArtifact => 13,
        Tile::BossLadder => 14,
    }
}

/// The tile that marks an artifact lying on `t`, where there is one.
pub open spec fn artifact_of(t: Tile) -> Option<Tile> {
    match t {
        Tile::Sand => Some(Tile::SandWithArtifact),
        Tile::Grass => Some(Tile::GrassWithArtifact),
        _ => None,
    }
}

impl Tile {
    /// The stored number of the tile.
    pub fn code(&self) -> (r: i8)
        ensures
            r as int == code_of(*self),
    {
        match self {
            Tile::Blank => -1,
            Tile::Water => 0,
            Tile::Sand => 1,
            Tile::Grass => 2,
            Tile::Stone => 3,
            Tile::Tree => 4,
            Tile::Iron => 8,
            Tile::Gold => 9,
            Tile::Gem => 10,
            Tile::Ladder => 11,
            Tile::SandWithArtifact => 12,
            Tile::GrassWithArtifact => 13,
            Tile::BossLadder => 14,
        }
    }

    pub fn to_tile_with_artifact(&self) -> (r: Option<Tile>)
        ensures
            r == artifact_of(*self),
    {
        match self {
            Tile::Sand => Some(Tile::SandWithArtifact),
            Tile::Grass => Some(Tile::GrassWithArtifact),
            _ => None,
        }
    }
}

} // verus!
