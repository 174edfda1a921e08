use vstd::prelude::*;

verus! {

/// The art styles a driver can render the level in.
#[derive(Clone, Copy, Debug, PartialEq, Eq, Structural)]
pub enum Tileset {
    Doggo,
    Retro,
    Kenney,
    Marble,
}

/// The kinds of tile a cell can be drawn as.
#[derive(Clone, Copy, Debug, PartialEq, Eq, Structural)]
pub enum Tile {
    Crate,
    CrateOnStorageLocation,
    Ground,
    Player,
    StorageLocation,
    Wall,
}

/// Column of the tile inside a tile sheet laid out as a single row.
pub fn tilesheet_i_for_tile(t: Tile) -> (i: usize)
    ensures
        i == (match t {
            Tile::Crate => 0usize,
            Tile::CrateOnStorageLocation => 1usize,
            Tile::StorageLocation => 2usize,
            Tile::Player => 3usize,
            Tile::Ground => 4usize,
            Tile::Wall => 5usize,
        }),
{
    match t {
        Tile::Crate => 0,
        Tile::CrateOnStorageLocation => 1,
        Tile::StorageLocation => 2,
        Tile::Player => 3,
        Tile::Ground => 4,
        Tile::Wall => 5,
    }
}

} // verus!
