use vstd::prelude::*;
use crate::grid::Coordinates;

verus! {

/// What touching a tile does: a `Reward` tile is consumed and grows the tail;
/// a `GameOver` tile (field wall or tail segment) ends the session.
#[derive(Clone, Copy, PartialEq, Eq, Structural, Debug)]
pub enum TileType {
    Reward,
    GameOver,
}

/// One tile entity of the registry: an identifier, a kind, and the cell it
/// occupies.
#[derive(Clone, Copy, PartialEq, Eq, Structural, Debug)]
pub struct Tile {
    pub id: u64,
    pub kind: TileType,
    pub coordinates: Coordinates,
}

/// Index of the first tile that occupies the given cell, if any.
pub open spec fn first_index_at(tiles: Seq<Tile>, coordinates: Coordinates) -> Option<int>
    decreases tiles.len(),
{
    if tiles.len() == 0 {
        None
    } else if tiles[0].coordinates == coordinates {
        Some(0int)
    } else {
        match first_index_at(tiles.drop_first(), coordinates) {
            Some(j) => Some(j + 1),
            None => None,
        }
    }
}

/// Whether some tile carries the given identifier.
pub open spec fn has_tile_id(tiles: Seq<Tile>, id: u64) -> bool {
    exists|j: int| 0 <= j < tiles.len() && tiles[j].id == id
}

/// The cell occupied by the first tile that carries the given identifier.
pub open spec fn coord_of_id(tiles: Seq<Tile>, id: u64) -> Coordinates
    decreases tiles.len(),
{
    if tiles.len() == 0 {
        Coordinates { x: 0, y: 0 }
    } else if tiles[0].id == id {
        tiles[0].coordinates
    } else {
        coord_of_id(tiles.drop_first(), id)
    }
}

/// `coord_of_id` reads the first occurrence of the identifier.
pub proof fn lemma_coord_of_id_first(tiles: Seq<Tile>, id: u64, j: int)
    requires
        0 <= j < tiles.len(),
        tiles[j].id == id,
        forall|k: int| 0 <= k < j ==> tiles[k].id != id,
    ensures
        coord_of_id(tiles, id) == tiles[j].coordinates,
    decreases j,
{
    if j > 0 {
        lemma_coord_of_id_first(tiles.drop_first(), id, j - 1);
    }
}

/// Replacing a tile with one of the same identifier leaves the cells recorded
/// for every other identifier unchanged.
pub proof fn lemma_coord_of_id_update(tiles: Seq<Tile>, j: int, t: Tile, id: u64)
    requires
        0 <= j < tiles.len(),
        tiles[j].id == t.id,
        id != t.id,
    ensures
        coord_of_id(tiles.update(j, t), id) == coord_of_id(tiles, id),
    decreases tiles.len(),
{
    let updated = tiles.update(j, t);
    assert(updated.len() == tiles.len());
    if tiles[0].id == id {
        assert(updated[0] == tiles[0]);
    } else {
        if j == 0 {
            assert(updated.drop_first() =~= tiles.drop_first());
        } else {
            assert(updated.drop_first() =~= tiles.drop_first().update(j - 1, t));
            lemma_coord_of_id_update(tiles.drop_first(), j - 1, t, id);
        }
    }
}

/// Removing a tile that carries a different identifier does not change the
/// cell recorded for the identifier.
pub proof fn lemma_coord_of_id_remove(tiles: Seq<Tile>, j: int, id: u64)
    requires
        0 <= j < tiles.len(),
        tiles[j].id != id,
    ensures
        coord_of_id(tiles.remove(j), id) == coord_of_id(tiles, id),
    decreases tiles.len(),
{
    tiles.remove_ensures(j);
    let rem = tiles.remove(j);
    if j == 0 {
        assert(rem =~= tiles.drop_first());
    } else {
        if tiles[0].id == id {
            assert(rem[0] == tiles[0]);
        } else {
            assert(rem.drop_first() =~= tiles.drop_first().remove(j - 1));
            lemma_coord_of_id_remove(tiles.drop_first(), j - 1, id);
        }
    }
}

/// Appending a tile does not change the cell recorded for an identifier the
/// registry already holds.
pub proof fn lemma_coord_of_id_push(tiles: Seq<Tile>, t: Tile, id: u64)
    requires
        has_tile_id(tiles, id),
    ensures
        coord_of_id(tiles.push(t), id) == coord_of_id(tiles, id),
    decreases tiles.len(),
{
    let k = choose|k: int| 0 <= k < tiles.len() && tiles[k].id == id;
    if tiles[0].id == id {
        assert(tiles.push(t)[0] == tiles[0]);
    } else {
        assert(k > 0);
        assert(tiles.drop_first()[k - 1].id == id);
        assert(has_tile_id(tiles.drop_first(), id));
        assert(tiles.push(t).drop_first() =~= tiles.drop_first().push(t));
        lemma_coord_of_id_push(tiles.drop_first(), t, id);
    }
}

/// First tile occupying the given cell, reported by its index in the registry.
pub fn find_tile_at(tiles: &Vec<Tile>, coordinates: Coordinates) -> (r: Option<usize>)
    ensures
        match r {
            Some(j) => {
                &&& j < tiles@.len()
                &&& tiles@[j as int].coordinates == coordinates
                &&& first_index_at(tiles@, coordinates) == Some(j as int)
                &&& forall|k: int| 0 <= k < j ==> tiles@[k].coordinates != coordinates
            },
            None => {
                &&& first_index_at(tiles@, coordinates) is None
                &&& forall|k: int| 0 <= k < tiles@.len() ==> tiles@[k].coordinates != coordinates
            },
        },
{
    let mut i: usize = 0;
    while i < tiles.len()
        invariant
            i <= tiles@.len(),
            forall|k: int| 0 <= k < i ==> (#[trigger] tiles@[k]).coordinates != coordinates,
        decreases tiles@.len() - i,
    {
        if tiles[i].coordinates == coordinates {
            proof {
                lemma_first_index_at_skip(tiles@, coordinates, i as int);
                assert(tiles@.skip(i as int)[0] == tiles@[i as int]);
            }
            return Some(i);
        }
        i = i + 1;
    }
    proof {
        lemma_first_index_at_skip(tiles@, coordinates, tiles@.len() as int);
    }
    None
}

/// A search that has passed `i` tiles without a match at the cell finds the
/// same tile as a search that starts at tile `i`, `i` places later.
proof fn lemma_first_index_at_skip(tiles: Seq<Tile>, coordinates: Coordinates, i: int)
    requires
        0 <= i <= tiles.len(),
        forall|k: int| 0 <= k < i ==> (#[trigger] tiles[k]).coordinates != coordinates,
    ensures
        first_index_at(tiles, coordinates) == match first_index_at(tiles.skip(i), coordinates) {
            Some(j) => Some(j + i),
            None => None::<int>,
        },
    decreases i,
{
    if i > 0 {
        lemma_first_index_at_skip(tiles.drop_first(), coordinates, i - 1);
        assert(tiles.drop_first().skip(i - 1) =~= tiles.skip(i));
    } else {
        assert(tiles.skip(0) =~= tiles);
    }
}

/// First tile carrying the given identifier, reported by its index.
pub fn find_tile_index_by_id(tiles: &Vec<Tile>, id: u64) -> (r: Option<usize>)
    ensures
        match r {
            Some(j) => {
                &&& j < tiles@.len()
                &&& tiles@[j as int].id == id
                &&& forall|k: int| 0 <= k < j ==> tiles@[k].id != id
                &&& coord_of_id(tiles@, id) == tiles@[j as int].coordinates
            },
            None => !has_tile_id(tiles@, id),
        },
{
    let mut i: usize = 0;
    while i < tiles.len()
        invariant
            i <= tiles@.len(),
            forall|k: int| 0 <= k < i ==> (#[trigger] tiles@[k]).id != id,
        decreases tiles@.len() - i,
    {
        if tiles[i].id == id {
            proof {
                lemma_coord_of_id_first(tiles@, id, i as int);
            }
            return Some(i);
        }
        i = i + 1;
    }
    None
}

} // verus!
