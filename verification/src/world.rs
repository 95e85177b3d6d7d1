//! The world an action mutates: pieces on a tile map.
//!
//! The host runtime owns real component storage; the resolution core
//! only reads and writes the handful of components the actions touch,
//! so the world is modelled as plain values: a list of pieces (each a
//! bundle of those components) and the map's tiles.

use vstd::prelude::*;
use crate::actions::Action;
use crate::grid::Coord;
use crate::grid::EntityId;

verus! {

/// What kind of terrain a tile holds.
#[derive(Debug, Clone, Copy, PartialEq, Eq, Structural)]
pub enum TerrainType {
    Ground,
    Wall,
}

/// One map tile.
#[derive(Debug, Clone, Copy, PartialEq, Eq, Structural)]
pub struct Tile {
    pub position: Coord,
    pub terrain: TerrainType,
}

/// The tile map.
#[derive(Debug, Clone, PartialEq, Eq)]
pub struct GameMap {
    pub tiles: Vec<Tile>,
}

/// One game piece: an entity together with the components the
/// resolution core reads and writes.  A component a piece lacks is
/// `None` (or `false` for the marker component `occupier`).
#[derive(Debug, Clone, Copy, PartialEq)]
pub struct Piece {
    pub id: EntityId,
    pub position: Option<Coord>,
    pub health: Option<u32>,
    pub occupier: bool,
    pub facing: Option<Coord>,
    pub running_action: Option<Action>,
}

/// The world the actions mutate.
#[derive(Debug, Clone, PartialEq)]
pub struct GameWorld {
    pub pieces: Vec<Piece>,
    pub map: GameMap,
}

/// Mathematical model of a world.
#[verifier::ext_equal]
pub ghost struct WorldV {
    pub pieces: Seq<Piece>,
    pub tiles: Seq<Tile>,
}

impl View for GameWorld {
    type V = WorldV;

    open spec fn view(&self) -> WorldV {
        WorldV { pieces: self.pieces@, tiles: self.map.tiles@ }
    }
}

impl WorldV {
    /// Well-formed: entity ids and tile positions are unique.
    pub open spec fn wf(self) -> bool {
        &&& forall|i: int, j: int|
            0 <= i < j < self.pieces.len() ==> self.pieces[i].id != self.pieces[j].id
        &&& forall|i: int, j: int|
            0 <= i < j < self.tiles.len() ==> self.tiles[i].position != self.tiles[j].position
    }

    pub open spec fn has_piece(self, id: EntityId) -> bool {
        exists|i: int| 0 <= i < self.pieces.len() && self.pieces[i].id == id
    }

    /// Index of the piece with the given id (unique when `wf`).
    pub open spec fn piece_index(self, id: EntityId) -> int {
        choose|i: int| 0 <= i < self.pieces.len() && self.pieces[i].id == id
    }

    pub open spec fn piece(self, id: EntityId) -> Piece {
        self.pieces[self.piece_index(id)]
    }

    pub open spec fn update_piece(self, id: EntityId, p: Piece) -> WorldV {
        WorldV { pieces: self.pieces.update(self.piece_index(id), p), ..self }
    }

    pub open spec fn remove_piece(self, id: EntityId) -> WorldV {
        WorldV { pieces: self.pieces.remove(self.piece_index(id)), ..self }
    }

    /// A piece is dead when it has a health component at zero.
    /// An entity with no piece or no health component is not "dead":
    /// its queued actions are still attempted (and fail individually).
    pub open spec fn dead(self, id: EntityId) -> bool {
        self.has_piece(id) && self.piece(id).health == Some(0u32)
    }

    pub open spec fn has_tile(self, c: Coord) -> bool {
        exists|i: int| 0 <= i < self.tiles.len() && self.tiles[i].position == c
    }

    pub open spec fn tile_index(self, c: Coord) -> int {
        choose|i: int| 0 <= i < self.tiles.len() && self.tiles[i].position == c
    }

    /// Terrain at a coordinate, `None` off the map.
    pub open spec fn terrain_at(self, c: Coord) -> Option<TerrainType> {
        if self.has_tile(c) {
            Some(self.tiles[self.tile_index(c)].terrain)
        } else {
            None
        }
    }

    /// Some blocking piece stands at the coordinate.
    pub open spec fn occupied(self, c: Coord) -> bool {
        exists|i: int|
            0 <= i < self.pieces.len() && self.pieces[i].occupier && self.pieces[i].position
                == Some(c)
    }

    /// Some piece with a health component stands at the coordinate.
    pub open spec fn any_health_at(self, c: Coord) -> bool {
        exists|i: int|
            0 <= i < self.pieces.len() && self.pieces[i].health is Some && self.pieces[i].position
                == Some(c)
    }
}

/// First piece (in storage order) with a health component at `c`.
pub open spec fn first_health_at_rec(pieces: Seq<Piece>, c: Coord) -> Option<EntityId>
    decreases pieces.len(),
{
    if pieces.len() == 0 {
        None
    } else if pieces[0].health is Some && pieces[0].position == Some(c) {
        Some(pieces[0].id)
    } else {
        first_health_at_rec(pieces.drop_first(), c)
    }
}

/// Updating a piece without changing its id preserves well-formedness.
pub proof fn lemma_update_piece_wf(w: WorldV, id: EntityId, p: Piece)
    requires
        w.wf(),
        w.has_piece(id),
        p.id == id,
    ensures
        w.update_piece(id, p).wf(),
        w.update_piece(id, p).tiles == w.tiles,
        w.update_piece(id, p).pieces.len() == w.pieces.len(),
{
}

/// Removing a piece preserves well-formedness.
pub proof fn lemma_remove_piece_wf(w: WorldV, id: EntityId)
    requires
        w.wf(),
        w.has_piece(id),
    ensures
        w.remove_piece(id).wf(),
        w.remove_piece(id).tiles == w.tiles,
        w.remove_piece(id).pieces.len() == w.pieces.len() - 1,
{
    let k = w.piece_index(id);
    let r = w.remove_piece(id);
    assert forall|i: int, j: int| 0 <= i < j < r.pieces.len() implies r.pieces[i].id
        != r.pieces[j].id by {
        let i0 = if i < k { i } else { i + 1 };
        let j0 = if j < k { j } else { j + 1 };
        assert(r.pieces[i] == w.pieces[i0]);
        assert(r.pieces[j] == w.pieces[j0]);
    }
}

impl GameWorld {
    pub open spec fn wf(self) -> bool {
        self@.wf()
    }

    /// Executable well-formedness check: entity ids unique, tile
    /// positions unique.  Callers outside verified code use this to
    /// establish `wf` before handing a world to the resolution loop.
    pub fn is_well_formed(&self) -> (r: bool)
        ensures
            r == self@.wf(),
    {
        let n = self.pieces.len();
        let mut i: usize = 0;
        while i < n
            invariant
                n == self.pieces@.len(),
                i <= n,
                forall|a: int, b: int|
                    0 <= a < b < self.pieces@.len() && a < i ==> self.pieces@[a].id
                        != self.pieces@[b].id,
            decreases n - i,
        {
            let mut j: usize = i + 1;
            while j < n
                invariant
                    n == self.pieces@.len(),
                    i < j || j == i + 1,
                    i < n,
                    j <= n,
                    forall|b: int| i < b < j ==> self.pieces@[i as int].id != self.pieces@[b].id,
                decreases n - j,
            {
                if self.pieces[i].id == self.pieces[j].id {
                    return false;
                }
                j += 1;
            }
            i += 1;
        }
        let m = self.map.tiles.len();
        let mut i: usize = 0;
        while i < m
            invariant
                n == self.pieces@.len(),
                m == self.map.tiles@.len(),
                i <= m,
                forall|a: int, b: int|
                    0 <= a < b < self.pieces@.len() ==> self.pieces@[a].id != self.pieces@[b].id,
                forall|a: int, b: int|
                    0 <= a < b < self.map.tiles@.len() && a < i ==> self.map.tiles@[a].position
                        != self.map.tiles@[b].position,
            decreases m - i,
        {
            let mut j: usize = i + 1;
            while j < m
                invariant
                    m == self.map.tiles@.len(),
                    i < j || j == i + 1,
                    i < m,
                    j <= m,
                    forall|b: int|
                        i < b < j ==> self.map.tiles@[i as int].position
                            != self.map.tiles@[b].position,
                decreases m - j,
            {
                let ti = self.map.tiles[i];
                let tj = self.map.tiles[j];
                if ti.position.x == tj.position.x && ti.position.y == tj.position.y {
                    proof {
                        assert(ti.position == tj.position);
                    }
                    return false;
                }
                j += 1;
            }
            i += 1;
        }
        true
    }

    /// Index of the piece with the given id, if any.
    pub fn find_piece(&self, id: EntityId) -> (r: Option<usize>)
        ensures
            match r {
                Some(i) => i < self.pieces@.len() && self.pieces@[i as int].id == id
                    && self@.has_piece(id) && (self@.wf() ==> i == self@.piece_index(id)),
                None => !self@.has_piece(id),
            },
    {
        let n = self.pieces.len();
        let mut i: usize = 0;
        while i < n
            invariant
                n == self.pieces@.len(),
                i <= n,
                forall|j: int| 0 <= j < i ==> self.pieces@[j].id != id,
            decreases n - i,
        {
            if self.pieces[i].id == id {
                proof {
                    if self@.wf() {
                        let k = self@.piece_index(id);
                        assert(0 <= k < self.pieces@.len() && self.pieces@[k].id == id);
                        assert(k == i);
                    }
                }
                return Some(i);
            }
            i += 1;
        }
        None
    }

    /// Terrain at a coordinate, `None` off the map.
    pub fn terrain_at(&self, c: Coord) -> (r: Option<TerrainType>)
        requires
            self@.wf(),
        ensures
            r == self@.terrain_at(c),
    {
        let n = self.map.tiles.len();
        let mut i: usize = 0;
        while i < n
            invariant
                self@.wf(),
                n == self.map.tiles@.len(),
                i <= n,
                forall|j: int| 0 <= j < i ==> self.map.tiles@[j].position != c,
            decreases n - i,
        {
            let t = self.map.tiles[i];
            if t.position.x == c.x && t.position.y == c.y {
                proof {
                    assert(t.position == c);
                    assert(self@.has_tile(c));
                    let k = self@.tile_index(c);
                    assert(0 <= k < self.map.tiles@.len() && self.map.tiles@[k].position == c);
                    if k < i {
                        assert(self@.tiles[k].position != self@.tiles[i as int].position);
                    } else if i < k {
                        assert(self@.tiles[i as int].position != self@.tiles[k].position);
                    }
                    assert(k == i);
                }
                return Some(t.terrain);
            }
            i += 1;
        }
        None
    }

    /// Whether a blocking piece stands at the coordinate.
    pub fn occupied(&self, c: Coord) -> (r: bool)
        ensures
            r == self@.occupied(c),
    {
        let n = self.pieces.len();
        let mut i: usize = 0;
        while i < n
            invariant
                n == self.pieces@.len(),
                i <= n,
                forall|j: int|
                    0 <= j < i ==> !(self.pieces@[j].occupier && self.pieces@[j].position == Some(
                        c,
                    )),
            decreases n - i,
        {
            let p = &self.pieces[i];
            if p.occupier {
                match p.position {
                    Some(pc) => {
                        if pc.x == c.x && pc.y == c.y {
                            proof {
                                assert(pc == c);
                            }
                            return true;
                        }
                    },
                    None => {},
                }
            }
            i += 1;
        }
        false
    }

    /// Whether any piece with a health component stands at `c`.
    pub fn has_health_at(&self, c: Coord) -> (r: bool)
        ensures
            r == self@.any_health_at(c),
    {
        let n = self.pieces.len();
        let mut i: usize = 0;
        while i < n
            invariant
                n == self.pieces@.len(),
                i <= n,
                forall|j: int|
                    0 <= j < i ==> !(self.pieces@[j].health is Some && self.pieces@[j].position
                        == Some(c)),
            decreases n - i,
        {
            let p = &self.pieces[i];
            let hit = match (p.health, p.position) {
                (Some(_), Some(pc)) => pc.x == c.x && pc.y == c.y,
                _ => false,
            };
            if hit {
                return true;
            }
            i += 1;
        }
        false
    }

    /// First piece (in storage order) with a health component at `c`.
    pub fn first_health_at(&self, c: Coord) -> (r: Option<EntityId>)
        ensures
            r == first_health_at_rec(self.pieces@, c),
    {
        let n = self.pieces.len();
        let mut i: usize = 0;
        proof {
            assert(self.pieces@.skip(0) =~= self.pieces@);
        }
        while i < n
            invariant
                n == self.pieces@.len(),
                i <= n,
                first_health_at_rec(self.pieces@, c) == first_health_at_rec(
                    self.pieces@.skip(i as int),
                    c,
                ),
            decreases n - i,
        {
            let p = &self.pieces[i];
            let hit = match (p.health, p.position) {
                (Some(_), Some(pc)) => pc.x == c.x && pc.y == c.y,
                _ => false,
            };
            proof {
                assert(self.pieces@.skip(i as int)[0] == self.pieces@[i as int]);
                assert(self.pieces@.skip(i as int).drop_first() =~= self.pieces@.skip(i + 1));
            }
            if hit {
                return Some(p.id);
            }
            i += 1;
        }
        None
    }

    /// Whether the entity's piece is dead (health component at zero).
    pub fn is_dead(&self, id: EntityId) -> (r: bool)
        requires
            self@.wf(),
        ensures
            r == self@.dead(id),
    {
        match self.find_piece(id) {
            Some(i) => {
                match self.pieces[i].health {
                    Some(h) => h == 0,
                    None => false,
                }
            },
            None => false,
        }
    }
}

} // verus!
