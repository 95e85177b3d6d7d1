//! Grid coordinates, adjacency, and the serialization-facing pair type.

use vstd::prelude::*;
use vstd::std_specs::convert::FromSpec;
use vstd::std_specs::convert::FromSpecImpl;

verus! {

/// Opaque identifier the host runtime assigns to each game piece.
pub type EntityId = u64;

/// A tile coordinate on the square grid.
#[derive(PartialEq, Eq, Structural, Clone, Copy, Debug, Hash)]
pub struct Coord {
    pub x: i32,
    pub y: i32,
}

/// Two coordinates are orthogonally adjacent: one step along exactly one axis.
pub open spec fn adjacent(a: Coord, b: Coord) -> bool {
    ||| (b.x == a.x + 1 && b.y == a.y)
    ||| (b.x == a.x - 1 && b.y == a.y)
    ||| (b.x == a.x && b.y == a.y + 1)
    ||| (b.x == a.x && b.y == a.y - 1)
}

/// The four orthogonal step directions, in the fixed enumeration order
/// (north, south, west, east) used by the planner for tie-breaking.
pub open spec fn ortho_directions_spec() -> Seq<Coord> {
    seq![
        Coord { x: 0i32, y: 1i32 },
        Coord { x: 0i32, y: -1i32 },
        Coord { x: -1i32, y: 0i32 },
        Coord { x: 1i32, y: 0i32 },
    ]
}

/// Executable copy of the direction table.
pub fn ortho_directions() -> (r: Vec<Coord>)
    ensures
        r@ == ortho_directions_spec(),
{
    let mut v: Vec<Coord> = Vec::new();
    v.push(Coord { x: 0, y: 1 });
    v.push(Coord { x: 0, y: -1 });
    v.push(Coord { x: -1, y: 0 });
    v.push(Coord { x: 1, y: 0 });
    proof {
        assert(v@ =~= ortho_directions_spec());
    }
    v
}

/// A plain integer pair in the shape the animation files store offsets in.
#[derive(PartialEq, Eq, Structural, Clone, Copy, Debug, Default)]
pub struct IVec2Serialized {
    pub x: i32,
    pub y: i32,
}

impl From<Coord> for IVec2Serialized {
    fn from(v: Coord) -> (r: IVec2Serialized) {
        IVec2Serialized { x: v.x, y: v.y }
    }
}

impl FromSpecImpl<Coord> for IVec2Serialized {
    open spec fn obeys_from_spec() -> bool {
        true
    }

    open spec fn from_spec(v: Coord) -> IVec2Serialized {
        IVec2Serialized { x: v.x, y: v.y }
    }
}

impl From<IVec2Serialized> for Coord {
    fn from(v: IVec2Serialized) -> (r: Coord) {
        Coord { x: v.x, y: v.y }
    }
}

impl FromSpecImpl<IVec2Serialized> for Coord {
    open spec fn obeys_from_spec() -> bool {
        true
    }

    open spec fn from_spec(v: IVec2Serialized) -> Coord {
        Coord { x: v.x, y: v.y }
    }
}

/// Converting a coordinate to the serialized pair and back is the identity.
pub proof fn lemma_ivec2_round_trip(c: Coord)
    ensures
        <Coord as FromSpec<IVec2Serialized>>::from_spec(
            <IVec2Serialized as FromSpec<Coord>>::from_spec(c),
        ) == c,
{
}

} // verus!
