//! Map cells and the grid they form.

use vstd::prelude::*;

verus! {

/// One cell of the map.
#[derive(Clone, Copy, Debug, PartialEq, Eq, Structural)]
pub struct Tile {
    /// Nothing can walk onto the cell.
    pub blocked: bool,
    /// Nothing can be seen through the cell.
    pub block_sight: bool,
    /// The hero has seen the cell at least once.
    pub explored: bool,
}

impl Tile {
    pub open spec fn spec_floor() -> Tile {
        Tile { blocked: false, block_sight: false, explored: false }
    }

    pub open spec fn spec_wall() -> Tile {
        Tile { blocked: true, block_sight: true, explored: false }
    }

    /// An open cell that nobody has seen yet.
    #[verifier::when_used_as_spec(spec_floor)]
    pub fn floor() -> (tile: Self)
        ensures
            tile == Tile::spec_floor(),
    {
        Tile { blocked: false, block_sight: false, explored: false }
    }

    /// A solid cell that nobody has seen yet.
    #[verifier::when_used_as_spec(spec_wall)]
    pub fn wall() -> (tile: Self)
        ensures
            tile == Tile::spec_wall(),
    {
        Tile { blocked: true, block_sight: true, explored: false }
    }

    /// What a field-of-view computation is told of the cell: whether it can
    /// be seen through, and whether it can be walked on.
    pub fn fov_flags(&self) -> (flags: (bool, bool))
        ensures
            flags == (!self.block_sight, !self.blocked),
    {
        (!self.block_sight, !self.blocked)
    }
}

/// The map, as columns of cells: `plan[x][y]`.
pub type Plan = Vec<Vec<Tile>>;

/// Whether `plan` has a cell at `(x, y)`.
pub open spec fn in_bounds(plan: &Plan, x: int, y: int) -> bool {
    0 <= x < plan@.len() && 0 <= y < plan@[x]@.len()
}

/// The cell at `(x, y)`.
pub open spec fn tile_at(plan: &Plan, x: int, y: int) -> Tile
    recommends
        in_bounds(plan, x, y),
{
    plan@[x]@[y]
}

/// Whether `plan` is `width` columns of `height` cells each.
pub open spec fn is_grid(plan: &Plan, width: int, height: int) -> bool {
    &&& plan@.len() == width
    &&& forall|x: int| 0 <= x < width ==> (#[trigger] plan@[x])@.len() == height
}

/// Whether the two maps have cells at the same places.
pub open spec fn same_shape(a: &Plan, b: &Plan) -> bool {
    &&& a@.len() == b@.len()
    &&& forall|x: int| 0 <= x < a@.len() ==> (#[trigger] a@[x])@.len() == b@[x]@.len()
}

} // verus!
