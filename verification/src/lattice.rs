//! The regular grid on which the particles of a fresh simulation are placed.

use vstd::prelude::*;

verus! {

/// Number of grid cells along each axis of the seeding lattice.
pub const GRID_SIDE: usize = 20;

/// Number of particles of a simulation: one per grid cell.
pub const PARTICLE_COUNT: usize = 400;

/// A cell of the seeding lattice, by its grid indices.
#[derive(Clone, Copy, Debug, PartialEq, Eq, Structural)]
pub struct Site {
    /// Index along the horizontal axis.
    pub column: usize,
    /// Index along the vertical axis.
    pub row: usize,
}

/// The cell of the particle with index `k`: the lattice is filled column by
/// column, each column from its lowest row upwards.
pub open spec fn site_of(k: int) -> Site {
    Site { column: (k / GRID_SIDE as int) as usize, row: (k % GRID_SIDE as int) as usize }
}

/// The cells of all particles, in particle order.
pub fn seed_sites() -> (sites: Vec<Site>)
    ensures
        sites@.len() == PARTICLE_COUNT,
        forall|k: int| 0 <= k < PARTICLE_COUNT ==> #[trigger] sites@[k] == site_of(k),
{
    let mut sites: Vec<Site> = Vec::new();
    let mut column: usize = 0;
    while column < GRID_SIDE
        invariant
            column <= GRID_SIDE,
            sites@.len() == column * GRID_SIDE,
            forall|k: int| 0 <= k < sites@.len() ==> #[trigger] sites@[k] == site_of(k),
        decreases GRID_SIDE - column,
    {
        let mut row: usize = 0;
        while row < GRID_SIDE
            invariant
                column < GRID_SIDE,
                row <= GRID_SIDE,
                sites@.len() == column * GRID_SIDE + row,
                forall|k: int| 0 <= k < sites@.len() ==> #[trigger] sites@[k] == site_of(k),
            decreases GRID_SIDE - row,
        {
            sites.push(Site { column, row });
            row = row + 1;
        }
        column = column + 1;
    }
    sites
}

/// Every cell of the grid holds a particle: the one with the index
/// `column * GRID_SIDE + row`.
pub proof fn lemma_cell_filled(column: usize, row: usize)
    requires
        column < GRID_SIDE,
        row < GRID_SIDE,
    ensures
        0 <= column * GRID_SIDE + row < PARTICLE_COUNT,
        site_of(column * GRID_SIDE + row) == (Site { column, row }),
{
}

/// No two particles share a cell.
pub proof fn lemma_cells_distinct(a: int, b: int)
    requires
        0 <= a < PARTICLE_COUNT,
        0 <= b < PARTICLE_COUNT,
        site_of(a) == site_of(b),
    ensures
        a == b,
{
}

} // verus!
