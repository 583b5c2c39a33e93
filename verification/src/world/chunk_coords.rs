use vstd::prelude::*;
use vstd::arithmetic::div_mod::{lemma_fundamental_div_mod, lemma_fundamental_div_mod_converse};
use vstd::std_specs::convert::FromSpecImpl;
use crate::world::global_coords::GlobalCoords;
use crate::world::local_coords::LocalCoords;

verus! {

/// Edge length of a chunk, in voxels. A power of two.
pub const CHUNK_SIZE: usize = 16;

/// Number of bits a global coordinate is shifted right by to get its chunk.
pub const CHUNK_BIT_SHIFT: usize = 4;

/// The chunk that holds global coordinate `g` on one axis: `g` divided by the
/// chunk size, rounded towards negative infinity.
pub open spec fn chunk_of(g: int) -> int {
    g / (CHUNK_SIZE as int)
}

/// The offset of global coordinate `g` inside its chunk on one axis.
pub open spec fn local_of(g: int) -> int {
    g % (CHUNK_SIZE as int)
}

/// The global coordinate of offset `local` in chunk `chunk` on one axis.
pub open spec fn global_of(chunk: int, local: int) -> int {
    chunk * (CHUNK_SIZE as int) + local
}

/// Chunk `chunk` times the chunk size, and that plus `local`, fit an `i32`.
pub open spec fn axis_fits(chunk: int, local: int) -> bool {
    &&& i32::MIN <= chunk * (CHUNK_SIZE as int) <= i32::MAX
    &&& i32::MIN <= global_of(chunk, local) <= i32::MAX
}

/// Position of grid-local chunk `(x, y, z)` in the dense chunk array of a
/// grid `width` wide and `depth` deep: y-major, then z, then x.
pub open spec fn grid_index(x: int, y: int, z: int, depth: int, width: int) -> int {
    (y * depth + z) * width + x
}

/// `(x, y, z)` lies inside a grid of the given extents.
pub open spec fn in_grid(x: int, y: int, z: int, width: int, height: int, depth: int) -> bool {
    0 <= x < width && 0 <= y < height && 0 <= z < depth
}

/// The grid-local chunk that stands at position `i` of the dense chunk array:
/// the inverse of [`grid_index`].
pub open spec fn grid_coords_at(i: int, depth: int, width: int) -> (int, int, int) {
    (i % width, (i / width) / depth, (i / width) % depth)
}

/// Index of a chunk in the chunk grid.
#[derive(Debug, PartialEq, Eq, Clone, Copy, Structural)]
pub struct ChunkCoords(pub i32, pub i32, pub i32);

impl ChunkCoords {
    /// The three axes as mathematical integers.
    pub open spec fn triple(self) -> (int, int, int) {
        (self.0 as int, self.1 as int, self.2 as int)
    }

    /// The chunk that holds a global position.
    pub open spec fn of_global(coords: GlobalCoords) -> Self {
        ChunkCoords(
            chunk_of(coords.0 as int) as i32,
            chunk_of(coords.1 as int) as i32,
            chunk_of(coords.2 as int) as i32,
        )
    }

    /// The index of these coordinates, unbounded.
    pub open spec fn spec_index(self, depth: int, width: int) -> int {
        grid_index(self.0 as int, self.1 as int, self.2 as int, depth, width)
    }

    /// The global position of `local` inside this chunk, unbounded.
    pub open spec fn spec_to_global(self, local: LocalCoords) -> (int, int, int) {
        (
            global_of(self.0 as int, local.0 as int),
            global_of(self.1 as int, local.1 as int),
            global_of(self.2 as int, local.2 as int),
        )
    }

    /// Position of these grid-local coordinates in the dense chunk array.
    ///
    /// The intermediate sums and the index itself have to fit the machine
    /// integers they are computed in.
    pub fn index(&self, depth: i32, width: i32) -> (i: usize)
        requires
            self.index_fits(depth as int, width as int),
        ensures
            i == self.spec_index(depth as int, width as int),
    {
        ((self.1 * depth + self.2) * width + self.0) as usize
    }

    /// The products and sums of the index fit an `i32`, and the index is not
    /// negative.
    pub open spec fn index_fits(self, depth: int, width: int) -> bool {
        &&& i32::MIN <= self.1 * depth <= i32::MAX
        &&& i32::MIN <= self.1 * depth + self.2 <= i32::MAX
        &&& i32::MIN <= (self.1 * depth + self.2) * width <= i32::MAX
        &&& 0 <= self.spec_index(depth, width) <= i32::MAX
    }

    /// Position of these grid-local coordinates in the dense chunk array, or
    /// none where the sums of the index do not fit an `i32` or the index is
    /// negative.
    pub fn checked_index(&self, depth: i32, width: i32) -> (i: Option<usize>)
        ensures
            i == (if self.index_fits(depth as int, width as int) {
                Some(self.spec_index(depth as int, width as int) as usize)
            } else {
                None
            }),
    {
        let rows = match self.1.checked_mul(depth) {
            Some(rows) => rows,
            None => {
                return None;
            },
        };
        let row = match rows.checked_add(self.2) {
            Some(row) => row,
            None => {
                return None;
            },
        };
        let cells = match row.checked_mul(width) {
            Some(cells) => cells,
            None => {
                return None;
            },
        };
        match cells.checked_add(self.0) {
            Some(index) => if index >= 0 {
                Some(index as usize)
            } else {
                None
            },
            None => None,
        }
    }

    /// The global position of the voxel at offset `local` of this chunk, or
    /// none where it is beyond the positions that an `i32` can name.
    pub fn checked_to_global(self, local: LocalCoords) -> (g: Option<GlobalCoords>)
        ensures
            match g {
                Some(g) => self.global_fits(local) && g.triple() == self.spec_to_global(local),
                None => !self.global_fits(local),
            },
    {
        let size = CHUNK_SIZE as i32;
        let x = match self.0.checked_mul(size) {
            Some(x) => x.checked_add(local.0 as i32),
            None => None,
        };
        let y = match self.1.checked_mul(size) {
            Some(y) => y.checked_add(local.1 as i32),
            None => None,
        };
        let z = match self.2.checked_mul(size) {
            Some(z) => z.checked_add(local.2 as i32),
            None => None,
        };
        match (x, y, z) {
            (Some(x), Some(y), Some(z)) => Some(GlobalCoords(x, y, z)),
            _ => None,
        }
    }

    /// The product and the sum on each axis fit an `i32`. This holds of every
    /// chunk that was taken from a global position, with any offset inside
    /// the chunk.
    pub open spec fn global_fits(self, local: LocalCoords) -> bool {
        &&& axis_fits(self.0 as int, local.0 as int)
        &&& axis_fits(self.1 as int, local.1 as int)
        &&& axis_fits(self.2 as int, local.2 as int)
    }

    /// The global position of the voxel at offset `local` of this chunk.
    pub fn to_global(self, local: LocalCoords) -> (g: GlobalCoords)
        requires
            self.global_fits(local),
        ensures
            g.triple() == self.spec_to_global(local),
    {
        GlobalCoords(
            self.0 * CHUNK_SIZE as i32 + local.0 as i32,
            self.1 * CHUNK_SIZE as i32 + local.1 as i32,
            self.2 * CHUNK_SIZE as i32 + local.2 as i32,
        )
    }
}

impl FromSpecImpl<(i32, i32, i32)> for ChunkCoords {
    open spec fn obeys_from_spec() -> bool {
        true
    }

    open spec fn from_spec(xyz: (i32, i32, i32)) -> Self {
        ChunkCoords(xyz.0, xyz.1, xyz.2)
    }
}

impl From<(i32, i32, i32)> for ChunkCoords {
    fn from(xyz: (i32, i32, i32)) -> (coords: Self) {
        Self(xyz.0, xyz.1, xyz.2)
    }
}

impl FromSpecImpl<ChunkCoords> for (i32, i32, i32) {
    open spec fn obeys_from_spec() -> bool {
        true
    }

    open spec fn from_spec(xyz: ChunkCoords) -> Self {
        (xyz.0, xyz.1, xyz.2)
    }
}

impl From<ChunkCoords> for (i32, i32, i32) {
    fn from(xyz: ChunkCoords) -> (triple: Self) {
        (xyz.0, xyz.1, xyz.2)
    }
}

impl FromSpecImpl<ChunkCoords> for [i32; 3] {
    open spec fn obeys_from_spec() -> bool {
        true
    }

    open spec fn from_spec(xyz: ChunkCoords) -> Self {
        [xyz.0, xyz.1, xyz.2]
    }
}

impl From<ChunkCoords> for [i32; 3] {
    fn from(xyz: ChunkCoords) -> (array: Self) {
        [xyz.0, xyz.1, xyz.2]
    }
}

impl FromSpecImpl<GlobalCoords> for ChunkCoords {
    open spec fn obeys_from_spec() -> bool {
        true
    }

    open spec fn from_spec(coords: GlobalCoords) -> Self {
        ChunkCoords::of_global(coords)
    }
}

impl From<GlobalCoords> for ChunkCoords {
    /// The chunk that holds a global position.
    fn from(coords: GlobalCoords) -> (chunk: Self) {
        ChunkCoords(chunk_axis(coords.0), chunk_axis(coords.1), chunk_axis(coords.2))
    }
}

/// One axis of a global position, reduced to the chunk that holds it.
fn chunk_axis(g: i32) -> (c: i32)
    ensures
        c as int == chunk_of(g as int),
{
    let c: i32 = g >> CHUNK_BIT_SHIFT;
    assert(c as int == g as int / 16) by (bit_vector)
        requires
            c == g >> 4usize,
    ;
    c
}

/// A chunk and an offset taken from one global position give that position
/// back: splitting loses nothing, on negative coordinates too.
pub proof fn lemma_split_round_trip(g: GlobalCoords)
    ensures
        LocalCoords::of_global(g).wf(),
        ChunkCoords::of_global(g).global_fits(LocalCoords::of_global(g)),
        ChunkCoords::of_global(g).spec_to_global(LocalCoords::of_global(g)) == g.triple(),
{
    lemma_axis_round_trip(g.0);
    lemma_axis_round_trip(g.1);
    lemma_axis_round_trip(g.2);
}

/// On one axis: the chunk and the offset fit their types, and
/// `global_of(chunk_of(g), local_of(g)) == g`.
pub proof fn lemma_axis_round_trip(g: i32)
    ensures
        chunk_of(g as int) as i32 == chunk_of(g as int),
        local_of(g as int) as u8 == local_of(g as int),
        0 <= local_of(g as int) < CHUNK_SIZE,
        axis_fits(chunk_of(g as int), local_of(g as int)),
        global_of(chunk_of(g as int), local_of(g as int)) == g,
{
}

/// Every chunk inside the grid has its index inside the dense array.
pub proof fn lemma_index_in_range(x: int, y: int, z: int, width: int, height: int, depth: int)
    requires
        in_grid(x, y, z, width, height, depth),
    ensures
        0 <= grid_index(x, y, z, depth, width) < width * height * depth,
        0 <= y * depth + z < height * depth,
{
    assert(0 <= y * depth && y * depth + depth <= height * depth) by (nonlinear_arith)
        requires
            0 <= y < height,
            0 < depth,
    ;
    let row = y * depth + z;
    let rows = height * depth;
    assert(0 <= row * width && row * width + width <= rows * width) by (nonlinear_arith)
        requires
            0 <= row < rows,
            0 < width,
    ;
    assert(rows * width == width * height * depth) by (nonlinear_arith)
        requires
            rows == height * depth,
    ;
}

/// The index of a chunk inside the grid leads back to that chunk.
pub proof fn lemma_coords_of_index(x: int, y: int, z: int, width: int, height: int, depth: int)
    requires
        in_grid(x, y, z, width, height, depth),
    ensures
        grid_coords_at(grid_index(x, y, z, depth, width), depth, width) == (x, y, z),
{
    let row = y * depth + z;
    lemma_fundamental_div_mod_converse(grid_index(x, y, z, depth, width), width, row, x);
    lemma_fundamental_div_mod_converse(row, depth, y, z);
}

/// Every position of the dense array is the index of one chunk inside the
/// grid.
pub proof fn lemma_index_of_coords(i: int, width: int, height: int, depth: int)
    requires
        0 < width,
        0 < height,
        0 < depth,
        0 <= i < width * height * depth,
    ensures
        ({
            let (x, y, z) = grid_coords_at(i, depth, width);
            in_grid(x, y, z, width, height, depth) && grid_index(x, y, z, depth, width) == i
        }),
{
    let row = i / width;
    lemma_fundamental_div_mod(i, width);
    lemma_fundamental_div_mod(row, depth);
    assert(width * row == row * width && depth * (row / depth) == (row / depth) * depth)
        by (nonlinear_arith);
    assert(0 <= row < height * depth) by (nonlinear_arith)
        requires
            0 < width,
            0 <= i < width * height * depth,
            i == width * row + i % width,
            0 <= i % width < width,
    ;
    let y = row / depth;
    assert(0 <= y < height) by (nonlinear_arith)
        requires
            0 < depth,
            0 <= row < height * depth,
            row == depth * y + row % depth,
            0 <= row % depth < depth,
    ;
}

/// The index is a bijection between the chunks inside the grid and the
/// positions `0 .. width * height * depth` of the dense array: two chunks
/// inside the grid with one index are the same chunk.
pub proof fn lemma_index_injective(a: ChunkCoords, b: ChunkCoords, width: int, height: int, depth: int)
    requires
        in_grid(a.0 as int, a.1 as int, a.2 as int, width, height, depth),
        in_grid(b.0 as int, b.1 as int, b.2 as int, width, height, depth),
        a.spec_index(depth, width) == b.spec_index(depth, width),
    ensures
        a == b,
{
    lemma_coords_of_index(a.0 as int, a.1 as int, a.2 as int, width, height, depth);
    lemma_coords_of_index(b.0 as int, b.1 as int, b.2 as int, width, height, depth);
}

} // verus!
