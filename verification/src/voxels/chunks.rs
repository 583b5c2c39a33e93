use vstd::prelude::*;
use crate::recipes::recipe::Recipes;
use crate::threads::save::saved_at;
use crate::voxels::chunk::Chunk;
use crate::world::chunk_coords::{
    grid_coords_at, grid_index, in_grid, lemma_coords_of_index, lemma_index_in_range,
    lemma_index_of_coords, ChunkCoords,
};

verus! {

/// The window of chunks around the player: a dense array of optional chunks
/// with the offsets that place it in the world.
#[derive(Debug)]
pub struct Chunks {
    /// One slot for every chunk of the window, ordered as
    /// `ChunkCoords::index` says; an empty slot is a chunk not loaded.
    pub chunks: Vec<Option<Chunk>>,
    /// Chunks that left the window and have yet to be saved.
    pub chunks_awaiting_deletion: Vec<Chunk>,
    pub width: i32,
    pub height: i32,
    pub depth: i32,
    /// Chunk x of the window's first column.
    pub ox: i32,
    /// Chunk z of the window's first row.
    pub oz: i32,
    /// Advisory: set while the window is being moved.
    pub is_translate: bool,
}

impl Chunks {
    /// The extents are not negative, their product fits an `i32`, and the
    /// window lies inside the chunk coordinates that an `i32` can name.
    pub open spec fn extents_ok(width: int, height: int, depth: int, ox: int, oz: int) -> bool {
        &&& 0 <= width
        &&& 0 <= height
        &&& 0 <= depth
        &&& width * height * depth <= i32::MAX
        &&& height * depth <= i32::MAX
        &&& ox + width <= i32::MAX
        &&& oz + depth <= i32::MAX
    }

    /// The grid is well formed: the array has one slot for every chunk of the
    /// window, and a loaded chunk stands in the slot of its own coordinates.
    pub open spec fn wf(&self) -> bool {
        &&& Self::extents_ok(
            self.width as int,
            self.height as int,
            self.depth as int,
            self.ox as int,
            self.oz as int,
        )
        &&& self.chunks@.len() == self.width * self.height * self.depth
        &&& forall|i: int|
            0 <= i < self.chunks@.len() ==> (#[trigger] self.chunks@[i] matches Some(c)
                ==> c.xyz.triple() == self.coords_at(i))
    }

    /// Every machine in a loaded chunk names only recipes of the catalog.
    pub open spec fn data_wf(&self, recipes: &Recipes) -> bool {
        forall|i: int|
            0 <= i < self.chunks@.len() ==> (#[trigger] self.chunks@[i] matches Some(c)
                ==> c.data_wf(recipes))
    }

    /// The world coordinates of the chunk that slot `i` is for.
    pub open spec fn coords_at(&self, i: int) -> (int, int, int) {
        let (x, y, z) = grid_coords_at(i, self.depth as int, self.width as int);
        (x + self.ox, y, z + self.oz)
    }

    /// `(x, y, z)` lies inside the window.
    pub open spec fn in_area(&self, x: int, y: int, z: int) -> bool {
        in_grid(x - self.ox, y, z - self.oz, self.width as int, self.height as int, self.depth as int)
    }

    /// The slot of chunk `(x, y, z)`.
    pub open spec fn slot_of(&self, x: int, y: int, z: int) -> int {
        grid_index(x - self.ox, y, z - self.oz, self.depth as int, self.width as int)
    }

    /// The chunk at `(x, y, z)`: none outside the window, none where the slot
    /// is empty.
    pub open spec fn chunk_at(&self, x: int, y: int, z: int) -> Option<&Chunk> {
        if self.in_area(x, y, z) {
            match self.chunks@[self.slot_of(x, y, z)] {
                Some(c) => Some(&c),
                None => None,
            }
        } else {
            None
        }
    }

    /// The chunk at `coords`.
    pub open spec fn spec_chunk(&self, coords: ChunkCoords) -> Option<&Chunk> {
        self.chunk_at(coords.0 as int, coords.1 as int, coords.2 as int)
    }

    /// The slot of a chunk inside the window is a slot of the array.
    pub proof fn lemma_slot_in_range(&self, x: int, y: int, z: int)
        requires
            self.wf(),
            self.in_area(x, y, z),
        ensures
            0 <= self.slot_of(x, y, z) < self.chunks@.len(),
            0 <= y * self.depth + (z - self.oz) < self.height * self.depth,
    {
        lemma_index_in_range(
            x - self.ox,
            y,
            z - self.oz,
            self.width as int,
            self.height as int,
            self.depth as int,
        );
    }

    /// Whether extents and offsets are those of a window that a grid can
    /// have.
    pub fn extents_fit(width: i32, height: i32, depth: i32, ox: i32, oz: i32) -> (ok: bool)
        ensures
            ok == Self::extents_ok(width as int, height as int, depth as int, ox as int, oz as int),
    {
        if width < 0 || height < 0 || depth < 0 {
            return false;
        }
        assert(0 <= height * depth <= 0x7fff_ffff * 0x7fff_ffff) by (nonlinear_arith)
            requires
                0 <= height <= 0x7fff_ffff,
                0 <= depth <= 0x7fff_ffff,
        ;
        let rows: i64 = height as i64 * depth as i64;
        if rows > i32::MAX as i64 {
            return false;
        }
        assert(0 <= width * rows <= 0x7fff_ffff * 0x7fff_ffff && width * rows == width * height
            * depth) by (nonlinear_arith)
            requires
                0 <= width <= 0x7fff_ffff,
                0 <= rows <= 0x7fff_ffff,
                rows == height * depth,
        ;
        let volume: i64 = width as i64 * rows;
        volume <= i32::MAX as i64 && ox as i64 + width as i64 <= i32::MAX as i64 && oz as i64
            + depth as i64 <= i32::MAX as i64
    }

    /// Whether the grid is well formed.
    pub fn is_well_formed(&self) -> (ok: bool)
        ensures
            ok == self.wf(),
    {
        if !Self::extents_fit(self.width, self.height, self.depth, self.ox, self.oz) {
            return false;
        }
        assert(0 <= self.height * self.depth && self.width * self.height * self.depth == self.width
            * (self.height * self.depth)) by (nonlinear_arith)
            requires
                0 <= self.width,
                0 <= self.height,
                0 <= self.depth,
        ;
        let volume: i64 = self.width as i64 * (self.height as i64 * self.depth as i64);
        if self.chunks.len() as u64 != volume as u64 {
            return false;
        }
        let mut i: usize = 0;
        while i < self.chunks.len()
            invariant
                Self::extents_ok(
                    self.width as int,
                    self.height as int,
                    self.depth as int,
                    self.ox as int,
                    self.oz as int,
                ),
                self.chunks@.len() == self.width * self.height * self.depth,
                0 <= i <= self.chunks@.len(),
                forall|k: int|
                    0 <= k < i ==> (#[trigger] self.chunks@[k] matches Some(c) ==> c.xyz.triple()
                        == self.coords_at(k)),
            decreases self.chunks@.len() - i,
        {
            if let Some(chunk) = &self.chunks[i] {
                proof {
                    let w = self.width as int;
                    let h = self.height as int;
                    let d = self.depth as int;
                    assert(0 < w && 0 < h && 0 < d) by (nonlinear_arith)
                        requires
                            0 <= w,
                            0 <= h,
                            0 <= d,
                            0 < w * h * d,
                    ;
                    lemma_index_of_coords(i as int, w, h, d);
                }
                let index: i64 = i as i64;
                let row: i64 = index / self.width as i64;
                let x: i64 = index % self.width as i64 + self.ox as i64;
                let y: i64 = row / self.depth as i64;
                let z: i64 = row % self.depth as i64 + self.oz as i64;
                if chunk.xyz.0 as i64 != x || chunk.xyz.1 as i64 != y || chunk.xyz.2 as i64 != z {
                    return false;
                }
            }
            i += 1;
        }
        true
    }

    /// Whether every machine in a loaded chunk names only recipes of the
    /// catalog, which is well formed.
    pub fn is_data_well_formed(&self, recipes: &Recipes) -> (ok: bool)
        requires
            recipes.wf(),
        ensures
            ok == self.data_wf(recipes),
    {
        let mut i: usize = 0;
        while i < self.chunks.len()
            invariant
                recipes.wf(),
                0 <= i <= self.chunks@.len(),
                forall|k: int|
                    0 <= k < i ==> (#[trigger] self.chunks@[k] matches Some(c) ==> c.data_wf(
                        recipes,
                    )),
            decreases self.chunks@.len() - i,
        {
            let ok = match &self.chunks[i] {
                Some(chunk) => chunk.is_data_well_formed(recipes),
                None => true,
            };
            if !ok {
                return false;
            }
            i += 1;
        }
        true
    }

    /// An empty window of the given extents whose first column and row stand
    /// at chunk `(ox, oz)`.
    pub fn new(width: i32, height: i32, depth: i32, ox: i32, oz: i32) -> (grid: Self)
        requires
            Self::extents_ok(width as int, height as int, depth as int, ox as int, oz as int),
        ensures
            grid.wf(),
            grid.width == width,
            grid.height == height,
            grid.depth == depth,
            grid.ox == ox,
            grid.oz == oz,
            !grid.is_translate,
            grid.chunks_awaiting_deletion@.len() == 0,
            forall|i: int| 0 <= i < grid.chunks@.len() ==> grid.chunks@[i] is None,
    {
        assert(0 <= height * depth && 0 <= width * height * depth && width * height * depth == width
            * (height * depth)) by (nonlinear_arith)
            requires
                0 <= width,
                0 <= height,
                0 <= depth,
        ;
        let rows: i32 = height * depth;
        let volume: i32 = width * rows;
        let mut chunks: Vec<Option<Chunk>> = Vec::new();
        let mut i: i32 = 0;
        while i < volume
            invariant
                0 <= i <= volume,
                chunks@.len() == i,
                forall|k: int| 0 <= k < i ==> chunks@[k] is None,
            decreases volume - i,
        {
            chunks.push(None);
            i += 1;
        }
        Chunks {
            chunks,
            chunks_awaiting_deletion: Vec::new(),
            width,
            height,
            depth,
            ox,
            oz,
            is_translate: false,
        }
    }

    /// Whether `coords` lies inside the window.
    pub fn is_in_area(&self, coords: ChunkCoords) -> (inside: bool)
        requires
            self.wf(),
        ensures
            inside == self.in_area(coords.0 as int, coords.1 as int, coords.2 as int),
    {
        let x: i64 = coords.0 as i64 - self.ox as i64;
        let z: i64 = coords.2 as i64 - self.oz as i64;
        0 <= x && x < self.width as i64 && 0 <= coords.1 && coords.1 < self.height && 0 <= z && z
            < self.depth as i64
    }

    /// The slot of the chunk at `coords`, or none if `coords` lies outside
    /// the window.
    pub fn slot_index(&self, coords: ChunkCoords) -> (slot: Option<usize>)
        requires
            self.wf(),
        ensures
            slot == (if self.in_area(coords.0 as int, coords.1 as int, coords.2 as int) {
                Some(self.slot_of(coords.0 as int, coords.1 as int, coords.2 as int) as usize)
            } else {
                None
            }),
            slot matches Some(index) ==> index < self.chunks@.len() && index == self.slot_of(
                coords.0 as int,
                coords.1 as int,
                coords.2 as int,
            ),
    {
        if !self.is_in_area(coords) {
            return None;
        }
        proof {
            self.lemma_slot_in_range(coords.0 as int, coords.1 as int, coords.2 as int);
            let y = coords.1 as int;
            let row = y * self.depth + (coords.2 - self.oz);
            assert(0 <= y * self.depth <= self.height * self.depth) by (nonlinear_arith)
                requires
                    0 <= y < self.height,
                    0 <= self.depth,
            ;
            assert(0 <= row * self.width <= self.width * self.height * self.depth)
                by (nonlinear_arith)
                requires
                    0 <= row < self.height * self.depth,
                    0 <= self.width,
            ;
        }
        let local = ChunkCoords(coords.0 - self.ox, coords.1, coords.2 - self.oz);
        Some(local.index(self.depth, self.width))
    }

    /// The chunk at `coords`, or none if `coords` lies outside the window or
    /// the chunk is not loaded.
    pub fn chunk(&self, coords: ChunkCoords) -> (found: Option<&Chunk>)
        requires
            self.wf(),
        ensures
            found == self.spec_chunk(coords),
    {
        match self.slot_index(coords) {
            Some(index) => self.chunks[index].as_ref(),
            None => None,
        }
    }

    /// Puts a chunk into the slot of its coordinates. Returns the chunk that
    /// the slot held before; a chunk whose coordinates lie outside the window
    /// is given back as the error.
    pub fn load(&mut self, chunk: Chunk) -> (previous: Result<Option<Chunk>, Chunk>)
        requires
            old(self).wf(),
        ensures
            final(self).wf(),
            final(self).chunks_awaiting_deletion == old(self).chunks_awaiting_deletion,
            final(self).width == old(self).width,
            final(self).height == old(self).height,
            final(self).depth == old(self).depth,
            final(self).ox == old(self).ox,
            final(self).oz == old(self).oz,
            final(self).is_translate == old(self).is_translate,
            if old(self).in_area(chunk.xyz.0 as int, chunk.xyz.1 as int, chunk.xyz.2 as int) {
                let slot = old(self).slot_of(
                    chunk.xyz.0 as int,
                    chunk.xyz.1 as int,
                    chunk.xyz.2 as int,
                );
                &&& previous == Ok::<Option<Chunk>, Chunk>(old(self).chunks@[slot])
                &&& final(self).chunks@ == old(self).chunks@.update(slot, Some(chunk))
            } else {
                &&& previous == Err::<Option<Chunk>, Chunk>(chunk)
                &&& final(self).chunks@ == old(self).chunks@
            },
    {
        match self.slot_index(chunk.xyz) {
            Some(index) => {
                proof {
                    self.lemma_coords_of_slot(
                        chunk.xyz.0 as int,
                        chunk.xyz.1 as int,
                        chunk.xyz.2 as int,
                    );
                }
                let mut slot = Some(chunk);
                std::mem::swap(&mut slot, &mut self.chunks[index]);
                Ok(slot)
            },
            None => Err(chunk),
        }
    }

    /// The slot of a chunk inside the window is for that chunk.
    pub proof fn lemma_coords_of_slot(&self, x: int, y: int, z: int)
        requires
            self.wf(),
            self.in_area(x, y, z),
        ensures
            0 <= self.slot_of(x, y, z) < self.chunks@.len(),
            self.coords_at(self.slot_of(x, y, z)) == (x, y, z),
    {
        self.lemma_slot_in_range(x, y, z);
        lemma_coords_of_index(
            x - self.ox,
            y,
            z - self.oz,
            self.width as int,
            self.height as int,
            self.depth as int,
        );
    }

    /// Every slot is the slot of the chunk that it is for, and that chunk
    /// lies inside the window.
    pub proof fn lemma_slot_of_coords(&self, i: int)
        requires
            self.wf(),
            0 <= i < self.chunks@.len(),
        ensures
            ({
                let (x, y, z) = self.coords_at(i);
                self.in_area(x, y, z) && self.slot_of(x, y, z) == i
            }),
    {
        let w = self.width as int;
        let h = self.height as int;
        let d = self.depth as int;
        assert(0 < w && 0 < h && 0 < d) by (nonlinear_arith)
            requires
                0 <= w,
                0 <= h,
                0 <= d,
                0 < w * h * d,
        ;
        lemma_index_of_coords(i, w, h, d);
    }

    /// `(x, y, z)` lies inside a window of these extents whose first column
    /// and row stand at chunk `(ox, oz)`.
    pub open spec fn in_moved_area(&self, ox: int, oz: int, x: int, y: int, z: int) -> bool {
        in_grid(x - ox, y, z - oz, self.width as int, self.height as int, self.depth as int)
    }

    /// What slot `j` holds while the window moves to `(ox, oz)` and the old
    /// slots before `upto` have been moved: the chunk that the slot is for
    /// after the move, if an old slot before `upto` held it.
    pub open spec fn carried(&self, ox: int, oz: int, upto: int, j: int) -> Option<Chunk> {
        let (lx, y, lz) = grid_coords_at(j, self.depth as int, self.width as int);
        let x = lx + ox;
        let z = lz + oz;
        if self.in_area(x, y, z) && self.slot_of(x, y, z) < upto {
            self.chunks@[self.slot_of(x, y, z)]
        } else {
            None
        }
    }

    /// The chunks in the slots before `upto` that fall out of the window
    /// when it moves to `(ox, oz)`, in slot order.
    pub open spec fn evicted_before(&self, ox: int, oz: int, upto: int) -> Seq<Chunk>
        decreases upto,
    {
        if upto <= 0 {
            Seq::empty()
        } else {
            let before = self.evicted_before(ox, oz, upto - 1);
            match self.chunks@[upto - 1] {
                Some(c) => if self.in_moved_area(
                    ox,
                    oz,
                    c.xyz.0 as int,
                    c.xyz.1 as int,
                    c.xyz.2 as int,
                ) {
                    before
                } else {
                    before.push(c)
                },
                None => before,
            }
        }
    }

    /// Moves the window so that its first column and row stand at chunk
    /// `(ox, oz)`. Chunks that the new window still holds keep their place
    /// in the world; chunks that fall out of it join the deletion queue, in
    /// slot order; the slots that come into range are empty, to be loaded.
    /// The advisory flag is set while the chunks move and cleared at the
    /// end.
    pub fn translate(&mut self, ox: i32, oz: i32)
        requires
            old(self).wf(),
            Self::extents_ok(
                old(self).width as int,
                old(self).height as int,
                old(self).depth as int,
                ox as int,
                oz as int,
            ),
        ensures
            final(self).wf(),
            final(self).width == old(self).width,
            final(self).height == old(self).height,
            final(self).depth == old(self).depth,
            final(self).ox == ox,
            final(self).oz == oz,
            !final(self).is_translate,
            forall|x: int, y: int, z: int|
                final(self).in_area(x, y, z) ==> #[trigger] final(self).chunk_at(x, y, z) == old(
                    self,
                ).chunk_at(x, y, z),
            final(self).chunks_awaiting_deletion@ == old(self).chunks_awaiting_deletion@ + old(
                self,
            ).evicted_before(ox as int, oz as int, old(self).chunks@.len() as int),
    {
        let ghost before = *self;
        self.is_translate = true;
        let mut target = Chunks::new(self.width, self.height, self.depth, ox, oz);
        let mut i: usize = 0;
        while i < self.chunks.len()
            invariant
                before.wf(),
                0 <= i <= before.chunks@.len(),
                self.chunks@.len() == before.chunks@.len(),
                forall|k: int| i <= k < before.chunks@.len() ==> self.chunks@[k] == before.chunks@[k],
                self.width == before.width,
                self.height == before.height,
                self.depth == before.depth,
                self.ox == before.ox,
                self.oz == before.oz,
                target.wf(),
                target.width == before.width,
                target.height == before.height,
                target.depth == before.depth,
                target.ox == ox,
                target.oz == oz,
                forall|j: int|
                    0 <= j < before.chunks@.len() ==> target.chunks@[j] == #[trigger] before.carried(
                        ox as int,
                        oz as int,
                        i as int,
                        j,
                    ),
                self.chunks_awaiting_deletion@ == before.chunks_awaiting_deletion@
                    + before.evicted_before(ox as int, oz as int, i as int),
            decreases before.chunks@.len() - i,
        {
            let ghost moved = target;
            proof {
                before.lemma_slot_of_coords(i as int);
            }
            match self.chunks[i].take() {
                Some(chunk) => {
                    match target.load(chunk) {
                        Ok(_) => {
                            proof {
                                let (cx, cy, cz) = chunk.xyz.triple();
                                moved.lemma_coords_of_slot(cx, cy, cz);
                                let slot = moved.slot_of(cx, cy, cz);
                                assert(before.chunks@[i as int] == Some(chunk));
                                assert(chunk.xyz.triple() == before.coords_at(i as int));
                                assert(target.chunks@ == moved.chunks@.update(slot, Some(chunk)));
                                assert forall|j: int|
                                    0 <= j < before.chunks@.len() implies target.chunks@[j]
                                    == #[trigger] before.carried(
                                    ox as int,
                                    oz as int,
                                    i + 1,
                                    j,
                                ) by {
                                    moved.lemma_slot_of_coords(j);
                                    let (x, y, z) = moved.coords_at(j);
                                    if before.in_area(x, y, z) {
                                        before.lemma_coords_of_slot(x, y, z);
                                    }
                                    assert(moved.chunks@[j] == before.carried(
                                        ox as int,
                                        oz as int,
                                        i as int,
                                        j,
                                    ));
                                }
                            }
                        },
                        Err(chunk) => {
                            self.chunks_awaiting_deletion.push(chunk);
                            proof {
                                assert(before.chunks@[i as int] == Some(chunk));
                                assert(chunk.xyz.triple() == before.coords_at(i as int));
                                assert(!moved.in_area(
                                    chunk.xyz.0 as int,
                                    chunk.xyz.1 as int,
                                    chunk.xyz.2 as int,
                                ));
                                assert(target.chunks@ == moved.chunks@);
                                assert forall|j: int|
                                    0 <= j < before.chunks@.len() implies target.chunks@[j]
                                    == #[trigger] before.carried(
                                    ox as int,
                                    oz as int,
                                    i + 1,
                                    j,
                                ) by {
                                    moved.lemma_slot_of_coords(j);
                                    let (x, y, z) = moved.coords_at(j);
                                    if before.in_area(x, y, z) {
                                        before.lemma_coords_of_slot(x, y, z);
                                    }
                                    assert(moved.chunks@[j] == before.carried(
                                        ox as int,
                                        oz as int,
                                        i as int,
                                        j,
                                    ));
                                }
                            }
                        },
                    }
                },
                None => {
                    proof {
                        assert forall|j: int|
                            0 <= j < before.chunks@.len() implies target.chunks@[j]
                            == #[trigger] before.carried(ox as int, oz as int, i + 1, j) by {
                            assert(moved.chunks@[j] == before.carried(
                                ox as int,
                                oz as int,
                                i as int,
                                j,
                            ));
                        }
                    }
                },
            }
            i += 1;
        }
        std::mem::swap(&mut self.chunks, &mut target.chunks);
        self.ox = ox;
        self.oz = oz;
        self.is_translate = false;
        proof {
            assert forall|x: int, y: int, z: int| self.in_area(x, y, z) implies #[trigger] self.chunk_at(
                x,
                y,
                z,
            ) == before.chunk_at(x, y, z) by {
                self.lemma_coords_of_slot(x, y, z);
                let j = self.slot_of(x, y, z);
                assert(self.chunks@[j] == before.carried(
                    ox as int,
                    oz as int,
                    before.chunks@.len() as int,
                    j,
                ));
                if before.in_area(x, y, z) {
                    before.lemma_slot_in_range(x, y, z);
                }
            }
        }
    }

    /// Clears the unsaved flag of the chunk in slot `index`, once the region
    /// store holds the chunk. Nothing is done where the slot is empty or is
    /// no slot.
    pub fn mark_saved(&mut self, index: usize)
        requires
            old(self).wf(),
        ensures
            final(self).wf(),
            final(self).chunks@ == saved_at(old(self).chunks@, Some(index)),
            final(self).chunks_awaiting_deletion == old(self).chunks_awaiting_deletion,
            final(self).width == old(self).width,
            final(self).height == old(self).height,
            final(self).depth == old(self).depth,
            final(self).ox == old(self).ox,
            final(self).oz == old(self).oz,
            final(self).is_translate == old(self).is_translate,
    {
        if index < self.chunks.len() {
            if let Some(chunk) = &mut self.chunks[index] {
                chunk.unsaved = false;
            }
        }
    }
}

} // verus!
