use vstd::prelude::*;
use crate::voxels::chunk::Chunk;
use crate::voxels::chunks::Chunks;
use crate::voxels::spiral::{
    clockwise_square_spiral, in_spiral_window, lemma_cell_of_index, lemma_index_of_cell,
    lemma_window_is_prefix, spiral_answer, spiral_cell, spiral_index, spiral_stopped_at,
};
use crate::world::chunk_coords::ChunkCoords;

verus! {

/// Largest magnitude of a coordinate that a sweep walks.
pub const AXIS_LIMIT: i64 = 0x100_0000_0000;

/// The coordinates `first ..= last` in rising order; none if `last < first`.
pub open spec fn span(first: int, last: int) -> Seq<int> {
    if last < first {
        Seq::empty()
    } else {
        Seq::new((last - first + 1) as nat, |k: int| first + k)
    }
}

/// The faces of the shell of radius `i` round `p` on one axis, as far as
/// they lie in `low ..= high`: the near face, then the far one. A shell of
/// radius 0 has one face.
pub open spec fn sides(i: int, p: int, low: int, high: int) -> Seq<int> {
    let near = low <= p - i <= high;
    let far = i > 0 && low <= p + i <= high;
    if near && far {
        seq![p - i, p + i]
    } else if near {
        seq![p - i]
    } else if far {
        seq![p + i]
    } else {
        Seq::empty()
    }
}

/// The first coordinate of the shell of radius `i` round `s` that is not
/// below `low`.
pub open spec fn clip_low(s: int, i: int, low: int) -> int {
    if s - i > low {
        s - i
    } else {
        low
    }
}

/// The last coordinate of the shell of radius `i` round `s` that is not
/// above `high`.
pub open spec fn clip_high(s: int, i: int, high: int) -> int {
    if s + i < high {
        s + i
    } else {
        high
    }
}

/// How far `s` lies outside `low ..= high`; 0 inside.
pub open spec fn axis_gap(s: int, low: int, high: int) -> int {
    if s < low {
        low - s
    } else if s > high {
        s - high
    } else {
        0
    }
}

/// Distance between two coordinates on one axis.
pub open spec fn axis_distance(a: int, b: int) -> int {
    if a >= b {
        a - b
    } else {
        b - a
    }
}

/// The shell of a cell round `start`: the largest of its distances from
/// `start` on the three axes.
pub open spec fn shell_of(start: ChunkCoords, x: int, y: int, z: int) -> int {
    let dx = axis_distance(x, start.0 as int);
    let dy = axis_distance(y, start.1 as int);
    let dz = axis_distance(z, start.2 as int);
    let m = if dx >= dy {
        dx
    } else {
        dy
    };
    if m >= dz {
        m
    } else {
        dz
    }
}

/// The face of its shell on which a cell lies: 0 for a face of constant z,
/// 1 for a face of constant x off the z faces, 2 for a face of constant y off
/// both.
pub open spec fn face_of(start: ChunkCoords, x: int, y: int, z: int) -> int {
    let i = shell_of(start, x, y, z);
    if axis_distance(z, start.2 as int) == i {
        0
    } else if axis_distance(x, start.0 as int) == i {
        1
    } else {
        2
    }
}

/// The nearest search looks at `(x1, y1, z1)` before `(x, y, z)`: it lies on
/// a smaller shell round `start`; or on the same shell and on an earlier
/// face, z faces before x faces before y faces; or on the same face and
/// earlier in the order of x, then y, then z.
pub open spec fn walked_before(
    start: ChunkCoords,
    x1: int,
    y1: int,
    z1: int,
    x: int,
    y: int,
    z: int,
) -> bool {
    let shell1 = shell_of(start, x1, y1, z1);
    let shell = shell_of(start, x, y, z);
    let face1 = face_of(start, x1, y1, z1);
    let face = face_of(start, x, y, z);
    shell1 < shell || (shell1 == shell && (face1 < face || (face1 == face && comes_before(
        x1,
        y1,
        z1,
        x,
        y,
        z,
    ))))
}

/// The planar search looks at column `(x1, z1)` before column `(x, z)`: the
/// order of the nearest search in the plane `y == 0`, round the column of
/// `start`.
pub open spec fn walked_before_in_plane(start: ChunkCoords, x1: int, z1: int, x: int, z: int) -> bool {
    walked_before(ChunkCoords(start.0, 0, start.2), x1, 0, z1, x, 0, z)
}

/// `(a2, b2, c2)` comes before `(a, b, c)` in a sweep: the first index moves
/// slowest, the last one fastest.
pub open spec fn comes_before(a2: int, b2: int, c2: int, a: int, b: int, c: int) -> bool {
    a2 < a || (a2 == a && (b2 < b || (b2 == b && c2 < c)))
}

/// A run of coordinates on one axis, in the order in which a sweep walks it.
#[derive(Debug, Clone, Copy, PartialEq, Eq, Structural)]
pub enum Axis {
    /// Every coordinate from the first to the second, both included.
    Span(i64, i64),
    /// One coordinate.
    One(i64),
    /// Two coordinates, in this order.
    Two(i64, i64),
}

impl Axis {
    /// The coordinates, in order.
    pub open spec fn cells(&self) -> Seq<int> {
        match *self {
            Axis::Span(first, last) => span(first as int, last as int),
            Axis::One(a) => seq![a as int],
            Axis::Two(a, b) => seq![a as int, b as int],
        }
    }

    /// No coordinate is beyond [`AXIS_LIMIT`].
    pub open spec fn wf(&self) -> bool {
        match *self {
            Axis::Span(first, last) => -AXIS_LIMIT <= first <= AXIS_LIMIT && -AXIS_LIMIT <= last
                <= AXIS_LIMIT,
            Axis::One(a) => -AXIS_LIMIT <= a <= AXIS_LIMIT,
            Axis::Two(a, b) => -AXIS_LIMIT <= a <= AXIS_LIMIT && -AXIS_LIMIT <= b <= AXIS_LIMIT,
        }
    }

    /// How many coordinates the run has.
    pub fn len(&self) -> (n: i64)
        requires
            self.wf(),
        ensures
            n == self.cells().len(),
    {
        match *self {
            Axis::Span(first, last) => if last < first {
                0
            } else {
                last - first + 1
            },
            Axis::One(_) => 1,
            Axis::Two(_, _) => 2,
        }
    }

    /// The coordinate at position `k` of the run.
    pub fn at(&self, k: i64) -> (v: i64)
        requires
            self.wf(),
            0 <= k < self.cells().len(),
        ensures
            v == self.cells()[k as int],
            -AXIS_LIMIT <= v <= AXIS_LIMIT,
    {
        match *self {
            Axis::Span(first, _) => first + k,
            Axis::One(a) => a,
            Axis::Two(a, b) => if k == 0 {
                a
            } else {
                b
            },
        }
    }
}

impl Chunks {
    /// The predicate was asked about the chunk at `(x, y, z)` and said no, or
    /// `(x, y, z)` lies outside the window.
    pub open spec fn rejects<P: Fn(Option<&Chunk>) -> bool>(
        &self,
        predicat: &P,
        x: int,
        y: int,
        z: int,
    ) -> bool {
        self.in_area(x, y, z) ==> call_ensures(*predicat, (self.chunk_at(x, y, z),), false)
    }

    /// `(x, y, z)` lies inside the window and the predicate said yes to the
    /// chunk there.
    pub open spec fn accepts<P: Fn(Option<&Chunk>) -> bool>(
        &self,
        predicat: &P,
        x: int,
        y: int,
        z: int,
    ) -> bool {
        self.in_area(x, y, z) && call_ensures(*predicat, (self.chunk_at(x, y, z),), true)
    }

    /// [`Self::rejects`] of the cell at positions `(a, b, c)` of a sweep.
    pub open spec fn rejects_at<P: Fn(Option<&Chunk>) -> bool>(
        &self,
        predicat: &P,
        xs: Seq<int>,
        ys: Seq<int>,
        zs: Seq<int>,
        a: int,
        b: int,
        c: int,
    ) -> bool {
        self.rejects(predicat, xs[a], ys[b], zs[c])
    }

    /// Every cell of the sweep that comes before positions `(a, b, c)` was
    /// rejected.
    pub open spec fn rejected_before<P: Fn(Option<&Chunk>) -> bool>(
        &self,
        predicat: &P,
        xs: Seq<int>,
        ys: Seq<int>,
        zs: Seq<int>,
        a: int,
        b: int,
        c: int,
    ) -> bool {
        forall|a2: int, b2: int, c2: int|
            0 <= a2 < xs.len() && 0 <= b2 < ys.len() && 0 <= c2 < zs.len() && comes_before(
                a2,
                b2,
                c2,
                a,
                b,
                c,
            ) ==> #[trigger] self.rejects_at(predicat, xs, ys, zs, a2, b2, c2)
    }

    /// Every cell of the sweep `xs × ys × zs` was rejected.
    pub open spec fn sweep_rejected<P: Fn(Option<&Chunk>) -> bool>(
        &self,
        predicat: &P,
        xs: Seq<int>,
        ys: Seq<int>,
        zs: Seq<int>,
    ) -> bool {
        forall|a: int, b: int, c: int|
            0 <= a < xs.len() && 0 <= b < ys.len() && 0 <= c < zs.len()
                ==> #[trigger] self.rejects_at(predicat, xs, ys, zs, a, b, c)
    }

    /// `found` stands at positions `(a, b, c)` of the sweep, was accepted, and
    /// every cell before it was rejected.
    pub open spec fn found_at<P: Fn(Option<&Chunk>) -> bool>(
        &self,
        predicat: &P,
        xs: Seq<int>,
        ys: Seq<int>,
        zs: Seq<int>,
        a: int,
        b: int,
        c: int,
        found: ChunkCoords,
    ) -> bool {
        &&& 0 <= a < xs.len() && 0 <= b < ys.len() && 0 <= c < zs.len()
        &&& found.triple() == (xs[a], ys[b], zs[c])
        &&& self.accepts(predicat, xs[a], ys[b], zs[c])
        &&& self.rejected_before(predicat, xs, ys, zs, a, b, c)
    }

    /// `found` is the first cell of the sweep `xs × ys × zs` that was
    /// accepted.
    pub open spec fn sweep_found<P: Fn(Option<&Chunk>) -> bool>(
        &self,
        predicat: &P,
        xs: Seq<int>,
        ys: Seq<int>,
        zs: Seq<int>,
        found: ChunkCoords,
    ) -> bool {
        exists|a: int, b: int, c: int| #[trigger]
            self.found_at(predicat, xs, ys, zs, a, b, c, found)
    }

    /// Whether `(x, y, z)` lies inside the window.
    fn is_cell_in_area(&self, x: i64, y: i64, z: i64) -> (inside: bool)
        requires
            self.wf(),
            -AXIS_LIMIT <= x <= AXIS_LIMIT,
            -AXIS_LIMIT <= z <= AXIS_LIMIT,
        ensures
            inside == self.in_area(x as int, y as int, z as int),
    {
        let lx: i64 = x - self.ox as i64;
        let lz: i64 = z - self.oz as i64;
        0 <= lx && lx < self.width as i64 && 0 <= y && y < self.height as i64 && 0 <= lz && lz
            < self.depth as i64
    }

    /// Walks the cells of `xs × ys × zs`, the last axis fastest, and returns
    /// the first one inside the window whose chunk the predicate accepts.
    pub fn find_chunk_position<P>(&self, xs: &Axis, ys: &Axis, zs: &Axis, predicat: &P) -> (found:
        Option<ChunkCoords>) where P: Fn(Option<&Chunk>) -> bool
        requires
            self.wf(),
            xs.wf(),
            ys.wf(),
            zs.wf(),
            forall|c: Option<&Chunk>| call_requires(*predicat, (c,)),
        ensures
            match found {
                Some(r) => self.sweep_found(predicat, xs.cells(), ys.cells(), zs.cells(), r),
                None => self.sweep_rejected(predicat, xs.cells(), ys.cells(), zs.cells()),
            },
    {
        let nx = xs.len();
        let ny = ys.len();
        let nz = zs.len();
        let mut a: i64 = 0;
        while a < nx
            invariant
                self.wf(),
                xs.wf(),
                ys.wf(),
                zs.wf(),
                nx == xs.cells().len(),
                ny == ys.cells().len(),
                nz == zs.cells().len(),
                0 <= a <= nx,
                forall|c: Option<&Chunk>| call_requires(*predicat, (c,)),
                self.rejected_before(predicat, xs.cells(), ys.cells(), zs.cells(), a as int, 0, 0),
            decreases nx - a,
        {
            let cx = xs.at(a);
            let mut b: i64 = 0;
            while b < ny
                invariant
                    self.wf(),
                    xs.wf(),
                    ys.wf(),
                    zs.wf(),
                    nx == xs.cells().len(),
                    ny == ys.cells().len(),
                    nz == zs.cells().len(),
                    0 <= a < nx,
                    0 <= b <= ny,
                    cx == xs.cells()[a as int],
                    -AXIS_LIMIT <= cx <= AXIS_LIMIT,
                    forall|c: Option<&Chunk>| call_requires(*predicat, (c,)),
                    self.rejected_before(
                        predicat,
                        xs.cells(),
                        ys.cells(),
                        zs.cells(),
                        a as int,
                        b as int,
                        0,
                    ),
                decreases ny - b,
            {
                let cy = ys.at(b);
                let mut c: i64 = 0;
                while c < nz
                    invariant
                        self.wf(),
                        xs.wf(),
                        ys.wf(),
                        zs.wf(),
                        nx == xs.cells().len(),
                        ny == ys.cells().len(),
                        nz == zs.cells().len(),
                        0 <= a < nx,
                        0 <= b < ny,
                        0 <= c <= nz,
                        cx == xs.cells()[a as int],
                        cy == ys.cells()[b as int],
                        -AXIS_LIMIT <= cx <= AXIS_LIMIT,
                        forall|c: Option<&Chunk>| call_requires(*predicat, (c,)),
                        self.rejected_before(
                            predicat,
                            xs.cells(),
                            ys.cells(),
                            zs.cells(),
                            a as int,
                            b as int,
                            c as int,
                        ),
                    decreases nz - c,
                {
                    let cz = zs.at(c);
                    if self.is_cell_in_area(cx, cy, cz) {
                        let coords = ChunkCoords(cx as i32, cy as i32, cz as i32);
                        if predicat(self.chunk(coords)) {
                            assert(self.found_at(
                                predicat,
                                xs.cells(),
                                ys.cells(),
                                zs.cells(),
                                a as int,
                                b as int,
                                c as int,
                                coords,
                            ));
                            return Some(coords);
                        }
                    }
                    assert(self.rejects_at(
                        predicat,
                        xs.cells(),
                        ys.cells(),
                        zs.cells(),
                        a as int,
                        b as int,
                        c as int,
                    ));
                    c += 1;
                }
                b += 1;
            }
            a += 1;
        }
        None
    }

    /// Number of columns along the longer side of the window.
    pub open spec fn planar_reach(&self) -> int {
        if self.depth >= self.width {
            self.depth as int
        } else {
            self.width as int
        }
    }

    /// `(x, y, z)` lies inside the window, at a height from `low_y` to
    /// `high_y`.
    pub open spec fn in_layers(&self, low_y: int, high_y: int, x: int, y: int, z: int) -> bool {
        self.in_area(x, y, z) && low_y <= y <= high_y
    }

    /// The predicate said no to every cell that the nearest search looks at
    /// before `found`.
    pub open spec fn nearer_rejected<P: Fn(Option<&Chunk>) -> bool>(
        &self,
        predicat: &P,
        start: ChunkCoords,
        found: ChunkCoords,
    ) -> bool {
        forall|x: int, y: int, z: int|
            walked_before(start, x, y, z, found.0 as int, found.1 as int, found.2 as int)
                ==> #[trigger] self.rejects(predicat, x, y, z)
    }

    /// The predicate said no to every column of the plane `y == 0` that the
    /// planar search looks at before `found`.
    pub open spec fn nearer_columns_rejected<P: Fn(Option<&Chunk>) -> bool>(
        &self,
        predicat: &P,
        start: ChunkCoords,
        found: ChunkCoords,
    ) -> bool {
        forall|x: int, z: int|
            walked_before_in_plane(start, x, z, found.0 as int, found.2 as int)
                ==> #[trigger] self.rejects(predicat, x, 0, z)
    }

    /// The predicate said no to every cell of the layers on a shell smaller
    /// than `i`.
    spec fn shells_rejected<P: Fn(Option<&Chunk>) -> bool>(
        &self,
        predicat: &P,
        start: ChunkCoords,
        low_y: int,
        high_y: int,
        i: int,
    ) -> bool {
        forall|x: int, y: int, z: int|
            self.in_layers(low_y, high_y, x, y, z) && shell_of(start, x, y, z) < i
                ==> #[trigger] self.rejects(predicat, x, y, z)
    }

    /// The predicate said no to every cell of the layers that the search
    /// looks at before `found`.
    spec fn nearer_in_layers_rejected<P: Fn(Option<&Chunk>) -> bool>(
        &self,
        predicat: &P,
        start: ChunkCoords,
        low_y: int,
        high_y: int,
        found: ChunkCoords,
    ) -> bool {
        forall|x: int, y: int, z: int|
            self.in_layers(low_y, high_y, x, y, z) && walked_before(
                start,
                x,
                y,
                z,
                found.0 as int,
                found.1 as int,
                found.2 as int,
            ) ==> #[trigger] self.rejects(predicat, x, y, z)
    }

    /// First sweep of shell `i` round `start`: the faces of constant z, over
    /// all of x and y that the shell and the layers of the window hold.
    spec fn z_faces(&self, start: ChunkCoords, low_y: int, high_y: int, i: int) -> (
        Seq<int>,
        Seq<int>,
        Seq<int>,
    ) {
        (
            span(
                clip_low(start.0 as int, i, self.ox as int),
                clip_high(start.0 as int, i, self.ox + self.width - 1),
            ),
            span(clip_low(start.1 as int, i, low_y), clip_high(start.1 as int, i, high_y)),
            sides(i, start.2 as int, self.oz as int, self.oz + self.depth - 1),
        )
    }

    /// Second sweep of shell `i`: the faces of constant x, without the cells
    /// of the z faces.
    spec fn x_faces(&self, start: ChunkCoords, low_y: int, high_y: int, i: int) -> (
        Seq<int>,
        Seq<int>,
        Seq<int>,
    ) {
        (
            sides(i, start.0 as int, self.ox as int, self.ox + self.width - 1),
            span(clip_low(start.1 as int, i, low_y), clip_high(start.1 as int, i, high_y)),
            span(
                clip_low(start.2 as int, i - 1, self.oz as int),
                clip_high(start.2 as int, i - 1, self.oz + self.depth - 1),
            ),
        )
    }

    /// Third sweep of shell `i`: the faces of constant y, without the cells
    /// of the z and x faces.
    spec fn y_faces(&self, start: ChunkCoords, low_y: int, high_y: int, i: int) -> (
        Seq<int>,
        Seq<int>,
        Seq<int>,
    ) {
        (
            span(
                clip_low(start.0 as int, i - 1, self.ox as int),
                clip_high(start.0 as int, i - 1, self.ox + self.width - 1),
            ),
            sides(i, start.1 as int, low_y, high_y),
            span(
                clip_low(start.2 as int, i - 1, self.oz as int),
                clip_high(start.2 as int, i - 1, self.oz + self.depth - 1),
            ),
        )
    }

    /// The smallest shell round `start` that holds a cell of the layers.
    spec fn first_shell(&self, start: ChunkCoords, low_y: int, high_y: int) -> int {
        let gx = axis_gap(start.0 as int, self.ox as int, self.ox + self.width - 1);
        let gy = axis_gap(start.1 as int, low_y, high_y);
        let gz = axis_gap(start.2 as int, self.oz as int, self.oz + self.depth - 1);
        let m = if gx >= gy {
            gx
        } else {
            gy
        };
        if m >= gz {
            m
        } else {
            gz
        }
    }

    /// The faces of the shell of radius `i` round `p` on one axis, as far as
    /// they lie in `low ..= high`.
    pub fn check_size(i: i64, p: i64, low: i64, high: i64) -> (faces: Axis)
        requires
            0 <= i <= AXIS_LIMIT / 2,
            -AXIS_LIMIT / 2 <= p <= AXIS_LIMIT / 2,
        ensures
            faces.wf(),
            faces.cells() == sides(i as int, p as int, low as int, high as int),
    {
        let near = low <= p - i && p - i <= high;
        let far = i > 0 && low <= p + i && p + i <= high;
        let faces = if near && far {
            Axis::Two(p - i, p + i)
        } else if near {
            Axis::One(p - i)
        } else if far {
            Axis::One(p + i)
        } else {
            Axis::Span(1, 0)
        };
        assert(faces.cells() =~= sides(i as int, p as int, low as int, high as int));
        faces
    }

    /// How far `s` lies outside `low ..= high`.
    fn gap(s: i64, low: i64, high: i64) -> (g: i64)
        requires
            -AXIS_LIMIT / 4 <= s <= AXIS_LIMIT / 4,
            -AXIS_LIMIT / 4 <= low <= AXIS_LIMIT / 4,
            -AXIS_LIMIT / 4 <= high <= AXIS_LIMIT / 4,
        ensures
            g == axis_gap(s as int, low as int, high as int),
    {
        if s < low {
            low - s
        } else if s > high {
            s - high
        } else {
            0
        }
    }

    /// A run along one axis: the shell of radius `i` round `s`, cut to
    /// `low ..= high`.
    fn clipped(s: i64, i: i64, low: i64, high: i64) -> (run: Axis)
        requires
            -1 <= i <= AXIS_LIMIT / 2,
            -AXIS_LIMIT / 4 <= s <= AXIS_LIMIT / 4,
            -AXIS_LIMIT / 4 <= low <= AXIS_LIMIT / 4,
            -AXIS_LIMIT / 4 <= high <= AXIS_LIMIT / 4,
        ensures
            run.wf(),
            run.cells() == span(
                clip_low(s as int, i as int, low as int),
                clip_high(s as int, i as int, high as int),
            ),
    {
        let first = if s - i > low {
            s - i
        } else {
            low
        };
        let last = if s + i < high {
            s + i
        } else {
            high
        };
        Axis::Span(first, last)
    }

    /// Searches the layers `low_y ..= high_y` of the window shell by shell
    /// outwards from `start`, from the first shell that holds a cell of
    /// them on.
    fn find_nearest_in_layers<P>(
        &self,
        start: ChunkCoords,
        low_y: i32,
        high_y: i32,
        predicat: &P,
    ) -> (found: Option<ChunkCoords>) where P: Fn(Option<&Chunk>) -> bool
        requires
            self.wf(),
            0 < self.width,
            0 < self.depth,
            0 <= low_y <= high_y < self.height,
            forall|c: Option<&Chunk>| call_requires(*predicat, (c,)),
        ensures
            match found {
                Some(r) => {
                    &&& self.in_layers(
                        low_y as int,
                        high_y as int,
                        r.0 as int,
                        r.1 as int,
                        r.2 as int,
                    )
                    &&& self.accepts(predicat, r.0 as int, r.1 as int, r.2 as int)
                    &&& self.nearer_in_layers_rejected(
                        predicat,
                        start,
                        low_y as int,
                        high_y as int,
                        r,
                    )
                },
                None => forall|x: int, y: int, z: int|
                    self.in_layers(low_y as int, high_y as int, x, y, z)
                        ==> #[trigger] self.rejects(predicat, x, y, z),
            },
    {
        let sx: i64 = start.0 as i64;
        let sy: i64 = start.1 as i64;
        let sz: i64 = start.2 as i64;
        let low_x: i64 = self.ox as i64;
        let high_x: i64 = self.ox as i64 + self.width as i64 - 1;
        let low_z: i64 = self.oz as i64;
        let high_z: i64 = self.oz as i64 + self.depth as i64 - 1;
        let bottom: i64 = low_y as i64;
        let top: i64 = high_y as i64;
        let gx = Self::gap(sx, low_x, high_x);
        let gy = Self::gap(sy, bottom, top);
        let gz = Self::gap(sz, low_z, high_z);
        let gxy = if gx >= gy {
            gx
        } else {
            gy
        };
        let first: i64 = if gxy >= gz {
            gxy
        } else {
            gz
        };
        let layers: i64 = top - bottom + 1;
        let wide: i64 = if self.depth >= self.width {
            self.depth as i64
        } else {
            self.width as i64
        };
        let reach: i64 = if wide >= layers {
            wide
        } else {
            layers
        };
        proof {
            self.lemma_first_shell(start, low_y as int, high_y as int);
            assert(self.shells_rejected(predicat, start, low_y as int, high_y as int, first as int));
        }
        let mut step: i64 = 0;
        while step < reach
            invariant
                self.wf(),
                0 < self.width,
                0 < self.depth,
                0 <= low_y <= high_y < self.height,
                forall|c: Option<&Chunk>| call_requires(*predicat, (c,)),
                sx == start.0,
                sy == start.1,
                sz == start.2,
                low_x == self.ox,
                high_x == self.ox + self.width - 1,
                low_z == self.oz,
                high_z == self.oz + self.depth - 1,
                bottom == low_y,
                top == high_y,
                first == self.first_shell(start, low_y as int, high_y as int),
                0 <= first <= 0x2_0000_0000,
                reach >= self.width,
                reach >= self.depth,
                reach >= high_y - low_y + 1,
                reach <= 0x8000_0000,
                0 <= step <= reach,
                self.shells_rejected(
                    predicat,
                    start,
                    low_y as int,
                    high_y as int,
                    first + step,
                ),
            decreases reach - step,
        {
            let i: i64 = first + step;
            let x_run = Self::clipped(sx, i, low_x, high_x);
            let y_run = Self::clipped(sy, i, bottom, top);
            let x_side = Self::check_size(i, sx, low_x, high_x);
            let y_side = Self::check_size(i, sy, bottom, top);
            let z_side = Self::check_size(i, sz, low_z, high_z);

            let on_z = self.find_chunk_position(&x_run, &y_run, &z_side, predicat);
            if let Some(r) = on_z {
                proof {
                    self.lemma_found_on_z(predicat, start, low_y as int, high_y as int, i as int, r);
                }
                return Some(r);
            }
            let z_inner = Self::clipped(sz, i - 1, low_z, high_z);
            let on_x = self.find_chunk_position(&x_side, &y_run, &z_inner, predicat);
            if let Some(r) = on_x {
                proof {
                    self.lemma_found_on_x(predicat, start, low_y as int, high_y as int, i as int, r);
                }
                return Some(r);
            }
            let x_inner = Self::clipped(sx, i - 1, low_x, high_x);
            let on_y = self.find_chunk_position(&x_inner, &y_side, &z_inner, predicat);
            if let Some(r) = on_y {
                proof {
                    self.lemma_found_on_y(predicat, start, low_y as int, high_y as int, i as int, r);
                }
                return Some(r);
            }
            proof {
                self.lemma_shell_done(predicat, start, low_y as int, high_y as int, i as int);
            }
            step += 1;
        }
        proof {
            self.lemma_last_shell(start, low_y as int, high_y as int, reach as int);
        }
        None
    }

    /// Searches the window shell by shell outwards from `start_chunk_coords`
    /// for a chunk that the predicate accepts, and returns its coordinates.
    ///
    /// A shell is the surface of a cube round the start: the cells at one
    /// distance from it, the largest of the distances on the three axes.
    /// Of each shell the faces of constant z are walked first, then those of
    /// constant x, then those of constant y; on each face x moves slowest
    /// and z fastest. Only cells of the window are looked at.
    ///
    /// The result lies inside the window, and the predicate has said no to
    /// every cell of the window that the walk reaches before it. Nothing is
    /// returned only if the predicate has said no to every cell of the
    /// window.
    pub fn find_nearest_position_xyz<P>(&self, start_chunk_coords: ChunkCoords, predicat: &P) -> (found:
        Option<ChunkCoords>) where P: Fn(Option<&Chunk>) -> bool
        requires
            self.wf(),
            forall|c: Option<&Chunk>| call_requires(*predicat, (c,)),
        ensures
            match found {
                Some(r) => {
                    &&& self.accepts(predicat, r.0 as int, r.1 as int, r.2 as int)
                    &&& self.nearer_rejected(predicat, start_chunk_coords, r)
                },
                None => forall|x: int, y: int, z: int| #[trigger] self.rejects(predicat, x, y, z),
            },
    {
        if self.width == 0 || self.height == 0 || self.depth == 0 {
            return None;
        }
        self.find_nearest_in_layers(start_chunk_coords, 0, self.height - 1, predicat)
    }

    /// Searches the plane `y == 0` of the window for a chunk that the
    /// predicate accepts, ring by ring outwards from the column of
    /// `start_chunk_coords`: the nearest search with the height left out.
    ///
    /// The result lies in the plane and inside the window, and the predicate
    /// has said no to every column of the plane that the walk reaches before
    /// it. Nothing is returned only if the predicate has said no to every
    /// cell of the plane inside the window.
    pub fn find_nearest_position_xz<P>(&self, start_chunk_coords: ChunkCoords, predicat: &P) -> (found:
        Option<ChunkCoords>) where P: Fn(Option<&Chunk>) -> bool
        requires
            self.wf(),
            forall|c: Option<&Chunk>| call_requires(*predicat, (c,)),
        ensures
            match found {
                Some(r) => {
                    &&& r.1 == 0
                    &&& self.accepts(predicat, r.0 as int, 0, r.2 as int)
                    &&& self.nearer_columns_rejected(predicat, start_chunk_coords, r)
                },
                None => forall|x: int, z: int| #[trigger] self.rejects(predicat, x, 0, z),
            },
    {
        if self.width == 0 || self.height == 0 || self.depth == 0 {
            return None;
        }
        let level = ChunkCoords(start_chunk_coords.0, 0, start_chunk_coords.2);
        self.find_nearest_in_layers(level, 0, 0, predicat)
    }

    /// What the nearest search returns lies on the nearest shell that holds
    /// an accepted chunk, and on the first of its faces that does: the
    /// predicate has said no to every cell of the window on a smaller shell,
    /// and to every cell of the same shell on an earlier face.
    pub proof fn lemma_nearest_comes_first<P: Fn(Option<&Chunk>) -> bool>(
        &self,
        predicat: &P,
        start: ChunkCoords,
        found: ChunkCoords,
        x: int,
        y: int,
        z: int,
    )
        requires
            self.nearer_rejected(predicat, start, found),
            self.in_area(x, y, z),
            ({
                let shell = shell_of(start, found.0 as int, found.1 as int, found.2 as int);
                let face = face_of(start, found.0 as int, found.1 as int, found.2 as int);
                shell_of(start, x, y, z) < shell || (shell_of(start, x, y, z) == shell && face_of(
                    start,
                    x,
                    y,
                    z,
                ) < face)
            }),
        ensures
            call_ensures(*predicat, (self.chunk_at(x, y, z),), false),
    {
        assert(self.rejects(predicat, x, y, z));
    }

    /// No cell of the layers lies on a shell before the first one.
    proof fn lemma_first_shell(&self, start: ChunkCoords, low_y: int, high_y: int)
        ensures
            forall|x: int, y: int, z: int|
                self.in_layers(low_y, high_y, x, y, z) ==> #[trigger] shell_of(start, x, y, z)
                    >= self.first_shell(start, low_y, high_y),
    {
    }

    /// Every cell of the layers lies on one of the `reach` shells from the
    /// first one on, where `reach` is not less than any extent of the
    /// layers.
    proof fn lemma_last_shell(&self, start: ChunkCoords, low_y: int, high_y: int, reach: int)
        requires
            reach >= self.width,
            reach >= self.depth,
            reach >= high_y - low_y + 1,
        ensures
            forall|x: int, y: int, z: int|
                self.in_layers(low_y, high_y, x, y, z) ==> #[trigger] shell_of(start, x, y, z)
                    < self.first_shell(start, low_y, high_y) + reach,
    {
    }

    /// Where a cell of the layers stands in the sweep of the z faces of its
    /// shell.
    proof fn lemma_on_z_face(
        &self,
        start: ChunkCoords,
        low_y: int,
        high_y: int,
        x: int,
        y: int,
        z: int,
    ) -> (at: (int, int, int))
        requires
            self.in_layers(low_y, high_y, x, y, z),
            face_of(start, x, y, z) == 0,
        ensures
            ({
                let i = shell_of(start, x, y, z);
                let f = self.z_faces(start, low_y, high_y, i);
                &&& 0 <= at.0 < f.0.len() && f.0[at.0] == x
                &&& 0 <= at.1 < f.1.len() && f.1[at.1] == y
                &&& 0 <= at.2 < f.2.len() && f.2[at.2] == z
                &&& at.0 == x - clip_low(start.0 as int, i, self.ox as int)
                &&& at.1 == y - clip_low(start.1 as int, i, low_y)
                &&& at.2 == (if z < start.2 || i == 0 {
                    0int
                } else {
                    f.2.len() - 1
                })
            }),
    {
        let i = shell_of(start, x, y, z);
        (
            x - clip_low(start.0 as int, i, self.ox as int),
            y - clip_low(start.1 as int, i, low_y),
            if z < start.2 || i == 0 {
                0int
            } else {
                sides(i, start.2 as int, self.oz as int, self.oz + self.depth - 1).len() - 1
            },
        )
    }

    /// Where a cell of the layers stands in the sweep of the x faces of its
    /// shell.
    proof fn lemma_on_x_face(
        &self,
        start: ChunkCoords,
        low_y: int,
        high_y: int,
        x: int,
        y: int,
        z: int,
    ) -> (at: (int, int, int))
        requires
            self.in_layers(low_y, high_y, x, y, z),
            face_of(start, x, y, z) == 1,
        ensures
            ({
                let i = shell_of(start, x, y, z);
                let f = self.x_faces(start, low_y, high_y, i);
                &&& 0 <= at.0 < f.0.len() && f.0[at.0] == x
                &&& 0 <= at.1 < f.1.len() && f.1[at.1] == y
                &&& 0 <= at.2 < f.2.len() && f.2[at.2] == z
                &&& at.0 == (if x < start.0 || i == 0 {
                    0int
                } else {
                    f.0.len() - 1
                })
                &&& at.1 == y - clip_low(start.1 as int, i, low_y)
                &&& at.2 == z - clip_low(start.2 as int, i - 1, self.oz as int)
            }),
    {
        let i = shell_of(start, x, y, z);
        (
            if x < start.0 || i == 0 {
                0int
            } else {
                sides(i, start.0 as int, self.ox as int, self.ox + self.width - 1).len() - 1
            },
            y - clip_low(start.1 as int, i, low_y),
            z - clip_low(start.2 as int, i - 1, self.oz as int),
        )
    }

    /// Where a cell of the layers stands in the sweep of the y faces of its
    /// shell.
    proof fn lemma_on_y_face(
        &self,
        start: ChunkCoords,
        low_y: int,
        high_y: int,
        x: int,
        y: int,
        z: int,
    ) -> (at: (int, int, int))
        requires
            self.in_layers(low_y, high_y, x, y, z),
            face_of(start, x, y, z) == 2,
        ensures
            ({
                let i = shell_of(start, x, y, z);
                let f = self.y_faces(start, low_y, high_y, i);
                &&& 0 <= at.0 < f.0.len() && f.0[at.0] == x
                &&& 0 <= at.1 < f.1.len() && f.1[at.1] == y
                &&& 0 <= at.2 < f.2.len() && f.2[at.2] == z
                &&& at.0 == x - clip_low(start.0 as int, i - 1, self.ox as int)
                &&& at.1 == (if y < start.1 || i == 0 {
                    0int
                } else {
                    f.1.len() - 1
                })
                &&& at.2 == z - clip_low(start.2 as int, i - 1, self.oz as int)
            }),
    {
        let i = shell_of(start, x, y, z);
        (
            x - clip_low(start.0 as int, i - 1, self.ox as int),
            if y < start.1 || i == 0 {
                0int
            } else {
                sides(i, start.1 as int, low_y, high_y).len() - 1
            },
            z - clip_low(start.2 as int, i - 1, self.oz as int),
        )
    }

    /// A shell whose three sweeps were rejected holds no accepted cell of
    /// the layers.
    proof fn lemma_shell_done<P: Fn(Option<&Chunk>) -> bool>(
        &self,
        predicat: &P,
        start: ChunkCoords,
        low_y: int,
        high_y: int,
        i: int,
    )
        requires
            self.shells_rejected(predicat, start, low_y, high_y, i),
            ({
                let f = self.z_faces(start, low_y, high_y, i);
                self.sweep_rejected(predicat, f.0, f.1, f.2)
            }),
            ({
                let f = self.x_faces(start, low_y, high_y, i);
                self.sweep_rejected(predicat, f.0, f.1, f.2)
            }),
            ({
                let f = self.y_faces(start, low_y, high_y, i);
                self.sweep_rejected(predicat, f.0, f.1, f.2)
            }),
        ensures
            self.shells_rejected(predicat, start, low_y, high_y, i + 1),
    {
        assert forall|x: int, y: int, z: int|
            self.in_layers(low_y, high_y, x, y, z) && shell_of(start, x, y, z) < i
                + 1 implies #[trigger] self.rejects(predicat, x, y, z) by {
            if shell_of(start, x, y, z) == i {
                self.lemma_face_rejected(predicat, start, low_y, high_y, x, y, z);
            }
        }
    }

    /// A cell of the layers whose face was swept and rejected was rejected.
    proof fn lemma_face_rejected<P: Fn(Option<&Chunk>) -> bool>(
        &self,
        predicat: &P,
        start: ChunkCoords,
        low_y: int,
        high_y: int,
        x: int,
        y: int,
        z: int,
    )
        requires
            self.in_layers(low_y, high_y, x, y, z),
            ({
                let i = shell_of(start, x, y, z);
                let face = face_of(start, x, y, z);
                let f = if face == 0 {
                    self.z_faces(start, low_y, high_y, i)
                } else if face == 1 {
                    self.x_faces(start, low_y, high_y, i)
                } else {
                    self.y_faces(start, low_y, high_y, i)
                };
                self.sweep_rejected(predicat, f.0, f.1, f.2)
            }),
        ensures
            self.rejects(predicat, x, y, z),
    {
        let i = shell_of(start, x, y, z);
        let face = face_of(start, x, y, z);
        if face == 0 {
            let f = self.z_faces(start, low_y, high_y, i);
            let at = self.lemma_on_z_face(start, low_y, high_y, x, y, z);
            assert(self.rejects_at(predicat, f.0, f.1, f.2, at.0, at.1, at.2));
        } else if face == 1 {
            let f = self.x_faces(start, low_y, high_y, i);
            let at = self.lemma_on_x_face(start, low_y, high_y, x, y, z);
            assert(self.rejects_at(predicat, f.0, f.1, f.2, at.0, at.1, at.2));
        } else {
            let f = self.y_faces(start, low_y, high_y, i);
            let at = self.lemma_on_y_face(start, low_y, high_y, x, y, z);
            assert(self.rejects_at(predicat, f.0, f.1, f.2, at.0, at.1, at.2));
        }
    }

    /// The first accepted cell of the z faces of shell `i` comes after
    /// rejected cells only.
    proof fn lemma_found_on_z<P: Fn(Option<&Chunk>) -> bool>(
        &self,
        predicat: &P,
        start: ChunkCoords,
        low_y: int,
        high_y: int,
        i: int,
        found: ChunkCoords,
    )
        requires
            0 <= i,
            self.shells_rejected(predicat, start, low_y, high_y, i),
            ({
                let f = self.z_faces(start, low_y, high_y, i);
                self.sweep_found(predicat, f.0, f.1, f.2, found)
            }),
        ensures
            self.in_layers(low_y, high_y, found.0 as int, found.1 as int, found.2 as int),
            self.accepts(predicat, found.0 as int, found.1 as int, found.2 as int),
            self.nearer_in_layers_rejected(predicat, start, low_y, high_y, found),
    {
        let f = self.z_faces(start, low_y, high_y, i);
        let (a, b, c) = choose|a: int, b: int, c: int| #[trigger]
            self.found_at(predicat, f.0, f.1, f.2, a, b, c, found);
        let (fx, fy, fz) = (found.0 as int, found.1 as int, found.2 as int);
        assert(shell_of(start, fx, fy, fz) == i && face_of(start, fx, fy, fz) == 0);
        let here = self.lemma_on_z_face(start, low_y, high_y, fx, fy, fz);
        assert(here == (a, b, c));
        assert forall|x: int, y: int, z: int|
            self.in_layers(low_y, high_y, x, y, z) && walked_before(
                start,
                x,
                y,
                z,
                fx,
                fy,
                fz,
            ) implies #[trigger] self.rejects(predicat, x, y, z) by {
            if shell_of(start, x, y, z) == i {
                let at = self.lemma_on_z_face(start, low_y, high_y, x, y, z);
                assert(comes_before(at.0, at.1, at.2, a, b, c));
                assert(self.rejects_at(predicat, f.0, f.1, f.2, at.0, at.1, at.2));
            }
        }
    }

    /// The first accepted cell of the x faces of shell `i`, whose z faces
    /// were rejected, comes after rejected cells only.
    proof fn lemma_found_on_x<P: Fn(Option<&Chunk>) -> bool>(
        &self,
        predicat: &P,
        start: ChunkCoords,
        low_y: int,
        high_y: int,
        i: int,
        found: ChunkCoords,
    )
        requires
            0 <= i,
            self.shells_rejected(predicat, start, low_y, high_y, i),
            ({
                let f = self.z_faces(start, low_y, high_y, i);
                self.sweep_rejected(predicat, f.0, f.1, f.2)
            }),
            ({
                let f = self.x_faces(start, low_y, high_y, i);
                self.sweep_found(predicat, f.0, f.1, f.2, found)
            }),
        ensures
            self.in_layers(low_y, high_y, found.0 as int, found.1 as int, found.2 as int),
            self.accepts(predicat, found.0 as int, found.1 as int, found.2 as int),
            self.nearer_in_layers_rejected(predicat, start, low_y, high_y, found),
    {
        let f = self.x_faces(start, low_y, high_y, i);
        let (a, b, c) = choose|a: int, b: int, c: int| #[trigger]
            self.found_at(predicat, f.0, f.1, f.2, a, b, c, found);
        let (fx, fy, fz) = (found.0 as int, found.1 as int, found.2 as int);
        assert(shell_of(start, fx, fy, fz) == i && face_of(start, fx, fy, fz) == 1);
        let here = self.lemma_on_x_face(start, low_y, high_y, fx, fy, fz);
        assert(here == (a, b, c));
        assert forall|x: int, y: int, z: int|
            self.in_layers(low_y, high_y, x, y, z) && walked_before(
                start,
                x,
                y,
                z,
                fx,
                fy,
                fz,
            ) implies #[trigger] self.rejects(predicat, x, y, z) by {
            if shell_of(start, x, y, z) == i {
                if face_of(start, x, y, z) == 0 {
                    self.lemma_face_rejected(predicat, start, low_y, high_y, x, y, z);
                } else {
                    let at = self.lemma_on_x_face(start, low_y, high_y, x, y, z);
                    assert(comes_before(at.0, at.1, at.2, a, b, c));
                    assert(self.rejects_at(predicat, f.0, f.1, f.2, at.0, at.1, at.2));
                }
            }
        }
    }

    /// The first accepted cell of the y faces of shell `i`, whose z and x
    /// faces were rejected, comes after rejected cells only.
    proof fn lemma_found_on_y<P: Fn(Option<&Chunk>) -> bool>(
        &self,
        predicat: &P,
        start: ChunkCoords,
        low_y: int,
        high_y: int,
        i: int,
        found: ChunkCoords,
    )
        requires
            0 <= i,
            self.shells_rejected(predicat, start, low_y, high_y, i),
            ({
                let f = self.z_faces(start, low_y, high_y, i);
                self.sweep_rejected(predicat, f.0, f.1, f.2)
            }),
            ({
                let f = self.x_faces(start, low_y, high_y, i);
                self.sweep_rejected(predicat, f.0, f.1, f.2)
            }),
            ({
                let f = self.y_faces(start, low_y, high_y, i);
                self.sweep_found(predicat, f.0, f.1, f.2, found)
            }),
        ensures
            self.in_layers(low_y, high_y, found.0 as int, found.1 as int, found.2 as int),
            self.accepts(predicat, found.0 as int, found.1 as int, found.2 as int),
            self.nearer_in_layers_rejected(predicat, start, low_y, high_y, found),
    {
        let f = self.y_faces(start, low_y, high_y, i);
        let (a, b, c) = choose|a: int, b: int, c: int| #[trigger]
            self.found_at(predicat, f.0, f.1, f.2, a, b, c, found);
        let (fx, fy, fz) = (found.0 as int, found.1 as int, found.2 as int);
        assert(shell_of(start, fx, fy, fz) == i && face_of(start, fx, fy, fz) == 2);
        let here = self.lemma_on_y_face(start, low_y, high_y, fx, fy, fz);
        assert(here == (a, b, c));
        assert forall|x: int, y: int, z: int|
            self.in_layers(low_y, high_y, x, y, z) && walked_before(
                start,
                x,
                y,
                z,
                fx,
                fy,
                fz,
            ) implies #[trigger] self.rejects(predicat, x, y, z) by {
            if shell_of(start, x, y, z) == i {
                if face_of(start, x, y, z) == 2 {
                    let at = self.lemma_on_y_face(start, low_y, high_y, x, y, z);
                    assert(comes_before(at.0, at.1, at.2, a, b, c));
                    assert(self.rejects_at(predicat, f.0, f.1, f.2, at.0, at.1, at.2));
                } else {
                    self.lemma_face_rejected(predicat, start, low_y, high_y, x, y, z);
                }
            }
        }
    }
}

impl Chunks {
    /// Offset from the first column of the window to the column where the
    /// spiral searches start: the middle of the larger of width and depth.
    pub open spec fn spiral_centre(&self) -> int {
        (self.planar_reach() - 1) / 2
    }

    /// The column `(x, z)` that cell number `k` of the spiral stands for.
    pub open spec fn column_of(&self, k: nat) -> (int, int) {
        (
            self.ox + self.spiral_centre() + spiral_cell(k).0,
            self.oz + self.spiral_centre() + spiral_cell(k).1,
        )
    }

    /// Column `(x, z)` lies inside the window and has no chunk at `y == 0`.
    pub open spec fn column_unloaded(&self, x: int, z: int) -> bool {
        self.in_area(x, 0, z) && self.chunk_at(x, 0, z) is None
    }

    /// The columns of the cells of the spiral before number `k` are loaded,
    /// where they lie inside the window.
    pub open spec fn columns_loaded(&self, k: nat) -> bool {
        forall|j: nat|
            j < k ==> !self.column_unloaded(
                (#[trigger] self.column_of(j)).0,
                self.column_of(j).1,
            )
    }

    /// `(x, z)` is the column of cell number `k`, it is unloaded, and no
    /// column before it on the spiral is.
    pub open spec fn first_unloaded_at(&self, k: nat, x: int, z: int) -> bool {
        &&& k < self.planar_reach() * self.planar_reach()
        &&& self.column_of(k) == (x, z)
        &&& self.column_unloaded(x, z)
        &&& self.columns_loaded(k)
    }

    /// What the search for an unloaded column answers for the cell
    /// `(cx, cz)` of the spiral.
    pub open spec fn unloaded_answer(&self, cx: int, cz: int) -> Option<(i32, i32)> {
        let x = self.ox + self.spiral_centre() + cx;
        let z = self.oz + self.spiral_centre() + cz;
        if self.column_unloaded(x, z) {
            Some((x as i32, z as i32))
        } else {
            None
        }
    }

    /// The column of the cell `(cx, cz)` of the spiral, if it lies inside the
    /// window and has no chunk at `y == 0`.
    fn unloaded_at(&self, cx: i32, cz: i32) -> (column: Option<(i32, i32)>)
        requires
            self.wf(),
        ensures
            column == self.unloaded_answer(cx as int, cz as int),
    {
        let reach: i64 = if self.depth >= self.width {
            self.depth as i64
        } else {
            self.width as i64
        };
        let centre: i64 = (reach - 1) / 2;
        let x: i64 = self.ox as i64 + centre + cx as i64;
        let z: i64 = self.oz as i64 + centre + cz as i64;
        if self.is_cell_in_area(x, 0, z) {
            let coords = ChunkCoords(x as i32, 0, z as i32);
            if self.chunk(coords).is_none() {
                return Some((x as i32, z as i32));
            }
        }
        None
    }

    /// The first column `(x, z)`, on a spiral outwards from the middle of the
    /// window, that has no chunk at `y == 0`; nothing if every column of the
    /// window has one.
    pub fn find_unloaded(&self) -> (found: Option<(i32, i32)>)
        requires
            self.wf(),
        ensures
            match found {
                Some((x, z)) => exists|k: nat| #[trigger]
                    self.first_unloaded_at(k, x as int, z as int),
                None => forall|x: int, z: int| !#[trigger] self.column_unloaded(x, z),
            },
    {
        let reach: i32 = if self.depth >= self.width {
            self.depth
        } else {
            self.width
        };
        let n: u32 = reach as u32;
        let probe = |cx: i32, cz: i32| -> (column: Option<(i32, i32)>)
            ensures
                column == self.unloaded_answer(cx as int, cz as int),
            { self.unloaded_at(cx, cz) };
        let found = clockwise_square_spiral(n, &probe);
        proof {
            assert(n * n == self.planar_reach() * self.planar_reach()) by (nonlinear_arith)
                requires
                    n == self.planar_reach(),
            ;
            match found {
                Some((x, z)) => {
                    let k = choose|k: nat| #[trigger]
                        spiral_stopped_at(&probe, n, k, (x, z));
                    assert(spiral_answer(&probe, k, Some((x, z))));
                    assert forall|j: nat| j < k implies !self.column_unloaded(
                        (#[trigger] self.column_of(j)).0,
                        self.column_of(j).1,
                    ) by {
                        assert(spiral_answer(&probe, j, None::<(i32, i32)>));
                        self.lemma_spiral_cell_fits(j);
                    }
                    self.lemma_spiral_cell_fits(k);
                    assert(self.first_unloaded_at(k, x as int, z as int));
                },
                None => {
                    assert forall|x: int, z: int| !#[trigger] self.column_unloaded(x, z) by {
                        if self.column_unloaded(x, z) {
                            let k = self.lemma_column_on_spiral(x, z);
                            assert(spiral_answer(&probe, k, None::<(i32, i32)>));
                        }
                    }
                },
            }
        }
        found
    }

    /// The chunk at `(x, y, z)` is loaded and stale, and its four neighbours
    /// along x and z are loaded: a mesh can be built for it.
    pub open spec fn needs_mesh(&self, x: int, y: int, z: int) -> bool {
        &&& self.chunk_at(x, y, z) matches Some(c) && c.modified
        &&& self.chunk_at(x - 1, y, z) is Some
        &&& self.chunk_at(x + 1, y, z) is Some
        &&& self.chunk_at(x, y, z - 1) is Some
        &&& self.chunk_at(x, y, z + 1) is Some
    }

    /// No chunk of column `(x, z)` below height `y` needs a mesh.
    pub open spec fn column_meshed_below(&self, x: int, z: int, y: int) -> bool {
        forall|y2: int| 0 <= y2 < y ==> !#[trigger] self.needs_mesh(x, y2, z)
    }

    /// No chunk in the columns of the cells of the spiral before number `k`
    /// needs a mesh.
    pub open spec fn columns_meshed(&self, k: nat) -> bool {
        forall|j: nat|
            j < k ==> self.column_meshed_below(
                (#[trigger] self.column_of(j)).0,
                self.column_of(j).1,
                self.height as int,
            )
    }

    /// `found` needs a mesh, it is the lowest such chunk of the column of
    /// cell number `k`, and no column before that on the spiral holds one.
    pub open spec fn first_unrendered_at(&self, k: nat, found: ChunkCoords) -> bool {
        &&& k < self.planar_reach() * self.planar_reach()
        &&& self.column_of(k) == (found.0 as int, found.2 as int)
        &&& self.needs_mesh(found.0 as int, found.1 as int, found.2 as int)
        &&& self.column_meshed_below(found.0 as int, found.2 as int, found.1 as int)
        &&& self.columns_meshed(k)
    }

    /// `answer` is a right answer of the search for a chunk to mesh for the
    /// cell `(cx, cz)` of the spiral: the lowest chunk of the column that
    /// needs a mesh, or nothing if the column has none.
    pub open spec fn unrendered_answer(&self, cx: int, cz: int, answer: Option<ChunkCoords>) -> bool {
        let x = self.ox + self.spiral_centre() + cx;
        let z = self.oz + self.spiral_centre() + cz;
        match answer {
            Some(c) => {
                &&& c.0 == x
                &&& c.2 == z
                &&& self.needs_mesh(x, c.1 as int, z)
                &&& self.column_meshed_below(x, z, c.1 as int)
            },
            None => self.column_meshed_below(x, z, self.height as int),
        }
    }

    /// Whether the chunk at `(x, y, z)` is loaded.
    fn is_loaded(&self, x: i64, y: i64, z: i64) -> (loaded: bool)
        requires
            self.wf(),
            -AXIS_LIMIT <= x <= AXIS_LIMIT,
            -AXIS_LIMIT <= z <= AXIS_LIMIT,
        ensures
            loaded == (self.chunk_at(x as int, y as int, z as int) is Some),
    {
        if self.is_cell_in_area(x, y, z) {
            self.chunk(ChunkCoords(x as i32, y as i32, z as i32)).is_some()
        } else {
            false
        }
    }

    /// The lowest chunk that needs a mesh in the column of the cell
    /// `(cx, cz)` of the spiral.
    fn unrendered_at(&self, cx: i32, cz: i32) -> (answer: Option<ChunkCoords>)
        requires
            self.wf(),
        ensures
            self.unrendered_answer(cx as int, cz as int, answer),
    {
        let reach: i64 = if self.depth >= self.width {
            self.depth as i64
        } else {
            self.width as i64
        };
        let centre: i64 = (reach - 1) / 2;
        let x: i64 = self.ox as i64 + centre + cx as i64;
        let z: i64 = self.oz as i64 + centre + cz as i64;
        if !self.is_cell_in_area(x, 0, z) {
            return None;
        }
        let mut y: i32 = 0;
        while y < self.height
            invariant
                self.wf(),
                0 <= y <= self.height,
                self.in_area(x as int, 0, z as int),
                x == self.ox + self.spiral_centre() + cx,
                z == self.oz + self.spiral_centre() + cz,
                self.column_meshed_below(x as int, z as int, y as int),
            decreases self.height - y,
        {
            let coords = ChunkCoords(x as i32, y, z as i32);
            let stale = match self.chunk(coords) {
                Some(c) => c.modified,
                None => false,
            };
            if stale && self.is_loaded(x - 1, y as i64, z) && self.is_loaded(x + 1, y as i64, z)
                && self.is_loaded(x, y as i64, z - 1) && self.is_loaded(x, y as i64, z + 1) {
                return Some(coords);
            }
            y += 1;
        }
        None
    }

    /// The first chunk, on a spiral of columns outwards from the middle of
    /// the window and upwards in each column, that is stale and has its four
    /// neighbours along x and z loaded; nothing if the window holds no such
    /// chunk.
    pub fn find_unrendered(&self) -> (found: Option<ChunkCoords>)
        requires
            self.wf(),
        ensures
            match found {
                Some(c) => exists|k: nat| #[trigger] self.first_unrendered_at(k, c),
                None => forall|x: int, y: int, z: int| !#[trigger] self.needs_mesh(x, y, z),
            },
    {
        let reach: i32 = if self.depth >= self.width {
            self.depth
        } else {
            self.width
        };
        let n: u32 = reach as u32;
        let probe = |cx: i32, cz: i32| -> (answer: Option<ChunkCoords>)
            ensures
                self.unrendered_answer(cx as int, cz as int, answer),
            { self.unrendered_at(cx, cz) };
        let found = clockwise_square_spiral(n, &probe);
        proof {
            assert(n * n == self.planar_reach() * self.planar_reach()) by (nonlinear_arith)
                requires
                    n == self.planar_reach(),
            ;
            match found {
                Some(c) => {
                    let k = choose|k: nat| #[trigger] spiral_stopped_at(&probe, n, k, c);
                    assert(spiral_answer(&probe, k, Some(c)));
                    assert forall|j: nat| j < k implies self.column_meshed_below(
                        (#[trigger] self.column_of(j)).0,
                        self.column_of(j).1,
                        self.height as int,
                    ) by {
                        assert(spiral_answer(&probe, j, None::<ChunkCoords>));
                        self.lemma_spiral_cell_fits(j);
                    }
                    self.lemma_spiral_cell_fits(k);
                    assert(self.first_unrendered_at(k, c));
                },
                None => {
                    assert forall|x: int, y: int, z: int| !#[trigger] self.needs_mesh(
                        x,
                        y,
                        z,
                    ) by {
                        if self.needs_mesh(x, y, z) {
                            let k = self.lemma_column_on_spiral(x, z);
                            assert(spiral_answer(&probe, k, None::<ChunkCoords>));
                            assert(self.column_meshed_below(x, z, self.height as int));
                        }
                    }
                },
            }
        }
        found
    }

    /// A cell of the spiral that stands for a column of the window fits an
    /// `i32` on both axes.
    proof fn lemma_spiral_cell_fits(&self, k: nat)
        requires
            self.wf(),
            k < self.planar_reach() * self.planar_reach(),
        ensures
            spiral_cell(k).0 as i32 == spiral_cell(k).0,
            spiral_cell(k).1 as i32 == spiral_cell(k).1,
            in_spiral_window(self.planar_reach(), spiral_cell(k).0, spiral_cell(k).1),
    {
        lemma_index_of_cell(k);
        lemma_window_is_prefix(self.planar_reach(), spiral_cell(k).0, spiral_cell(k).1);
    }

    /// Every column of the window is the column of one of the first cells of
    /// the spiral.
    proof fn lemma_column_on_spiral(&self, x: int, z: int) -> (k: nat)
        requires
            self.wf(),
            0 <= x - self.ox < self.width,
            0 <= z - self.oz < self.depth,
        ensures
            k < self.planar_reach() * self.planar_reach(),
            self.column_of(k) == (x, z),
            spiral_cell(k).0 as i32 == spiral_cell(k).0,
            spiral_cell(k).1 as i32 == spiral_cell(k).1,
    {
        let cx = x - self.ox - self.spiral_centre();
        let cz = z - self.oz - self.spiral_centre();
        lemma_window_is_prefix(self.planar_reach(), cx, cz);
        lemma_cell_of_index(cx, cz);
        spiral_index(cx, cz) as nat
    }
}

} // verus!
