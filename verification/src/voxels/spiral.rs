use vstd::prelude::*;

verus! {

/// Whether the spiral turns right at cell `(x, y)`: on the rising diagonal,
/// on the falling diagonal left of the centre, and one cell past the falling
/// diagonal right of it, where the path steps out to the next ring.
pub open spec fn turns_at(x: int, y: int) -> bool {
    x == y || (x < 0 && x == -y) || (x > 0 && x == 1 - y)
}

/// The direction in which the spiral leaves cell `(x, y)` that it reached in
/// direction `(dx, dy)`.
pub open spec fn leaving(x: int, y: int, dx: int, dy: int) -> (int, int) {
    if turns_at(x, y) {
        (-dy, dx)
    } else {
        (dx, dy)
    }
}

/// Cell number `k` of the spiral and the direction in which it was reached,
/// as `(x, y, dx, dy)`. The spiral starts at the centre `(0, 0)`, steps to
/// `(1, 0)` and winds outwards: towards rising y, falling x, falling y, then
/// rising x.
pub open spec fn spiral_state(k: nat) -> (int, int, int, int)
    decreases k,
{
    if k == 0 {
        (0, 0, 0, -1)
    } else {
        let (x, y, dx, dy) = spiral_state((k - 1) as nat);
        let (dx2, dy2) = leaving(x, y, dx, dy);
        (x + dx2, y + dy2, dx2, dy2)
    }
}

/// Cell number `k` of the spiral.
pub open spec fn spiral_cell(k: nat) -> (int, int) {
    (spiral_state(k).0, spiral_state(k).1)
}

/// The ring of cell `(x, y)`: its distance from the centre, the larger of
/// the two axes.
pub open spec fn ring_of(x: int, y: int) -> int {
    let ax = if x >= 0 {
        x
    } else {
        -x
    };
    let ay = if y >= 0 {
        y
    } else {
        -y
    };
    if ax >= ay {
        ax
    } else {
        ay
    }
}

/// Number of cells inside ring `r`: the square of side `2r - 1`.
pub open spec fn ring_base(r: int) -> int {
    (2 * r - 1) * (2 * r - 1)
}

/// The number of the cell `(x, y)` on the spiral, in closed form: the cells
/// inside its ring, then its place on the ring, which starts one cell above
/// the lower right corner and runs down the right side, along the bottom, up
/// the left side and along the top.
pub open spec fn spiral_index(x: int, y: int) -> int {
    let r = ring_of(x, y);
    if r == 0 {
        0
    } else if x == r && y > -r {
        ring_base(r) + (y + r - 1)
    } else if y == r {
        ring_base(r) + 2 * r + (r - 1 - x)
    } else if x == -r {
        ring_base(r) + 4 * r + (r - 1 - y)
    } else {
        ring_base(r) + 6 * r + (x + r - 1)
    }
}

/// The direction in which the spiral reaches cell `(x, y)`.
pub open spec fn arrival(x: int, y: int) -> (int, int) {
    let r = ring_of(x, y);
    if r == 0 {
        (0, -1)
    } else if x == r && y > -r {
        if y == 1 - r {
            (1, 0)
        } else {
            (0, 1)
        }
    } else if y == r {
        (-1, 0)
    } else if x == -r {
        (0, -1)
    } else {
        (1, 0)
    }
}

/// The window of side `n` that the first `n * n` cells of the spiral fill:
/// centred for odd `n`, one cell larger towards rising x and y for even `n`.
pub open spec fn in_spiral_window(n: int, x: int, y: int) -> bool {
    &&& n > 0
    &&& -((n - 1) / 2) <= x <= n / 2
    &&& -((n - 1) / 2) <= y <= n / 2
}

/// Ring `r + 1` starts `8r` cells after ring `r`.
pub proof fn lemma_ring_base_step(r: int)
    ensures
        ring_base(r + 1) == ring_base(r) + 8 * r,
{
    assert((2 * (r + 1) - 1) * (2 * (r + 1) - 1) == (2 * r - 1) * (2 * r - 1) + 8 * r)
        by (nonlinear_arith);
}

/// A ring further out starts later.
pub proof fn lemma_ring_base_monotonic(a: int, b: int)
    requires
        1 <= a <= b,
    ensures
        ring_base(a) <= ring_base(b),
{
    assert((2 * a - 1) * (2 * a - 1) <= (2 * b - 1) * (2 * b - 1)) by (nonlinear_arith)
        requires
            1 <= a <= b,
    ;
}

/// The numbers of the cells of ring `r` are the `8r` numbers from
/// `ring_base(r)` on.
pub proof fn lemma_index_in_ring(x: int, y: int)
    ensures
        ring_of(x, y) == 0 ==> spiral_index(x, y) == 0,
        ring_of(x, y) > 0 ==> ring_base(ring_of(x, y)) <= spiral_index(x, y) < ring_base(
            ring_of(x, y) + 1,
        ),
        0 <= spiral_index(x, y),
{
    let r = ring_of(x, y);
    lemma_ring_base_step(r);
    if r > 0 {
        lemma_ring_base_monotonic(1, r);
        assert(ring_base(1) == 1) by (nonlinear_arith);
    }
}

/// One step of the spiral leads from a cell to the cell with the next
/// number.
pub proof fn lemma_spiral_step(x: int, y: int)
    ensures
        ({
            let (dx, dy) = arrival(x, y);
            let (dx2, dy2) = leaving(x, y, dx, dy);
            &&& spiral_index(x + dx2, y + dy2) == spiral_index(x, y) + 1
            &&& arrival(x + dx2, y + dy2) == (dx2, dy2)
        }),
{
    let r = ring_of(x, y);
    lemma_ring_base_step(r);
    assert(ring_base(1) == 1) by (nonlinear_arith);
}

/// Cell number `k` of the spiral has the number `k`, and was reached in the
/// direction that its place on its ring gives.
pub proof fn lemma_index_of_cell(k: nat)
    ensures
        spiral_index(spiral_cell(k).0, spiral_cell(k).1) == k,
        arrival(spiral_cell(k).0, spiral_cell(k).1) == (spiral_state(k).2, spiral_state(k).3),
    decreases k,
{
    if k > 0 {
        lemma_index_of_cell((k - 1) as nat);
        let (x, y, dx, dy) = spiral_state((k - 1) as nat);
        lemma_spiral_step(x, y);
    }
}

/// Two cells with one number are one cell.
pub proof fn lemma_index_injective(x1: int, y1: int, x2: int, y2: int)
    requires
        spiral_index(x1, y1) == spiral_index(x2, y2),
    ensures
        x1 == x2,
        y1 == y2,
{
    let r1 = ring_of(x1, y1);
    let r2 = ring_of(x2, y2);
    lemma_index_in_ring(x1, y1);
    lemma_index_in_ring(x2, y2);
    assert(ring_base(1) == 1) by (nonlinear_arith);
    if r1 < r2 {
        lemma_ring_base_monotonic(r1 + 1, r2);
    } else if r2 < r1 {
        lemma_ring_base_monotonic(r2 + 1, r1);
    }
}

/// The cell whose number is the number of `(x, y)` is `(x, y)`: the spiral
/// reaches every cell of the plane.
pub proof fn lemma_cell_of_index(x: int, y: int)
    ensures
        0 <= spiral_index(x, y),
        spiral_cell(spiral_index(x, y) as nat) == (x, y),
{
    lemma_index_in_ring(x, y);
    let k = spiral_index(x, y) as nat;
    lemma_index_of_cell(k);
    lemma_index_injective(spiral_cell(k).0, spiral_cell(k).1, x, y);
}

/// The cells of the window of side `n` are the cells with the numbers below
/// `n * n`.
pub proof fn lemma_window_is_prefix(n: int, x: int, y: int)
    requires
        0 <= n,
    ensures
        in_spiral_window(n, x, y) <==> spiral_index(x, y) < n * n,
{
    let r = ring_of(x, y);
    let m = n / 2;
    lemma_index_in_ring(x, y);
    lemma_ring_base_step(m);
    assert(ring_base(1) == 1) by (nonlinear_arith);
    if n == 0 {
        assert(n * n == 0);
    } else if n % 2 == 1 {
        assert(n * n == ring_base(m + 1)) by (nonlinear_arith)
            requires
                n == 2 * m + 1,
                ring_base(m + 1) == (2 * (m + 1) - 1) * (2 * (m + 1) - 1),
        ;
        if r > m {
            lemma_ring_base_monotonic(m + 1, r);
        } else if r > 0 {
            lemma_ring_base_monotonic(r + 1, m + 1);
        }
    } else {
        assert(n * n == ring_base(m) + 4 * m - 1) by (nonlinear_arith)
            requires
                n == 2 * m,
                ring_base(m) == (2 * m - 1) * (2 * m - 1),
        ;
        if r > m {
            lemma_ring_base_monotonic(m + 1, r);
        } else if r < m {
            if r > 0 {
                lemma_ring_base_monotonic(r + 1, m);
            }
        }
    }
}

/// The first `n * n` cells of the spiral are the cells of the window of side
/// `n`, each of them once: every one of these cells lies in the window, no two
/// of them are the same, and every cell of the window is one of them. The
/// order is that of [`spiral_cell`], the same on every walk.
pub proof fn lemma_spiral_visits_window_once(n: nat)
    ensures
        forall|k: nat|
            k < n * n ==> in_spiral_window(
                n as int,
                (#[trigger] spiral_cell(k)).0,
                spiral_cell(k).1,
            ),
        forall|j: nat, k: nat| #[trigger]
            spiral_cell(j) == #[trigger] spiral_cell(k) ==> j == k,
        forall|x: int, y: int|
            in_spiral_window(n as int, x, y) ==> 0 <= #[trigger] spiral_index(x, y) < n * n
                && spiral_cell(spiral_index(x, y) as nat) == (x, y),
{
    assert forall|k: nat| k < n * n implies in_spiral_window(
        n as int,
        (#[trigger] spiral_cell(k)).0,
        spiral_cell(k).1,
    ) by {
        lemma_index_of_cell(k);
        lemma_window_is_prefix(n as int, spiral_cell(k).0, spiral_cell(k).1);
    }
    assert forall|j: nat, k: nat| #[trigger] spiral_cell(j) == #[trigger] spiral_cell(k) implies j
        == k by {
        lemma_index_of_cell(j);
        lemma_index_of_cell(k);
    }
    assert forall|x: int, y: int| in_spiral_window(n as int, x, y) implies 0
        <= #[trigger] spiral_index(x, y) < n * n && spiral_cell(spiral_index(x, y) as nat) == (
        x,
        y,
    ) by {
        lemma_window_is_prefix(n as int, x, y);
        lemma_cell_of_index(x, y);
    }
}

/// The callback, asked about cell number `k` of the spiral, gave `answer`.
pub open spec fn spiral_answer<T, F: Fn(i32, i32) -> Option<T>>(
    f: &F,
    k: nat,
    answer: Option<T>,
) -> bool {
    call_ensures(*f, (spiral_cell(k).0 as i32, spiral_cell(k).1 as i32), answer)
}

/// The callback gave nothing for every cell of the spiral before number `k`.
pub open spec fn spiral_passed<T, F: Fn(i32, i32) -> Option<T>>(f: &F, k: nat) -> bool {
    forall|j: nat| j < k ==> #[trigger] spiral_answer(f, j, None::<T>)
}

/// `value` is what the callback gave for cell number `k`, the first cell of
/// the window of side `n` for which it gave anything.
pub open spec fn spiral_stopped_at<T, F: Fn(i32, i32) -> Option<T>>(
    f: &F,
    n: u32,
    k: nat,
    value: T,
) -> bool {
    &&& k < n * n
    &&& spiral_answer(f, k, Some(value))
    &&& spiral_passed(f, k)
}

/// Walks the window of side `n` round `(0, 0)` in a square spiral from the
/// centre outwards, asks the callback about each cell, and stops at the
/// first cell for which the callback gives something.
///
/// The walk makes at most `n * n` calls, one for each cell of the window,
/// in the order of [`spiral_cell`].
pub fn clockwise_square_spiral<T, F>(n: u32, f: &F) -> (found: Option<T>) where
    F: Fn(i32, i32) -> Option<T>,

    requires
        forall|x: i32, y: i32| in_spiral_window(n as int, x as int, y as int) ==> call_requires(*f, (x, y)),
    ensures
        match found {
            Some(value) => exists|k: nat| #[trigger] spiral_stopped_at(f, n, k, value),
            None => spiral_passed(f, (n * n) as nat),
        },
{
    assert(0 <= n * n <= 0xffff_ffff * 0xffff_ffff) by (nonlinear_arith)
        requires
            0 <= n <= 0xffff_ffff,
    ;
    let cells: u64 = (n as u64) * (n as u64);
    let mut x: i64 = 0;
    let mut y: i64 = 0;
    let mut dx: i64 = 0;
    let mut dy: i64 = -1;
    let mut k: u64 = 0;
    while k < cells
        invariant
            cells == n * n,
            0 <= k <= cells,
            (x as int, y as int, dx as int, dy as int) == spiral_state(k as nat),
            -1 <= dx <= 1,
            -1 <= dy <= 1,
            forall|x: i32, y: i32|
                in_spiral_window(n as int, x as int, y as int) ==> call_requires(*f, (x, y)),
            spiral_passed(f, k as nat),
        decreases cells - k,
    {
        proof {
            lemma_index_of_cell(k as nat);
            lemma_window_is_prefix(n as int, x as int, y as int);
        }
        let answer = f(x as i32, y as i32);
        if let Some(value) = answer {
            assert(spiral_stopped_at(f, n, k as nat, value));
            return Some(value);
        }
        assert(spiral_answer(f, k as nat, None::<T>));
        if x == y || (x < 0 && x == -y) || (x > 0 && x == 1 - y) {
            let turned = -dy;
            dy = dx;
            dx = turned;
        }
        x = x + dx;
        y = y + dy;
        k = k + 1;
    }
    None
}

} // verus!
