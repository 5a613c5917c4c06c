//! Stroke comparison for recognising a hand-drawn symbol: squared distances
//! between points and the directed Hausdorff distance between two drawings.
//! A drawing is a flat list of coordinates `[x0, y0, x1, y1, ...]`, read as
//! the points `(x0, y0)`, `(x1, y1)`, ...; its length is even.

use vstd::prelude::*;

verus! {

/// A point of a drawing.
pub struct Point(u32, u32);

/// Errors of the recogniser.
pub enum InternalError {
    /// number of points is not high enough
    NotEnoughPoints,
    /// length of vector is not a multiple of 2
    ImproperData(u32),
}

/// `a + b`.
pub fn add_two_numbers(a: u64, b: u64) -> (r: u64)
    requires
        a + b <= u64::MAX,
    ensures
        r == a + b,
{
    a + b
}

/// `n`, its square and its cube.
pub fn get_powers(n: u32) -> (r: Vec<u32>)
    requires
        n * n * n <= u32::MAX,
    ensures
        r@ == seq![n, (n * n) as u32, (n * n * n) as u32],
{
    assert(n * n <= n * n * n) by (nonlinear_arith)
        requires
            n * n * n <= u32::MAX,
    {
        if n > 0 {
            assert(n * n * 1 <= n * n * n);
        }
    }
    let square = n * n;
    let cube = square * n;
    let mut r: Vec<u32> = Vec::new();
    r.push(n);
    r.push(square);
    r.push(cube);
    assert(r@ =~= seq![n, (n * n) as u32, (n * n * n) as u32]);
    r
}

/// The squared Euclidean distance between `(x_1, y_1)` and `(x_2, y_2)`.
pub open spec fn squared_distance(x_1: int, y_1: int, x_2: int, y_2: int) -> int {
    (x_1 - x_2) * (x_1 - x_2) + (y_1 - y_2) * (y_1 - y_2)
}

/// The Euclidean distance between two points, squared (no square root is taken).
pub fn euclidian_distance(x_1: u32, y_1: u32, x_2: u32, y_2: u32) -> (r: u32)
    requires
        squared_distance(x_1 as int, y_1 as int, x_2 as int, y_2 as int) <= u32::MAX,
    ensures
        r == squared_distance(x_1 as int, y_1 as int, x_2 as int, y_2 as int),
{
    let dx: u64 = if x_1 >= x_2 { (x_1 - x_2) as u64 } else { (x_2 - x_1) as u64 };
    let dy: u64 = if y_1 >= y_2 { (y_1 - y_2) as u64 } else { (y_2 - y_1) as u64 };
    assert(dx * dx == (x_1 - x_2) * (x_1 - x_2)) by (nonlinear_arith)
        requires
            dx == x_1 - x_2 || dx == x_2 - x_1,
    ;
    assert(dy * dy == (y_1 - y_2) * (y_1 - y_2)) by (nonlinear_arith)
        requires
            dy == y_1 - y_2 || dy == y_2 - y_1,
    ;
    assert(0 <= dx * dx && 0 <= dy * dy) by (nonlinear_arith);
    let sum = dx * dx + dy * dy;
    sum as u32
}

/// The number of points of a drawing of `len` coordinates.
pub open spec fn point_count(len: int) -> int {
    len / 2
}

/// The squared distance from `(x, y)` to point `j` of drawing `q`.
pub open spec fn distance_to_point(x: int, y: int, q: Seq<u32>, j: int) -> int {
    squared_distance(x, y, q[2 * j] as int, q[2 * j + 1] as int)
}

/// The smallest squared distance from the point `(x, y)` to the first `k`
/// points of `q`; `u32::MAX` when there are none.
pub open spec fn nearest(x: int, y: int, q: Seq<u32>, k: int) -> int
    decreases k,
{
    if k <= 0 {
        u32::MAX as int
    } else {
        let d = distance_to_point(x, y, q, k - 1);
        let m = nearest(x, y, q, k - 1);
        if d < m { d } else { m }
    }
}

/// The largest, over the first `k` points of `p`, of the distance to the
/// nearest point of `q`; zero when there are none.
pub open spec fn farthest(p: Seq<u32>, q: Seq<u32>, k: int) -> int
    decreases k,
{
    if k <= 0 {
        0
    } else {
        let d = nearest(p[2 * (k - 1)] as int, p[2 * (k - 1) + 1] as int, q, point_count(q.len() as int));
        let m = farthest(p, q, k - 1);
        if m < d { d } else { m }
    }
}

/// The directed Hausdorff distance from drawing `p` to drawing `q`, squared:
/// the largest distance from a point of `p` to its nearest point of `q`.
pub open spec fn directed_hausdorff(p: Seq<u32>, q: Seq<u32>) -> int {
    farthest(p, q, point_count(p.len() as int))
}

/// Every pair of points of the two drawings is within a squared distance
/// that a `u32` holds.
pub open spec fn distances_fit(p: Seq<u32>, q: Seq<u32>) -> bool {
    forall|i: int, j: int|
        0 <= i < point_count(p.len() as int) && 0 <= j < point_count(q.len() as int)
            ==> #[trigger] distance_to_point(p[2 * i] as int, p[2 * i + 1] as int, q, j)
            <= u32::MAX
}

/// The largest, over the points of `p_1`, of the squared distance to the
/// nearest point of `p_2` (max min Euclidean distance).
pub fn hausdorff_distance(p_1: &[u32], p_2: &[u32]) -> (r: u32)
    requires
        p_1@.len() % 2 == 0,
        p_2@.len() % 2 == 0,
        distances_fit(p_1@, p_2@),
    ensures
        r == directed_hausdorff(p_1@, p_2@),
{
    let n1: usize = p_1.len() / 2;
    let n2: usize = p_2.len() / 2;
    let mut cur_max: u32 = 0;
    for i in 0..n1
        invariant
            n1 == point_count(p_1@.len() as int),
            n2 == point_count(p_2@.len() as int),
            n1 == p_1.len() / 2,
            n2 == p_2.len() / 2,
            p_1@.len() % 2 == 0,
            p_2@.len() % 2 == 0,
            distances_fit(p_1@, p_2@),
            cur_max == farthest(p_1@, p_2@, i as int),
    {
        let x_1 = p_1[2 * i];
        let y_1 = p_1[2 * i + 1];
        let mut cur_min: u32 = u32::MAX;
        for j in 0..n2
            invariant
                n1 == point_count(p_1@.len() as int),
                n2 == point_count(p_2@.len() as int),
                n1 == p_1.len() / 2,
                n2 == p_2.len() / 2,
                p_2@.len() % 2 == 0,
                i < n1,
                x_1 == p_1@[2 * i],
                y_1 == p_1@[2 * i + 1],
                distances_fit(p_1@, p_2@),
                cur_min == nearest(x_1 as int, y_1 as int, p_2@, j as int),
        {
            assert(distance_to_point(p_1@[2 * i] as int, p_1@[2 * i + 1] as int, p_2@, j as int) <= u32::MAX);
            let ed = euclidian_distance(x_1, y_1, p_2[2 * j], p_2[2 * j + 1]);
            if ed < cur_min {
                cur_min = ed;
            }
        }
        if cur_max < cur_min {
            cur_max = cur_min;
        }
    }
    cur_max
}

/// Compares a drawing against the table of reference drawings (currently empty).
pub fn best_distances(num_distances: u32, p_1: &[u32]) {
    let char_distances: Vec<(Vec<u32>, String)> = Vec::new();
    for k in 0..char_distances.len()
        invariant
            char_distances@.len() == 0,
    {
        let distance = hausdorff_distance(p_1, char_distances[k].0.as_slice());
    }
}

/// The squared distance is symmetric.
pub proof fn euclidian_distance_symmetric(x_1: int, y_1: int, x_2: int, y_2: int)
    ensures
        squared_distance(x_1, y_1, x_2, y_2) == squared_distance(x_2, y_2, x_1, y_1),
{
    assert((x_1 - x_2) * (x_1 - x_2) == (x_2 - x_1) * (x_2 - x_1)) by (nonlinear_arith);
    assert((y_1 - y_2) * (y_1 - y_2) == (y_2 - y_1) * (y_2 - y_1)) by (nonlinear_arith);
}

/// A point is at distance zero from itself, and at a positive distance from any other point.
pub proof fn euclidian_distance_zero_iff_same(x_1: int, y_1: int, x_2: int, y_2: int)
    ensures
        (squared_distance(x_1, y_1, x_2, y_2) == 0) <==> (x_1 == x_2 && y_1 == y_2),
{
    assert((x_1 - x_2) * (x_1 - x_2) >= 0) by (nonlinear_arith);
    assert((y_1 - y_2) * (y_1 - y_2) >= 0) by (nonlinear_arith);
    assert(x_1 != x_2 ==> (x_1 - x_2) * (x_1 - x_2) > 0) by (nonlinear_arith);
    assert(y_1 != y_2 ==> (y_1 - y_2) * (y_1 - y_2) > 0) by (nonlinear_arith);
    assert(x_1 == x_2 ==> (x_1 - x_2) * (x_1 - x_2) == 0) by (nonlinear_arith);
    assert(y_1 == y_2 ==> (y_1 - y_2) * (y_1 - y_2) == 0) by (nonlinear_arith);
}

proof fn lemma_distance_nonnegative(x: int, y: int, a: int, b: int)
    ensures
        squared_distance(x, y, a, b) >= 0,
{
    assert((x - a) * (x - a) >= 0) by (nonlinear_arith);
    assert((y - b) * (y - b) >= 0) by (nonlinear_arith);
}

proof fn nearest_nonnegative(x: int, y: int, q: Seq<u32>, k: int)
    ensures
        nearest(x, y, q, k) >= 0,
    decreases k,
{
    if k > 0 {
        nearest_nonnegative(x, y, q, k - 1);
        lemma_distance_nonnegative(x, y, q[2 * (k - 1)] as int, q[2 * (k - 1) + 1] as int);
    }
}

/// The nearest distance is at most the distance to each of the points considered.
proof fn lemma_nearest_at_most(x: int, y: int, q: Seq<u32>, k: int, j: int)
    requires
        0 <= j < k,
    ensures
        nearest(x, y, q, k) <= distance_to_point(x, y, q, j),
    decreases k,
{
    if j < k - 1 {
        lemma_nearest_at_most(x, y, q, k - 1, j);
    }
}

proof fn lemma_nearest_at_most_max(x: int, y: int, q: Seq<u32>, k: int)
    ensures
        nearest(x, y, q, k) <= u32::MAX,
    decreases k,
{
    if k > 0 {
        lemma_nearest_at_most_max(x, y, q, k - 1);
    }
}

proof fn lemma_nearest_self(p: Seq<u32>, i: int)
    requires
        0 <= i < point_count(p.len() as int),
    ensures
        nearest(p[2 * i] as int, p[2 * i + 1] as int, p, point_count(p.len() as int)) == 0,
{
    let x = p[2 * i] as int;
    let y = p[2 * i + 1] as int;
    euclidian_distance_zero_iff_same(x, y, x, y);
    lemma_nearest_at_most(x, y, p, point_count(p.len() as int), i);
    nearest_nonnegative(x, y, p, point_count(p.len() as int));
}

proof fn lemma_farthest_self(p: Seq<u32>, k: int)
    requires
        0 <= k <= point_count(p.len() as int),
    ensures
        farthest(p, p, k) == 0,
    decreases k,
{
    if k > 0 {
        lemma_farthest_self(p, k - 1);
        lemma_nearest_self(p, k - 1);
    }
}

/// A drawing is at distance zero from itself.
pub proof fn hausdorff_distance_to_itself(p: Seq<u32>)
    ensures
        directed_hausdorff(p, p) == 0,
{
    lemma_farthest_self(p, point_count(p.len() as int));
}

/// The first coordinate of point `j` of drawing `q`.
pub open spec fn point_x(q: Seq<u32>, j: int) -> u32 {
    q[2 * j]
}

/// The second coordinate of point `j` of drawing `q`.
pub open spec fn point_y(q: Seq<u32>, j: int) -> u32 {
    q[2 * j + 1]
}

/// Every point of `q` is also a point of `q2`.
pub open spec fn points_included(q: Seq<u32>, q2: Seq<u32>) -> bool {
    forall|j: int|
        #![trigger point_x(q, j)]
        0 <= j < point_count(q.len() as int) ==> exists|j2: int|
            #![trigger point_x(q2, j2)]
            0 <= j2 < point_count(q2.len() as int) && point_x(q2, j2) == point_x(q, j) && point_y(
                q2,
                j2,
            ) == point_y(q, j)
}

proof fn lemma_nearest_more_points(x: int, y: int, q: Seq<u32>, q2: Seq<u32>, k: int)
    requires
        points_included(q, q2),
        k <= point_count(q.len() as int),
    ensures
        nearest(x, y, q2, point_count(q2.len() as int)) <= nearest(x, y, q, k),
    decreases k,
{
    if k <= 0 {
        lemma_nearest_at_most_max(x, y, q2, point_count(q2.len() as int));
    } else {
        lemma_nearest_more_points(x, y, q, q2, k - 1);
        let j = k - 1;
        assert(0 <= j < point_count(q.len() as int));
        let px = point_x(q, j);
        let j2 = choose|j2: int|
            #![trigger point_x(q2, j2)]
            0 <= j2 < point_count(q2.len() as int) && point_x(q2, j2) == px && point_y(q2, j2)
                == point_y(q, j);
        lemma_nearest_at_most(x, y, q2, point_count(q2.len() as int), j2);
    }
}

proof fn lemma_farthest_more_points(p: Seq<u32>, q: Seq<u32>, q2: Seq<u32>, k: int)
    requires
        points_included(q, q2),
    ensures
        farthest(p, q2, k) <= farthest(p, q, k),
    decreases k,
{
    if k > 0 {
        lemma_farthest_more_points(p, q, q2, k - 1);
        lemma_nearest_more_points(
            p[2 * (k - 1)] as int,
            p[2 * (k - 1) + 1] as int,
            q,
            q2,
            point_count(q.len() as int),
        );
    }
}

/// Giving the second drawing more points can only bring it closer.
pub proof fn hausdorff_distance_more_points(p: Seq<u32>, q: Seq<u32>, q2: Seq<u32>)
    requires
        points_included(q, q2),
    ensures
        directed_hausdorff(p, q2) <= directed_hausdorff(p, q),
{
    lemma_farthest_more_points(p, q, q2, point_count(p.len() as int));
}

} // verus!
