//! Marching squares for the skirts that close the seams between chunks.
//!
//! A square has four corners, numbered counter clockwise from 0, and four
//! edges: edge `j` joins corner `j` to corner `(j + 1) % 4`. Around the square
//! the eight points are numbered `0..8`: even numbers are the corners
//! (`2 * j` is corner `j`), odd numbers the edges (`2 * j + 1` is the point
//! where the surface crosses edge `j`). A corner is inside the terrain when
//! its density is at most zero; the case of a square is the bit set of its
//! inside corners.
use vstd::prelude::*;

verus! {

/// A point of a skirt triangle: a corner of the square, or the crossing on
/// one of its edges.
#[derive(Clone, Copy, PartialEq, Eq, Structural, Debug)]
pub enum SkirtPoint {
    Corner(u8),
    Edge(u8),
}

/// The case of a square whose corner `j` is inside where `inside[j]`.
pub open spec fn spec_square_case(inside: [bool; 4]) -> nat {
    (if inside[0] { 1nat } else { 0nat }) + (if inside[1] { 2nat } else { 0nat }) + (if inside[2] {
        4nat
    } else {
        0nat
    }) + (if inside[3] { 8nat } else { 0nat })
}

/// Whether corner `j` is inside in case `case`.
pub open spec fn corner_inside(case: nat, j: nat) -> bool {
    if j == 0 {
        case % 2 == 1
    } else if j == 1 {
        (case / 2) % 2 == 1
    } else if j == 2 {
        (case / 4) % 2 == 1
    } else {
        (case / 8) % 2 == 1
    }
}

/// Whether the surface crosses edge `j` in case `case`: one end inside, the
/// other not, in a square that is not wholly inside.
pub open spec fn edge_crosses(case: nat, j: nat) -> bool {
    case != 15 && corner_inside(case, j) != corner_inside(case, (j + 1) % 4)
}

/// The case of a square, from which of its corners are inside.
pub fn square_case(inside: [bool; 4]) -> (r: u8)
    ensures
        r == spec_square_case(inside),
{
    let mut case: u8 = 0;
    if inside[0] {
        case = case + 1;
    }
    if inside[1] {
        case = case + 2;
    }
    if inside[2] {
        case = case + 4;
    }
    if inside[3] {
        case = case + 8;
    }
    case
}

/// The case of a square that needs a skirt, or `None`: a square with no
/// inside corner needs none, nor does a square wholly inside unless `force`
/// (its densities are close enough to the surface).
pub fn calculate_marching_square_case(inside: [bool; 4], force: bool) -> (r: Option<u8>)
    ensures
        r == (if spec_square_case(inside) == 0 || (spec_square_case(inside) == 15 && !force) {
            None
        } else {
            Some(spec_square_case(inside) as u8)
        }),
{
    let case = square_case(inside);
    if case == 0 || (case == 15 && !force) {
        None
    } else {
        Some(case)
    }
}

/// Which edges of the square the surface crosses in case `case`, each of
/// which gets an interpolated point.
pub fn crossing_edges(case: u8) -> (r: [bool; 4])
    requires
        case < 16,
    ensures
        forall|j: int| 0 <= j < 4 ==> #[trigger] r[j] == edge_crosses(case as nat, j as nat),
{
    let c0 = case % 2 == 1;
    let c1 = (case / 2) % 2 == 1;
    let c2 = (case / 4) % 2 == 1;
    let c3 = (case / 8) % 2 == 1;
    if case == 15 {
        [false, false, false, false]
    } else {
        [c0 != c1, c1 != c2, c2 != c3, c3 != c0]
    }
}

/// The triangles of case `case`, three points each, by their numbers
/// around the square.
pub open spec fn spec_case_triangles(case: nat) -> Seq<u8> {
    if case == 1 {
        seq![0u8, 7, 1]
    } else if case == 2 {
        seq![1u8, 3, 2]
    } else if case == 3 {
        seq![0u8, 7, 2, 2, 7, 3]
    } else if case == 4 {
        seq![3u8, 5, 4]
    } else if case == 5 {
        seq![7u8, 6, 5, 1, 3, 2, 1, 7, 3, 3, 7, 5]
    } else if case == 6 {
        seq![2u8, 1, 5, 2, 5, 4]
    } else if case == 7 {
        seq![2u8, 0, 7, 2, 5, 4, 2, 7, 5]
    } else if case == 8 {
        seq![7u8, 6, 5]
    } else if case == 9 {
        seq![1u8, 0, 6, 6, 5, 1]
    } else if case == 10 {
        seq![7u8, 6, 5, 2, 1, 3, 1, 7, 3, 3, 7, 5]
    } else if case == 11 {
        seq![0u8, 6, 5, 0, 3, 2, 0, 5, 3]
    } else if case == 12 {
        seq![7u8, 6, 3, 3, 6, 4]
    } else if case == 13 {
        seq![6u8, 4, 3, 6, 1, 0, 6, 3, 1]
    } else if case == 14 {
        seq![4u8, 7, 6, 4, 2, 1, 4, 1, 7]
    } else if case == 15 {
        seq![0u8, 6, 2, 6, 4, 2]
    } else {
        Seq::empty()
    }
}

/// The point with number `i` around the square.
pub open spec fn spec_point(i: u8) -> SkirtPoint {
    if i % 2 == 0 {
        SkirtPoint::Corner(i / 2)
    } else {
        SkirtPoint::Edge(((i - 1) / 2) as u8)
    }
}

/// The triangles with the first and third point of each swapped where
/// `flip`, which turns each triangle over.
pub open spec fn flipped(s: Seq<u8>, flip: bool) -> Seq<u8> {
    if flip {
        Seq::new(
            s.len(),
            |k: int|
                if k % 3 == 0 && k + 2 < s.len() {
                    s[k + 2]
                } else if k % 3 == 2 {
                    s[k - 2]
                } else {
                    s[k]
                },
        )
    } else {
        s
    }
}

/// The points of the skirt triangles of a square in case `case`, turned
/// over where `flip`.
pub open spec fn spec_skirt(case: nat, flip: bool) -> Seq<SkirtPoint> {
    let s = flipped(spec_case_triangles(case), flip);
    Seq::new(s.len(), |k: int| spec_point(s[k]))
}

/// The triangles of case `case`, three point numbers each.
pub fn case_triangles(case: u8) -> (r: Vec<u8>)
    requires
        case < 16,
    ensures
        r@ == spec_case_triangles(case as nat),
{
    let r = if case == 1 {
        vec![0u8, 7, 1]
    } else if case == 2 {
        vec![1u8, 3, 2]
    } else if case == 3 {
        vec![0u8, 7, 2, 2, 7, 3]
    } else if case == 4 {
        vec![3u8, 5, 4]
    } else if case == 5 {
        vec![7u8, 6, 5, 1, 3, 2, 1, 7, 3, 3, 7, 5]
    } else if case == 6 {
        vec![2u8, 1, 5, 2, 5, 4]
    } else if case == 7 {
        vec![2u8, 0, 7, 2, 5, 4, 2, 7, 5]
    } else if case == 8 {
        vec![7u8, 6, 5]
    } else if case == 9 {
        vec![1u8, 0, 6, 6, 5, 1]
    } else if case == 10 {
        vec![7u8, 6, 5, 2, 1, 3, 1, 7, 3, 3, 7, 5]
    } else if case == 11 {
        vec![0u8, 6, 5, 0, 3, 2, 0, 5, 3]
    } else if case == 12 {
        vec![7u8, 6, 3, 3, 6, 4]
    } else if case == 13 {
        vec![6u8, 4, 3, 6, 1, 0, 6, 3, 1]
    } else if case == 14 {
        vec![4u8, 7, 6, 4, 2, 1, 4, 1, 7]
    } else if case == 15 {
        vec![0u8, 6, 2, 6, 4, 2]
    } else {
        Vec::new()
    };
    proof {
        assert(r@ =~= spec_case_triangles(case as nat));
    }
    r
}

/// The point with number `i` around the square.
pub fn point(i: u8) -> (r: SkirtPoint)
    requires
        i < 8,
    ensures
        r == spec_point(i),
{
    if i % 2 == 0 {
        SkirtPoint::Corner(i / 2)
    } else {
        SkirtPoint::Edge((i - 1) / 2)
    }
}

/// The three points of a triangle given by their numbers.
pub fn create_triangle(li: [u8; 3]) -> (r: [SkirtPoint; 3])
    requires
        li[0] < 8,
        li[1] < 8,
        li[2] < 8,
    ensures
        r[0] == spec_point(li[0]),
        r[1] == spec_point(li[1]),
        r[2] == spec_point(li[2]),
{
    [point(li[0]), point(li[1]), point(li[2])]
}

/// The points of the skirt triangles of a square in case `case`, three per
/// triangle, each triangle turned over where `flip`, as the skirt builder
/// that can close a full square solves them: case 15 gives the two
/// triangles of the whole square (see `solve_open_marching_squares` for the
/// mesher that leaves it open).
pub fn solve_marching_squares(case: u8, flip: bool) -> (r: Vec<SkirtPoint>)
    requires
        case < 16,
    ensures
        r@ == spec_skirt(case as nat, flip),
{
    let mut tris = case_triangles(case);
    let len = tris.len();
    proof {
        lemma_triangles_well_formed(case as nat);
    }
    if flip {
        let ghost orig = tris@;
        let mut t: usize = 0;
        while t < len / 3
            invariant
                len == orig.len(),
                len % 3 == 0,
                tris@.len() == len,
                t <= len / 3,
                forall|k: int|
                    0 <= k < len ==> #[trigger] tris@[k] == if k < 3 * t {
                        flipped(orig, true)[k]
                    } else {
                        orig[k]
                    },
            decreases len / 3 - t,
        {
            let a = tris[3 * t];
            let b = tris[3 * t + 2];
            tris.set(3 * t, b);
            tris.set(3 * t + 2, a);
            t = t + 1;
        }
        proof {
            assert(tris@ =~= flipped(orig, true));
        }
    }
    let mut out: Vec<SkirtPoint> = Vec::new();
    let mut k: usize = 0;
    while k < len
        invariant
            tris@.len() == len,
            tris@ == flipped(spec_case_triangles(case as nat), flip),
            forall|i: int| 0 <= i < len ==> #[trigger] tris@[i] < 8,
            k <= len,
            out@.len() == k,
            forall|i: int| 0 <= i < k ==> #[trigger] out@[i] == spec_point(tris@[i]),
        decreases len - k,
    {
        out.push(point(tris[k]));
        k = k + 1;
    }
    proof {
        assert(out@ =~= spec_skirt(case as nat, flip));
    }
    out
}

/// The points of the skirt triangles of a square in case `case`, turned
/// over where `flip`, for the mesher that leaves the full square open: the
/// same as `spec_skirt`, but nothing for case 15.
pub open spec fn spec_open_skirt(case: nat, flip: bool) -> Seq<SkirtPoint> {
    if case == 15 {
        Seq::empty()
    } else {
        spec_skirt(case, flip)
    }
}

/// The points of the skirt triangles of a square in case `case`, three per
/// triangle, each triangle turned over where `flip`, as the mesher that
/// closes no full square solves them: the empty and the full square give
/// nothing.
pub fn solve_open_marching_squares(case: u8, flip: bool) -> (r: Vec<SkirtPoint>)
    requires
        case < 16,
    ensures
        r@ == spec_open_skirt(case as nat, flip),
{
    if case == 15 {
        return Vec::new();
    }
    solve_marching_squares(case, flip)
}

/// A square of a skirt: which of its corners are inside, and whether it is
/// close enough to the surface to be closed even when wholly inside.
#[derive(Clone, Copy, Debug)]
pub struct SkirtSquare {
    pub inside: [bool; 4],
    pub force: bool,
}

/// The case of a square that needs a skirt, if it needs one.
pub open spec fn square_skirt_case(q: SkirtSquare) -> Option<u8> {
    if spec_square_case(q.inside) == 0 || (spec_square_case(q.inside) == 15 && !q.force) {
        None
    } else {
        Some(spec_square_case(q.inside) as u8)
    }
}

/// The skirt of the squares `squares[..n]`, in order: for each square that
/// needs one, its index and its points. Squares of the second slice (from
/// index `per_slice` on) are turned over unless `flip`, those of the first
/// where `flip`.
pub open spec fn skirt_of(squares: Seq<SkirtSquare>, per_slice: nat, flip: bool, n: int) -> Seq<(usize, Seq<SkirtPoint>)>
    decreases n,
{
    if n <= 0 {
        Seq::empty()
    } else {
        let i = n - 1;
        skirt_of(squares, per_slice, flip, i) + match square_skirt_case(squares[i]) {
            Some(case) => seq![(i as usize, spec_skirt(case as nat, (i >= per_slice) != flip))],
            None => Seq::empty(),
        }
    }
}

/// The skirt of one face of a chunk: two slices of `per_slice` squares
/// each, in order. Returns, for each square that needs a skirt, its index
/// and the points of its triangles.
pub fn calculate_skirt(squares: &Vec<SkirtSquare>, per_slice: usize, flip: bool) -> (r: Vec<(usize, Vec<SkirtPoint>)>)
    ensures
        r@.len() == skirt_of(squares@, per_slice as nat, flip, squares@.len() as int).len(),
        forall|k: int|
            0 <= k < r@.len() ==> (#[trigger] r@[k]).0 == skirt_of(squares@, per_slice as nat, flip, squares@.len() as int)[k].0
                && r@[k].1@ == skirt_of(squares@, per_slice as nat, flip, squares@.len() as int)[k].1,
{
    let mut out: Vec<(usize, Vec<SkirtPoint>)> = Vec::new();
    let mut i: usize = 0;
    while i < squares.len()
        invariant
            i <= squares@.len(),
            out@.len() == skirt_of(squares@, per_slice as nat, flip, i as int).len(),
            forall|k: int|
                0 <= k < out@.len() ==> (#[trigger] out@[k]).0 == skirt_of(squares@, per_slice as nat, flip, i as int)[k].0
                    && out@[k].1@ == skirt_of(squares@, per_slice as nat, flip, i as int)[k].1,
        decreases squares@.len() - i,
    {
        let q = squares[i];
        let ghost before = skirt_of(squares@, per_slice as nat, flip, i as int);
        match calculate_marching_square_case(q.inside, q.force) {
            Some(case) => {
                let second = i >= per_slice;
                let points = solve_marching_squares(case, second != flip);
                out.push((i, points));
                proof {
                    assert(skirt_of(squares@, per_slice as nat, flip, i + 1) == before.push(
                        (i as usize, spec_skirt(case as nat, (i >= per_slice) != flip)),
                    ));
                }
            },
            None => {
                proof {
                    assert(skirt_of(squares@, per_slice as nat, flip, i + 1) =~= before);
                }
            },
        }
        i = i + 1;
    }
    out
}

/// Every case has whole triangles, at most four, of points numbered below 8.
proof fn lemma_triangles_well_formed(case: nat)
    ensures
        spec_case_triangles(case).len() % 3 == 0,
        spec_case_triangles(case).len() <= 12,
        forall|i: int| 0 <= i < spec_case_triangles(case).len() ==> #[trigger] spec_case_triangles(case)[i] < 8,
        forall|i: int|
            0 <= i < flipped(spec_case_triangles(case), false).len() ==> #[trigger] flipped(spec_case_triangles(case), false)[i] < 8,
        forall|i: int|
            0 <= i < flipped(spec_case_triangles(case), true).len() ==> #[trigger] flipped(spec_case_triangles(case), true)[i] < 8,
{
}

/// Every interpolated point that a skirt uses lies on an edge that the
/// surface crosses, so the point exists: for every case that needs a skirt
/// (any case but the empty one), whether or not it is turned over.
pub proof fn law_skirt_edges_cross(case: nat, flip: bool, k: int)
    requires
        1 <= case < 16,
        0 <= k < spec_skirt(case, flip).len(),
    ensures
        spec_skirt(case, flip)[k] matches SkirtPoint::Edge(j) ==> edge_crosses(case, j as nat),
{
    lemma_triangles_well_formed(case);
}

/// Every corner that a skirt uses is inside the terrain, for every case that
/// needs a skirt but case 5.
pub proof fn law_skirt_corners_inside(case: nat, flip: bool, k: int)
    requires
        1 <= case < 16,
        case != 5,
        0 <= k < spec_skirt(case, flip).len(),
    ensures
        spec_skirt(case, flip)[k] matches SkirtPoint::Corner(j) ==> corner_inside(case, j as nat),
{
    lemma_triangles_well_formed(case);
}

/// Turning the triangles over twice gives them back.
pub proof fn law_flip_twice(s: Seq<u8>)
    requires
        s.len() % 3 == 0,
    ensures
        flipped(flipped(s, true), true) == s,
{
    assert(flipped(flipped(s, true), true) =~= s);
}

/// Where a triangle list's entry `k` goes when the triangles are turned
/// over: the first and third point of each triangle swap places.
proof fn lemma_flipped_position(s: Seq<u8>, flip: bool, k: int)
    requires
        s.len() % 3 == 0,
        0 <= k < s.len(),
    ensures
        ({
            let k2 = if flip && k % 3 == 0 {
                k + 2
            } else if flip && k % 3 == 2 {
                k - 2
            } else {
                k
            };
            0 <= k2 < s.len() && flipped(s, flip).len() == s.len() && flipped(s, flip)[k2] == s[k]
        }),
{
}

/// The skirt of a square closes its whole inside part: every inside corner
/// is a point of one of its triangles, in every case but the two saddles
/// (5 and 10), whose triangles close the strip between the crossings, and
/// whichever way the triangles are turned.
pub proof fn law_skirt_covers_inside_corners(case: nat, flip: bool, j: nat)
    requires
        1 <= case < 16,
        case != 5,
        case != 10,
        j < 4,
        corner_inside(case, j),
    ensures
        exists|k: int| 0 <= k < spec_skirt(case, flip).len() && #[trigger] spec_skirt(case, flip)[k] == SkirtPoint::Corner(j as u8),
{
    lemma_triangles_well_formed(case);
    let t = spec_case_triangles(case);
    let k: int =
        if case == 1 && j == 0 {
            0int
        } else if case == 2 && j == 1 {
            2int
        } else if case == 3 && j == 0 {
            0int
        } else if case == 3 && j == 1 {
            2int
        } else if case == 4 && j == 2 {
            2int
        } else if case == 6 && j == 1 {
            0int
        } else if case == 6 && j == 2 {
            5int
        } else if case == 7 && j == 0 {
            1int
        } else if case == 7 && j == 1 {
            0int
        } else if case == 7 && j == 2 {
            5int
        } else if case == 8 && j == 3 {
            1int
        } else if case == 9 && j == 0 {
            1int
        } else if case == 9 && j == 3 {
            2int
        } else if case == 11 && j == 0 {
            0int
        } else if case == 11 && j == 1 {
            5int
        } else if case == 11 && j == 3 {
            1int
        } else if case == 12 && j == 2 {
            5int
        } else if case == 12 && j == 3 {
            1int
        } else if case == 13 && j == 0 {
            5int
        } else if case == 13 && j == 2 {
            1int
        } else if case == 13 && j == 3 {
            0int
        } else if case == 14 && j == 1 {
            4int
        } else if case == 14 && j == 2 {
            0int
        } else if case == 14 && j == 3 {
            2int
        } else if case == 15 && j == 0 {
            0int
        } else if case == 15 && j == 1 {
            2int
        } else if case == 15 && j == 2 {
            4int
        } else if case == 15 && j == 3 {
            1int
        } else {
            0int
        };
    assert(0 <= k < t.len() && t[k] == 2 * j);
    lemma_flipped_position(t, flip, k);
    let k2 = if flip && k % 3 == 0 {
        k + 2
    } else if flip && k % 3 == 2 {
        k - 2
    } else {
        k
    };
    assert(spec_skirt(case, flip)[k2] == spec_point(t[k]));
}

/// Every edge that the surface crosses gets a point of the skirt: the skirt
/// reaches each crossing of its square, in every case, whichever way the
/// triangles are turned.
pub proof fn law_skirt_reaches_every_crossing(case: nat, flip: bool, j: nat)
    requires
        1 <= case < 16,
        j < 4,
        edge_crosses(case, j),
    ensures
        exists|k: int| 0 <= k < spec_skirt(case, flip).len() && #[trigger] spec_skirt(case, flip)[k] == SkirtPoint::Edge(j as u8),
{
    lemma_triangles_well_formed(case);
    let t = spec_case_triangles(case);
    let k: int =
        if case == 1 && j == 0 {
            2int
        } else if case == 1 && j == 3 {
            1int
        } else if case == 2 && j == 0 {
            0int
        } else if case == 2 && j == 1 {
            1int
        } else if case == 3 && j == 1 {
            5int
        } else if case == 3 && j == 3 {
            1int
        } else if case == 4 && j == 1 {
            0int
        } else if case == 4 && j == 2 {
            1int
        } else if case == 5 && j == 0 {
            3int
        } else if case == 5 && j == 1 {
            4int
        } else if case == 5 && j == 2 {
            2int
        } else if case == 5 && j == 3 {
            0int
        } else if case == 6 && j == 0 {
            1int
        } else if case == 6 && j == 2 {
            2int
        } else if case == 7 && j == 2 {
            4int
        } else if case == 7 && j == 3 {
            2int
        } else if case == 8 && j == 2 {
            2int
        } else if case == 8 && j == 3 {
            0int
        } else if case == 9 && j == 0 {
            0int
        } else if case == 9 && j == 2 {
            4int
        } else if case == 10 && j == 0 {
            4int
        } else if case == 10 && j == 1 {
            5int
        } else if case == 10 && j == 2 {
            2int
        } else if case == 10 && j == 3 {
            0int
        } else if case == 11 && j == 1 {
            4int
        } else if case == 11 && j == 2 {
            2int
        } else if case == 12 && j == 1 {
            2int
        } else if case == 12 && j == 3 {
            0int
        } else if case == 13 && j == 0 {
            4int
        } else if case == 13 && j == 1 {
            2int
        } else if case == 14 && j == 0 {
            5int
        } else if case == 14 && j == 3 {
            1int
        } else {
            0int
        };
    assert(0 <= k < t.len() && t[k] == 2 * j + 1);
    lemma_flipped_position(t, flip, k);
    let k2 = if flip && k % 3 == 0 {
        k + 2
    } else if flip && k % 3 == 2 {
        k - 2
    } else {
        k
    };
    assert(spec_skirt(case, flip)[k2] == spec_point(t[k]));
}

} // verus!
