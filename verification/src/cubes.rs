//! Marching cubes topology: the case of a cell, the edges its triangles
//! cross, and the merging of the vertices that neighbouring cells share.
//!
//! The case tables of marching cubes are data that the mesher is handed
//! (`CubeTables`); what is proved here holds for any tables that are well
//! formed. Vertices are identified by the doubled position of the middle of
//! their edge, so that the cells on both sides of an edge find the same
//! vertex.
use vstd::prelude::*;
use vstd::arithmetic::div_mod::lemma_fundamental_div_mod_converse;
use crate::maps::{u32_entries, u32_map_get, u32_map_insert, u32_map_new};
use crate::squares::{SkirtPoint, flipped, spec_point, spec_square_case, square_case};

verus! {

/// Settings of the mesher.
#[derive(Clone, Copy, PartialEq, Eq, Structural, Debug)]
pub struct MesherSettings {
    /// Whether vertices are placed where the density crosses zero, rather
    /// than in the middle of their edge.
    pub interpolation: bool,
    /// Whether skirts are generated.
    pub skirts: bool,
}

/// The case tables of marching cubes: for each of the 256 cases the edges
/// of its triangles, three per triangle, ended by a negative entry; for
/// each of the 12 edges its two corners; for each of the 8 corners its
/// position in the unit cube.
pub struct CubeTables {
    pub triangles: Vec<Vec<i8>>,
    pub edges: Vec<(u8, u8)>,
    pub corners: Vec<(u8, u8, u8)>,
}

impl CubeTables {
    /// The tables have their sizes, name only existing edges and corners,
    /// with corner positions of 0 or 1, and give each case whole triangles.
    pub open spec fn wf(&self) -> bool {
        &&& self.triangles@.len() == 256
        &&& forall|c: int, k: int|
            0 <= c < 256 && 0 <= k < self.triangles@[c]@.len() ==> #[trigger] self.triangles@[c]@[k] < 12
        &&& forall|c: int| 0 <= c < 256 ==> #[trigger] take_edges(self.triangles@[c]@).len() % 3 == 0
        &&& self.edges@.len() == 12
        &&& forall|e: int| 0 <= e < 12 ==> (#[trigger] self.edges@[e]).0 < 8 && self.edges@[e].1 < 8
        &&& self.corners@.len() == 8
        &&& forall|v: int|
            0 <= v < 8 ==> (#[trigger] self.corners@[v]).0 <= 1 && self.corners@[v].1 <= 1 && self.corners@[v].2 <= 1
    }
}

/// A cell of the grid: its case and its position.
#[derive(Clone, Copy, PartialEq, Eq, Structural, Debug)]
pub struct CubeCell {
    pub case: u8,
    pub x: u32,
    pub y: u32,
    pub z: u32,
}

/// The mesh of the cells: each vertex by the cell (its index among the
/// cells) and edge that first produced it, and three vertex indices per
/// triangle.
pub struct MarchingCubesMesh {
    pub vertices: Vec<(usize, u8)>,
    pub indices: Vec<u32>,
}

/// The case of a cell whose corner `l` is above the surface (density above
/// zero) where `above[l]`: bit `l` is set for each such corner.
pub open spec fn spec_cube_case(above: Seq<bool>) -> nat
    decreases above.len(),
{
    if above.len() == 0 {
        0
    } else {
        spec_cube_case(above.drop_last()) + if above.last() {
            pow2_nat((above.len() - 1) as nat)
        } else {
            0
        }
    }
}

/// `2^k`.
pub open spec fn pow2_nat(k: nat) -> nat
    decreases k,
{
    if k == 0 {
        1
    } else {
        2 * pow2_nat((k - 1) as nat)
    }
}

/// The case of eight corners is the sum of the powers of two of the
/// corners above.
proof fn lemma_cube_case_sum(s: Seq<bool>)
    requires
        s.len() == 8,
    ensures
        spec_cube_case(s) == (if s[0] { 1nat } else { 0nat }) + (if s[1] { 2nat } else { 0nat }) + (if s[2] { 4nat } else { 0nat }) + (if s[3] { 8nat } else { 0nat }) + (if s[4] { 16nat } else { 0nat }) + (if s[5] { 32nat } else { 0nat }) + (if s[6] { 64nat } else { 0nat }) + (if s[7] { 128nat } else { 0nat }),
{
    reveal_with_fuel(pow2_nat, 9);
    assert forall|k: int| 0 < k <= 8 implies #[trigger] s.subrange(0, k).drop_last() == s.subrange(0, k - 1) by {
        assert(s.subrange(0, k).drop_last() =~= s.subrange(0, k - 1));
    }
    assert(s.subrange(0, 8) =~= s);
    assert(spec_cube_case(s.subrange(0, 0)) == 0);
    assert(spec_cube_case(s.subrange(0, 1)) == spec_cube_case(s.subrange(0, 0)) + (if s[0] { 1nat } else { 0nat }));
    assert(spec_cube_case(s.subrange(0, 2)) == spec_cube_case(s.subrange(0, 1)) + (if s[1] { 2nat } else { 0nat }));
    assert(spec_cube_case(s.subrange(0, 3)) == spec_cube_case(s.subrange(0, 2)) + (if s[2] { 4nat } else { 0nat }));
    assert(spec_cube_case(s.subrange(0, 4)) == spec_cube_case(s.subrange(0, 3)) + (if s[3] { 8nat } else { 0nat }));
    assert(spec_cube_case(s.subrange(0, 5)) == spec_cube_case(s.subrange(0, 4)) + (if s[4] { 16nat } else { 0nat }));
    assert(spec_cube_case(s.subrange(0, 6)) == spec_cube_case(s.subrange(0, 5)) + (if s[5] { 32nat } else { 0nat }));
    assert(spec_cube_case(s.subrange(0, 7)) == spec_cube_case(s.subrange(0, 6)) + (if s[6] { 64nat } else { 0nat }));
    assert(spec_cube_case(s.subrange(0, 8)) == spec_cube_case(s.subrange(0, 7)) + (if s[7] { 128nat } else { 0nat }));
}

/// Bit `l` of a byte made of the flags `b0..b7` at weights `2^0..2^7` is
/// flag `bl`.
proof fn lemma_byte_bits(b0: bool, b1: bool, b2: bool, b3: bool, b4: bool, b5: bool, b6: bool, b7: bool, c: u8, l: u8)
    requires
        l < 8,
        c == (if b0 { 1u8 } else { 0u8 }) + (if b1 { 2u8 } else { 0u8 }) + (if b2 { 4u8 } else { 0u8 }) + (if b3 { 8u8 } else { 0u8 }) + (if b4 { 16u8 } else { 0u8 }) + (if b5 { 32u8 } else { 0u8 }) + (if b6 { 64u8 } else { 0u8 }) + (if b7 { 128u8 } else { 0u8 }),
    ensures
        ((c >> l) & 1u8 == 1u8) <==> ((l == 0 && b0) || (l == 1 && b1) || (l == 2 && b2) || (l == 3 && b3) || (l == 4 && b4) || (l == 5 && b5) || (l == 6 && b6) || (l == 7 && b7)),
{
    assert(l < 8 && c == (if b0 { 1u8 } else { 0u8 }) + (if b1 { 2u8 } else { 0u8 }) + (if b2 { 4u8 } else { 0u8 }) + (if b3 { 8u8 } else { 0u8 }) + (if b4 { 16u8 } else { 0u8 }) + (if b5 { 32u8 } else { 0u8 }) + (if b6 { 64u8 } else { 0u8 }) + (if b7 { 128u8 } else { 0u8 }) ==> (((c >> l) & 1u8 == 1u8) <==> ((l == 0 && b0) || (l == 1 && b1) || (l == 2 && b2) || (l == 3 && b3) || (l == 4 && b4) || (l == 5 && b5) || (l == 6 && b6) || (l == 7 && b7)))) by (bit_vector);
}

/// The case of a cell is the bit set of its corners above the surface: for
/// each corner `l`, bit `l` of the case is set exactly when the corner is
/// above, and the case fits in a byte.
pub proof fn law_cube_case_bits(above: [bool; 8], l: u8)
    requires
        l < 8,
    ensures
        spec_cube_case(above@) < 256,
        ((spec_cube_case(above@) as u8) >> l) & 1u8 == 1u8 <==> above@[l as int],
{
    let s = above@;
    lemma_cube_case_sum(s);
    let c: u8 = spec_cube_case(s) as u8;
    let (b0, b1, b2, b3, b4, b5, b6, b7) = (s[0], s[1], s[2], s[3], s[4], s[5], s[6], s[7]);
    assert(c == (if b0 { 1u8 } else { 0u8 }) + (if b1 { 2u8 } else { 0u8 }) + (if b2 { 4u8 } else { 0u8 }) + (if b3 { 8u8 } else { 0u8 }) + (if b4 { 16u8 } else { 0u8 }) + (if b5 { 32u8 } else { 0u8 }) + (if b6 { 64u8 } else { 0u8 }) + (if b7 { 128u8 } else { 0u8 }));
    lemma_byte_bits(b0, b1, b2, b3, b4, b5, b6, b7, c, l);
}

/// The case of a cell from which of its eight corners are above the surface.
pub fn generate_marching_cubes_case(above: [bool; 8]) -> (r: u8)
    ensures
        r == spec_cube_case(above@),
{
    let mut case: u32 = 0;
    let mut bit: u32 = 1;
    let mut l: usize = 0;
    proof {
        reveal_with_fuel(pow2_nat, 9);
    }
    while l < 8
        invariant
            l <= 8,
            bit == pow2_nat(l as nat),
            bit <= 256,
            case == spec_cube_case(above@.subrange(0, l as int)),
            case < bit,
        decreases 8 - l,
    {
        proof {
            assert(above@.subrange(0, l + 1).drop_last() =~= above@.subrange(0, l as int));
            reveal_with_fuel(pow2_nat, 9);
        }
        if above[l] {
            case = case + bit;
        }
        bit = bit * 2;
        l = l + 1;
    }
    proof {
        assert(above@.subrange(0, 8) =~= above@);
    }
    case as u8
}

/// The edges that the triangles of `row` cross: its entries up to the
/// first negative one.
pub open spec fn take_edges(row: Seq<i8>) -> Seq<u8>
    decreases row.len(),
{
    if row.len() == 0 || row[0] < 0 {
        Seq::empty()
    } else {
        seq![row[0] as u8] + take_edges(row.drop_first())
    }
}

/// The edges of a cell's triangles: none for the empty and the full cell.
pub open spec fn cell_edges(tables: &CubeTables, case: u8) -> Seq<u8> {
    if case == 0 || case == 255 {
        Seq::empty()
    } else {
        take_edges(tables.triangles@[case as int]@)
    }
}

/// The key of the vertex on edge `e` of a cell: the doubled position of the
/// middle of the edge, its three coordinates (each at most `0x200000`)
/// written as the digits of a number in base `0x200001`.
pub open spec fn edge_key(tables: &CubeTables, cell: CubeCell, e: u8) -> nat {
    let a = tables.corners@[tables.edges@[e as int].0 as int];
    let b = tables.corners@[tables.edges@[e as int].1 as int];
    let kx = 2 * cell.x + a.0 + b.0;
    let ky = 2 * cell.y + a.1 + b.1;
    let kz = 2 * cell.z + a.2 + b.2;
    ((kx * 0x200001 + ky) * 0x200001 + kz) as nat
}

/// The doubled position of the middle of edge `e` of a cell: the sum of
/// the positions of the edge's two corners, the cell's corner counting
/// twice.
pub open spec fn doubled_midpoint(tables: &CubeTables, cell: CubeCell, e: u8) -> (int, int, int) {
    let a = tables.corners@[tables.edges@[e as int].0 as int];
    let b = tables.corners@[tables.edges@[e as int].1 as int];
    (2 * cell.x + a.0 + b.0, 2 * cell.y + a.1 + b.1, 2 * cell.z + a.2 + b.2)
}

/// Two cell edges get the same vertex key exactly when their middles are
/// the same point: neighbouring cells share the vertex of a shared edge,
/// and no two different edges are merged.
pub proof fn law_edge_key_identifies_midpoints(
    tables: &CubeTables,
    c1: CubeCell,
    e1: u8,
    c2: CubeCell,
    e2: u8,
)
    requires
        tables.wf(),
        e1 < 12,
        e2 < 12,
        c1.x < 0x100000 && c1.y < 0x100000 && c1.z < 0x100000,
        c2.x < 0x100000 && c2.y < 0x100000 && c2.z < 0x100000,
    ensures
        edge_key(tables, c1, e1) == edge_key(tables, c2, e2) <==> doubled_midpoint(tables, c1, e1)
            == doubled_midpoint(tables, c2, e2),
{
    let m1 = doubled_midpoint(tables, c1, e1);
    let m2 = doubled_midpoint(tables, c2, e2);
    let bb: int = 0x200001;
    assert(tables.edges@[e1 as int].0 < 8 && tables.edges@[e1 as int].1 < 8);
    assert(tables.edges@[e2 as int].0 < 8 && tables.edges@[e2 as int].1 < 8);
    let a1 = tables.corners@[tables.edges@[e1 as int].0 as int];
    let b1 = tables.corners@[tables.edges@[e1 as int].1 as int];
    let a2 = tables.corners@[tables.edges@[e2 as int].0 as int];
    let b2 = tables.corners@[tables.edges@[e2 as int].1 as int];
    assert(a1.0 <= 1 && a1.1 <= 1 && a1.2 <= 1 && b1.0 <= 1 && b1.1 <= 1 && b1.2 <= 1);
    assert(a2.0 <= 1 && a2.1 <= 1 && a2.2 <= 1 && b2.0 <= 1 && b2.1 <= 1 && b2.2 <= 1);
    assert(0 <= m1.0 < bb && 0 <= m1.1 < bb && 0 <= m1.2 < bb);
    assert(0 <= m2.0 < bb && 0 <= m2.1 < bb && 0 <= m2.2 < bb);
    let q1 = m1.0 * bb + m1.1;
    let q2 = m2.0 * bb + m2.1;
    let k1 = q1 * bb + m1.2;
    let k2 = q2 * bb + m2.2;
    assert(q1 >= 0 && q2 >= 0) by (nonlinear_arith)
        requires
            q1 == m1.0 * bb + m1.1,
            q2 == m2.0 * bb + m2.1,
            m1.0 >= 0,
            m1.1 >= 0,
            m2.0 >= 0,
            m2.1 >= 0,
            bb > 0,
    ;
    assert(k1 >= 0 && k2 >= 0) by (nonlinear_arith)
        requires
            k1 == q1 * bb + m1.2,
            k2 == q2 * bb + m2.2,
            q1 >= 0,
            q2 >= 0,
            m1.2 >= 0,
            m2.2 >= 0,
            bb > 0,
    ;
    assert(edge_key(tables, c1, e1) == k1);
    assert(edge_key(tables, c2, e2) == k2);
    if k1 == k2 {
        lemma_fundamental_div_mod_converse(k1, bb, q1, m1.2);
        lemma_fundamental_div_mod_converse(k2, bb, q2, m2.2);
        lemma_fundamental_div_mod_converse(q1, bb, m1.0, m1.1);
        lemma_fundamental_div_mod_converse(q2, bb, m2.0, m2.1);
    }
}

/// The vertex keys of a cell, one per triangle corner.
pub open spec fn cell_keys(tables: &CubeTables, cell: CubeCell) -> Seq<nat> {
    let edges = cell_edges(tables, cell.case);
    Seq::new(edges.len(), |k: int| edge_key(tables, cell, edges[k]))
}

/// The vertex keys of all cells, in order.
pub open spec fn key_stream(tables: &CubeTables, cells: Seq<CubeCell>) -> Seq<nat>
    decreases cells.len(),
{
    if cells.len() == 0 {
        Seq::empty()
    } else {
        key_stream(tables, cells.drop_last()) + cell_keys(tables, cells.last())
    }
}

/// The cell (its index `c`) and edge of each vertex key of a cell.
pub open spec fn cell_pairs(tables: &CubeTables, c: int, cell: CubeCell) -> Seq<(usize, u8)> {
    let edges = cell_edges(tables, cell.case);
    Seq::new(edges.len(), |k: int| (c as usize, edges[k]))
}

/// The cell and edge of each key of `key_stream`, in the same order.
pub open spec fn pair_stream(tables: &CubeTables, cells: Seq<CubeCell>) -> Seq<(usize, u8)>
    decreases cells.len(),
{
    if cells.len() == 0 {
        Seq::empty()
    } else {
        pair_stream(tables, cells.drop_last()) + cell_pairs(tables, cells.len() - 1, cells.last())
    }
}

/// `t` is where the key of vertex `j` first occurs in the stream `s`, and
/// `v` is the cell and edge found there.
pub open spec fn first_use_at(s: Seq<nat>, pairs: Seq<(usize, u8)>, j: int, v: (usize, u8), t: int) -> bool {
    &&& 0 <= t < s.len()
    &&& s[t] == distinct(s)[j]
    &&& pairs[t] == v
    &&& forall|u: int| 0 <= u < t ==> #[trigger] s[u] != s[t]
}

/// The key of vertex `j` occurs in `s`, and `v` is the cell and edge of its
/// first occurrence.
pub open spec fn has_first_use(s: Seq<nat>, pairs: Seq<(usize, u8)>, j: int, v: (usize, u8)) -> bool {
    exists|t: int| #[trigger] first_use_at(s, pairs, j, v, t)
}

/// Each vertex records the cell and edge where its key first occurs in the
/// stream `s`, whose cells and edges are `pairs`.
pub open spec fn first_uses(s: Seq<nat>, pairs: Seq<(usize, u8)>, vertices: Seq<(usize, u8)>) -> bool {
    forall|j: int| 0 <= j < vertices.len() ==> #[trigger] has_first_use(s, pairs, j, vertices[j])
}

/// The stream of keys of the cells of well formed tables is made of whole
/// triangles.
pub proof fn law_whole_triangles(tables: &CubeTables, cells: Seq<CubeCell>)
    requires
        tables.wf(),
    ensures
        key_stream(tables, cells).len() % 3 == 0,
        pair_stream(tables, cells).len() == key_stream(tables, cells).len(),
    decreases cells.len(),
{
    if cells.len() > 0 {
        law_whole_triangles(tables, cells.drop_last());
        let case = cells.last().case;
        if case != 0 && case != 255 {
            assert(take_edges(tables.triangles@[case as int]@).len() % 3 == 0);
        }
    }
}

/// Cells that are wholly outside (case 0) or wholly inside (case 255)
/// give no vertex key, so a mesh of only such cells is empty.
pub proof fn law_empty_cells(tables: &CubeTables, cells: Seq<CubeCell>)
    ensures
        (forall|c: int| 0 <= c < cells.len() ==> #[trigger] cells[c].case == 0 || cells[c].case == 255)
            ==> key_stream(tables, cells).len() == 0,
    decreases cells.len(),
{
    if cells.len() > 0 {
        law_empty_cells(tables, cells.drop_last());
        if forall|c: int| 0 <= c < cells.len() ==> #[trigger] cells[c].case == 0 || cells[c].case == 255 {
            assert forall|c: int| 0 <= c < cells.drop_last().len() implies #[trigger] cells.drop_last()[c].case == 0
                || cells.drop_last()[c].case == 255 by {
                assert(cells.drop_last()[c] == cells[c]);
            }
            assert(cells.last() == cells[cells.len() - 1]);
        }
    }
}

/// The keys of `s` in the order of their first occurrence.
pub open spec fn distinct(s: Seq<nat>) -> Seq<nat>
    decreases s.len(),
{
    if s.len() == 0 {
        Seq::empty()
    } else {
        let d = distinct(s.drop_last());
        if d.contains(s.last()) {
            d
        } else {
            d.push(s.last())
        }
    }
}

/// Whether `mesh` is the merged mesh of the key stream `s`: one vertex per
/// distinct key in order of first use, and one index per key naming its
/// vertex.
pub open spec fn merged_mesh(
    tables: &CubeTables,
    cells: Seq<CubeCell>,
    s: Seq<nat>,
    vertices: Seq<(usize, u8)>,
    indices: Seq<u32>,
) -> bool {
    let d = distinct(s);
    &&& vertices.len() == d.len()
    &&& forall|j: int|
        0 <= j < vertices.len() ==> (#[trigger] vertices[j]).0 < cells.len() && edge_key(
            tables,
            cells[vertices[j].0 as int],
            vertices[j].1,
        ) == d[j]
    &&& indices.len() == s.len()
    &&& forall|t: int| 0 <= t < indices.len() ==> #[trigger] indices[t] < d.len() && d[indices[t] as int] == s[t]
}

/// The merged vertices are distinct.
pub proof fn law_distinct_no_duplicates(s: Seq<nat>)
    ensures
        distinct(s).no_duplicates(),
        distinct(s).len() <= s.len(),
        forall|t: int| 0 <= t < s.len() ==> distinct(s).contains(#[trigger] s[t]),
    decreases s.len(),
{
    if s.len() > 0 {
        law_distinct_no_duplicates(s.drop_last());
        assert forall|t: int| 0 <= t < s.len() implies distinct(s).contains(#[trigger] s[t]) by {
            if t < s.len() - 1 {
                assert(s.drop_last()[t] == s[t]);
                let d = distinct(s.drop_last());
                let i = d.index_of(s[t]);
                assert(distinct(s)[i] == s[t]);
            } else {
                let d = distinct(s.drop_last());
                if d.contains(s.last()) {
                } else {
                    assert(distinct(s)[d.len() as int] == s.last());
                }
            }
        }
    }
}

/// The builder of marching cubes meshes.
pub struct MarchingCubes {
    settings: MesherSettings,
}

impl MarchingCubes {
    /// A builder with the given settings.
    pub fn new(settings: MesherSettings) -> (r: MarchingCubes)
        ensures
            r.settings() == settings,
    {
        MarchingCubes { settings }
    }

    /// The settings.
    pub closed spec fn settings(&self) -> MesherSettings {
        self.settings
    }

    /// Whether vertices are interpolated.
    pub fn interpolation(&self) -> (r: bool)
        ensures
            r == self.settings().interpolation,
    {
        self.settings.interpolation
    }

    /// The edges that the triangles of a cell in case `case` cross, three
    /// per triangle.
    pub fn cell_edges(&self, tables: &CubeTables, case: u8) -> (r: Vec<u8>)
        requires
            tables.wf(),
        ensures
            r@ == cell_edges(tables, case),
    {
        let mut out: Vec<u8> = Vec::new();
        if case == 0 || case == 255 {
            return out;
        }
        let row = &tables.triangles[case as usize];
        let mut k: usize = 0;
        while k < row.len() && row[k] >= 0
            invariant
                k <= row@.len(),
                forall|i: int| 0 <= i < k ==> row@[i] >= 0,
                out@ == take_edges(row@).subrange(0, k as int),
                take_edges(row@).len() >= k,
            decreases row@.len() - k,
        {
            out.push(row[k] as u8);
            proof {
                lemma_take_edges_prefix(row@, k + 1);
                assert(out@ =~= take_edges(row@).subrange(0, k + 1));
            }
            k = k + 1;
        }
        proof {
            lemma_take_edges_prefix(row@, k as int);
            assert(out@ =~= take_edges(row@));
        }
        out
    }

    /// Builds the merged mesh of `cells`, in order: for each cell the
    /// vertices on the edges its triangles cross, each vertex shared by all
    /// the cells that use its edge and recorded with the first of them; the
    /// indices come in whole triangles.
    pub fn build(&self, tables: &CubeTables, cells: &Vec<CubeCell>) -> (r: MarchingCubesMesh)
        requires
            tables.wf(),
            forall|c: int|
                0 <= c < cells@.len() ==> (#[trigger] cells@[c]).x < 0x100000 && cells@[c].y < 0x100000
                    && cells@[c].z < 0x100000,
            key_stream(tables, cells@).len() <= u32::MAX,
        ensures
            merged_mesh(tables, cells@, key_stream(tables, cells@), r.vertices@, r.indices@),
            first_uses(key_stream(tables, cells@), pair_stream(tables, cells@), r.vertices@),
            r.indices@.len() % 3 == 0,
            (forall|c: int| 0 <= c < cells@.len() ==> #[trigger] cells@[c].case == 0 || cells@[c].case == 255)
                ==> r.vertices@.len() == 0 && r.indices@.len() == 0,
    {
        let mut merger = u32_map_new();
        let mut vertices: Vec<(usize, u8)> = Vec::new();
        let mut indices: Vec<u32> = Vec::new();
        let ghost mut stream: Seq<nat> = Seq::empty();
        let ghost mut pstream: Seq<(usize, u8)> = Seq::empty();
        proof {
            law_whole_triangles(tables, cells@);
            law_empty_cells(tables, cells@);
        }
        let mut c: usize = 0;
        while c < cells.len()
            invariant
                tables.wf(),
                c <= cells@.len(),
                forall|i: int|
                    0 <= i < cells@.len() ==> (#[trigger] cells@[i]).x < 0x100000 && cells@[i].y < 0x100000
                        && cells@[i].z < 0x100000,
                key_stream(tables, cells@).len() <= u32::MAX,
                stream == key_stream(tables, cells@.subrange(0, c as int)),
                stream.len() <= key_stream(tables, cells@).len(),
                merger_wf(u32_entries(merger), distinct(stream)),
                merged_mesh(tables, cells@, stream, vertices@, indices@),
                pstream == pair_stream(tables, cells@.subrange(0, c as int)),
                pstream.len() == stream.len(),
                first_uses(stream, pstream, vertices@),
            decreases cells@.len() - c,
        {
            let cell = cells[c];
            let edges = self.cell_edges(tables, cell.case);
            let ghost before = stream;
            let ghost pbefore = pstream;
            proof {
                assert(cells@.subrange(0, c + 1).drop_last() =~= cells@.subrange(0, c as int));
                lemma_stream_prefix(tables, cells@, c + 1);
            }
            let mut k: usize = 0;
            while k < edges.len()
                invariant
                    tables.wf(),
                    c < cells@.len(),
                    cell == cells@[c as int],
                    cell.x < 0x100000 && cell.y < 0x100000 && cell.z < 0x100000,
                    edges@ == cell_edges(tables, cell.case),
                    k <= edges@.len(),
                    before == key_stream(tables, cells@.subrange(0, c as int)),
                    before.len() + edges@.len() <= u32::MAX,
                    stream == before + cell_keys(tables, cell).subrange(0, k as int),
                    merger_wf(u32_entries(merger), distinct(stream)),
                    merged_mesh(tables, cells@, stream, vertices@, indices@),
                    pbefore == pair_stream(tables, cells@.subrange(0, c as int)),
                    pbefore.len() == before.len(),
                    pstream == pbefore + cell_pairs(tables, c as int, cell).subrange(0, k as int),
                    first_uses(stream, pstream, vertices@),
                decreases edges@.len() - k,
            {
                let e = edges[k];
                proof {
                    lemma_cell_edge_bound(tables, cell.case, k as int);
                }
                let key = vertex_key(tables, cell, e);
                let ghost d = distinct(stream);
                let ghost next = stream.push(key as nat);
                let ghost pnext = pstream.push((c, e));
                proof {
                    lemma_first_uses_push(stream, pstream, vertices@, key as nat, (c, e));
                    assert(cell_pairs(tables, c as int, cell)[k as int] == (c, e));
                    assert(cell_pairs(tables, c as int, cell).subrange(0, k + 1) =~= cell_pairs(tables, c as int, cell).subrange(0, k as int).push((c, e)));
                    assert(pnext =~= pbefore + cell_pairs(tables, c as int, cell).subrange(0, k + 1));
                    assert(next.drop_last() =~= stream);
                    assert(cell_keys(tables, cell)[k as int] == key as nat);
                    assert(cell_keys(tables, cell).subrange(0, k + 1) =~= cell_keys(tables, cell).subrange(0, k as int).push(key as nat));
                    assert(next =~= before + cell_keys(tables, cell).subrange(0, k + 1));
                }
                match u32_map_get(&merger, key) {
                    Some(index) => {
                        indices.push(index);
                        proof {
                            assert(distinct(next) == d);
                        }
                    },
                    None => {
                        proof {
                            law_distinct_no_duplicates(stream);
                        }
                        let index = vertices.len() as u32;
                        let ghost pre = u32_entries(merger);
                        proof {
                            assert(!d.contains(key as nat));
                            assert(distinct(next) == d.push(key as nat));
                        }
                        u32_map_insert(&mut merger, key, index);
                        vertices.push((c, e));
                        indices.push(index);
                        proof {
                            let d2 = distinct(next);
                            assert forall|kk: u64| #[trigger] u32_entries(merger).contains_key(kk) <==> d2.contains(kk as nat) by {
                                if kk == key {
                                    assert(d2[d.len() as int] == key as nat);
                                } else {
                                    if d2.contains(kk as nat) {
                                        let i = d2.index_of(kk as nat);
                                        if i == d.len() {
                                            assert(d2[i] == key as nat);
                                        } else {
                                            assert(d[i] == kk as nat);
                                            assert(pre.contains_key(kk));
                                        }
                                    }
                                    if u32_entries(merger).contains_key(kk) {
                                        assert(pre.contains_key(kk));
                                        assert(d.contains(kk as nat));
                                        let i = d.index_of(kk as nat);
                                        assert(d2[i] == kk as nat);
                                    }
                                }
                            }
                            assert forall|kk: u64| #[trigger] u32_entries(merger).contains_key(kk) implies u32_entries(merger)[kk] < d2.len()
                                && d2[u32_entries(merger)[kk] as int] == kk as nat by {
                                if kk != key {
                                    assert(pre.contains_key(kk));
                                }
                            }
                        }
                    },
                }
                proof {
                    stream = next;
                    pstream = pnext;
                }
                k = k + 1;
            }
            proof {
                assert(cell_keys(tables, cell).subrange(0, edges@.len() as int) =~= cell_keys(tables, cell));
                assert(cell_pairs(tables, c as int, cell).subrange(0, edges@.len() as int) =~= cell_pairs(tables, c as int, cell));
                assert(cells@.subrange(0, c + 1).last() == cell);
                assert(pair_stream(tables, cells@.subrange(0, c + 1)) == pair_stream(tables, cells@.subrange(0, c as int)) + cell_pairs(tables, c as int, cell));
            }
            c = c + 1;
        }
        proof {
            assert(cells@.subrange(0, cells@.len() as int) =~= cells@);
        }
        MarchingCubesMesh { vertices, indices }
    }
}

/// The merger maps exactly the distinct keys so far, each to its position.
pub open spec fn merger_wf(m: Map<u64, u32>, d: Seq<nat>) -> bool {
    &&& forall|k: u64| #[trigger] m.contains_key(k) <==> d.contains(k as nat)
    &&& forall|k: u64| #[trigger] m.contains_key(k) ==> m[k] < d.len() && d[m[k] as int] == k as nat
}

/// The key of the vertex on edge `e` of `cell`.
fn vertex_key(tables: &CubeTables, cell: CubeCell, e: u8) -> (r: u64)
    requires
        tables.wf(),
        e < 12,
        cell.x < 0x100000,
        cell.y < 0x100000,
        cell.z < 0x100000,
    ensures
        r == edge_key(tables, cell, e),
{
    let (ia, ib) = tables.edges[e as usize];
    let a = tables.corners[ia as usize];
    let b = tables.corners[ib as usize];
    let kx: u64 = 2 * (cell.x as u64) + (a.0 as u64) + (b.0 as u64);
    let ky: u64 = 2 * (cell.y as u64) + (a.1 as u64) + (b.1 as u64);
    let kz: u64 = 2 * (cell.z as u64) + (a.2 as u64) + (b.2 as u64);
    proof {
        assert(kx <= 0x200000 && ky <= 0x200000 && kz <= 0x200000);
        assert((kx * 0x200001 + ky) * 0x200001 + kz <= 0xffff_ffff_ffff_ffff) by (nonlinear_arith)
            requires
                kx <= 0x200000,
                ky <= 0x200000,
                kz <= 0x200000,
        ;
        assert(kx * 0x200001 + ky <= 0xffff_ffff_ffff_ffff) by (nonlinear_arith)
            requires
                kx <= 0x200000,
                ky <= 0x200000,
        ;
        assert(kx * 0x200001 <= 0xffff_ffff_ffff_ffff) by (nonlinear_arith)
            requires
                kx <= 0x200000,
        ;
        assert((kx * 0x200001 + ky) * 0x200001 <= 0xffff_ffff_ffff_ffff) by (nonlinear_arith)
            requires
                kx <= 0x200000,
                ky <= 0x200000,
        ;
    }
    (kx * 0x200001 + ky) * 0x200001 + kz
}

/// The edges of a case name existing edges.
proof fn lemma_cell_edge_bound(tables: &CubeTables, case: u8, k: int)
    requires
        tables.wf(),
        0 <= k < cell_edges(tables, case).len(),
    ensures
        cell_edges(tables, case)[k] < 12,
{
    if case != 0 && case != 255 {
        lemma_take_edges_bound(tables.triangles@[case as int]@, k);
        assert forall|i: int| 0 <= i < tables.triangles@[case as int]@.len() implies #[trigger] tables.triangles@[case as int]@[i] < 12 by {
        }
    }
}

/// An edge taken from a row is one of the row's entries.
proof fn lemma_take_edges_bound(row: Seq<i8>, k: int)
    requires
        0 <= k < take_edges(row).len(),
    ensures
        exists|i: int| 0 <= i < row.len() && row[i] >= 0 && take_edges(row)[k] == row[i] as u8,
    decreases row.len(),
{
    if k == 0 {
        assert(row[0] >= 0);
    } else {
        lemma_take_edges_bound(row.drop_first(), k - 1);
        let i = choose|i: int| 0 <= i < row.drop_first().len() && row.drop_first()[i] >= 0 && take_edges(row.drop_first())[k - 1] == row.drop_first()[i] as u8;
        assert(row[i + 1] == row.drop_first()[i]);
    }
}

/// Where the first `k` entries of a row are not negative, they begin the
/// taken edges; where entry `k` is negative too, they are all of them.
proof fn lemma_take_edges_prefix(row: Seq<i8>, k: int)
    requires
        0 <= k <= row.len(),
        forall|i: int| 0 <= i < k ==> row[i] >= 0,
    ensures
        take_edges(row).len() >= k,
        forall|i: int| 0 <= i < k ==> #[trigger] take_edges(row)[i] == row[i] as u8,
        (k == row.len() || row[k] < 0) ==> take_edges(row).len() == k,
    decreases k,
{
    if k > 0 {
        lemma_take_edges_prefix(row.drop_first(), k - 1);
        assert forall|i: int| 0 <= i < k implies #[trigger] take_edges(row)[i] == row[i] as u8 by {
            if i > 0 {
                assert(row.drop_first()[i - 1] == row[i]);
            }
        }
    }
}

/// One more key keeps each vertex at its first use; a key not seen before
/// brings its own vertex, which records where it comes.
proof fn lemma_first_uses_push(
    s: Seq<nat>,
    pairs: Seq<(usize, u8)>,
    vertices: Seq<(usize, u8)>,
    key: nat,
    p: (usize, u8),
)
    requires
        first_uses(s, pairs, vertices),
        pairs.len() == s.len(),
        vertices.len() == distinct(s).len(),
    ensures
        distinct(s).contains(key) ==> first_uses(s.push(key), pairs.push(p), vertices),
        !distinct(s).contains(key) ==> first_uses(s.push(key), pairs.push(p), vertices.push(p)),
{
    let s2 = s.push(key);
    let p2 = pairs.push(p);
    let d = distinct(s);
    assert(s2.drop_last() =~= s);
    law_distinct_no_duplicates(s);
    assert forall|j: int| 0 <= j < vertices.len() implies #[trigger] has_first_use(s2, p2, j, vertices[j]) by {
        assert(has_first_use(s, pairs, j, vertices[j]));
        let t = choose|t: int| #[trigger] first_use_at(s, pairs, j, vertices[j], t);
        assert(p2[t] == pairs[t]);
        assert(distinct(s2)[j] == d[j]);
        assert forall|u: int| 0 <= u < t implies #[trigger] s2[u] != s2[t] by {
            assert(s[u] != s[t]);
        }
        assert(first_use_at(s2, p2, j, vertices[j], t));
    }
    if d.contains(key) {
        assert(first_uses(s2, p2, vertices));
    } else {
        let v2 = vertices.push(p);
        let t = s.len() as int;
        assert(distinct(s2) == d.push(key));
        assert forall|u: int| 0 <= u < t implies #[trigger] s2[u] != s2[t] by {
            assert(d.contains(s[u]));
        }
        assert(first_use_at(s2, p2, vertices.len() as int, p, t));
        assert forall|j: int| 0 <= j < v2.len() implies #[trigger] has_first_use(s2, p2, j, v2[j]) by {
            if j < vertices.len() {
                assert(v2[j] == vertices[j]);
                assert(has_first_use(s2, p2, j, vertices[j]));
            } else {
                assert(first_use_at(s2, p2, j, v2[j], t));
            }
        }
        assert(first_uses(s2, p2, v2));
    }
}

/// The stream of a prefix of the cells, one cell longer.
proof fn lemma_stream_prefix(tables: &CubeTables, cells: Seq<CubeCell>, n: int)
    requires
        0 < n <= cells.len(),
    ensures
        key_stream(tables, cells.subrange(0, n)) == key_stream(tables, cells.subrange(0, n - 1)) + cell_keys(
            tables,
            cells[n - 1],
        ),
        key_stream(tables, cells.subrange(0, n)).len() <= key_stream(tables, cells).len(),
    decreases cells.len() - n,
{
    assert(cells.subrange(0, n).drop_last() =~= cells.subrange(0, n - 1));
    if n < cells.len() {
        lemma_stream_prefix(tables, cells, n + 1);
    } else {
        assert(cells.subrange(0, n) =~= cells);
    }
}

/// The case tables of the skirts' marching squares: for each of the 16
/// cases the edges the surface crosses, ended by a negative entry, and the
/// points of its triangles (numbered around the square, see `squares`),
/// three per triangle, ended by a triangle with a negative first entry.
pub struct SquareTables {
    pub case_edges: Vec<Vec<i8>>,
    pub case_triangles: Vec<Vec<i8>>,
}

/// The entries of the triangles of a row that the skirt builder uses:
/// whole triangles up to the first whose first entry is negative.
pub open spec fn take_triangles(row: Seq<i8>) -> Seq<i8>
    decreases row.len(),
{
    if row.len() < 3 || row[0] < 0 {
        Seq::empty()
    } else {
        row.subrange(0, 3) + take_triangles(row.subrange(3, row.len() as int))
    }
}

impl SquareTables {
    /// The tables have their sizes; each case's triangles, at most four,
    /// name points of the square, and the crossings they use are crossed
    /// edges of the case.
    pub open spec fn wf(&self) -> bool {
        &&& self.case_edges@.len() == 16
        &&& self.case_triangles@.len() == 16
        &&& forall|c: int, k: int|
            0 <= c < 16 && 0 <= k < take_edges(self.case_edges@[c]@).len() ==> #[trigger] take_edges(
                self.case_edges@[c]@,
            )[k] < 4
        &&& forall|c: int| 0 <= c < 16 ==> (#[trigger] self.case_triangles@[c])@.len() % 3 == 0
        &&& forall|c: int| 0 <= c < 16 ==> take_triangles((#[trigger] self.case_triangles@[c])@).len() <= 12
        &&& forall|c: int, k: int|
            0 <= c < 16 && 0 <= k < take_triangles(self.case_triangles@[c]@).len() ==> {
                let t = #[trigger] take_triangles(self.case_triangles@[c]@)[k];
                &&& 0 <= t < 8
                &&& t % 2 == 1 ==> take_edges(self.case_edges@[c]@).contains(((t - 1) / 2) as u8)
            }
    }
}

/// The points of the skirt triangles of a square in case `case`, by the
/// tables, turned over where `flip`.
pub open spec fn table_skirt(tables: &SquareTables, case: u8, flip: bool) -> Seq<SkirtPoint> {
    let tris = take_triangles(tables.case_triangles@[case as int]@);
    let s = flipped(Seq::new(tris.len(), |k: int| tris[k] as u8), flip);
    Seq::new(s.len(), |k: int| spec_point(s[k]))
}

/// Every crossing that a skirt triangle uses is one that the case tables
/// interpolate, so the builder finds its point, for well formed tables,
/// every case and either orientation.
pub proof fn law_table_skirt_edges_interpolated(tables: &SquareTables, case: u8, flip: bool, k: int)
    requires
        tables.wf(),
        case < 16,
        0 <= k < table_skirt(tables, case, flip).len(),
    ensures
        table_skirt(tables, case, flip)[k] matches SkirtPoint::Edge(j) ==> take_edges(
            tables.case_edges@[case as int]@,
        ).contains(j),
{
    let c = case as int;
    let tris = take_triangles(tables.case_triangles@[c]@);
    let orig = Seq::new(tris.len(), |i: int| tris[i] as u8);
    lemma_take_triangles_len(tables.case_triangles@[c]@);
    let s = flipped(orig, flip);
    let src: int = if flip && k % 3 == 0 && k + 2 < orig.len() {
        k + 2
    } else if flip && k % 3 == 2 {
        k - 2
    } else {
        k
    };
    assert(s[k] == orig[src]);
    let t = tris[src];
    assert(0 <= t < 8);
    if t % 2 == 1 {
        assert(take_edges(tables.case_edges@[c]@).contains(((t - 1) / 2) as u8));
        assert(spec_point(t as u8) == SkirtPoint::Edge((((t as u8) - 1) / 2) as u8));
    }
}

/// The entries of the triangles of a row, read as the builder reads them.
fn row_triangles(row: &Vec<i8>) -> (r: Vec<u8>)
    requires
        row@.len() % 3 == 0,
        forall|k: int| 0 <= k < take_triangles(row@).len() ==> 0 <= #[trigger] take_triangles(row@)[k],
    ensures
        r@ == Seq::new(take_triangles(row@).len(), |k: int| take_triangles(row@)[k] as u8),
{
    let n = row.len();
    let mut out: Vec<u8> = Vec::new();
    let mut i: usize = 0;
    proof {
        assert(row@.subrange(0, n as int) =~= row@);
        assert(row@.subrange(0, 0) + take_triangles(row@) =~= take_triangles(row@));
    }
    while i < n && row[i] >= 0
        invariant
            n == row@.len(),
            n % 3 == 0,
            i % 3 == 0,
            i <= n,
            forall|k: int| 0 <= k < take_triangles(row@).len() ==> 0 <= #[trigger] take_triangles(row@)[k],
            take_triangles(row@) == row@.subrange(0, i as int) + take_triangles(row@.subrange(i as int, n as int)),
            out@ == Seq::new(i as nat, |k: int| row@[k] as u8),
        decreases n - i,
    {
        proof {
            assert(i + 3 <= n);
            let rest = row@.subrange(i as int, n as int);
            assert(rest.subrange(0, 3) =~= row@.subrange(i as int, i + 3));
            assert(rest.subrange(3, rest.len() as int) =~= row@.subrange(i + 3, n as int));
            assert(take_triangles(rest) == rest.subrange(0, 3) + take_triangles(rest.subrange(3, rest.len() as int)));
            assert(take_triangles(row@) =~= row@.subrange(0, i + 3) + take_triangles(row@.subrange(i + 3, n as int)));
            assert(take_triangles(row@)[i as int] == row@[i as int]);
            assert(take_triangles(row@)[i + 1] == row@[i + 1]);
            assert(take_triangles(row@)[i + 2] == row@[i + 2]);
        }
        out.push(row[i] as u8);
        out.push(row[i + 1] as u8);
        out.push(row[i + 2] as u8);
        proof {
            assert(row@.subrange(0, i + 3) =~= row@.subrange(0, i as int) + row@.subrange(i as int, i + 3));
            assert(out@ =~= Seq::new((i + 3) as nat, |k: int| row@[k] as u8));
        }
        i = i + 3;
    }
    proof {
        let rest = row@.subrange(i as int, n as int);
        assert(take_triangles(rest) =~= Seq::<i8>::empty());
        assert(take_triangles(row@) =~= row@.subrange(0, i as int));
        assert(out@ =~= Seq::new(take_triangles(row@).len(), |k: int| take_triangles(row@)[k] as u8));
    }
    out
}

/// The entries taken are whole triangles.
proof fn lemma_take_triangles_len(row: Seq<i8>)
    ensures
        take_triangles(row).len() % 3 == 0,
        take_triangles(row).len() <= row.len(),
    decreases row.len(),
{
    if row.len() >= 3 && row[0] >= 0 {
        lemma_take_triangles_len(row.subrange(3, row.len() as int));
    }
}

/// The builder of the skirts that close the seams between chunks.
pub struct MarchingCubesSkirts {
    settings: MesherSettings,
}

impl MarchingCubesSkirts {
    /// A builder with the given settings.
    pub fn new(settings: MesherSettings) -> (r: MarchingCubesSkirts)
        ensures
            r.settings() == settings,
    {
        MarchingCubesSkirts { settings }
    }

    /// The settings.
    pub closed spec fn settings(&self) -> MesherSettings {
        self.settings
    }

    /// Whether skirts are built at all.
    pub fn enabled(&self) -> (r: bool)
        ensures
            r == self.settings().skirts,
    {
        self.settings.skirts
    }

    /// The points of the skirt triangles of a square in case `case`, by
    /// the tables, turned over where `flip`.
    pub fn solve_marching_squares(&self, tables: &SquareTables, case: u8, flip: bool) -> (r: Vec<SkirtPoint>)
        requires
            tables.wf(),
            case < 16,
        ensures
            r@ == table_skirt(tables, case, flip),
    {
        let row = &tables.case_triangles[case as usize];
        proof {
            assert(forall|k: int| 0 <= k < take_triangles(row@).len() ==> 0 <= #[trigger] take_triangles(row@)[k]);
        }
        let mut tris = row_triangles(row);
        let len = tris.len();
        let ghost orig = tris@;
        proof {
            lemma_take_triangles_len(row@);
            assert(len % 3 == 0);
        }
        if flip {
            let mut t: usize = 0;
            while t < len / 3
                invariant
                    len == orig.len(),
                    len % 3 == 0,
                    tris@.len() == len,
                    t <= len / 3,
                    forall|k: int|
                        0 <= k < len ==> #[trigger] tris@[k] == if k < 3 * t {
                            flipped(orig, true)[k]
                        } else {
                            orig[k]
                        },
                decreases len / 3 - t,
            {
                let a = tris[3 * t];
                let b = tris[3 * t + 2];
                tris.set(3 * t, b);
                tris.set(3 * t + 2, a);
                t = t + 1;
            }
            proof {
                assert(tris@ =~= flipped(orig, true));
            }
        }
        let mut out: Vec<SkirtPoint> = Vec::new();
        let mut k: usize = 0;
        while k < len
            invariant
                tables.wf(),
                case < 16,
                row@ == tables.case_triangles@[case as int]@,
                orig == Seq::new(take_triangles(row@).len(), |j: int| take_triangles(row@)[j] as u8),
                tris@.len() == len,
                tris@ == flipped(orig, flip),
                k <= len,
                out@.len() == k,
                forall|i: int| 0 <= i < k ==> #[trigger] out@[i] == spec_point(tris@[i]),
            decreases len - k,
        {
            proof {
                let c = case as int;
                assert(flipped(orig, flip)[k as int] < 8) by {
                    if flip {
                        let kk = k as int;
                        if kk % 3 == 0 && kk + 2 < orig.len() {
                            assert(take_triangles(tables.case_triangles@[c]@)[kk + 2] < 8);
                        } else if kk % 3 == 2 {
                            assert(take_triangles(tables.case_triangles@[c]@)[kk - 2] < 8);
                        } else {
                            assert(take_triangles(tables.case_triangles@[c]@)[kk] < 8);
                        }
                    } else {
                        assert(take_triangles(tables.case_triangles@[c]@)[k as int] < 8);
                    }
                }
            }
            out.push(crate::squares::point(tris[k]));
            k = k + 1;
        }
        proof {
            assert(out@ =~= table_skirt(tables, case, flip));
        }
        out
    }

    /// Builds the skirt of a face of a chunk: for each square, given by
    /// which corners are inside and whether it is turned over, that has
    /// some corners inside and some outside, its index and its points.
    /// Nothing where skirts are off.
    pub fn build(&self, tables: &SquareTables, squares: &Vec<([bool; 4], bool)>) -> (r: Vec<(usize, Vec<SkirtPoint>)>)
        requires
            tables.wf(),
        ensures
            !self.settings().skirts ==> r@.len() == 0,
            self.settings().skirts ==> r@.len() == table_skirts(tables, squares@, squares@.len() as int).len()
                && forall|k: int|
                0 <= k < r@.len() ==> (#[trigger] r@[k]).0 == table_skirts(tables, squares@, squares@.len() as int)[k].0
                    && r@[k].1@ == table_skirts(tables, squares@, squares@.len() as int)[k].1,
    {
        let mut out: Vec<(usize, Vec<SkirtPoint>)> = Vec::new();
        if !self.settings.skirts {
            return out;
        }
        let mut i: usize = 0;
        while i < squares.len()
            invariant
                tables.wf(),
                i <= squares@.len(),
                out@.len() == table_skirts(tables, squares@, i as int).len(),
                forall|k: int|
                    0 <= k < out@.len() ==> (#[trigger] out@[k]).0 == table_skirts(tables, squares@, i as int)[k].0
                        && out@[k].1@ == table_skirts(tables, squares@, i as int)[k].1,
            decreases squares@.len() - i,
        {
            let (inside, flip) = squares[i];
            let case = square_case(inside);
            let ghost before = table_skirts(tables, squares@, i as int);
            if case != 0 && case != 15 {
                let points = self.solve_marching_squares(tables, case, flip);
                out.push((i, points));
                proof {
                    assert(table_skirts(tables, squares@, i + 1) == before.push(
                        (i as usize, table_skirt(tables, case, flip)),
                    ));
                }
            } else {
                proof {
                    assert(table_skirts(tables, squares@, i + 1) =~= before);
                }
            }
            i = i + 1;
        }
        out
    }
}

/// The skirts of the squares `squares[..n]` by the tables, in order: for
/// each square with some corners inside and some outside, its index and
/// its points.
pub open spec fn table_skirts(tables: &SquareTables, squares: Seq<([bool; 4], bool)>, n: int) -> Seq<(usize, Seq<SkirtPoint>)>
    decreases n,
{
    if n <= 0 {
        Seq::empty()
    } else {
        let i = n - 1;
        let case = spec_square_case(squares[i].0);
        table_skirts(tables, squares, i) + if case != 0 && case != 15 {
            seq![(i as usize, table_skirt(tables, case as u8, squares[i].1))]
        } else {
            Seq::empty()
        }
    }
}

/// The vertices of a skirt model: the points of each square's skirt in
/// order, each with the index of its square.
pub open spec fn flat_points(s: Seq<(usize, Seq<SkirtPoint>)>) -> Seq<(usize, SkirtPoint)>
    decreases s.len(),
{
    if s.len() == 0 {
        Seq::empty()
    } else {
        flat_points(s.drop_last()) + s.last().1.map_values(|p: SkirtPoint| (s.last().0, p))
    }
}

/// A skirt model: its vertices, each a point of the skirt of a square
/// (by the square's index), and one index per vertex.
pub struct SkirtMesh {
    pub vertices: Vec<(usize, SkirtPoint)>,
    pub indices: Vec<u32>,
}

/// The skirt of each square has whole triangles and at most twelve points.
proof fn lemma_table_skirts_sizes(tables: &SquareTables, squares: Seq<([bool; 4], bool)>, n: int)
    requires
        tables.wf(),
        0 <= n <= squares.len(),
    ensures
        flat_points(table_skirts(tables, squares, n)).len() % 3 == 0,
        flat_points(table_skirts(tables, squares, n)).len() <= 12 * n,
    decreases n,
{
    if n > 0 {
        lemma_table_skirts_sizes(tables, squares, n - 1);
        let case = spec_square_case(squares[n - 1].0);
        let before = table_skirts(tables, squares, n - 1);
        if case != 0 && case != 15 {
            let entry = (((n - 1) as usize), table_skirt(tables, case as u8, squares[n - 1].1));
            let after = before.push(entry);
            assert(table_skirts(tables, squares, n) =~= after);
            assert(after.drop_last() =~= before);
            lemma_take_triangles_len(tables.case_triangles@[case as int]@);
            assert(table_skirt(tables, case as u8, squares[n - 1].1).len() == take_triangles(
                tables.case_triangles@[case as int]@,
            ).len());
        } else {
            assert(table_skirts(tables, squares, n) =~= before);
        }
    }
}

impl MarchingCubesSkirts {
    /// Builds the skirt model of a face of a chunk (see `build`), to be
    /// appended to a model that holds `first` vertices: each point of each
    /// square's skirt becomes a vertex, in order, and each vertex is its own
    /// triangle corner, with index `first` plus its position, cut to 32 bits
    /// as `as u32` cuts. The vertices make whole triangles.
    pub fn build_mesh(&self, tables: &SquareTables, squares: &Vec<([bool; 4], bool)>, first: usize) -> (r: SkirtMesh)
        requires
            tables.wf(),
            first + 12 * squares@.len() <= usize::MAX,
        ensures
            r.vertices@ == (if self.settings().skirts {
                flat_points(table_skirts(tables, squares@, squares@.len() as int))
            } else {
                Seq::empty()
            }),
            r.indices@ == Seq::new(r.vertices@.len(), |j: int| (first + j) as u32),
            r.vertices@.len() % 3 == 0,
    {
        let skirt = self.build(tables, squares);
        let ghost whole: Seq<(usize, Seq<SkirtPoint>)> = if self.settings.skirts {
            table_skirts(tables, squares@, squares@.len() as int)
        } else {
            Seq::empty()
        };
        proof {
            lemma_table_skirts_sizes(tables, squares@, squares@.len() as int);
        }
        let mut vertices: Vec<(usize, SkirtPoint)> = Vec::new();
        let mut indices: Vec<u32> = Vec::new();
        let mut k: usize = 0;
        while k < skirt.len()
            invariant
                skirt@.len() == whole.len(),
                forall|j: int| 0 <= j < skirt@.len() ==> (#[trigger] skirt@[j]).0 == whole[j].0 && skirt@[j].1@ == whole[j].1,
                k <= skirt@.len(),
                vertices@ == flat_points(whole.subrange(0, k as int)),
                flat_points(whole.subrange(0, k as int)).len() <= flat_points(whole).len(),
                flat_points(whole).len() <= 12 * squares@.len(),
                first + 12 * squares@.len() <= usize::MAX,
                indices@ == Seq::new(vertices@.len(), |j: int| (first + j) as u32),
            decreases skirt@.len() - k,
        {
            let square = skirt[k].0;
            let points = &skirt[k].1;
            let ghost before = vertices@;
            proof {
                lemma_flat_prefix(whole, k + 1);
            }
            let mut p: usize = 0;
            while p < points.len()
                invariant
                    k < skirt@.len(),
                    points@ == whole[k as int].1,
                    square == whole[k as int].0,
                    p <= points@.len(),
                    vertices@ == before + points@.subrange(0, p as int).map_values(|q: SkirtPoint| (square, q)),
                    before.len() + points@.len() <= 12 * squares@.len(),
                    first + 12 * squares@.len() <= usize::MAX,
                    indices@ == Seq::new(vertices@.len(), |j: int| (first + j) as u32),
                decreases points@.len() - p,
            {
                let index = (first + vertices.len()) as u32;
                vertices.push((square, points[p]));
                indices.push(index);
                proof {
                    assert(points@.subrange(0, p + 1).map_values(|q: SkirtPoint| (square, q)) =~= points@.subrange(
                        0,
                        p as int,
                    ).map_values(|q: SkirtPoint| (square, q)).push((square, points@[p as int])));
                    assert(indices@ =~= Seq::new(vertices@.len(), |j: int| (first + j) as u32));
                }
                p = p + 1;
            }
            proof {
                assert(points@.subrange(0, points@.len() as int) =~= points@);
            }
            k = k + 1;
        }
        proof {
            assert(whole.subrange(0, whole.len() as int) =~= whole);
        }
        SkirtMesh { vertices, indices }
    }
}

/// The vertices of a prefix of the squares, one square longer, and no more
/// than those of all of them.
proof fn lemma_flat_prefix(s: Seq<(usize, Seq<SkirtPoint>)>, n: int)
    requires
        0 < n <= s.len(),
    ensures
        flat_points(s.subrange(0, n)) == flat_points(s.subrange(0, n - 1)) + s[n - 1].1.map_values(
            |p: SkirtPoint| (s[n - 1].0, p),
        ),
        flat_points(s.subrange(0, n)).len() <= flat_points(s).len(),
    decreases s.len() - n,
{
    assert(s.subrange(0, n).drop_last() =~= s.subrange(0, n - 1));
    if n < s.len() {
        lemma_flat_prefix(s, n + 1);
    } else {
        assert(s.subrange(0, n) =~= s);
    }
}

} // verus!
