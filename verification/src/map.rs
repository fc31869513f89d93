use vstd::prelude::*;
use crate::direction::{Direction, spec_is_horizontal, spec_is_vertical};
use crate::grid::{Grid, spec_grid_index};
use crate::math::{
    PROB_ONE, ENTROPY_INIT, sum64, spec_entropy, is_one_hot, one_hot, zero_weights,
    lemma_sum64_zero,
};
use crate::tile::{TileSet, spec_axis_direction};
use crate::random::{rng_from_seed, sample_weighted};
use rand::rngs::StdRng;

verus! {

/// How far, in edges, one propagation call carries an observation's
/// compatibility signal; bounding it keeps each call local.
pub const DEFAULT_MAX_DISTANCE: usize = 3;

/// A directed edge of the cell graph: the neighbor cell in one axis
/// direction.
#[derive(Debug, Clone, Copy, PartialEq, Eq, Structural)]
pub struct Edge {
    pub direction: Direction,
    pub target: usize,
}

/// One entry of the propagation stack: the cell to process, the tile the
/// originating observation collapsed to, and the distance walked from it.
#[derive(Debug, Clone, Copy, PartialEq, Eq, Structural)]
pub struct Node {
    pub current_cell_id: usize,
    pub current_tile_id: u32,
    pub current_distance: usize,
}

impl Node {
    pub fn new(current_cell_id: usize, current_tile_id: u32, current_distance: usize) -> (n: Node)
        ensures
            n.current_cell_id == current_cell_id,
            n.current_tile_id == current_tile_id,
            n.current_distance == current_distance,
    {
        Node { current_cell_id, current_tile_id, current_distance }
    }
}

/// The one fatal failure of a run: a cell whose weights admit no
/// distribution at observation time.
#[derive(Debug, Clone, Copy, PartialEq, Eq, Structural)]
pub enum GenerationError {
    Contradiction,
}

/// The cell adjacent to `(x, y, z)` in an axis direction, if it lies within
/// the lattice: east and west walk the first axis, north and south the
/// second, up and down the vertical. A diagonal direction never carries an
/// edge.
pub open spec fn spec_neighbor(
    width: int,
    depth: int,
    height: int,
    x: int,
    y: int,
    z: int,
    d: Direction,
) -> Option<int> {
    match d {
        Direction::East => if x + 1 < width {
            Option::Some(spec_grid_index(width, depth, x + 1, y, z))
        } else {
            Option::None
        },
        Direction::West => if x >= 1 {
            Option::Some(spec_grid_index(width, depth, x - 1, y, z))
        } else {
            Option::None
        },
        Direction::North => if y + 1 < depth {
            Option::Some(spec_grid_index(width, depth, x, y + 1, z))
        } else {
            Option::None
        },
        Direction::South => if y >= 1 {
            Option::Some(spec_grid_index(width, depth, x, y - 1, z))
        } else {
            Option::None
        },
        Direction::Up => if z + 1 < height {
            Option::Some(spec_grid_index(width, depth, x, y, z + 1))
        } else {
            Option::None
        },
        Direction::Down => if z >= 1 {
            Option::Some(spec_grid_index(width, depth, x, y, z - 1))
        } else {
            Option::None
        },
        _ => Option::None,
    }
}

/// The table order of the axis directions; diagonals stand after them all.
pub open spec fn spec_axis_slot(d: Direction) -> int {
    match d {
        Direction::East => 0,
        Direction::West => 1,
        Direction::North => 2,
        Direction::South => 3,
        Direction::Up => 4,
        Direction::Down => 5,
        _ => 6,
    }
}

/// The edge list of the cell at `(x, y, z)` is exactly one edge per axis
/// direction whose neighbor lies within the lattice: every listed edge
/// points at that in-bounds neighbor, every in-bounds neighbor is listed,
/// and no direction is listed twice.
pub open spec fn cell_edges_ok(
    g: Seq<Edge>,
    width: int,
    depth: int,
    height: int,
    x: int,
    y: int,
    z: int,
) -> bool {
    &&& forall|j: int|
        0 <= j < g.len() ==> spec_neighbor(width, depth, height, x, y, z, (#[trigger] g[j]).direction)
            == Option::Some(g[j].target as int)
    &&& forall|d: Direction|
        (#[trigger] spec_neighbor(width, depth, height, x, y, z, d)) is Some ==> exists|j: int|
            0 <= j < g.len() && (#[trigger] g[j]).direction == d
    &&& forall|j1: int, j2: int|
        0 <= j1 < j2 < g.len() ==> (#[trigger] g[j1]).direction != (#[trigger] g[j2]).direction
}

/// The in-lattice neighbor of a cell in one axis direction, if any.
fn neighbor_index(width: u32, depth: u32, height: u32, x: u32, y: u32, z: u32, d: Direction) -> (r:
    Option<usize>)
    requires
        x < width,
        y < depth,
        z < height,
        width * depth * height <= usize::MAX,
    ensures
        match r {
            Option::Some(t) => spec_neighbor(
                width as int,
                depth as int,
                height as int,
                x as int,
                y as int,
                z as int,
                d,
            ) == Option::Some(t as int) && t < width * depth * height,
            Option::None => spec_neighbor(
                width as int,
                depth as int,
                height as int,
                x as int,
                y as int,
                z as int,
                d,
            ) is None,
        },
{
    match d {
        Direction::East => if x + 1 < width {
            Option::Some(crate::grid::grid_offset(width, depth, height, x + 1, y, z))
        } else {
            Option::None
        },
        Direction::West => if x >= 1 {
            Option::Some(crate::grid::grid_offset(width, depth, height, x - 1, y, z))
        } else {
            Option::None
        },
        Direction::North => if y + 1 < depth {
            Option::Some(crate::grid::grid_offset(width, depth, height, x, y + 1, z))
        } else {
            Option::None
        },
        Direction::South => if y >= 1 {
            Option::Some(crate::grid::grid_offset(width, depth, height, x, y - 1, z))
        } else {
            Option::None
        },
        Direction::Up => if z + 1 < height {
            Option::Some(crate::grid::grid_offset(width, depth, height, x, y, z + 1))
        } else {
            Option::None
        },
        Direction::Down => if z >= 1 {
            Option::Some(crate::grid::grid_offset(width, depth, height, x, y, z - 1))
        } else {
            Option::None
        },
        _ => Option::None,
    }
}

/// Builds the edge list of one cell, in axis-direction order.
fn cell_edges(width: u32, depth: u32, height: u32, x: u32, y: u32, z: u32) -> (v: Vec<Edge>)
    requires
        x < width,
        y < depth,
        z < height,
        width * depth * height <= usize::MAX,
    ensures
        cell_edges_ok(
            v@,
            width as int,
            depth as int,
            height as int,
            x as int,
            y as int,
            z as int,
        ),
        forall|j: int| 0 <= j < v@.len() ==> (#[trigger] v@[j]).target < width * depth * height,
{
    let mut v: Vec<Edge> = Vec::new();
    let mut k: usize = 0;
    while k < 6
        invariant
            k <= 6,
            x < width,
            y < depth,
            z < height,
            width * depth * height <= usize::MAX,
            forall|j: int|
                0 <= j < v@.len() ==> spec_neighbor(
                    width as int,
                    depth as int,
                    height as int,
                    x as int,
                    y as int,
                    z as int,
                    (#[trigger] v@[j]).direction,
                ) == Option::Some(v@[j].target as int),
            forall|j: int| 0 <= j < v@.len() ==> (#[trigger] v@[j]).target < width * depth * height,
            forall|j: int|
                0 <= j < v@.len() ==> 0 <= spec_axis_slot((#[trigger] v@[j]).direction) < k,
            forall|j1: int, j2: int|
                0 <= j1 < j2 < v@.len() ==> spec_axis_slot((#[trigger] v@[j1]).direction)
                    < spec_axis_slot((#[trigger] v@[j2]).direction),
            forall|kk: int|
                0 <= kk < k && spec_neighbor(
                    width as int,
                    depth as int,
                    height as int,
                    x as int,
                    y as int,
                    z as int,
                    #[trigger] spec_axis_direction(kk),
                ) is Some ==> exists|j: int|
                    0 <= j < v@.len() && (#[trigger] v@[j]).direction == spec_axis_direction(kk),
        decreases 6 - k,
    {
        let d = crate::tile::axis_direction(k);
        match neighbor_index(width, depth, height, x, y, z, d) {
            Option::Some(t) => {
                let ghost pre = v@;
                v.push(Edge { direction: d, target: t });
                proof {
                    assert(v@.len() == pre.len() + 1);
                    assert(v@[pre.len() as int].direction == d);
                    assert(forall|j: int| 0 <= j < pre.len() ==> v@[j] == pre[j]);
                    assert(spec_axis_slot(spec_axis_direction(k as int)) == k as int);
                    assert forall|kk: int|
                        0 <= kk < k + 1 && spec_neighbor(
                            width as int,
                            depth as int,
                            height as int,
                            x as int,
                            y as int,
                            z as int,
                            #[trigger] spec_axis_direction(kk),
                        ) is Some implies exists|j: int|
                        0 <= j < v@.len() && (#[trigger] v@[j]).direction == spec_axis_direction(
                            kk,
                        ) by {
                        if kk == k {
                            assert(v@[pre.len() as int].direction == spec_axis_direction(kk));
                        } else {
                            let j = choose|j: int|
                                0 <= j < pre.len() && (#[trigger] pre[j]).direction
                                    == spec_axis_direction(kk);
                            assert(v@[j].direction == spec_axis_direction(kk));
                        }
                    }
                }
            },
            Option::None => {
            },
        }
        k = k + 1;
    }
    proof {
        assert forall|d: Direction|
            (#[trigger] spec_neighbor(
                width as int,
                depth as int,
                height as int,
                x as int,
                y as int,
                z as int,
                d,
            )) is Some implies exists|j: int|
            0 <= j < v@.len() && (#[trigger] v@[j]).direction == d by {
            assert(spec_is_horizontal(d) || spec_is_vertical(d));
            let kk = spec_axis_slot(d);
            assert(spec_axis_direction(kk) == d);
        }
        assert forall|j1: int, j2: int| 0 <= j1 < j2 < v@.len() implies (#[trigger] v@[j1]).direction
            != (#[trigger] v@[j2]).direction by {
            assert(spec_axis_slot(v@[j1].direction) < spec_axis_slot(v@[j2].direction));
        }
    }
    v
}

/// How many cells have been observed.
pub open spec fn count_observed(s: Seq<Option<u32>>) -> int
    decreases s.len(),
{
    if s.len() == 0 {
        0
    } else {
        count_observed(s.drop_last()) + if s.last() is Some {
            1int
        } else {
            0int
        }
    }
}

pub proof fn lemma_count_observed_bounds(s: Seq<Option<u32>>)
    ensures
        0 <= count_observed(s) <= s.len(),
    decreases s.len(),
{
    if s.len() > 0 {
        lemma_count_observed_bounds(s.drop_last());
    }
}

/// Observing one unobserved cell raises the observed count by exactly one.
pub proof fn lemma_count_observed_update(s: Seq<Option<u32>>, i: int, t: u32)
    requires
        0 <= i < s.len(),
        s[i] is None,
    ensures
        count_observed(s.update(i, Option::Some(t))) == count_observed(s) + 1,
    decreases s.len(),
{
    let u = s.update(i, Option::Some(t));
    if i == s.len() - 1 {
        assert(u.drop_last() =~= s.drop_last());
        assert(u.last() == Option::Some(t));
        assert(s.last() == s[i]);
    } else {
        assert(u.drop_last() =~= s.drop_last().update(i, Option::Some(t)));
        assert(u.last() == s.last());
        lemma_count_observed_update(s.drop_last(), i, t);
    }
}

/// How many cells a propagation pass has not yet visited.
pub open spec fn count_false(s: Seq<bool>) -> int
    decreases s.len(),
{
    if s.len() == 0 {
        0
    } else {
        count_false(s.drop_last()) + if s.last() {
            0int
        } else {
            1int
        }
    }
}

proof fn lemma_count_false_bounds(s: Seq<bool>)
    ensures
        0 <= count_false(s) <= s.len(),
    decreases s.len(),
{
    if s.len() > 0 {
        lemma_count_false_bounds(s.drop_last());
    }
}

proof fn lemma_count_false_update(s: Seq<bool>, i: int)
    requires
        0 <= i < s.len(),
        !s[i],
    ensures
        count_false(s.update(i, true)) == count_false(s) - 1,
    decreases s.len(),
{
    let u = s.update(i, true);
    if i == s.len() - 1 {
        assert(u.drop_last() =~= s.drop_last());
        assert(s.last() == s[i]);
    } else {
        assert(u.drop_last() =~= s.drop_last().update(i, true));
        assert(u.last() == s.last());
        lemma_count_false_update(s.drop_last(), i);
    }
}

/// Cell `i` of the graph carries exactly the edges of its lattice position.
pub open spec fn graph_ok_at(
    g: Seq<Vec<Edge>>,
    width: int,
    depth: int,
    height: int,
    i: int,
) -> bool {
    exists|x: int, y: int, z: int|
        0 <= x < width && 0 <= y < depth && 0 <= z < height && i == spec_grid_index(
            width,
            depth,
            x,
            y,
            z,
        ) && cell_edges_ok(g[i]@, width, depth, height, x, y, z)
}

/// Every listed neighbor of an in-bounds cell lies in the lattice, and only
/// an axis direction carries one.
proof fn lemma_neighbor_in_bounds(
    width: int,
    depth: int,
    height: int,
    x: int,
    y: int,
    z: int,
    d: Direction,
)
    requires
        0 <= x < width,
        0 <= y < depth,
        0 <= z < height,
        spec_neighbor(width, depth, height, x, y, z, d) is Some,
    ensures
        0 <= spec_neighbor(width, depth, height, x, y, z, d)->Some_0 < width * depth * height,
        spec_is_horizontal(d) || spec_is_vertical(d),
{
    match d {
        Direction::East => {
            crate::grid::lemma_grid_index_bounds(width, depth, height, x + 1, y, z);
        },
        Direction::West => {
            crate::grid::lemma_grid_index_bounds(width, depth, height, x - 1, y, z);
        },
        Direction::North => {
            crate::grid::lemma_grid_index_bounds(width, depth, height, x, y + 1, z);
        },
        Direction::South => {
            crate::grid::lemma_grid_index_bounds(width, depth, height, x, y - 1, z);
        },
        Direction::Up => {
            crate::grid::lemma_grid_index_bounds(width, depth, height, x, y, z + 1);
        },
        Direction::Down => {
            crate::grid::lemma_grid_index_bounds(width, depth, height, x, y, z - 1);
        },
        _ => {
        },
    }
}

/// The cell at any lattice position, a corner included, has exactly one
/// edge per in-bounds axis neighbor, and every edge target lies within the
/// lattice: no edge references an out-of-range position.
pub proof fn lemma_boundary_edges(m: VoxelMap, x: int, y: int, z: int)
    requires
        m.wf(),
        0 <= x < m.width,
        0 <= y < m.depth,
        0 <= z < m.height,
    ensures
        cell_edges_ok(
            m.graph@[spec_grid_index(m.width as int, m.depth as int, x, y, z)]@,
            m.width as int,
            m.depth as int,
            m.height as int,
            x,
            y,
            z,
        ),
        forall|j: int|
            0 <= j < m.graph@[spec_grid_index(m.width as int, m.depth as int, x, y, z)]@.len()
                ==> 0 <= (#[trigger] m.graph@[spec_grid_index(
                m.width as int,
                m.depth as int,
                x,
                y,
                z,
            )]@[j]).target < m.cell_count(),
{
    let i = spec_grid_index(m.width as int, m.depth as int, x, y, z);
    crate::grid::lemma_grid_index_bounds(m.width as int, m.depth as int, m.height as int, x, y, z);
    assert(graph_ok_at(m.graph@, m.width as int, m.depth as int, m.height as int, i));
    let (xx, yy, zz): (int, int, int) = choose|xx: int, yy: int, zz: int|
        0 <= xx < m.width && 0 <= yy < m.depth && 0 <= zz < m.height && i == spec_grid_index(
            m.width as int,
            m.depth as int,
            xx,
            yy,
            zz,
        ) && cell_edges_ok(m.graph@[i]@, m.width as int, m.depth as int, m.height as int, xx, yy, zz);
    if !(xx == x && yy == y && zz == z) {
        crate::grid::lemma_grid_index_injective(
            m.width as int,
            m.depth as int,
            xx,
            yy,
            zz,
            x,
            y,
            z,
        );
    }
    assert forall|j: int| 0 <= j < m.graph@[i]@.len() implies 0 <= (#[trigger] m.graph@[i]@[j]).target
        < m.cell_count() by {
        assert(spec_neighbor(
            m.width as int,
            m.depth as int,
            m.height as int,
            x,
            y,
            z,
            m.graph@[i]@[j].direction,
        ) == Option::Some(m.graph@[i]@[j].target as int));
        lemma_neighbor_in_bounds(
            m.width as int,
            m.depth as int,
            m.height as int,
            x,
            y,
            z,
            m.graph@[i]@[j].direction,
        );
    }
}

/// Every edge listed for an in-bounds cell points back into the lattice.
proof fn lemma_row_target_bounds(m: VoxelMap, cell: int, e: int)
    requires
        m.wf(),
        0 <= cell < m.cell_count(),
        0 <= e < m.graph@[cell]@.len(),
    ensures
        0 <= m.graph@[cell]@[e].target < m.cell_count(),
{
    assert(graph_ok_at(m.graph@, m.width as int, m.depth as int, m.height as int, cell));
    let (x, y, z): (int, int, int) = choose|x: int, y: int, z: int|
        0 <= x < m.width && 0 <= y < m.depth && 0 <= z < m.height && cell == spec_grid_index(
            m.width as int,
            m.depth as int,
            x,
            y,
            z,
        ) && cell_edges_ok(m.graph@[cell]@, m.width as int, m.depth as int, m.height as int, x, y, z);
    assert(spec_neighbor(
        m.width as int,
        m.depth as int,
        m.height as int,
        x,
        y,
        z,
        m.graph@[cell]@[e].direction,
    ) == Option::Some(m.graph@[cell]@[e].target as int));
    lemma_neighbor_in_bounds(
        m.width as int,
        m.depth as int,
        m.height as int,
        x,
        y,
        z,
        m.graph@[cell]@[e].direction,
    );
}

/// Cell `i` kept its weights and entropy through a propagation call.
pub open spec fn untouched_cell(pre: VoxelMap, post: VoxelMap, i: int) -> bool {
    &&& post.weights@[i] == pre.weights@[i]
    &&& post.entropies@[i] == pre.entropies@[i]
}

/// Cell `i` took at least one propagation update: it was unobserved, its
/// weight vector now sums to exactly `PROB_ONE` (all entries non-negative by
/// type), and its entropy is the entropy of those weights.
pub open spec fn refreshed_cell(pre: VoxelMap, post: VoxelMap, i: int) -> bool {
    &&& pre.observations@[i] is None
    &&& sum64(post.weights@[i]@) == PROB_ONE
    &&& post.entropies@[i] == spec_entropy(post.weights@[i]@)
    &&& post.entropies@[i] < ENTROPY_INIT
}

/// The compatibility signal a source tile sends in one direction: one entry
/// per candidate tile of the catalog.
pub open spec fn compat_row(ts: TileSet, source: int, d: Direction) -> Seq<Option<u64>> {
    Seq::new(
        ts.tiles.len() as nat,
        |j: int| crate::tile::spec_compat(ts.tiles@[source].tag, d, ts.tiles@[j].tag),
    )
}

/// What a cell's weights would total right after receiving the origin's
/// signal across one edge: its weight sum before the call plus the signal's.
pub open spec fn origin_signal_sum(pre: VoxelMap, origin_tile: int, d: Direction, target: int) -> int {
    sum64(pre.weights@[target]@) + crate::math::sum_signal(
        compat_row(pre.tileset, origin_tile, d),
    )
}

/// Edge `e` of the propagation origin did its work: if its far cell was
/// unobserved and the origin's signal across it leaves any weight at all,
/// that cell ends the call touched, its entropy computed.
pub open spec fn origin_edge_touched(
    pre: VoxelMap,
    post: VoxelMap,
    cell: int,
    origin_tile: int,
    e: int,
) -> bool {
    (pre.observations@[pre.graph@[cell]@[e].target as int] is None && origin_signal_sum(
        pre,
        origin_tile,
        pre.graph@[cell]@[e].direction,
        pre.graph@[cell]@[e].target as int,
    ) > 0) ==> post.entropies@[pre.graph@[cell]@[e].target as int] < ENTROPY_INIT
}

/// Everything of a map that solving never changes: the lattice dimensions,
/// the catalog, the propagation bound and the edge structure.
pub open spec fn same_structure(a: VoxelMap, b: VoxelMap) -> bool {
    &&& b.width == a.width
    &&& b.depth == a.depth
    &&& b.height == a.height
    &&& b.tileset == a.tileset
    &&& b.max_distance == a.max_distance
    &&& b.graph == a.graph
}

/// The lattice of cells and the solver's whole mutable state: per cell, an
/// edge list fixed at construction, a weight vector over all tiles, an
/// entropy, and the observation slot.
pub struct VoxelMap {
    pub width: u32,
    pub depth: u32,
    pub height: u32,
    pub tileset: TileSet,
    pub rng: StdRng,
    pub max_distance: usize,
    pub graph: Vec<Vec<Edge>>,
    pub weights: Vec<Vec<u64>>,
    pub entropies: Vec<u64>,
    pub observations: Vec<Option<u32>>,
}

impl VoxelMap {
    pub open spec fn cell_count(self) -> int {
        self.width * self.depth * self.height
    }

    /// Every per-cell table has one entry per cell; every edge is a true
    /// lattice edge; every weight vector ranges over the catalog and sums to
    /// at most `PROB_ONE`; an observed cell is one-hot on its tile with zero
    /// entropy; and an entropy is either untouched or the entropy of the
    /// cell's normalized weights.
    pub open spec fn wf(self) -> bool {
        &&& self.tileset.wf()
        &&& 1 <= self.width
        &&& 1 <= self.depth
        &&& 1 <= self.height
        &&& self.cell_count() <= usize::MAX
        &&& self.max_distance < usize::MAX
        &&& self.graph.len() == self.cell_count()
        &&& self.weights.len() == self.cell_count()
        &&& self.entropies.len() == self.cell_count()
        &&& self.observations.len() == self.cell_count()
        &&& forall|i: int|
            0 <= i < self.cell_count() ==> #[trigger] graph_ok_at(
                self.graph@,
                self.width as int,
                self.depth as int,
                self.height as int,
                i,
            )
        &&& forall|i: int|
            0 <= i < self.cell_count() ==> (#[trigger] self.weights@[i]).len()
                == self.tileset.tiles.len()
        &&& forall|i: int| 0 <= i < self.cell_count() ==> sum64((#[trigger] self.weights@[i])@) <= PROB_ONE
        &&& forall|i: int|
            0 <= i < self.cell_count() ==> match #[trigger] self.observations@[i] {
                Option::Some(t) => (t as int) < self.tileset.tiles.len() && is_one_hot(
                    self.weights@[i]@,
                    t as int,
                ) && self.entropies@[i] == 0,
                Option::None => true,
            }
        &&& forall|i: int|
            0 <= i < self.cell_count() ==> (#[trigger] self.entropies@[i]) == ENTROPY_INIT || (
            sum64(self.weights@[i]@) == PROB_ONE && self.entropies@[i] == spec_entropy(
                self.weights@[i]@,
            ))
    }

    /// The index of the pre-observed seed cell: the lattice center at the
    /// lowest layer.
    pub open spec fn seed_cell(self) -> int {
        spec_grid_index(
            self.width as int,
            self.depth as int,
            self.width as int / 2,
            self.depth as int / 2,
            0,
        )
    }

    /// Builds the cell graph for the given lattice dimensions: every cell
    /// gets its in-bounds edges, a zero weight vector and an untouched
    /// entropy, except the seed cell, which starts observed as the
    /// catalog's seed tile with a one-hot weight vector.
    pub fn new(width: u32, depth: u32, height: u32, tileset: TileSet, seed: u64) -> (m: VoxelMap)
        requires
            tileset.wf(),
            1 <= width,
            1 <= depth,
            1 <= height,
            width * depth * height <= usize::MAX,
        ensures
            m.wf(),
            m.width == width,
            m.depth == depth,
            m.height == height,
            m.tileset == tileset,
            m.max_distance == DEFAULT_MAX_DISTANCE,
            m.observations@[m.seed_cell()] == Option::Some(tileset.seed_id),
            forall|i: int|
                0 <= i < m.cell_count() && i != m.seed_cell()
                    ==> (#[trigger] m.observations@[i]) is None,
            forall|i: int|
                0 <= i < m.cell_count() && i != m.seed_cell() ==> (#[trigger] m.entropies@[i])
                    == ENTROPY_INIT && forall|j: int|
                    0 <= j < m.weights@[i].len() ==> m.weights@[i]@[j] == 0,
            count_observed(m.observations@) == 1,
    {
        let tiles_len = tileset.tiles.len();
        let seed_id = tileset.seed_id;
        let sx = width / 2;
        let sy = depth / 2;
        let sz: u32 = 0;
        let seed_idx = crate::grid::grid_offset(width, depth, height, sx, sy, sz);
        let mut graph: Vec<Vec<Edge>> = Vec::new();
        let mut weights: Vec<Vec<u64>> = Vec::new();
        let mut entropies: Vec<u64> = Vec::new();
        let mut observations: Vec<Option<u32>> = Vec::new();
        let mut z: u32 = 0;
        while z < height
            invariant
                tileset.wf(),
                tiles_len == tileset.tiles.len(),
                seed_id == tileset.seed_id,
                1 <= width,
                1 <= depth,
                1 <= height,
                width * depth * height <= usize::MAX,
                sx == width / 2,
                sy == depth / 2,
                seed_idx == spec_grid_index(
                    width as int,
                    depth as int,
                    width as int / 2,
                    depth as int / 2,
                    0,
                ),
                z <= height,
                graph.len() == (width as int) * (depth as int) * (z as int),
                weights.len() == graph.len(),
                entropies.len() == graph.len(),
                observations.len() == graph.len(),
                forall|i: int|
                    0 <= i < graph.len() ==> #[trigger] graph_ok_at(
                        graph@,
                        width as int,
                        depth as int,
                        height as int,
                        i,
                    ),
                forall|i: int|
                    0 <= i < graph.len() ==> (#[trigger] weights@[i]).len() == tiles_len,
                forall|i: int|
                    0 <= i < graph.len() && i != seed_idx ==> (#[trigger] observations@[i]) is None
                        && entropies@[i] == ENTROPY_INIT && sum64(weights@[i]@) == 0 && forall|
                        j: int,
                    | 0 <= j < tiles_len ==> weights@[i]@[j] == 0,
                forall|i: int|
                    0 <= i < graph.len() && i == seed_idx ==> observations@[i] == Option::Some(
                        seed_id,
                    ) && entropies@[i] == 0 && is_one_hot(weights@[i]@, seed_id as int) && sum64(
                        weights@[i]@,
                    ) == PROB_ONE,
                count_observed(observations@) == if seed_idx < graph.len() {
                    1int
                } else {
                    0int
                },
            decreases height - z,
        {
            proof {
                assert((width as int) * ((depth as int) * (z as int)) == (width as int) * (
                depth as int) * (z as int)) by (nonlinear_arith);
            }
            let mut y: u32 = 0;
            while y < depth
                invariant
                    tileset.wf(),
                    tiles_len == tileset.tiles.len(),
                    seed_id == tileset.seed_id,
                    1 <= width,
                    1 <= depth,
                    1 <= height,
                    width * depth * height <= usize::MAX,
                    sx == width / 2,
                    sy == depth / 2,
                    seed_idx == spec_grid_index(
                        width as int,
                        depth as int,
                        width as int / 2,
                        depth as int / 2,
                        0,
                    ),
                    z < height,
                    y <= depth,
                    graph.len() == (width as int) * ((y as int) + (depth as int) * (z as int)),
                    weights.len() == graph.len(),
                    entropies.len() == graph.len(),
                    observations.len() == graph.len(),
                    forall|i: int|
                        0 <= i < graph.len() ==> #[trigger] graph_ok_at(
                            graph@,
                            width as int,
                            depth as int,
                            height as int,
                            i,
                        ),
                    forall|i: int|
                        0 <= i < graph.len() ==> (#[trigger] weights@[i]).len() == tiles_len,
                    forall|i: int|
                        0 <= i < graph.len() && i != seed_idx ==> (#[trigger] observations@[i]) is None
                            && entropies@[i] == ENTROPY_INIT && sum64(weights@[i]@) == 0 && forall|
                            j: int,
                        | 0 <= j < tiles_len ==> weights@[i]@[j] == 0,
                    forall|i: int|
                        0 <= i < graph.len() && i == seed_idx ==> observations@[i] == Option::Some(
                            seed_id,
                        ) && entropies@[i] == 0 && is_one_hot(weights@[i]@, seed_id as int)
                            && sum64(weights@[i]@) == PROB_ONE,
                    count_observed(observations@) == if seed_idx < graph.len() {
                        1int
                    } else {
                        0int
                    },
                decreases depth - y,
            {
                let mut x: u32 = 0;
                while x < width
                    invariant
                        tileset.wf(),
                        tiles_len == tileset.tiles.len(),
                        seed_id == tileset.seed_id,
                        1 <= width,
                        1 <= depth,
                        1 <= height,
                        width * depth * height <= usize::MAX,
                        sx == width / 2,
                        sy == depth / 2,
                        seed_idx == spec_grid_index(
                            width as int,
                            depth as int,
                            width as int / 2,
                            depth as int / 2,
                            0,
                        ),
                        z < height,
                        y < depth,
                        x <= width,
                        graph.len() == (x as int) + (width as int) * ((y as int) + (depth as int)
                            * (z as int)),
                        weights.len() == graph.len(),
                        entropies.len() == graph.len(),
                        observations.len() == graph.len(),
                        forall|i: int|
                            0 <= i < graph.len() ==> #[trigger] graph_ok_at(
                                graph@,
                                width as int,
                                depth as int,
                                height as int,
                                i,
                            ),
                        forall|i: int|
                            0 <= i < graph.len() ==> (#[trigger] weights@[i]).len() == tiles_len,
                        forall|i: int|
                            0 <= i < graph.len() && i != seed_idx
                                ==> (#[trigger] observations@[i]) is None && entropies@[i]
                                == ENTROPY_INIT && sum64(weights@[i]@) == 0 && forall|j: int|
                                0 <= j < tiles_len ==> weights@[i]@[j] == 0,
                        forall|i: int|
                            0 <= i < graph.len() && i == seed_idx ==> observations@[i]
                                == Option::Some(seed_id) && entropies@[i] == 0 && is_one_hot(
                                weights@[i]@,
                                seed_id as int,
                            ) && sum64(weights@[i]@) == PROB_ONE,
                        count_observed(observations@) == if seed_idx < graph.len() {
                            1int
                        } else {
                            0int
                        },
                    decreases width - x,
                {
                    let ghost idx = graph.len() as int;
                    proof {
                        crate::grid::lemma_grid_index_bounds(
                            width as int,
                            depth as int,
                            height as int,
                            x as int,
                            y as int,
                            z as int,
                        );
                        assert(idx == spec_grid_index(
                            width as int,
                            depth as int,
                            x as int,
                            y as int,
                            z as int,
                        ));
                        assert(width as int / 2 < width as int);
                        assert(depth as int / 2 < depth as int);
                        if !(x == sx && y == sy && z == 0) {
                            crate::grid::lemma_grid_index_injective(
                                width as int,
                                depth as int,
                                x as int,
                                y as int,
                                z as int,
                                width as int / 2,
                                depth as int / 2,
                                0,
                            );
                            assert(idx != seed_idx);
                        } else {
                            assert(idx == seed_idx);
                        }
                    }
                    let row = cell_edges(width, depth, height, x, y, z);
                    let ghost pre_graph = graph@;
                    let ghost pre_obs = observations@;
                    graph.push(row);
                    let is_seed = x == sx && y == sy && z == 0;
                    if is_seed {
                        weights.push(one_hot(tiles_len, seed_id as usize));
                        entropies.push(0);
                        observations.push(Option::Some(seed_id));
                    } else {
                        weights.push(zero_weights(tiles_len));
                        entropies.push(ENTROPY_INIT);
                        observations.push(Option::None);
                    }
                    proof {
                        assert(observations@.drop_last() =~= pre_obs);
                        assert forall|i: int| 0 <= i < graph.len() implies #[trigger] graph_ok_at(
                            graph@,
                            width as int,
                            depth as int,
                            height as int,
                            i,
                        ) by {
                            if i < pre_graph.len() {
                                assert(graph_ok_at(
                                    pre_graph,
                                    width as int,
                                    depth as int,
                                    height as int,
                                    i,
                                ));
                                let (xx, yy, zz): (int, int, int) = choose|xx: int, yy: int, zz: int|
                                    0 <= xx < width && 0 <= yy < depth && 0 <= zz < height && i
                                        == spec_grid_index(
                                        width as int,
                                        depth as int,
                                        xx,
                                        yy,
                                        zz,
                                    ) && cell_edges_ok(
                                        pre_graph[i]@,
                                        width as int,
                                        depth as int,
                                        height as int,
                                        xx,
                                        yy,
                                        zz,
                                    );
                                assert(graph@[i] == pre_graph[i]);
                            } else {
                                assert(graph@[i] == row);
                            }
                        }
                    }
                    x = x + 1;
                }
                proof {
                    assert((width as int) + (width as int) * ((y as int) + (depth as int) * (
                    z as int)) == (width as int) * ((y as int + 1) + (depth as int) * (z as int)))
                        by (nonlinear_arith);
                }
                y = y + 1;
            }
            proof {
                assert((width as int) * ((depth as int) + (depth as int) * (z as int)) == (
                width as int) * (depth as int) * (z as int + 1)) by (nonlinear_arith);
            }
            z = z + 1;
        }
        proof {
            assert((width as int) * (depth as int) * (height as int) == (width as int) * (
            depth as int) * (height as int)) by (nonlinear_arith);
            crate::grid::lemma_grid_index_bounds(
                width as int,
                depth as int,
                height as int,
                width as int / 2,
                depth as int / 2,
                0,
            );
        }
        proof {
            assert forall|i: int| 0 <= i < graph.len() implies sum64((#[trigger] weights@[i])@)
                <= PROB_ONE && (entropies@[i] == ENTROPY_INIT || (sum64(weights@[i]@) == PROB_ONE
                && entropies@[i] == spec_entropy(weights@[i]@))) && (i != seed_idx ==> (
            entropies@[i] == ENTROPY_INIT && observations@[i] is None && forall|j: int|
                0 <= j < weights@[i].len() ==> weights@[i]@[j] == 0)) && match observations@[i] {
                Option::Some(t) => (t as int) < tiles_len && is_one_hot(weights@[i]@, t as int)
                    && entropies@[i] == 0,
                Option::None => true,
            } by {
                if i == seed_idx {
                    assert(observations@[i] == Option::Some(seed_id));
                    crate::math::lemma_one_hot_entropy(weights@[i]@, seed_id as int);
                } else {
                    assert(observations@[i] is None);
                }
            }
        }
        let rng = rng_from_seed(seed);
        let m = VoxelMap {
            width,
            depth,
            height,
            tileset,
            rng,
            max_distance: DEFAULT_MAX_DISTANCE,
            graph,
            weights,
            entropies,
            observations,
        };
        proof {
            assert(m.seed_cell() == seed_idx);
            assert forall|i: int| 0 <= i < m.cell_count() && i != m.seed_cell() implies (
            #[trigger] m.entropies@[i]) == ENTROPY_INIT && (forall|j: int|
                0 <= j < m.weights@[i].len() ==> m.weights@[i]@[j] == 0) by {
                assert(m.weights@[i] == weights@[i]);
                assert(m.observations@[i] == observations@[i]);
                assert(sum64((#[trigger] weights@[i])@) <= PROB_ONE);
            }
        }
        m
    }

    /// Collapses an unobserved cell: samples a tile with probability
    /// proportional to the cell's weights, records it, sets the weights
    /// one-hot on it and the entropy to zero. Fails with a contradiction
    /// exactly when every weight of the cell is zero, leaving the whole
    /// state unchanged.
    pub fn observe(&mut self, cell_id: usize) -> (r: Result<u32, GenerationError>)
        requires
            old(self).wf(),
            cell_id < old(self).observations.len(),
            old(self).observations@[cell_id as int] is None,
        ensures
            final(self).wf(),
            same_structure(*old(self), *final(self)),
            match r {
                Result::Ok(t) => {
                    &&& (t as int) < old(self).tileset.tiles.len()
                    &&& old(self).weights@[cell_id as int]@[t as int] > 0
                    &&& final(self).observations@ == old(self).observations@.update(
                        cell_id as int,
                        Option::Some(t),
                    )
                    &&& is_one_hot(final(self).weights@[cell_id as int]@, t as int)
                    &&& final(self).entropies@[cell_id as int] == 0
                    &&& forall|i: int|
                        0 <= i < old(self).weights.len() && i != cell_id
                            ==> (#[trigger] final(self).weights@[i]) == old(self).weights@[i]
                            && final(self).entropies@[i] == old(self).entropies@[i]
                    &&& count_observed(final(self).observations@) == count_observed(
                        old(self).observations@,
                    ) + 1
                },
                Result::Err(e) => {
                    &&& e == GenerationError::Contradiction
                    &&& final(self).observations@ == old(self).observations@
                    &&& final(self).weights@ == old(self).weights@
                    &&& final(self).entropies@ == old(self).entropies@
                },
            },
            (r is Err) <==> (forall|j: int|
                0 <= j < old(self).weights@[cell_id as int].len()
                    ==> old(self).weights@[cell_id as int]@[j] == 0),
    {
        proof {
            assert(self.weights@[cell_id as int].len() == self.tileset.tiles.len());
            assert(sum64(self.weights@[cell_id as int]@) <= PROB_ONE);
            lemma_sum64_zero(self.weights@[cell_id as int]@);
        }
        match sample_weighted(&mut self.rng, &self.weights[cell_id]) {
            Option::None => {
                Result::Err(GenerationError::Contradiction)
            },
            Option::Some(picked) => {
                let t: u32 = picked as u32;
                let len = self.weights[cell_id].len();
                let ghost pre = *self;
                self.weights.set(cell_id, one_hot(len, picked));
                self.entropies.set(cell_id, 0);
                self.observations.set(cell_id, Option::Some(t));
                proof {
                    lemma_count_observed_update(pre.observations@, cell_id as int, t);
                    crate::math::lemma_one_hot_entropy(
                        self.weights@[cell_id as int]@,
                        picked as int,
                    );
                    assert forall|i: int| 0 <= i < self.cell_count() implies sum64(
                        (#[trigger] self.weights@[i])@,
                    ) <= PROB_ONE && self.weights@[i].len() == self.tileset.tiles.len() && (
                    self.entropies@[i] == ENTROPY_INIT || (sum64(self.weights@[i]@) == PROB_ONE
                        && self.entropies@[i] == spec_entropy(self.weights@[i]@))) && match self.observations@[i] {
                        Option::Some(tt) => (tt as int) < self.tileset.tiles.len() && is_one_hot(
                            self.weights@[i]@,
                            tt as int,
                        ) && self.entropies@[i] == 0,
                        Option::None => true,
                    } by {
                        if i != cell_id {
                            assert(self.weights@[i] == pre.weights@[i]);
                            assert(self.observations@[i] == pre.observations@[i]);
                            assert(sum64((#[trigger] pre.weights@[i])@) <= PROB_ONE);
                            assert(match pre.observations@[i] {
                                Option::Some(tt) => (tt as int) < pre.tileset.tiles.len()
                                    && is_one_hot(pre.weights@[i]@, tt as int) && pre.entropies@[i]
                                    == 0,
                                Option::None => true,
                            });
                        }
                    }
                }
                Result::Ok(t)
            },
        }
    }

    /// Pushes the observation at `cell_id` outward: a depth-first walk up to
    /// the configured distance that visits each cell at most once per call.
    /// Every unobserved cell reached through an edge accumulates the
    /// compatibility signal of the observed tile in that edge's direction,
    /// is renormalized, and gets its entropy recomputed; in particular every
    /// direct neighbor of the origin that the signal leaves satisfiable ends
    /// the call touched. An observed cell is never mutated, and a call on an
    /// unobserved origin changes nothing.
    pub fn propagate(&mut self, cell_id: usize)
        requires
            old(self).wf(),
            cell_id < old(self).observations.len(),
        ensures
            final(self).wf(),
            same_structure(*old(self), *final(self)),
            final(self).observations@ == old(self).observations@,
            forall|i: int|
                0 <= i < final(self).cell_count() ==> untouched_cell(*old(self), *final(self), i)
                    || #[trigger] refreshed_cell(*old(self), *final(self), i),
            old(self).observations@[cell_id as int] is None ==> forall|i: int|
                0 <= i < final(self).cell_count() ==> untouched_cell(*old(self), *final(self), i),
            match old(self).observations@[cell_id as int] {
                Option::Some(t) => forall|e: int|
                    0 <= e < old(self).graph@[cell_id as int]@.len()
                        ==> #[trigger] origin_edge_touched(
                        *old(self),
                        *final(self),
                        cell_id as int,
                        t as int,
                        e,
                    ),
                Option::None => true,
            },
    {
        let origin_tile: u32 = match self.observations[cell_id] {
            Option::Some(t) => t,
            Option::None => {
                return ;
            },
        };
        let n = self.observations.len();
        let mut visited: Vec<bool> = Vec::new();
        let mut vi: usize = 0;
        while vi < n
            invariant
                vi <= n,
                visited.len() == vi,
                forall|v: int| 0 <= v < vi ==> !visited@[v],
            decreases n - vi,
        {
            visited.push(false);
            vi = vi + 1;
        }
        let mut stack: Vec<Node> = Vec::new();
        stack.push(Node::new(cell_id, origin_tile, 0));
        loop
            invariant
                self.wf(),
                old(self).wf(),
                same_structure(*old(self), *self),
                self.observations@ == old(self).observations@,
                old(self).observations@[cell_id as int] == Option::Some(origin_tile),
                cell_id < n,
                n == self.observations.len(),
                n == self.cell_count(),
                visited.len() == n,
                (origin_tile as int) < self.tileset.tiles.len(),
                forall|s: int|
                    0 <= s < stack.len() ==> (#[trigger] stack@[s]).current_cell_id < n
                        && stack@[s].current_distance <= self.max_distance,
                forall|i: int|
                    0 <= i < n ==> untouched_cell(*old(self), *self, i) || #[trigger] refreshed_cell(
                        *old(self),
                        *self,
                        i,
                    ),
                (stack@.len() == 1 && stack@[0].current_cell_id == cell_id && forall|v: int|
                    0 <= v < n ==> !visited@[v]) || (visited@[cell_id as int] && forall|e: int|
                    0 <= e < old(self).graph@[cell_id as int]@.len()
                        ==> #[trigger] origin_edge_touched(
                        *old(self),
                        *self,
                        cell_id as int,
                        origin_tile as int,
                        e,
                    )),
            ensures
                self.wf(),
                same_structure(*old(self), *self),
                self.observations@ == old(self).observations@,
                forall|i: int|
                    0 <= i < n ==> untouched_cell(*old(self), *self, i) || #[trigger] refreshed_cell(
                        *old(self),
                        *self,
                        i,
                    ),
                forall|e: int|
                    0 <= e < old(self).graph@[cell_id as int]@.len()
                        ==> #[trigger] origin_edge_touched(
                        *old(self),
                        *self,
                        cell_id as int,
                        origin_tile as int,
                        e,
                    ),
            decreases count_false(visited@), stack.len(),
        {
            let node = match stack.pop() {
                Option::Some(nd) => nd,
                Option::None => {
                    proof {
                        assert(visited@[cell_id as int] && forall|e: int|
                            0 <= e < old(self).graph@[cell_id as int]@.len()
                                ==> #[trigger] origin_edge_touched(
                                *old(self),
                                *self,
                                cell_id as int,
                                origin_tile as int,
                                e,
                            ));
                    }
                    break ;
                },
            };
            if visited[node.current_cell_id] {
                continue ;
            }
            let ghost pre_visited = visited@;
            visited.set(node.current_cell_id, true);
            proof {
                lemma_count_false_update(pre_visited, node.current_cell_id as int);
                lemma_count_false_bounds(pre_visited);
                lemma_count_false_bounds(visited@);
            }
            let ghost vis1 = visited@;
            let num_edges = self.graph[node.current_cell_id].len();
            let mut j: usize = 0;
            while j < num_edges
                invariant
                    self.wf(),
                    old(self).wf(),
                    same_structure(*old(self), *self),
                    self.observations@ == old(self).observations@,
                    old(self).observations@[cell_id as int] == Option::Some(origin_tile),
                    cell_id < n,
                    n == self.observations.len(),
                    n == self.cell_count(),
                    visited.len() == n,
                    visited@ == vis1,
                    vis1[node.current_cell_id as int],
                    (origin_tile as int) < self.tileset.tiles.len(),
                    node.current_cell_id < n,
                    node.current_distance <= self.max_distance,
                    num_edges == self.graph@[node.current_cell_id as int].len(),
                    j <= num_edges,
                    forall|s: int|
                        0 <= s < stack.len() ==> (#[trigger] stack@[s]).current_cell_id < n
                            && stack@[s].current_distance <= self.max_distance,
                    forall|i: int|
                        0 <= i < n ==> untouched_cell(*old(self), *self, i)
                            || #[trigger] refreshed_cell(*old(self), *self, i),
                    node.current_cell_id == cell_id ==> (forall|v: int|
                        0 <= v < n && v != cell_id ==> !vis1[v]) && (forall|e: int|
                        0 <= e < j ==> #[trigger] origin_edge_touched(
                            *old(self),
                            *self,
                            cell_id as int,
                            origin_tile as int,
                            e,
                        )),
                    node.current_cell_id != cell_id ==> visited@[cell_id as int] && (forall|e: int|
                        0 <= e < old(self).graph@[cell_id as int]@.len()
                            ==> #[trigger] origin_edge_touched(
                            *old(self),
                            *self,
                            cell_id as int,
                            origin_tile as int,
                            e,
                        )),
                decreases num_edges - j,
            {
                let ghost self0 = *self;
                let edge = self.graph[node.current_cell_id][j];
                proof {
                    assert(graph_ok_at(
                        self.graph@,
                        self.width as int,
                        self.depth as int,
                        self.height as int,
                        node.current_cell_id as int,
                    ));
                    let (x, y, z): (int, int, int) = choose|x: int, y: int, z: int|
                        0 <= x < self.width && 0 <= y < self.depth && 0 <= z < self.height && (
                        node.current_cell_id as int) == spec_grid_index(
                            self.width as int,
                            self.depth as int,
                            x,
                            y,
                            z,
                        ) && cell_edges_ok(
                            self.graph@[node.current_cell_id as int]@,
                            self.width as int,
                            self.depth as int,
                            self.height as int,
                            x,
                            y,
                            z,
                        );
                    assert(spec_neighbor(
                        self.width as int,
                        self.depth as int,
                        self.height as int,
                        x,
                        y,
                        z,
                        edge.direction,
                    ) == Option::Some(edge.target as int));
                    lemma_neighbor_in_bounds(
                        self.width as int,
                        self.depth as int,
                        self.height as int,
                        x,
                        y,
                        z,
                        edge.direction,
                    );
                }
                if !visited[edge.target] {
                    let distance = node.current_distance + 1;
                    if self.observations[edge.target].is_none() {
                        let mut wrow = crate::math::copy_weights(&self.weights[edge.target]);
                        let row = self.tileset.update(origin_tile, edge.direction);
                        proof {
                            assert forall|jj: int|
                                0 <= jj < row@.len() implies crate::math::signal_value(
                                #[trigger] row@[jj],
                            ) <= PROB_ONE by {
                                crate::tile::lemma_compat_bounded(
                                    self.tileset.tiles@[origin_tile as int].tag,
                                    edge.direction,
                                    self.tileset.tiles@[jj].tag,
                                );
                            }
                            crate::math::lemma_sum_signal_bound(row@, PROB_ONE as int);
                            assert(sum64(wrow@) <= PROB_ONE);
                            assert(row@.len() <= crate::tile::MAX_CATALOG);
                            assert(row@ =~= compat_row(
                                self.tileset,
                                origin_tile as int,
                                edge.direction,
                            ));
                        }
                        crate::math::add(&mut wrow, row);
                        let s = crate::math::vec_sum(&wrow);
                        if s > 0 {
                            crate::math::normalize(&mut wrow);
                            let e = crate::math::entropy(&wrow);
                            let ghost pre = *self;
                            self.weights.set(edge.target, wrow);
                            self.entropies.set(edge.target, e);
                            proof {
                                assert forall|i: int| 0 <= i < self.cell_count() implies sum64(
                                    (#[trigger] self.weights@[i])@,
                                ) <= PROB_ONE && self.weights@[i].len()
                                    == self.tileset.tiles.len() && (self.entropies@[i]
                                    == ENTROPY_INIT || (sum64(self.weights@[i]@) == PROB_ONE
                                    && self.entropies@[i] == spec_entropy(self.weights@[i]@)))
                                    && match self.observations@[i] {
                                    Option::Some(tt) => (tt as int) < self.tileset.tiles.len()
                                        && is_one_hot(self.weights@[i]@, tt as int)
                                        && self.entropies@[i] == 0,
                                    Option::None => true,
                                } by {
                                    if i != edge.target {
                                        assert(self.weights@[i] == pre.weights@[i]);
                                        assert(self.observations@[i] == pre.observations@[i]);
                                        assert(sum64((#[trigger] pre.weights@[i])@) <= PROB_ONE);
                                        assert(match pre.observations@[i] {
                                            Option::Some(tt) => (tt as int)
                                                < pre.tileset.tiles.len() && is_one_hot(
                                                pre.weights@[i]@,
                                                tt as int,
                                            ) && pre.entropies@[i] == 0,
                                            Option::None => true,
                                        });
                                    }
                                }
                                assert forall|i: int|
                                    0 <= i < n implies untouched_cell(*old(self), *self, i)
                                    || #[trigger] refreshed_cell(*old(self), *self, i) by {
                                    if i != edge.target {
                                        assert(untouched_cell(*old(self), pre, i)
                                            || refreshed_cell(*old(self), pre, i));
                                    }
                                }
                                assert forall|ii: int|
                                    0 <= ii < n implies self.entropies@[ii]
                                    == self0.entropies@[ii] || self.entropies@[ii]
                                    < ENTROPY_INIT by {
                                    if ii != edge.target {
                                        assert(self.entropies@[ii] == pre.entropies@[ii]);
                                    }
                                }
                                if node.current_cell_id == cell_id {
                                    assert(origin_edge_touched(
                                        *old(self),
                                        *self,
                                        cell_id as int,
                                        origin_tile as int,
                                        j as int,
                                    ));
                                }
                            }
                        } else {
                            proof {
                                assert(*self == self0);
                                if node.current_cell_id == cell_id {
                                    assert(untouched_cell(*old(self), *self, edge.target as int)
                                        || refreshed_cell(*old(self), *self, edge.target as int));
                                    if refreshed_cell(*old(self), *self, edge.target as int) {
                                        assert(self.entropies@[edge.target as int]
                                            < ENTROPY_INIT);
                                    } else {
                                        assert(wrow@.len() == row@.len());
                                        assert(sum64(wrow@) == sum64(
                                            old(self).weights@[edge.target as int]@,
                                        ) + crate::math::sum_signal(row@));
                                        assert(origin_signal_sum(
                                            *old(self),
                                            origin_tile as int,
                                            edge.direction,
                                            edge.target as int,
                                        ) == 0);
                                    }
                                    assert(origin_edge_touched(
                                        *old(self),
                                        *self,
                                        cell_id as int,
                                        origin_tile as int,
                                        j as int,
                                    ));
                                }
                            }
                        }
                    } else {
                        proof {
                            assert(*self == self0);
                            if node.current_cell_id == cell_id {
                                assert(origin_edge_touched(
                                    *old(self),
                                    *self,
                                    cell_id as int,
                                    origin_tile as int,
                                    j as int,
                                ));
                            }
                        }
                    }
                    if distance < self.max_distance {
                        stack.push(Node::new(edge.target, origin_tile, distance));
                    }
                } else {
                    proof {
                        assert(*self == self0);
                        if node.current_cell_id == cell_id && (forall|v: int|
                            0 <= v < n && v != cell_id ==> !vis1[v]) {
                            assert(edge.target == cell_id);
                            assert(self.observations@[edge.target as int] is Some);
                            assert(origin_edge_touched(
                                *old(self),
                                *self,
                                cell_id as int,
                                origin_tile as int,
                                j as int,
                            ));
                        }
                    }
                }
                proof {
                    assert(forall|ii: int|
                        0 <= ii < n ==> self.entropies@[ii] == self0.entropies@[ii]
                            || self.entropies@[ii] < ENTROPY_INIT);
                    let bound = old(self).graph@[cell_id as int]@.len() as int;
                    assert forall|e: int|
                        0 <= e < bound && (e < j || node.current_cell_id != cell_id || e
                            == j) implies #[trigger] origin_edge_touched(
                        *old(self),
                        *self,
                        cell_id as int,
                        origin_tile as int,
                        e,
                    ) by {
                        lemma_row_target_bounds(*old(self), cell_id as int, e);
                        let tgt = old(self).graph@[cell_id as int]@[e].target as int;
                        if node.current_cell_id == cell_id && e == j {
                            assert(origin_edge_touched(
                                *old(self),
                                *self,
                                cell_id as int,
                                origin_tile as int,
                                j as int,
                            ));
                        } else if e < j || node.current_cell_id != cell_id {
                            assert(origin_edge_touched(
                                *old(self),
                                self0,
                                cell_id as int,
                                origin_tile as int,
                                e,
                            ));
                            assert(self.entropies@[tgt] == self0.entropies@[tgt]
                                || self.entropies@[tgt] < ENTROPY_INIT);
                        }
                    }
                }
                j = j + 1;
            }
        }
    }

    /// The unobserved cell with the lowest entropy among those that some
    /// propagation step has touched, ties broken toward the lowest cell
    /// index; none when every cell is observed or untouched, which is how a
    /// finished lattice announces itself.
    pub fn min_entropy_cell_id(&self) -> (r: Option<usize>)
        requires
            self.wf(),
        ensures
            match r {
                Option::Some(i) => {
                    &&& (i as int) < self.cell_count()
                    &&& self.observations@[i as int] is None
                    &&& self.entropies@[i as int] < ENTROPY_INIT
                    &&& forall|j: int|
                        0 <= j < self.cell_count() && self.observations@[j] is None
                            && (#[trigger] self.entropies@[j]) < ENTROPY_INIT ==> self.entropies@[
                            i as int
                        ] <= self.entropies@[j] && (self.entropies@[j] == self.entropies@[i as int]
                            ==> i as int <= j)
                },
                Option::None => forall|j: int|
                    0 <= j < self.cell_count() ==> (#[trigger] self.observations@[j]) is Some
                        || self.entropies@[j] == ENTROPY_INIT,
            },
    {
        let n = self.observations.len();
        let mut best: Option<usize> = Option::None;
        let mut j: usize = 0;
        while j < n
            invariant
                self.wf(),
                n == self.observations.len(),
                j <= n,
                match best {
                    Option::Some(b) => {
                        &&& (b as int) < j
                        &&& self.observations@[b as int] is None
                        &&& self.entropies@[b as int] < ENTROPY_INIT
                        &&& forall|jj: int|
                            0 <= jj < j && self.observations@[jj] is None
                                && (#[trigger] self.entropies@[jj]) < ENTROPY_INIT
                                ==> self.entropies@[b as int] <= self.entropies@[jj] && (
                            self.entropies@[jj] == self.entropies@[b as int] ==> b as int <= jj)
                    },
                    Option::None => forall|jj: int|
                        0 <= jj < j ==> (#[trigger] self.observations@[jj]) is Some
                            || self.entropies@[jj] == ENTROPY_INIT,
                },
            decreases n - j,
        {
            if self.observations[j].is_none() && self.entropies[j] < ENTROPY_INIT {
                match best {
                    Option::None => {
                        best = Option::Some(j);
                    },
                    Option::Some(b) => {
                        if self.entropies[j] < self.entropies[b] {
                            best = Option::Some(j);
                        }
                    },
                }
            }
            j = j + 1;
        }
        best
    }

    /// Runs the solver loop to completion: repeatedly selects the most
    /// constrained unobserved cell, observes it, and propagates the result.
    /// It succeeds once no unobserved cell has been touched by propagation;
    /// it fails, leaving the contradicted cell in place, when an observation
    /// finds a cell whose every weight is zero. The observed count never
    /// decreases.
    pub fn wave_function_collapse(&mut self) -> (r: Result<(), GenerationError>)
        requires
            old(self).wf(),
        ensures
            final(self).wf(),
            same_structure(*old(self), *final(self)),
            count_observed(final(self).observations@) >= count_observed(old(self).observations@),
            forall|i: int|
                0 <= i < final(self).cell_count() && (#[trigger] old(self).observations@[i]) is Some
                    ==> final(self).observations@[i] == old(self).observations@[i],
            match r {
                Result::Ok(_) => forall|j: int|
                    0 <= j < final(self).cell_count()
                        ==> (#[trigger] final(self).observations@[j]) is Some
                        || final(self).entropies@[j] == ENTROPY_INIT,
                Result::Err(e) => e == GenerationError::Contradiction && exists|i: int|
                    0 <= i < final(self).cell_count()
                        && (#[trigger] final(self).observations@[i]) is None && forall|j: int|
                        0 <= j < final(self).weights@[i].len() ==> final(self).weights@[i]@[j]
                            == 0,
            },
    {
        loop
            invariant
                self.wf(),
                old(self).wf(),
                same_structure(*old(self), *self),
                count_observed(self.observations@) >= count_observed(old(self).observations@),
                forall|i: int|
                    0 <= i < self.cell_count() && (#[trigger] old(self).observations@[i]) is Some
                        ==> self.observations@[i] == old(self).observations@[i],
            decreases self.cell_count() - count_observed(self.observations@),
        {
            proof {
                lemma_count_observed_bounds(self.observations@);
            }
            match self.min_entropy_cell_id() {
                Option::None => {
                    return Result::Ok(());
                },
                Option::Some(cell) => {
                    match self.observe(cell) {
                        Result::Err(e) => {
                            return Result::Err(e);
                        },
                        Result::Ok(_) => {
                        },
                    }
                    self.propagate(cell);
                    proof {
                        lemma_count_observed_bounds(self.observations@);
                    }
                },
            }
        }
    }

    /// Builds a map over the given lattice and catalog, pushes the seed
    /// cell's observation to its neighborhood, and runs the solver; the map
    /// comes back beside the outcome so a caller can read the lattice either
    /// way.
    pub fn gen(width: u32, depth: u32, height: u32, tileset: TileSet, seed: u64) -> (r: (
        VoxelMap,
        Result<(), GenerationError>,
    ))
        requires
            tileset.wf(),
            1 <= width,
            1 <= depth,
            1 <= height,
            width * depth * height <= usize::MAX,
        ensures
            r.0.wf(),
            r.0.width == width,
            r.0.depth == depth,
            r.0.height == height,
            r.0.tileset == tileset,
            r.0.observations@[r.0.seed_cell()] == Option::Some(tileset.seed_id),
            match r.1 {
                Result::Ok(_) => forall|j: int|
                    0 <= j < r.0.cell_count() ==> (#[trigger] r.0.observations@[j]) is Some
                        || r.0.entropies@[j] == ENTROPY_INIT,
                Result::Err(e) => e == GenerationError::Contradiction && exists|i: int|
                    0 <= i < r.0.cell_count() && (#[trigger] r.0.observations@[i]) is None
                        && forall|j: int|
                        0 <= j < r.0.weights@[i].len() ==> r.0.weights@[i]@[j] == 0,
            },
    {
        proof {
            assert(width as int / 2 < width as int);
            assert(depth as int / 2 < depth as int);
            crate::grid::lemma_grid_index_bounds(
                width as int,
                depth as int,
                height as int,
                width as int / 2,
                depth as int / 2,
                0,
            );
        }
        let mut map = VoxelMap::new(width, depth, height, tileset, seed);
        let seed_cell = crate::grid::grid_offset(width, depth, height, width / 2, depth / 2, 0);
        map.propagate(seed_cell);
        let outcome = map.wave_function_collapse();
        (map, outcome)
    }

    /// The voxel a position of the assembled output shows: dividing away the
    /// tile extent finds the cell, and the remainders address the voxel
    /// inside that cell's observed tile.
    pub open spec fn assembled_voxel(self, x: int, y: int, z: int) -> crate::grid::Voxel {
        let te = self.tileset.tiles@[0].voxels.width as int;
        let th = self.tileset.tiles@[0].voxels.height as int;
        let cell = spec_grid_index(self.width as int, self.depth as int, x / te, y / te, z / th);
        let t = self.observations@[cell]->Some_0 as int;
        self.tileset.tiles@[t].voxels.spec_at(x % te, y % te, z % th)
    }

    /// The assembler stamps each tile at its cell's offset block, with no
    /// overlap and no gap: the output voxel at cell offset plus tile
    /// coordinate is exactly that tile coordinate's voxel of the cell's
    /// observed tile.
    pub proof fn lemma_assembled_offsets(
        self,
        cx: int,
        cy: int,
        cz: int,
        tx: int,
        ty: int,
        tz: int,
    )
        requires
            self.wf(),
            0 <= cx < self.width,
            0 <= cy < self.depth,
            0 <= cz < self.height,
            0 <= tx < self.tileset.tiles@[0].voxels.width,
            0 <= ty < self.tileset.tiles@[0].voxels.width,
            0 <= tz < self.tileset.tiles@[0].voxels.height,
        ensures
            self.assembled_voxel(
                cx * self.tileset.tiles@[0].voxels.width + tx,
                cy * self.tileset.tiles@[0].voxels.width + ty,
                cz * self.tileset.tiles@[0].voxels.height + tz,
            ) == self.tileset.tiles@[self.observations@[spec_grid_index(
                self.width as int,
                self.depth as int,
                cx,
                cy,
                cz,
            )]->Some_0 as int].voxels.spec_at(tx, ty, tz),
    {
        let te = self.tileset.tiles@[0].voxels.width as int;
        let th = self.tileset.tiles@[0].voxels.height as int;
        vstd::arithmetic::div_mod::lemma_fundamental_div_mod_converse(cx * te + tx, te, cx, tx);
        vstd::arithmetic::div_mod::lemma_fundamental_div_mod_converse(cy * te + ty, te, cy, ty);
        vstd::arithmetic::div_mod::lemma_fundamental_div_mod_converse(cz * th + tz, th, cz, tz);
    }

    /// Assembles the fully observed lattice into one dense voxel grid: each
    /// cell's observed tile pattern is stamped at the cell's offset block,
    /// with no overlap and no gap.
    pub fn voxels(&self) -> (g: Grid)
        requires
            self.wf(),
            forall|i: int|
                0 <= i < self.cell_count() ==> (#[trigger] self.observations@[i]) is Some,
            1 <= self.tileset.tiles@[0].voxels.width,
            1 <= self.tileset.tiles@[0].voxels.height,
            self.width * self.tileset.tiles@[0].voxels.width <= u32::MAX,
            self.depth * self.tileset.tiles@[0].voxels.width <= u32::MAX,
            self.height * self.tileset.tiles@[0].voxels.height <= u32::MAX,
            (self.width * self.tileset.tiles@[0].voxels.width) * (self.depth
                * self.tileset.tiles@[0].voxels.width) * (self.height
                * self.tileset.tiles@[0].voxels.height) <= usize::MAX,
        ensures
            g.wf(),
            g.width == self.width * self.tileset.tiles@[0].voxels.width,
            g.depth == self.depth * self.tileset.tiles@[0].voxels.width,
            g.height == self.height * self.tileset.tiles@[0].voxels.height,
            forall|x: int, y: int, z: int|
                0 <= x < g.width && 0 <= y < g.depth && 0 <= z < g.height ==> g.spec_at(x, y, z)
                    == self.assembled_voxel(x, y, z),
    {
        let te: u32 = self.tileset.tiles[0].voxels.width;
        let th: u32 = self.tileset.tiles[0].voxels.height;
        let ow: u32 = self.width * te;
        let od: u32 = self.depth * te;
        let oh: u32 = self.height * th;
        let mut g = Grid::new(ow, od, oh);
        let mut z: u32 = 0;
        while z < oh
            invariant
                self.wf(),
                forall|i: int|
                    0 <= i < self.cell_count() ==> (#[trigger] self.observations@[i]) is Some,
                te == self.tileset.tiles@[0].voxels.width,
                th == self.tileset.tiles@[0].voxels.height,
                1 <= te,
                1 <= th,
                ow == self.width * te,
                od == self.depth * te,
                oh == self.height * th,
                g.wf(),
                g.width == ow,
                g.depth == od,
                g.height == oh,
                z <= oh,
                forall|xx: int, yy: int, zz: int|
                    0 <= xx < ow && 0 <= yy < od && 0 <= zz < z ==> g.spec_at(xx, yy, zz)
                        == self.assembled_voxel(xx, yy, zz),
            decreases oh - z,
        {
            let mut y: u32 = 0;
            while y < od
                invariant
                    self.wf(),
                    forall|i: int|
                        0 <= i < self.cell_count() ==> (#[trigger] self.observations@[i]) is Some,
                    te == self.tileset.tiles@[0].voxels.width,
                    th == self.tileset.tiles@[0].voxels.height,
                    1 <= te,
                    1 <= th,
                    ow == self.width * te,
                    od == self.depth * te,
                    oh == self.height * th,
                    g.wf(),
                    g.width == ow,
                    g.depth == od,
                    g.height == oh,
                    z < oh,
                    y <= od,
                    forall|xx: int, yy: int, zz: int|
                        0 <= xx < ow && 0 <= yy < od && 0 <= zz && (zz < z || (zz == z && yy < y))
                            ==> g.spec_at(xx, yy, zz) == self.assembled_voxel(xx, yy, zz),
                decreases od - y,
            {
                let mut x: u32 = 0;
                while x < ow
                    invariant
                        self.wf(),
                        forall|i: int|
                            0 <= i < self.cell_count() ==> (#[trigger] self.observations@[i]) is Some,
                        te == self.tileset.tiles@[0].voxels.width,
                        th == self.tileset.tiles@[0].voxels.height,
                        1 <= te,
                        1 <= th,
                        ow == self.width * te,
                        od == self.depth * te,
                        oh == self.height * th,
                        g.wf(),
                        g.width == ow,
                        g.depth == od,
                        g.height == oh,
                        z < oh,
                        y < od,
                        x <= ow,
                        forall|xx: int, yy: int, zz: int|
                            0 <= xx < ow && 0 <= yy < od && 0 <= zz && (zz < z || (zz == z && (yy
                                < y || (yy == y && xx < x)))) ==> g.spec_at(xx, yy, zz)
                                == self.assembled_voxel(xx, yy, zz),
                    decreases ow - x,
                {
                    proof {
                        assert((x as int) < (te as int) * (self.width as int)) by (nonlinear_arith)
                            requires
                                (x as int) < (self.width as int) * (te as int),
                        ;
                        assert((y as int) < (te as int) * (self.depth as int)) by (nonlinear_arith)
                            requires
                                (y as int) < (self.depth as int) * (te as int),
                        ;
                        assert((z as int) < (th as int) * (self.height as int))
                            by (nonlinear_arith)
                            requires
                                (z as int) < (self.height as int) * (th as int),
                        ;
                        vstd::arithmetic::div_mod::lemma_multiply_divide_lt(
                            x as int,
                            te as int,
                            self.width as int,
                        );
                        vstd::arithmetic::div_mod::lemma_multiply_divide_lt(
                            y as int,
                            te as int,
                            self.depth as int,
                        );
                        vstd::arithmetic::div_mod::lemma_multiply_divide_lt(
                            z as int,
                            th as int,
                            self.height as int,
                        );
                        vstd::arithmetic::div_mod::lemma_mod_division_less_than_divisor(
                            x as int,
                            te as int,
                        );
                        vstd::arithmetic::div_mod::lemma_mod_division_less_than_divisor(
                            y as int,
                            te as int,
                        );
                        vstd::arithmetic::div_mod::lemma_mod_division_less_than_divisor(
                            z as int,
                            th as int,
                        );
                    }
                    let cx: u32 = x / te;
                    let cy: u32 = y / te;
                    let cz: u32 = z / th;
                    let tx: u32 = x % te;
                    let ty: u32 = y % te;
                    let tz: u32 = z % th;
                    let cell = crate::grid::grid_offset(
                        self.width,
                        self.depth,
                        self.height,
                        cx,
                        cy,
                        cz,
                    );
                    let t: u32 = match self.observations[cell] {
                        Option::Some(t) => t,
                        Option::None => {
                            proof {
                                assert(false);
                            }
                            0
                        },
                    };
                    let v = self.tileset.tiles[t as usize].voxels.get(tx, ty, tz);
                    let ghost pre = g;
                    g.set(x, y, z, v);
                    proof {
                        assert forall|xx: int, yy: int, zz: int|
                            0 <= xx < ow && 0 <= yy < od && 0 <= zz && (zz < z || (zz == z && (yy
                                < y || (yy == y && xx < x + 1)))) implies g.spec_at(xx, yy, zz)
                            == self.assembled_voxel(xx, yy, zz) by {
                            crate::grid::lemma_grid_index_bounds(
                                ow as int,
                                od as int,
                                oh as int,
                                xx,
                                yy,
                                zz,
                            );
                            crate::grid::lemma_grid_index_bounds(
                                ow as int,
                                od as int,
                                oh as int,
                                x as int,
                                y as int,
                                z as int,
                            );
                            if xx == x && yy == y && zz == z {
                            } else {
                                crate::grid::lemma_grid_index_injective(
                                    ow as int,
                                    od as int,
                                    xx,
                                    yy,
                                    zz,
                                    x as int,
                                    y as int,
                                    z as int,
                                );
                                assert(pre.spec_at(xx, yy, zz) == g.spec_at(xx, yy, zz));
                            }
                        }
                    }
                    x = x + 1;
                }
                y = y + 1;
            }
            z = z + 1;
        }
        g
    }
}

} // verus!


