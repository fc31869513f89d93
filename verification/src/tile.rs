use vstd::prelude::*;
use vstd::string::StringExecFns;
use crate::direction::{Direction, Rotation, spec_rotated_z, spec_is_horizontal, spec_is_vertical};
use crate::grid::{Grid, spec_rotated_width, spec_rotated_depth, spec_source_coord};
use crate::math::{PROB_ONE, signal_value};
use crate::model;

verus! {

/// The most base tiles a catalog may expand to; keeps every weight-table sum
/// far below the word size.
pub const MAX_CATALOG: usize = 4096;

/// The semantic role of a tile, which the adjacency rules are keyed on.
#[derive(Debug, Clone, Copy, PartialEq, Eq, Structural)]
pub enum Tag {
    Dirt,
    Grass,
    Sky,
    Road,
}

/// How a tile behaves under rotation: an invariant tile is rotationally
/// symmetric; an edge or corner tile faces a direction and contributes four
/// rotated variants to the catalog.
#[derive(Debug, Clone, Copy, PartialEq, Eq, Structural)]
pub enum Orientation {
    Invariant,
    Edge(Direction),
    Corner(Direction),
}

/// An orientation rotated around the vertical axis: the embedded facing
/// direction turns with the tile, and an invariant tile is unchanged.
pub open spec fn spec_orientation_rotated_z(o: Orientation, r: Rotation) -> Orientation {
    match o {
        Orientation::Invariant => Orientation::Invariant,
        Orientation::Edge(d) => Orientation::Edge(spec_rotated_z(d, r)),
        Orientation::Corner(d) => Orientation::Corner(spec_rotated_z(d, r)),
    }
}

/// The lowercase name of a direction, used to suffix rotated tile names.
pub open spec fn spec_direction_label(d: Direction) -> Seq<char> {
    match d {
        Direction::East => "east"@,
        Direction::West => "west"@,
        Direction::North => "north"@,
        Direction::South => "south"@,
        Direction::Up => "up"@,
        Direction::Down => "down"@,
        Direction::NorthEast => "northeast"@,
        Direction::NorthWest => "northwest"@,
        Direction::SouthEast => "southeast"@,
        Direction::SouthWest => "southwest"@,
    }
}

/// The lowercase name of an orientation.
pub open spec fn spec_orientation_label(o: Orientation) -> Seq<char> {
    match o {
        Orientation::Invariant => "invariant"@,
        Orientation::Edge(d) => spec_direction_label(d),
        Orientation::Corner(d) => spec_direction_label(d),
    }
}

pub fn direction_label(d: &Direction) -> (s: &'static str)
    ensures
        s@ == spec_direction_label(*d),
{
    match d {
        Direction::East => "east",
        Direction::West => "west",
        Direction::North => "north",
        Direction::South => "south",
        Direction::Up => "up",
        Direction::Down => "down",
        Direction::NorthEast => "northeast",
        Direction::NorthWest => "northwest",
        Direction::SouthEast => "southeast",
        Direction::SouthWest => "southwest",
    }
}

pub fn orientation_label(o: &Orientation) -> (s: &'static str)
    ensures
        s@ == spec_orientation_label(*o),
{
    match o {
        Orientation::Invariant => "invariant",
        Orientation::Edge(d) => direction_label(d),
        Orientation::Corner(d) => direction_label(d),
    }
}

impl Orientation {
    /// This orientation rotated around the vertical axis.
    pub fn rotated_z(&self, rotation: &Rotation) -> (r: Orientation)
        ensures
            r == spec_orientation_rotated_z(*self, *rotation),
    {
        match self {
            Orientation::Invariant => Orientation::Invariant,
            Orientation::Edge(d) => Orientation::Edge(d.rotated_z(rotation)),
            Orientation::Corner(d) => Orientation::Corner(d.rotated_z(rotation)),
        }
    }
}

/// Rotating an orientation by a quarter turn four times in a row returns it
/// to itself, and rotating an invariant orientation never changes it.
pub proof fn lemma_orientation_rotation_closure(o: Orientation)
    ensures
        spec_orientation_rotated_z(
            spec_orientation_rotated_z(
                spec_orientation_rotated_z(
                    spec_orientation_rotated_z(o, Rotation::R90),
                    Rotation::R90,
                ),
                Rotation::R90,
            ),
            Rotation::R90,
        ) == o,
        forall|r: Rotation|
            spec_orientation_rotated_z(Orientation::Invariant, r) == Orientation::Invariant,
{
    match o {
        Orientation::Invariant => {
        },
        Orientation::Edge(d) => {
            crate::direction::lemma_rotation_closure(d);
        },
        Orientation::Corner(d) => {
            crate::direction::lemma_rotation_closure(d);
        },
    }
}

/// One tile variant of the catalog: its display name, voxel content, semantic
/// tag and orientation. Tiles are built once and never mutated; a rotated
/// variant is a new tile.
pub struct Tile {
    pub name: String,
    pub voxels: Grid,
    pub tag: Tag,
    pub orientation: Orientation,
}

/// Two tiles that agree in every observable field.
pub open spec fn is_same_tile(a: Tile, b: Tile) -> bool {
    &&& a.name@ == b.name@
    &&& a.tag == b.tag
    &&& a.orientation == b.orientation
    &&& a.voxels.width == b.voxels.width
    &&& a.voxels.depth == b.voxels.depth
    &&& a.voxels.height == b.voxels.height
    &&& a.voxels.cells@ == b.voxels.cells@
}

/// `out` is `src` rotated around the vertical axis by `r`: same tag, rotated
/// orientation, the name suffixed with the new facing, and the voxel content
/// turned by the same rotation.
pub open spec fn is_rotated_tile(out: Tile, src: Tile, r: Rotation) -> bool {
    &&& out.tag == src.tag
    &&& out.orientation == spec_orientation_rotated_z(src.orientation, r)
    &&& out.name@ == src.name@ + "-"@ + spec_orientation_label(
        spec_orientation_rotated_z(src.orientation, r),
    )
    &&& out.voxels.width == spec_rotated_width(r, src.voxels.width as int, src.voxels.depth as int)
    &&& out.voxels.depth == spec_rotated_depth(r, src.voxels.width as int, src.voxels.depth as int)
    &&& out.voxels.height == src.voxels.height
    &&& forall|x: int, y: int, z: int|
        0 <= x < out.voxels.width && 0 <= y < out.voxels.depth && 0 <= z < out.voxels.height
            ==> out.voxels.spec_at(x, y, z) == src.voxels.spec_at(
            spec_source_coord(r, x, y, src.voxels.width as int, src.voxels.depth as int).0,
            spec_source_coord(r, x, y, src.voxels.width as int, src.voxels.depth as int).1,
            z,
        )
}

impl Tile {
    pub fn name(&self) -> (r: &String)
        ensures
            r@ == self.name@,
    {
        &self.name
    }

    pub fn voxels(&self) -> (r: &Grid)
        ensures
            *r == self.voxels,
    {
        &self.voxels
    }

    pub fn tag(&self) -> (r: &Tag)
        ensures
            *r == self.tag,
    {
        &self.tag
    }

    pub fn orientation(&self) -> (r: &Orientation)
        ensures
            *r == self.orientation,
    {
        &self.orientation
    }

    /// A field-for-field copy of this tile.
    pub fn duplicate(&self) -> (t: Tile)
        ensures
            is_same_tile(t, *self),
    {
        let n = self.voxels.cells.len();
        let mut cells: Vec<crate::grid::Voxel> = Vec::new();
        let mut i: usize = 0;
        while i < n
            invariant
                i <= n,
                n == self.voxels.cells.len(),
                cells.len() == i,
                forall|j: int| 0 <= j < i ==> cells@[j] == self.voxels.cells@[j],
            decreases n - i,
        {
            cells.push(self.voxels.cells[i]);
            i = i + 1;
        }
        proof {
            assert(cells@ =~= self.voxels.cells@);
        }
        Tile {
            name: String::from_str(self.name.as_str()),
            voxels: Grid {
                width: self.voxels.width,
                depth: self.voxels.depth,
                height: self.voxels.height,
                cells,
            },
            tag: self.tag,
            orientation: self.orientation,
        }
    }

    /// A new tile: this one rotated around the vertical axis, renamed after
    /// its new facing.
    pub fn rotated_z(&self, rotation: &Rotation) -> (t: Tile)
        requires
            self.voxels.wf(),
        ensures
            is_rotated_tile(t, *self, *rotation),
            t.voxels.wf(),
    {
        let voxels = self.voxels.rotated_z(rotation);
        let orientation = self.orientation.rotated_z(rotation);
        let mut name = String::from_str(self.name.as_str());
        name.append("-");
        name.append(orientation_label(&orientation));
        Tile { name, voxels, tag: self.tag, orientation }
    }
}

/// The compatibility weight of putting `target` next to `source` in the given
/// direction, keyed on the tiles' tags: `None` is an absolute ban, and a tag
/// pair with no declared rule is banned. The confirmed rules are: ground next
/// to ground sideways, air above ground, and air beside ground.
pub open spec fn spec_compat(source: Tag, direction: Direction, target: Tag) -> Option<u64> {
    match (source, target) {
        (Tag::Dirt, Tag::Dirt) => if spec_is_horizontal(direction) {
            Option::Some(DIRT_BESIDE_DIRT)
        } else {
            Option::None
        },
        (Tag::Dirt, Tag::Sky) => if direction == Direction::Up {
            Option::Some(SKY_ABOVE_DIRT)
        } else if spec_is_horizontal(direction) {
            Option::Some(SKY_BESIDE_DIRT)
        } else {
            Option::None
        },
        _ => Option::None,
    }
}

/// Weight of ground tiles adjacent horizontally.
pub const DIRT_BESIDE_DIRT: u64 = 800_000;

/// Weight of an air tile directly above a ground tile.
pub const SKY_ABOVE_DIRT: u64 = 1_000_000;

/// Weight of an air tile beside a ground tile.
pub const SKY_BESIDE_DIRT: u64 = 200_000;

/// Every declared compatibility weight is at most `PROB_ONE`.
pub proof fn lemma_compat_bounded(source: Tag, direction: Direction, target: Tag)
    ensures
        signal_value(spec_compat(source, direction, target)) <= PROB_ONE,
{
}

/// The compatibility weight, computed from the rule table.
pub fn compat_weight(source: Tag, direction: Direction, target: Tag) -> (r: Option<u64>)
    ensures
        r == spec_compat(source, direction, target),
{
    match (source, target) {
        (Tag::Dirt, Tag::Dirt) => if direction.is_horizontal() {
            Option::Some(DIRT_BESIDE_DIRT)
        } else {
            Option::None
        },
        (Tag::Dirt, Tag::Sky) => if matches!(direction, Direction::Up) {
            Option::Some(SKY_ABOVE_DIRT)
        } else if direction.is_horizontal() {
            Option::Some(SKY_BESIDE_DIRT)
        } else {
            Option::None
        },
        _ => Option::None,
    }
}

/// The propagation direction standing at a slot of the compatibility table.
pub open spec fn spec_axis_direction(k: int) -> Direction {
    if k == 0 {
        Direction::East
    } else if k == 1 {
        Direction::West
    } else if k == 2 {
        Direction::North
    } else if k == 3 {
        Direction::South
    } else if k == 4 {
        Direction::Up
    } else {
        Direction::Down
    }
}

/// The table slot of a propagation direction.
pub fn axis_index(d: Direction) -> (k: usize)
    requires
        spec_is_horizontal(d) || spec_is_vertical(d),
    ensures
        k < 6,
        spec_axis_direction(k as int) == d,
{
    match d {
        Direction::East => 0,
        Direction::West => 1,
        Direction::North => 2,
        Direction::South => 3,
        Direction::Up => 4,
        _ => 5,
    }
}

pub fn axis_direction(k: usize) -> (d: Direction)
    requires
        k < 6,
    ensures
        d == spec_axis_direction(k as int),
{
    match k {
        0 => Direction::East,
        1 => Direction::West,
        2 => Direction::North,
        3 => Direction::South,
        4 => Direction::Up,
        _ => Direction::Down,
    }
}

/// How many expanded tiles a sequence of base tiles produces: one per
/// invariant tile, four per edge or corner tile.
pub open spec fn expansion_len(s: Seq<Tile>) -> int
    decreases s.len(),
{
    if s.len() == 0 {
        0
    } else {
        expansion_len(s.drop_last()) + if s.last().orientation == Orientation::Invariant {
            1int
        } else {
            4int
        }
    }
}

/// Where the expansion of base tile `k` starts in the expanded catalog.
pub open spec fn expansion_offset(s: Seq<Tile>, k: int) -> int {
    expansion_len(s.take(k))
}

/// The number of base tiles with an invariant orientation.
pub open spec fn count_invariant(s: Seq<Tile>) -> int
    decreases s.len(),
{
    if s.len() == 0 {
        0
    } else {
        count_invariant(s.drop_last()) + if s.last().orientation == Orientation::Invariant {
            1int
        } else {
            0int
        }
    }
}

/// The number of base tiles that face a direction.
pub open spec fn count_oriented(s: Seq<Tile>) -> int
    decreases s.len(),
{
    if s.len() == 0 {
        0
    } else {
        count_oriented(s.drop_last()) + if s.last().orientation == Orientation::Invariant {
            0int
        } else {
            1int
        }
    }
}

/// The expanded catalog holds one tile per invariant base tile and four per
/// oriented base tile.
pub proof fn lemma_catalog_size(s: Seq<Tile>)
    ensures
        expansion_len(s) == count_invariant(s) + 4 * count_oriented(s),
    decreases s.len(),
{
    if s.len() > 0 {
        lemma_catalog_size(s.drop_last());
    }
}

pub proof fn lemma_expansion_len_at_least(s: Seq<Tile>)
    ensures
        expansion_len(s) >= s.len(),
    decreases s.len(),
{
    if s.len() > 0 {
        lemma_expansion_len_at_least(s.drop_last());
    }
}

proof fn lemma_expansion_offset_step(s: Seq<Tile>, k: int)
    requires
        0 <= k < s.len(),
    ensures
        expansion_offset(s, k + 1) == expansion_offset(s, k) + (if s[k].orientation
            == Orientation::Invariant {
            1int
        } else {
            4int
        }),
{
    assert(s.take(k + 1).drop_last() =~= s.take(k));
    assert(s.take(k + 1).last() == s[k]);
}

proof fn lemma_expansion_offset_le(s: Seq<Tile>, k: int)
    requires
        0 <= k <= s.len(),
    ensures
        expansion_offset(s, k) <= expansion_len(s),
        expansion_offset(s, k) >= 0,
    decreases s.len() - k,
{
    lemma_expansion_len_at_least(s.take(k));
    if k == s.len() {
        assert(s.take(k) =~= s);
    } else {
        lemma_expansion_offset_le(s, k + 1);
        lemma_expansion_offset_step(s, k);
    }
}

/// The slice of the expanded catalog that stands for base tile `k` holds that
/// tile itself if it is invariant, and otherwise its four rotations in order.
pub open spec fn expanded_at(tiles: Seq<Tile>, base: Seq<Tile>, k: int) -> bool {
    if base[k].orientation == Orientation::Invariant {
        is_same_tile(tiles[expansion_offset(base, k)], base[k])
    } else {
        forall|r: int|
            0 <= r < 4 ==> is_rotated_tile(
                tiles[expansion_offset(base, k) + r],
                base[k],
                spec_rotation_of(r),
            )
    }
}

/// The four rotations in catalog order.
pub open spec fn spec_rotation_of(r: int) -> Rotation {
    if r == 0 {
        Rotation::R0
    } else if r == 1 {
        Rotation::R90
    } else if r == 2 {
        Rotation::R180
    } else {
        Rotation::R270
    }
}

fn rotation_of(r: usize) -> (rot: Rotation)
    requires
        r < 4,
    ensures
        rot == spec_rotation_of(r as int),
{
    match r {
        0 => Rotation::R0,
        1 => Rotation::R90,
        2 => Rotation::R180,
        _ => Rotation::R270,
    }
}

/// All base tiles share well-formed, square voxel grids of one common size,
/// so that a rotation never changes a grid's dimensions.
pub open spec fn base_tiles_wf(s: Seq<Tile>) -> bool {
    forall|k: int|
        0 <= k < s.len() ==> (#[trigger] s[k]).voxels.wf() && s[k].voxels.width
            == s[k].voxels.depth && s[k].voxels.width == s[0].voxels.width && s[k].voxels.height
            == s[0].voxels.height
}

/// The expanded tile catalog and the compatibility table built from it: for
/// every (tile, direction) slot, a weight vector over all tiles, precomputed
/// once so that propagation is an array lookup.
pub struct TileSet {
    pub seed_id: u32,
    pub tiles: Vec<Tile>,
    pub updates: Vec<Vec<Option<u64>>>,
}

impl TileSet {
    /// The catalog is non-empty and bounded; its tiles share one square grid
    /// size; the seed tile exists; and the table holds, for every tile and
    /// axis direction, exactly the declared compatibility weight against
    /// every candidate neighbor.
    pub open spec fn wf(self) -> bool {
        &&& 1 <= self.tiles.len() <= MAX_CATALOG
        &&& (self.seed_id as int) < self.tiles.len()
        &&& base_tiles_wf(self.tiles@)
        &&& self.updates.len() == 6 * self.tiles.len()
        &&& forall|m: int|
            0 <= m < self.updates.len() ==> (#[trigger] self.updates@[m]).len()
                == self.tiles.len()
        &&& forall|m: int, j: int|
            0 <= m < self.updates.len() && 0 <= j < self.tiles.len()
                ==> (#[trigger] self.updates@[m]@[j]) == spec_compat(
                self.tiles@[m / 6].tag,
                spec_axis_direction(m % 6),
                self.tiles@[j].tag,
            )
    }

    /// Builds the catalog for a template: expands its base tiles and
    /// precomputes the compatibility table.
    pub fn gen(template: Template) -> (ts: TileSet)
        ensures
            ts.wf(),
            ts.seed_id == 0,
            ts.tiles.len() == 12,
            ts.tiles@[0].tag == Tag::Dirt,
            ts.tiles@[0].orientation == Orientation::Invariant,
            ts.tiles@[0].name@ == "dirt"@,
    {
        let base = template.tiles();
        proof {
            let s = base@;
            assert(s.take(1).drop_last() =~= s.take(0));
            assert(s.take(2).drop_last() =~= s.take(1));
            assert(s.take(3).drop_last() =~= s.take(2));
            assert(s.take(4).drop_last() =~= s.take(3));
            assert(s.take(5).drop_last() =~= s.take(4));
            assert(s.take(6).drop_last() =~= s.take(5));
            assert(s.take(6) =~= s);
            assert(expansion_len(s.take(0)) == 0);
            assert(s.take(1).last() == s[0]);
            assert(s.take(2).last() == s[1]);
            assert(s.take(3).last() == s[2]);
            assert(s.take(4).last() == s[3]);
            assert(s.take(5).last() == s[4]);
            assert(s.take(6).last() == s[5]);
            assert(expansion_len(s.take(1)) == 1);
            assert(expansion_len(s.take(2)) == 2);
            assert(expansion_len(s.take(3)) == 3);
            assert(expansion_len(s.take(4)) == 7);
            assert(expansion_len(s.take(5)) == 11);
            assert(expansion_len(s) == 12);
        }
        let ts = TileSet::from_tiles(base);
        proof {
            assert(expansion_offset(base@, 0) == 0) by {
                assert(expansion_len(base@.take(0)) == 0);
            }
            assert(expanded_at(ts.tiles@, base@, 0));
        }
        ts
    }

    /// Expands the base tiles in order and builds the compatibility table.
    /// The expansion keeps catalog order: each invariant base tile
    /// contributes itself, each oriented base tile its four rotations.
    pub fn from_tiles(base: Vec<Tile>) -> (ts: TileSet)
        requires
            1 <= base.len(),
            expansion_len(base@) <= MAX_CATALOG,
            base_tiles_wf(base@),
        ensures
            ts.wf(),
            ts.seed_id == 0,
            ts.tiles.len() == expansion_len(base@),
            forall|k: int| 0 <= k < base.len() ==> expanded_at(ts.tiles@, base@, k),
            ts.tiles@[0].voxels.width == base@[0].voxels.width,
            ts.tiles@[0].voxels.height == base@[0].voxels.height,
    {
        let mut tiles: Vec<Tile> = Vec::new();
        let n_base = base.len();
        proof {
            lemma_expansion_offset_le(base@, 0);
        }
        for i in 0..n_base
            invariant
                n_base == base.len(),
                1 <= base.len(),
                expansion_len(base@) <= MAX_CATALOG,
                base_tiles_wf(base@),
                tiles.len() == expansion_offset(base@, i as int),
                forall|k: int| 0 <= k < i ==> expanded_at(tiles@, base@, k),
                forall|t: int|
                    0 <= t < tiles.len() ==> (#[trigger] tiles@[t]).voxels.wf()
                        && tiles@[t].voxels.width == tiles@[t].voxels.depth
                        && tiles@[t].voxels.width == base@[0].voxels.width
                        && tiles@[t].voxels.height == base@[0].voxels.height,
        {
            let ghost pre_tiles = tiles@;
            proof {
                lemma_expansion_offset_step(base@, i as int);
                lemma_expansion_offset_le(base@, i + 1);
            }
            proof {
                assert(base@[i as int].voxels.wf());
            }
            let is_invariant = matches!(base[i].orientation, Orientation::Invariant);
            if is_invariant {
                let copy = base[i].duplicate();
                proof {
                    assert(copy.voxels.wf() && copy.voxels.width == copy.voxels.depth
                        && copy.voxels.width == base@[0].voxels.width && copy.voxels.height
                        == base@[0].voxels.height);
                }
                tiles.push(copy);
            } else {
                let mut r: usize = 0;
                while r < 4
                    invariant
                        r <= 4,
                        n_base == base.len(),
                        0 <= i < base.len(),
                        base_tiles_wf(base@),
                        base@[i as int].orientation != Orientation::Invariant,
                        tiles.len() == pre_tiles.len() + r,
                        tiles@.take(pre_tiles.len() as int) =~= pre_tiles,
                        forall|q: int|
                            0 <= q < r ==> is_rotated_tile(
                                tiles@[pre_tiles.len() + q],
                                base@[i as int],
                                spec_rotation_of(q),
                            ),
                        forall|t: int|
                            pre_tiles.len() <= t < tiles.len() ==> (#[trigger] tiles@[t]).voxels.wf()
                                && tiles@[t].voxels.width == tiles@[t].voxels.depth
                                && tiles@[t].voxels.width == base@[0].voxels.width
                                && tiles@[t].voxels.height == base@[0].voxels.height,
                        forall|t: int| 0 <= t < pre_tiles.len() ==> tiles@[t] == pre_tiles[t],
                    decreases 4 - r,
                {
                    proof {
                        assert(base@[i as int].voxels.wf() && base@[i as int].voxels.width
                            == base@[i as int].voxels.depth && base@[i as int].voxels.width
                            == base@[0].voxels.width && base@[i as int].voxels.height
                            == base@[0].voxels.height);
                    }
                    let rot = rotation_of(r);
                    tiles.push(base[i].rotated_z(&rot));
                    r = r + 1;
                }
            }
            proof {
                assert(forall|t: int| 0 <= t < pre_tiles.len() ==> tiles@[t] == pre_tiles[t]);
                assert forall|t: int|
                    0 <= t < tiles.len() implies (#[trigger] tiles@[t]).voxels.wf()
                    && tiles@[t].voxels.width == tiles@[t].voxels.depth && tiles@[t].voxels.width
                    == base@[0].voxels.width && tiles@[t].voxels.height
                    == base@[0].voxels.height by {
                    if t < pre_tiles.len() {
                        assert(tiles@[t] == pre_tiles[t]);
                        assert(pre_tiles[t].voxels.wf() && pre_tiles[t].voxels.width
                            == pre_tiles[t].voxels.depth && pre_tiles[t].voxels.width
                            == base@[0].voxels.width && pre_tiles[t].voxels.height
                            == base@[0].voxels.height);
                    }
                }
                assert forall|k: int| 0 <= k < i + 1 implies expanded_at(tiles@, base@, k) by {
                    lemma_expansion_offset_le(base@, k);
                    lemma_expansion_offset_step(base@, k);
                    if k < i {
                        assert(expansion_offset(base@, k + 1) <= expansion_offset(base@, i as int))
                            by {
                            lemma_expansion_offset_mono(base@, k + 1, i as int);
                        }
                        assert(expanded_at(pre_tiles, base@, k));
                    }
                }
            }
        }
        proof {
            assert(base@.take(n_base as int) =~= base@);
            lemma_expansion_len_at_least(base@);
            assert(base_tiles_wf(tiles@)) by {
                assert(forall|t: int|
                    0 <= t < tiles.len() ==> (#[trigger] tiles@[t]).voxels.wf()
                        && tiles@[t].voxels.width == tiles@[t].voxels.depth
                        && tiles@[t].voxels.width == base@[0].voxels.width
                        && tiles@[t].voxels.height == base@[0].voxels.height);
            }
        }
        let n = tiles.len();
        let mut updates: Vec<Vec<Option<u64>>> = Vec::new();
        for i in 0..n
            invariant
                n == tiles.len(),
                1 <= n <= MAX_CATALOG,
                updates.len() == 6 * i,
                forall|m: int| 0 <= m < updates.len() ==> (#[trigger] updates@[m]).len() == n,
                forall|m: int, j: int|
                    0 <= m < updates.len() && 0 <= j < n ==> (#[trigger] updates@[m]@[j])
                        == spec_compat(
                        tiles@[m / 6].tag,
                        spec_axis_direction(m % 6),
                        tiles@[j].tag,
                    ),
        {
            let mut k: usize = 0;
            while k < 6
                invariant
                    n == tiles.len(),
                    i < n,
                    k <= 6,
                    updates.len() == 6 * i + k,
                    forall|m: int| 0 <= m < updates.len() ==> (#[trigger] updates@[m]).len() == n,
                    forall|m: int, j: int|
                        0 <= m < updates.len() && 0 <= j < n ==> (#[trigger] updates@[m]@[j])
                            == spec_compat(
                            tiles@[m / 6].tag,
                            spec_axis_direction(m % 6),
                            tiles@[j].tag,
                        ),
                decreases 6 - k,
            {
                let direction = axis_direction(k);
                let mut row: Vec<Option<u64>> = Vec::new();
                let source_tag = tiles[i].tag;
                let mut j: usize = 0;
                while j < n
                    invariant
                        n == tiles.len(),
                        i < n,
                        j <= n,
                        source_tag == tiles@[i as int].tag,
                        direction == spec_axis_direction(k as int),
                        row.len() == j,
                        forall|jj: int|
                            0 <= jj < j ==> row@[jj] == spec_compat(
                                tiles@[i as int].tag,
                                spec_axis_direction(k as int),
                                tiles@[jj].tag,
                            ),
                    decreases n - j,
                {
                    row.push(compat_weight(source_tag, direction, tiles[j].tag));
                    j = j + 1;
                }
                updates.push(row);
                proof {
                    assert((6 * i + k) / 6 == i && (6 * i + k) % 6 == k) by (nonlinear_arith)
                        requires
                            0 <= k < 6,
                            0 <= i,
                    ;
                }
                k = k + 1;
            }
        }
        TileSet { seed_id: 0, tiles, updates }
    }

    /// The number of tiles in the expanded catalog.
    pub fn len(&self) -> (n: usize)
        ensures
            n == self.tiles.len(),
    {
        self.tiles.len()
    }

    /// The tile every run's first observed cell is seeded with.
    pub fn seed_id(&self) -> (id: u32)
        ensures
            id == self.seed_id,
    {
        self.seed_id
    }

    /// The precomputed weight vector for putting each candidate tile next to
    /// `tile_id` in the given axis direction.
    pub fn update(&self, tile_id: u32, direction: Direction) -> (r: &Vec<Option<u64>>)
        requires
            self.wf(),
            (tile_id as int) < self.tiles.len(),
            spec_is_horizontal(direction) || spec_is_vertical(direction),
        ensures
            r.len() == self.tiles.len(),
            forall|j: int|
                0 <= j < self.tiles.len() ==> r@[j] == spec_compat(
                    self.tiles@[tile_id as int].tag,
                    direction,
                    self.tiles@[j].tag,
                ),
    {
        let k = axis_index(direction);
        let m = (tile_id as usize) * 6 + k;
        proof {
            assert(m < 6 * self.tiles.len() && m / 6 == tile_id as int && m % 6 == k as int)
                by (nonlinear_arith)
                requires
                    m == (tile_id as int) * 6 + k,
                    0 <= k < 6,
                    0 <= (tile_id as int) < self.tiles.len(),
            ;
        }
        &self.updates[m]
    }

    /// The voxel content of a tile of the catalog.
    pub fn voxels(&self, tile_id: u32) -> (r: &Grid)
        requires
            (tile_id as int) < self.tiles.len(),
        ensures
            *r == self.tiles@[tile_id as int].voxels,
    {
        &self.tiles[tile_id as usize].voxels
    }
}

proof fn lemma_expansion_offset_mono(s: Seq<Tile>, a: int, b: int)
    requires
        0 <= a <= b <= s.len(),
    ensures
        expansion_offset(s, a) <= expansion_offset(s, b),
    decreases b - a,
{
    if a < b {
        lemma_expansion_offset_mono(s, a + 1, b);
        lemma_expansion_offset_step(s, a);
    }
}

/// A named generation preset: the declarative list of base tiles a catalog is
/// expanded from.
#[derive(Debug, Clone, Copy, PartialEq, Eq, Structural)]
pub enum Template {
    Road,
}

/// The edge length of every template tile's cubic voxel pattern.
pub const TILE_EXTENT: u32 = 3;

impl Template {
    /// The declared base tiles of this template, in catalog order.
    pub fn tiles(&self) -> (r: Vec<Tile>)
        ensures
            r.len() == 6,
            base_tiles_wf(r@),
            forall|k: int| 0 <= k < 6 ==> (#[trigger] r@[k]).voxels.width == TILE_EXTENT,
            forall|k: int| 0 <= k < 6 ==> (#[trigger] r@[k]).voxels.height == TILE_EXTENT,
            r@[0].tag == Tag::Dirt && r@[0].orientation == Orientation::Invariant && r@[0].name@
                == "dirt"@,
            r@[1].tag == Tag::Grass && r@[1].orientation == Orientation::Invariant && r@[1].name@
                == "grass"@,
            r@[2].tag == Tag::Road && r@[2].orientation == Orientation::Invariant && r@[2].name@
                == "road-inner"@,
            r@[3].tag == Tag::Road && r@[3].orientation == Orientation::Edge(Direction::West)
                && r@[3].name@ == "road-edge"@,
            r@[4].tag == Tag::Road && r@[4].orientation == Orientation::Corner(
                Direction::NorthEast,
            ) && r@[4].name@ == "road-corner"@,
            r@[5].tag == Tag::Sky && r@[5].orientation == Orientation::Invariant && r@[5].name@
                == "sky"@,
            forall|x: int, y: int, z: int|
                0 <= x < 3 && 0 <= y < 3 && 0 <= z < 3 ==> {
                    &&& r@[0].voxels.spec_at(x, y, z) == crate::model::brown()
                    &&& r@[1].voxels.spec_at(x, y, z) == (if z == 2 {
                        crate::model::green()
                    } else {
                        crate::model::brown()
                    })
                    &&& r@[2].voxels.spec_at(x, y, z) == (if z == 0 {
                        crate::model::grey()
                    } else {
                        crate::grid::empty_voxel()
                    })
                    &&& r@[3].voxels.spec_at(x, y, z) == (if z == 0 && x >= 1 {
                        crate::model::grey()
                    } else {
                        crate::grid::empty_voxel()
                    })
                    &&& r@[4].voxels.spec_at(x, y, z) == (if z == 0 && x <= 1 && y <= 1 {
                        crate::model::grey()
                    } else {
                        crate::grid::empty_voxel()
                    })
                    &&& r@[5].voxels.spec_at(x, y, z) == crate::grid::empty_voxel()
                },
    {
        let e = TILE_EXTENT;
        let mut r: Vec<Tile> = Vec::new();
        r.push(
            Tile {
                name: String::from_str("dirt"),
                voxels: model::dirt(e, e, e),
                tag: Tag::Dirt,
                orientation: Orientation::Invariant,
            },
        );
        r.push(
            Tile {
                name: String::from_str("grass"),
                voxels: model::grass(e, e, e),
                tag: Tag::Grass,
                orientation: Orientation::Invariant,
            },
        );
        r.push(
            Tile {
                name: String::from_str("road-inner"),
                voxels: model::road_inner(e, e, e),
                tag: Tag::Road,
                orientation: Orientation::Invariant,
            },
        );
        r.push(
            Tile {
                name: String::from_str("road-edge"),
                voxels: model::road_edge(e, e, e),
                tag: Tag::Road,
                orientation: Orientation::Edge(Direction::West),
            },
        );
        r.push(
            Tile {
                name: String::from_str("road-corner"),
                voxels: model::road_corner(e, e, e),
                tag: Tag::Road,
                orientation: Orientation::Corner(Direction::NorthEast),
            },
        );
        r.push(
            Tile {
                name: String::from_str("sky"),
                voxels: model::sky(e, e, e),
                tag: Tag::Sky,
                orientation: Orientation::Invariant,
            },
        );
        r
    }
}

} // verus!
