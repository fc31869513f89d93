use vstd::prelude::*;
use crate::direction::Rotation;

verus! {

/// One voxel: a color with an alpha channel; a fully transparent voxel stands
/// for empty space.
#[derive(Debug, Clone, Copy, PartialEq, Eq, Structural)]
pub struct Voxel {
    pub r: u8,
    pub g: u8,
    pub b: u8,
    pub a: u8,
}

/// The fully transparent voxel every new grid is filled with.
pub open spec fn empty_voxel() -> Voxel {
    Voxel { r: 0, g: 0, b: 0, a: 0 }
}

/// A dense three-dimensional block of voxels, stored row-major: the first
/// axis varies fastest, the vertical axis slowest.
#[derive(Debug, PartialEq, Eq)]
pub struct Grid {
    pub width: u32,
    pub depth: u32,
    pub height: u32,
    pub cells: Vec<Voxel>,
}

/// The position of a voxel in the backing vector.
pub open spec fn spec_grid_index(width: int, depth: int, x: int, y: int, z: int) -> int {
    x + width * (y + depth * z)
}

/// For each rotation, the source coordinates in the original grid that a
/// target coordinate of the rotated grid reads from; `w` and `d` are the
/// source grid's width and depth.
pub open spec fn spec_source_coord(r: Rotation, x: int, y: int, w: int, d: int) -> (int, int) {
    match r {
        Rotation::R0 => (x, y),
        Rotation::R90 => (y, d - 1 - x),
        Rotation::R180 => (w - 1 - x, d - 1 - y),
        Rotation::R270 => (w - 1 - y, x),
    }
}

/// The width of a grid after rotation around the vertical axis.
pub open spec fn spec_rotated_width(r: Rotation, w: int, d: int) -> int {
    match r {
        Rotation::R0 | Rotation::R180 => w,
        Rotation::R90 | Rotation::R270 => d,
    }
}

/// The depth of a grid after rotation around the vertical axis.
pub open spec fn spec_rotated_depth(r: Rotation, w: int, d: int) -> int {
    match r {
        Rotation::R0 | Rotation::R180 => d,
        Rotation::R90 | Rotation::R270 => w,
    }
}

pub proof fn lemma_grid_index_bounds(width: int, depth: int, height: int, x: int, y: int, z: int)
    requires
        0 <= x < width,
        0 <= y < depth,
        0 <= z < height,
    ensures
        0 <= spec_grid_index(width, depth, x, y, z) < width * depth * height,
        0 <= depth * z,
        0 <= y + depth * z < depth * height,
        depth * height <= width * depth * height,
        0 <= width * (y + depth * z) < width * depth * height,
{
    assert(0 <= x + width * (y + depth * z) < width * depth * height && 0 <= depth * z && 0 <= y
        + depth * z < depth * height && depth * height <= width * depth * height && 0 <= width * (y
        + depth * z) < width * depth * height) by (nonlinear_arith)
        requires
            0 <= x < width,
            0 <= y < depth,
            0 <= z < height,
    ;
}

/// Computes the backing-vector slot of an in-bounds position.
pub fn grid_offset(width: u32, depth: u32, height: u32, x: u32, y: u32, z: u32) -> (idx: usize)
    requires
        x < width,
        y < depth,
        z < height,
        width * depth * height <= usize::MAX,
    ensures
        idx == spec_grid_index(width as int, depth as int, x as int, y as int, z as int),
        idx < width * depth * height,
{
    proof {
        lemma_grid_index_bounds(
            width as int,
            depth as int,
            height as int,
            x as int,
            y as int,
            z as int,
        );
    }
    (x as usize) + (width as usize) * ((y as usize) + (depth as usize) * (z as usize))
}

impl Grid {
    /// The backing vector holds exactly one voxel per position.
    pub open spec fn wf(self) -> bool {
        &&& self.width * self.depth * self.height <= usize::MAX
        &&& self.cells.len() == self.width * self.depth * self.height
    }

    /// The voxel at a position, as seen by contracts.
    pub open spec fn spec_at(self, x: int, y: int, z: int) -> Voxel {
        self.cells@[spec_grid_index(self.width as int, self.depth as int, x, y, z)]
    }

    /// A grid of the given dimensions, filled with the empty voxel.
    pub fn new(width: u32, depth: u32, height: u32) -> (g: Grid)
        requires
            width * depth * height <= usize::MAX,
        ensures
            g.wf(),
            g.width == width,
            g.depth == depth,
            g.height == height,
            forall|i: int| 0 <= i < g.cells.len() ==> g.cells@[i] == empty_voxel(),
    {
        proof {
            assert(width * depth * height >= 0) by (nonlinear_arith);
            assert(width * depth * height == (width * depth) * height) by (nonlinear_arith);
            assert(height >= 1 ==> width * depth <= width * depth * height) by (nonlinear_arith);
            assert(width * depth >= 0) by (nonlinear_arith);
        }
        let len: usize = if height == 0 {
            0
        } else {
            (width as usize) * (depth as usize) * (height as usize)
        };
        let mut cells: Vec<Voxel> = Vec::new();
        let mut i: usize = 0;
        while i < len
            invariant
                i <= len,
                cells.len() == i,
                forall|j: int| 0 <= j < i ==> cells@[j] == empty_voxel(),
            decreases len - i,
        {
            cells.push(Voxel { r: 0, g: 0, b: 0, a: 0 });
            i = i + 1;
        }
        Grid { width, depth, height, cells }
    }

    /// A grid of the given dimensions with every voxel set to `v`.
    pub fn filled(width: u32, depth: u32, height: u32, v: Voxel) -> (g: Grid)
        requires
            width * depth * height <= usize::MAX,
        ensures
            g.wf(),
            g.width == width,
            g.depth == depth,
            g.height == height,
            forall|x: int, y: int, z: int|
                0 <= x < width && 0 <= y < depth && 0 <= z < height ==> g.spec_at(x, y, z) == v,
    {
        proof {
            assert(width * depth * height >= 0) by (nonlinear_arith);
            assert(width * depth * height == (width * depth) * height) by (nonlinear_arith);
            assert(height >= 1 ==> width * depth <= width * depth * height) by (nonlinear_arith);
            assert(width * depth >= 0) by (nonlinear_arith);
        }
        let len: usize = if height == 0 {
            0
        } else {
            (width as usize) * (depth as usize) * (height as usize)
        };
        let mut cells: Vec<Voxel> = Vec::new();
        let mut i: usize = 0;
        while i < len
            invariant
                i <= len,
                cells.len() == i,
                forall|j: int| 0 <= j < i ==> cells@[j] == v,
            decreases len - i,
        {
            cells.push(v);
            i = i + 1;
        }
        let g = Grid { width, depth, height, cells };
        proof {
            assert forall|x: int, y: int, z: int|
                0 <= x < width && 0 <= y < depth && 0 <= z < height implies g.spec_at(x, y, z)
                == v by {
                lemma_grid_index_bounds(width as int, depth as int, height as int, x, y, z);
            }
        }
        g
    }

    /// Overwrites with `v` the voxels of one horizontal layer whose first
    /// coordinate lies in `[x_lo, x_hi)` and second in `[y_lo, y_hi)`; every
    /// other voxel keeps its value.
    pub fn fill_layer_rect(&mut self, z: u32, x_lo: u32, x_hi: u32, y_lo: u32, y_hi: u32, v: Voxel)
        requires
            old(self).wf(),
            z < old(self).height,
            x_hi <= old(self).width,
            y_hi <= old(self).depth,
        ensures
            final(self).wf(),
            final(self).width == old(self).width,
            final(self).depth == old(self).depth,
            final(self).height == old(self).height,
            forall|x: int, y: int, zz: int|
                0 <= x < final(self).width && 0 <= y < final(self).depth
                    && 0 <= zz < final(self).height ==> final(self).spec_at(x, y, zz) == (if zz == z
                    && x_lo <= x < x_hi && y_lo <= y < y_hi {
                    v
                } else {
                    old(self).spec_at(x, y, zz)
                }),
    {
        let ghost orig = *self;
        let mut y: u32 = y_lo;
        while y < y_hi
            invariant
                self.wf(),
                orig.wf(),
                self.width == orig.width,
                self.depth == orig.depth,
                self.height == orig.height,
                z < self.height,
                x_hi <= self.width,
                y_hi <= self.depth,
                y_lo <= y,
                y <= y_hi || y == y_lo,
                forall|xx: int, yy: int, zz: int|
                    0 <= xx < self.width && 0 <= yy < self.depth && 0 <= zz < self.height
                        ==> self.spec_at(xx, yy, zz) == (if zz == z && x_lo <= xx < x_hi && y_lo
                        <= yy < y {
                        v
                    } else {
                        orig.spec_at(xx, yy, zz)
                    }),
            decreases y_hi - y,
        {
            let mut x: u32 = x_lo;
            while x < x_hi
                invariant
                    self.wf(),
                    orig.wf(),
                    self.width == orig.width,
                    self.depth == orig.depth,
                    self.height == orig.height,
                    z < self.height,
                    x_hi <= self.width,
                    y_hi <= self.depth,
                    y_lo <= y < y_hi,
                    x_lo <= x,
                    x <= x_hi || x == x_lo,
                    forall|xx: int, yy: int, zz: int|
                        0 <= xx < self.width && 0 <= yy < self.depth && 0 <= zz < self.height
                            ==> self.spec_at(xx, yy, zz) == (if zz == z && x_lo <= xx < x_hi && (
                        y_lo <= yy < y || (yy == y && x_lo <= xx < x)) {
                            v
                        } else {
                            orig.spec_at(xx, yy, zz)
                        }),
                decreases x_hi - x,
            {
                let ghost pre = *self;
                self.set(x, y, z, v);
                proof {
                    assert forall|xx: int, yy: int, zz: int|
                        0 <= xx < self.width && 0 <= yy < self.depth && 0 <= zz
                            < self.height implies self.spec_at(xx, yy, zz) == (if zz == z && x_lo
                        <= xx < x_hi && (y_lo <= yy < y || (yy == y && x_lo <= xx < x + 1)) {
                        v
                    } else {
                        orig.spec_at(xx, yy, zz)
                    }) by {
                        lemma_grid_index_bounds(
                            self.width as int,
                            self.depth as int,
                            self.height as int,
                            xx,
                            yy,
                            zz,
                        );
                        lemma_grid_index_bounds(
                            self.width as int,
                            self.depth as int,
                            self.height as int,
                            x as int,
                            y as int,
                            z as int,
                        );
                        if xx == x && yy == y && zz == z {
                        } else {
                            lemma_grid_index_injective(
                                self.width as int,
                                self.depth as int,
                                xx,
                                yy,
                                zz,
                                x as int,
                                y as int,
                                z as int,
                            );
                            assert(pre.spec_at(xx, yy, zz) == self.spec_at(xx, yy, zz));
                        }
                    }
                }
                x = x + 1;
            }
            y = y + 1;
        }
    }

    /// The voxel at an in-bounds position.
    pub fn get(&self, x: u32, y: u32, z: u32) -> (v: Voxel)
        requires
            self.wf(),
            x < self.width,
            y < self.depth,
            z < self.height,
        ensures
            v == self.spec_at(x as int, y as int, z as int),
    {
        let idx = grid_offset(self.width, self.depth, self.height, x, y, z);
        self.cells[idx]
    }

    /// Replaces the voxel at an in-bounds position, leaving every other
    /// position unchanged.
    pub fn set(&mut self, x: u32, y: u32, z: u32, v: Voxel)
        requires
            old(self).wf(),
            x < old(self).width,
            y < old(self).depth,
            z < old(self).height,
        ensures
            final(self).wf(),
            final(self).width == old(self).width,
            final(self).depth == old(self).depth,
            final(self).height == old(self).height,
            final(self).cells@ == old(self).cells@.update(
                spec_grid_index(
                    old(self).width as int,
                    old(self).depth as int,
                    x as int,
                    y as int,
                    z as int,
                ),
                v,
            ),
    {
        let idx = grid_offset(self.width, self.depth, self.height, x, y, z);
        self.cells.set(idx, v);
    }

    /// The grid rotated around the vertical axis: every column of voxels
    /// moves as a whole, and each horizontal slice is turned by the given
    /// rotation.
    pub fn rotated_z(&self, rotation: &Rotation) -> (g: Grid)
        requires
            self.wf(),
        ensures
            g.wf(),
            g.width == spec_rotated_width(*rotation, self.width as int, self.depth as int),
            g.depth == spec_rotated_depth(*rotation, self.width as int, self.depth as int),
            g.height == self.height,
            forall|x: int, y: int, z: int|
                0 <= x < g.width && 0 <= y < g.depth && 0 <= z < g.height ==> g.spec_at(x, y, z)
                    == self.spec_at(
                    spec_source_coord(*rotation, x, y, self.width as int, self.depth as int).0,
                    spec_source_coord(*rotation, x, y, self.width as int, self.depth as int).1,
                    z,
                ),
    {
        let (new_width, new_depth): (u32, u32) = match rotation {
            Rotation::R0 | Rotation::R180 => (self.width, self.depth),
            Rotation::R90 | Rotation::R270 => (self.depth, self.width),
        };
        proof {
            assert(new_width * new_depth * self.height == self.width * self.depth * self.height)
                by (nonlinear_arith)
                requires
                    (new_width == self.width && new_depth == self.depth) || (new_width
                        == self.depth && new_depth == self.width),
            ;
        }
        let mut out = Grid::new(new_width, new_depth, self.height);
        let mut z: u32 = 0;
        while z < self.height
            invariant
                self.wf(),
                out.wf(),
                out.width == new_width,
                out.depth == new_depth,
                out.height == self.height,
                new_width == spec_rotated_width(*rotation, self.width as int, self.depth as int),
                new_depth == spec_rotated_depth(*rotation, self.width as int, self.depth as int),
                z <= self.height,
                forall|xx: int, yy: int, zz: int|
                    0 <= xx < new_width && 0 <= yy < new_depth && 0 <= zz < z ==> out.spec_at(
                        xx,
                        yy,
                        zz,
                    ) == self.spec_at(
                        spec_source_coord(
                            *rotation,
                            xx,
                            yy,
                            self.width as int,
                            self.depth as int,
                        ).0,
                        spec_source_coord(
                            *rotation,
                            xx,
                            yy,
                            self.width as int,
                            self.depth as int,
                        ).1,
                        zz,
                    ),
            decreases self.height - z,
        {
            let mut y: u32 = 0;
            while y < new_depth
                invariant
                    self.wf(),
                    out.wf(),
                    out.width == new_width,
                    out.depth == new_depth,
                    out.height == self.height,
                    new_width == spec_rotated_width(
                        *rotation,
                        self.width as int,
                        self.depth as int,
                    ),
                    new_depth == spec_rotated_depth(
                        *rotation,
                        self.width as int,
                        self.depth as int,
                    ),
                    z < self.height,
                    y <= new_depth,
                    forall|xx: int, yy: int, zz: int|
                        0 <= xx < new_width && 0 <= yy < new_depth && (zz < z || (zz == z && yy
                            < y)) && 0 <= zz ==> out.spec_at(xx, yy, zz) == self.spec_at(
                            spec_source_coord(
                                *rotation,
                                xx,
                                yy,
                                self.width as int,
                                self.depth as int,
                            ).0,
                            spec_source_coord(
                                *rotation,
                                xx,
                                yy,
                                self.width as int,
                                self.depth as int,
                            ).1,
                            zz,
                        ),
                decreases new_depth - y,
            {
                let mut x: u32 = 0;
                while x < new_width
                    invariant
                        self.wf(),
                        out.wf(),
                        out.width == new_width,
                        out.depth == new_depth,
                        out.height == self.height,
                        new_width == spec_rotated_width(
                            *rotation,
                            self.width as int,
                            self.depth as int,
                        ),
                        new_depth == spec_rotated_depth(
                            *rotation,
                            self.width as int,
                            self.depth as int,
                        ),
                        z < self.height,
                        y < new_depth,
                        x <= new_width,
                        forall|xx: int, yy: int, zz: int|
                            0 <= xx < new_width && 0 <= yy < new_depth && (zz < z || (zz == z && (yy
                                < y || (yy == y && xx < x)))) && 0 <= zz ==> out.spec_at(xx, yy, zz)
                                == self.spec_at(
                                spec_source_coord(
                                    *rotation,
                                    xx,
                                    yy,
                                    self.width as int,
                                    self.depth as int,
                                ).0,
                                spec_source_coord(
                                    *rotation,
                                    xx,
                                    yy,
                                    self.width as int,
                                    self.depth as int,
                                ).1,
                                zz,
                            ),
                    decreases new_width - x,
                {
                    let (sx, sy): (u32, u32) = match rotation {
                        Rotation::R0 => (x, y),
                        Rotation::R90 => (y, self.depth - 1 - x),
                        Rotation::R180 => (self.width - 1 - x, self.depth - 1 - y),
                        Rotation::R270 => (self.width - 1 - y, x),
                    };
                    let v = self.get(sx, sy, z);
                    let ghost pre = out;
                    out.set(x, y, z, v);
                    proof {
                        assert forall|xx: int, yy: int, zz: int|
                            0 <= xx < new_width && 0 <= yy < new_depth && (zz < z || (zz == z && (yy
                                < y || (yy == y && xx < x + 1)))) && 0 <= zz implies out.spec_at(
                            xx,
                            yy,
                            zz,
                        ) == self.spec_at(
                            spec_source_coord(
                                *rotation,
                                xx,
                                yy,
                                self.width as int,
                                self.depth as int,
                            ).0,
                            spec_source_coord(
                                *rotation,
                                xx,
                                yy,
                                self.width as int,
                                self.depth as int,
                            ).1,
                            zz,
                        ) by {
                            lemma_grid_index_bounds(
                                new_width as int,
                                new_depth as int,
                                self.height as int,
                                xx,
                                yy,
                                zz,
                            );
                            lemma_grid_index_bounds(
                                new_width as int,
                                new_depth as int,
                                self.height as int,
                                x as int,
                                y as int,
                                z as int,
                            );
                            if xx == x && yy == y && zz == z {
                            } else {
                                lemma_grid_index_injective(
                                    new_width as int,
                                    new_depth as int,
                                    xx,
                                    yy,
                                    zz,
                                    x as int,
                                    y as int,
                                    z as int,
                                );
                                assert(pre.spec_at(xx, yy, zz) == out.spec_at(xx, yy, zz));
                            }
                        }
                    }
                    x = x + 1;
                }
                y = y + 1;
            }
            z = z + 1;
        }
        out
    }
}

/// Two distinct in-bounds positions never share a slot in the backing vector.
pub proof fn lemma_grid_index_injective(
    width: int,
    depth: int,
    x1: int,
    y1: int,
    z1: int,
    x2: int,
    y2: int,
    z2: int,
)
    requires
        0 <= x1 < width,
        0 <= y1 < depth,
        0 <= x2 < width,
        0 <= y2 < depth,
        0 <= z1,
        0 <= z2,
        (x1, y1, z1) != (x2, y2, z2),
    ensures
        spec_grid_index(width, depth, x1, y1, z1) != spec_grid_index(width, depth, x2, y2, z2),
{
    assert(x1 + width * (y1 + depth * z1) != x2 + width * (y2 + depth * z2)) by (nonlinear_arith)
        requires
            0 <= x1 < width,
            0 <= y1 < depth,
            0 <= x2 < width,
            0 <= y2 < depth,
            0 <= z1,
            0 <= z2,
            !(x1 == x2 && y1 == y2 && z1 == z2),
    ;
}

} // verus!
