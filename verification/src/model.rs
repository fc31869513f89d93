use vstd::prelude::*;
use crate::grid::{Grid, Voxel, empty_voxel};

verus! {

/// The solid ground color.
pub open spec fn brown() -> Voxel {
    Voxel { r: 120, g: 80, b: 50, a: 255 }
}

/// The vegetation color of a grass top layer.
pub open spec fn green() -> Voxel {
    Voxel { r: 90, g: 120, b: 20, a: 255 }
}

/// The paved-surface color.
pub open spec fn grey() -> Voxel {
    Voxel { r: 108, g: 108, b: 127, a: 255 }
}

/// A tile of solid ground.
pub fn dirt(width: u32, depth: u32, height: u32) -> (g: Grid)
    requires
        width * depth * height <= usize::MAX,
    ensures
        g.wf(),
        g.width == width,
        g.depth == depth,
        g.height == height,
        forall|x: int, y: int, z: int|
            0 <= x < width && 0 <= y < depth && 0 <= z < height ==> g.spec_at(x, y, z) == brown(),
{
    Grid::filled(width, depth, height, Voxel { r: 120, g: 80, b: 50, a: 255 })
}

/// A ground tile whose top layer is vegetation.
pub fn grass(width: u32, depth: u32, height: u32) -> (g: Grid)
    requires
        width * depth * height <= usize::MAX,
    ensures
        g.wf(),
        g.width == width,
        g.depth == depth,
        g.height == height,
        forall|x: int, y: int, z: int|
            0 <= x < width && 0 <= y < depth && 0 <= z < height ==> g.spec_at(x, y, z) == (if z
                == height - 1 {
                green()
            } else {
                brown()
            }),
{
    let mut g = dirt(width, depth, height);
    if height > 0 {
        g.fill_layer_rect(height - 1, 0, width, 0, depth, Voxel { r: 90, g: 120, b: 20, a: 255 });
    }
    g
}

/// A tile of open air.
pub fn sky(width: u32, depth: u32, height: u32) -> (g: Grid)
    requires
        width * depth * height <= usize::MAX,
    ensures
        g.wf(),
        g.width == width,
        g.depth == depth,
        g.height == height,
        forall|x: int, y: int, z: int|
            0 <= x < width && 0 <= y < depth && 0 <= z < height ==> g.spec_at(x, y, z)
                == empty_voxel(),
{
    Grid::filled(width, depth, height, Voxel { r: 0, g: 0, b: 0, a: 0 })
}

/// An air tile whose bottom layer is fully paved.
pub fn road_inner(width: u32, depth: u32, height: u32) -> (g: Grid)
    requires
        width * depth * height <= usize::MAX,
    ensures
        g.wf(),
        g.width == width,
        g.depth == depth,
        g.height == height,
        forall|x: int, y: int, z: int|
            0 <= x < width && 0 <= y < depth && 0 <= z < height ==> g.spec_at(x, y, z) == (if z
                == 0 {
                grey()
            } else {
                empty_voxel()
            }),
{
    let mut g = sky(width, depth, height);
    if height > 0 {
        g.fill_layer_rect(0, 0, width, 0, depth, Voxel { r: 108, g: 108, b: 127, a: 255 });
    }
    g
}

/// An air tile paved on the bottom layer from the middle of the first axis
/// outward: the edge of a road.
pub fn road_edge(width: u32, depth: u32, height: u32) -> (g: Grid)
    requires
        width * depth * height <= usize::MAX,
    ensures
        g.wf(),
        g.width == width,
        g.depth == depth,
        g.height == height,
        forall|x: int, y: int, z: int|
            0 <= x < width && 0 <= y < depth && 0 <= z < height ==> g.spec_at(x, y, z) == (if z
                == 0 && x >= width / 2 {
                grey()
            } else {
                empty_voxel()
            }),
{
    let mut g = sky(width, depth, height);
    if height > 0 {
        g.fill_layer_rect(0, width / 2, width, 0, depth, Voxel { r: 108, g: 108, b: 127, a: 255 });
    }
    g
}

/// An air tile paved on the bottom layer in one quadrant: the corner of a
/// road.
pub fn road_corner(width: u32, depth: u32, height: u32) -> (g: Grid)
    requires
        width * depth * height <= usize::MAX,
    ensures
        g.wf(),
        g.width == width,
        g.depth == depth,
        g.height == height,
        forall|x: int, y: int, z: int|
            0 <= x < width && 0 <= y < depth && 0 <= z < height ==> g.spec_at(x, y, z) == (if z
                == 0 && x <= width / 2 && y <= depth / 2 {
                grey()
            } else {
                empty_voxel()
            }),
{
    let mut g = sky(width, depth, height);
    if width > 0 && depth > 0 && height > 0 {
        g.fill_layer_rect(
            0,
            0,
            width / 2 + 1,
            0,
            depth / 2 + 1,
            Voxel { r: 108, g: 108, b: 127, a: 255 },
        );
    }
    g
}

} // verus!
