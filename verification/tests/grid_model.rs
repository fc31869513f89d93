use voxel_wfc::direction::Rotation;
use voxel_wfc::grid::{Grid, Voxel};
use voxel_wfc::math::{entropy, normalize, one_hot, vec_sum, PROB_ONE};
use voxel_wfc::model;
use voxel_wfc::tile::{Orientation, Tag, Template, Tile};

fn brown() -> Voxel {
    Voxel { r: 120, g: 80, b: 50, a: 255 }
}

fn green() -> Voxel {
    Voxel { r: 90, g: 120, b: 20, a: 255 }
}

fn grey() -> Voxel {
    Voxel { r: 108, g: 108, b: 127, a: 255 }
}

fn clear() -> Voxel {
    Voxel { r: 0, g: 0, b: 0, a: 0 }
}

#[test]
fn grid_set_and_get() {
    let mut g = Grid::new(2, 3, 4);
    assert_eq!(g.get(1, 2, 3), clear());
    g.set(1, 2, 3, brown());
    assert_eq!(g.get(1, 2, 3), brown());
    assert_eq!(g.get(0, 2, 3), clear());
}

#[test]
fn grid_rotation_maps_coordinates() {
    let mut g = Grid::new(2, 1, 1);
    g.set(0, 0, 0, brown());
    g.set(1, 0, 0, green());
    let r = g.rotated_z(&Rotation::R90);
    assert_eq!(r.width, 1);
    assert_eq!(r.depth, 2);
    assert_eq!(r.height, 1);
    assert_eq!(r.get(0, 0, 0), brown());
    assert_eq!(r.get(0, 1, 0), green());
    let back = g.rotated_z(&Rotation::R0);
    assert_eq!(back.get(0, 0, 0), brown());
    assert_eq!(back.get(1, 0, 0), green());
    let half = g.rotated_z(&Rotation::R180);
    assert_eq!(half.get(0, 0, 0), green());
    assert_eq!(half.get(1, 0, 0), brown());
}

#[test]
fn dirt_is_solid_brown() {
    let g = model::dirt(3, 3, 3);
    for x in 0..3 {
        for y in 0..3 {
            for z in 0..3 {
                assert_eq!(g.get(x, y, z), brown());
            }
        }
    }
}

#[test]
fn grass_has_green_top_layer() {
    let g = model::grass(3, 3, 3);
    for x in 0..3 {
        for y in 0..3 {
            for z in 0..3 {
                let expected = if z == 2 { green() } else { brown() };
                assert_eq!(g.get(x, y, z), expected);
            }
        }
    }
}

#[test]
fn sky_is_clear() {
    let g = model::sky(3, 3, 3);
    for x in 0..3 {
        for y in 0..3 {
            for z in 0..3 {
                assert_eq!(g.get(x, y, z), clear());
            }
        }
    }
}

#[test]
fn road_inner_paves_the_bottom() {
    let g = model::road_inner(3, 3, 3);
    for x in 0..3 {
        for y in 0..3 {
            for z in 0..3 {
                let expected = if z == 0 { grey() } else { clear() };
                assert_eq!(g.get(x, y, z), expected);
            }
        }
    }
}

#[test]
fn road_edge_paves_the_outer_half() {
    let g = model::road_edge(3, 3, 3);
    for x in 0..3 {
        for y in 0..3 {
            for z in 0..3 {
                let expected = if z == 0 && x >= 1 { grey() } else { clear() };
                assert_eq!(g.get(x, y, z), expected);
            }
        }
    }
}

#[test]
fn road_corner_paves_one_quadrant() {
    let g = model::road_corner(3, 3, 3);
    for x in 0..3 {
        for y in 0..3 {
            for z in 0..3 {
                let expected = if z == 0 && x <= 1 && y <= 1 { grey() } else { clear() };
                assert_eq!(g.get(x, y, z), expected);
            }
        }
    }
}

#[test]
fn tile_rotation_renames_and_turns() {
    let base = Tile {
        name: String::from("road-edge"),
        voxels: model::road_edge(3, 3, 3),
        tag: Tag::Road,
        orientation: Orientation::Edge(voxel_wfc::direction::Direction::West),
    };
    let turned = base.rotated_z(&Rotation::R180);
    assert_eq!(turned.name().as_str(), "road-edge-east");
    assert!(matches!(
        turned.orientation(),
        Orientation::Edge(voxel_wfc::direction::Direction::East)
    ));
    assert!(matches!(turned.tag(), Tag::Road));
    assert_eq!(turned.voxels().width, 3);
    assert_eq!(turned.voxels().depth, 3);
    assert_eq!(turned.voxels().height, 3);
    // The paved half (x >= 1 at the bottom) lands on the other side.
    assert_eq!(turned.voxels().get(0, 0, 0), grey());
    assert_eq!(turned.voxels().get(2, 0, 0), clear());
}

#[test]
fn template_tiles_are_cubes() {
    let tiles = Template::Road.tiles();
    assert_eq!(tiles.len(), 6);
    for t in &tiles {
        assert_eq!(t.voxels().width, 3);
        assert_eq!(t.voxels().depth, 3);
        assert_eq!(t.voxels().height, 3);
    }
}

#[test]
fn normalize_is_exact() {
    let mut w: Vec<u64> = vec![1, 3];
    normalize(&mut w);
    assert_eq!(w, vec![250_000, 750_000]);
    assert_eq!(vec_sum(&w), PROB_ONE);
    let mut v: Vec<u64> = vec![0, 5, 0, 5];
    normalize(&mut v);
    assert_eq!(v, vec![0, 500_000, 0, 500_000]);
}

#[test]
fn entropy_of_collapsed_and_uniform_vectors() {
    let hot = one_hot(4, 2);
    assert_eq!(hot, vec![0, 0, PROB_ONE, 0]);
    assert_eq!(entropy(&hot), 0);
    let uniform: Vec<u64> = vec![500_000, 500_000];
    assert_eq!(entropy(&uniform), PROB_ONE * PROB_ONE - 2 * 500_000 * 500_000);
}
