use voxel_wfc::direction::Direction;
use voxel_wfc::grid::Voxel;
use voxel_wfc::map::{Edge, GenerationError, Node, VoxelMap};
use voxel_wfc::math::{ENTROPY_INIT, PROB_ONE};
use voxel_wfc::model;
use voxel_wfc::tile::{Orientation, Tag, Template, Tile, TileSet};

/// A two-tag catalog: solid ground and open air, both rotation-invariant.
fn ground_sky_tileset() -> TileSet {
    let tiles = vec![
        Tile {
            name: String::from("ground"),
            voxels: model::dirt(3, 3, 3),
            tag: Tag::Dirt,
            orientation: Orientation::Invariant,
        },
        Tile {
            name: String::from("sky"),
            voxels: model::sky(3, 3, 3),
            tag: Tag::Sky,
            orientation: Orientation::Invariant,
        },
    ];
    TileSet::from_tiles(tiles)
}

fn observed_count(m: &VoxelMap) -> usize {
    m.observations.iter().filter(|o| o.is_some()).count()
}

#[test]
fn new_map_is_seeded_once() {
    let ts = TileSet::gen(Template::Road);
    let m = VoxelMap::new(3, 3, 3, ts, 7);
    // The seed cell is the lattice center of the lowest layer.
    let seed = 1 + 3 * 1;
    for (i, o) in m.observations.iter().enumerate() {
        if i == seed {
            assert_eq!(*o, Some(0));
            assert_eq!(m.entropies[i], 0);
            assert_eq!(m.weights[i][0], PROB_ONE);
            assert_eq!(m.weights[i].iter().sum::<u64>(), PROB_ONE);
        } else {
            assert_eq!(*o, None);
            assert_eq!(m.entropies[i], ENTROPY_INIT);
            assert!(m.weights[i].iter().all(|w| *w == 0));
        }
    }
    assert_eq!(observed_count(&m), 1);
}

#[test]
fn boundary_edges_stay_in_the_lattice() {
    let ts = ground_sky_tileset();
    let m = VoxelMap::new(2, 2, 2, ts, 3);
    let n = 8;
    for cell in 0..n {
        for e in &m.graph[cell] {
            assert!(e.target < n);
        }
    }
    // The corner cell at the origin has exactly its three in-bounds
    // neighbors: east, north and up.
    assert_eq!(
        m.graph[0],
        vec![
            Edge { direction: Direction::East, target: 1 },
            Edge { direction: Direction::North, target: 2 },
            Edge { direction: Direction::Up, target: 4 },
        ]
    );
    // The opposite corner has the three mirrored ones.
    assert_eq!(
        m.graph[7],
        vec![
            Edge { direction: Direction::West, target: 6 },
            Edge { direction: Direction::South, target: 5 },
            Edge { direction: Direction::Down, target: 3 },
        ]
    );
}

#[test]
fn propagation_drives_the_top_cell_to_sky() {
    // A one-column lattice of two cells over a ground/sky catalog: ground is
    // banned above ground and air is fully compatible there, so one
    // propagation from the seeded bottom cell leaves the top cell only air.
    let ts = ground_sky_tileset();
    let mut m = VoxelMap::new(1, 1, 2, ts, 11);
    assert_eq!(m.observations[0], Some(0));
    assert_eq!(m.observations[1], None);
    m.propagate(0);
    assert_eq!(m.weights[1], vec![0, PROB_ONE]);
    assert_eq!(m.entropies[1], 0);
    let next = m.min_entropy_cell_id();
    assert_eq!(next, Some(1));
    let observed = m.observe(1);
    assert_eq!(observed, Ok(1));
    assert_eq!(m.observations[1], Some(1));
}

#[test]
fn observation_collapses_to_one_hot() {
    let ts = ground_sky_tileset();
    let mut m = VoxelMap::new(1, 1, 2, ts, 5);
    m.propagate(0);
    let before = observed_count(&m);
    let t = m.observe(1).unwrap();
    assert_eq!(t, 1);
    let mut ones = 0;
    for (j, w) in m.weights[1].iter().enumerate() {
        if j == t as usize {
            assert_eq!(*w, PROB_ONE);
            ones += 1;
        } else {
            assert_eq!(*w, 0);
        }
    }
    assert_eq!(ones, 1);
    assert_eq!(m.entropies[1], 0);
    // The observed count rises by exactly one.
    assert_eq!(observed_count(&m), before + 1);
}

#[test]
fn observing_a_dead_cell_is_a_contradiction() {
    let ts = ground_sky_tileset();
    let mut m = VoxelMap::new(1, 1, 3, ts, 9);
    // Cell 2 has never received a signal: its weights are all zero.
    assert!(m.weights[2].iter().all(|w| *w == 0));
    let before = observed_count(&m);
    let r = m.observe(2);
    assert_eq!(r, Err(GenerationError::Contradiction));
    // The failed observation changed nothing.
    assert_eq!(m.observations[2], None);
    assert_eq!(observed_count(&m), before);
}

#[test]
fn zero_weight_tiles_are_never_sampled() {
    // The only positive weight after propagation is the air tile's, so the
    // sampler must return it no matter the seed.
    for seed in 0..20 {
        let ts = ground_sky_tileset();
        let mut m = VoxelMap::new(1, 1, 2, ts, seed);
        m.propagate(0);
        assert_eq!(m.observe(1), Ok(1));
    }
}

#[test]
fn propagation_updates_are_normalized() {
    let ts = TileSet::gen(Template::Road);
    let mut m = VoxelMap::new(3, 3, 2, ts, 17);
    let seed = 1 + 3 * 1;
    m.propagate(seed);
    let mut touched = 0;
    for i in 0..m.weights.len() {
        let sum: u64 = m.weights[i].iter().sum();
        assert!(sum == 0 || sum == PROB_ONE);
        if m.observations[i].is_none() && sum == PROB_ONE {
            touched += 1;
            assert!(m.entropies[i] < ENTROPY_INIT);
        }
    }
    assert!(touched > 0);
}

#[test]
fn same_seed_gives_same_map() {
    let a = VoxelMap::gen(3, 3, 3, TileSet::gen(Template::Road), 123);
    let b = VoxelMap::gen(3, 3, 3, TileSet::gen(Template::Road), 123);
    assert_eq!(a.1, b.1);
    assert_eq!(a.0.observations, b.0.observations);
}

#[test]
fn solver_runs_to_completion() {
    let (m, outcome) = VoxelMap::gen(2, 2, 2, ground_sky_tileset(), 31);
    assert_eq!(outcome, Ok(()));
    // Once the solver stops, no touched cell is left unobserved.
    for i in 0..m.observations.len() {
        assert!(m.observations[i].is_some() || m.entropies[i] == ENTROPY_INIT);
    }
    assert!(observed_count(&m) >= 1);
}

#[test]
fn assembled_voxels_stamp_each_tile() {
    let ts = ground_sky_tileset();
    let mut m = VoxelMap::new(1, 1, 2, ts, 2);
    m.propagate(0);
    m.observe(1).unwrap();
    let g = m.voxels();
    assert_eq!(g.width, 3);
    assert_eq!(g.depth, 3);
    assert_eq!(g.height, 6);
    let brown = Voxel { r: 120, g: 80, b: 50, a: 255 };
    let clear = Voxel { r: 0, g: 0, b: 0, a: 0 };
    for x in 0..3 {
        for y in 0..3 {
            for z in 0..6 {
                let expected = if z < 3 { brown } else { clear };
                assert_eq!(g.get(x, y, z), expected);
            }
        }
    }
}

#[test]
fn propagation_on_an_unobserved_cell_is_a_noop() {
    let ts = ground_sky_tileset();
    let mut m = VoxelMap::new(1, 1, 2, ts, 4);
    let weights_before = m.weights.clone();
    let entropies_before = m.entropies.clone();
    m.propagate(1);
    assert_eq!(m.weights, weights_before);
    assert_eq!(m.entropies, entropies_before);
}

#[test]
fn stack_nodes_carry_their_fields() {
    let n = Node::new(3, 7, 2);
    assert_eq!(n.current_cell_id, 3);
    assert_eq!(n.current_tile_id, 7);
    assert_eq!(n.current_distance, 2);
}
