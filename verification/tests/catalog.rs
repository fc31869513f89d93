use voxel_wfc::direction::{Direction, Rotation};
use voxel_wfc::tile::{
    compat_weight, direction_label, Orientation, Tag, Template, TileSet, DIRT_BESIDE_DIRT,
    SKY_ABOVE_DIRT, SKY_BESIDE_DIRT,
};

#[test]
fn catalog_size_road_template() {
    let ts = TileSet::gen(Template::Road);
    // Four invariant base tiles plus four variants for each of the two
    // oriented base tiles.
    assert_eq!(ts.len(), 4 + 4 * 2);
    assert_eq!(ts.seed_id(), 0);
}

#[test]
fn expanded_names_and_orientations() {
    let ts = TileSet::gen(Template::Road);
    assert_eq!(ts.tiles[0].name().as_str(), "dirt");
    assert!(matches!(ts.tiles[0].tag(), Tag::Dirt));
    assert!(matches!(ts.tiles[0].orientation(), Orientation::Invariant));
    assert_eq!(ts.tiles[1].name().as_str(), "grass");
    assert_eq!(ts.tiles[2].name().as_str(), "road-inner");
    assert_eq!(ts.tiles[3].name().as_str(), "road-edge-west");
    assert!(matches!(
        ts.tiles[3].orientation(),
        Orientation::Edge(Direction::West)
    ));
    assert_eq!(ts.tiles[4].name().as_str(), "road-edge-south");
    assert!(matches!(
        ts.tiles[4].orientation(),
        Orientation::Edge(Direction::South)
    ));
    assert_eq!(ts.tiles[5].name().as_str(), "road-edge-east");
    assert_eq!(ts.tiles[6].name().as_str(), "road-edge-north");
    assert_eq!(ts.tiles[7].name().as_str(), "road-corner-northeast");
    assert_eq!(ts.tiles[8].name().as_str(), "road-corner-northwest");
    assert_eq!(ts.tiles[9].name().as_str(), "road-corner-southwest");
    assert_eq!(ts.tiles[10].name().as_str(), "road-corner-southeast");
    assert_eq!(ts.tiles[11].name().as_str(), "sky");
}

#[test]
fn rotation_closure_of_directions() {
    let quarter = Rotation::R90;
    let all = [
        Direction::East,
        Direction::West,
        Direction::North,
        Direction::South,
        Direction::Up,
        Direction::Down,
        Direction::NorthEast,
        Direction::NorthWest,
        Direction::SouthEast,
        Direction::SouthWest,
    ];
    for d in all {
        let once = d.rotated_z(&quarter);
        let twice = once.rotated_z(&quarter);
        let thrice = twice.rotated_z(&quarter);
        let full = thrice.rotated_z(&quarter);
        assert_eq!(full, d);
        assert_eq!(d.rotated_z(&Rotation::R0), d);
        assert_eq!(d.rotated_z(&Rotation::R180), twice);
        assert_eq!(d.rotated_z(&Rotation::R270), thrice);
    }
}

#[test]
fn rotation_is_noop_on_invariant_orientation() {
    for r in [Rotation::R0, Rotation::R90, Rotation::R180, Rotation::R270] {
        assert!(matches!(
            Orientation::Invariant.rotated_z(&r),
            Orientation::Invariant
        ));
    }
}

#[test]
fn confirmed_compatibility_rules() {
    assert_eq!(
        compat_weight(Tag::Dirt, Direction::East, Tag::Dirt),
        Some(DIRT_BESIDE_DIRT)
    );
    assert_eq!(
        compat_weight(Tag::Dirt, Direction::South, Tag::Dirt),
        Some(DIRT_BESIDE_DIRT)
    );
    assert_eq!(compat_weight(Tag::Dirt, Direction::Up, Tag::Dirt), None);
    assert_eq!(compat_weight(Tag::Dirt, Direction::Down, Tag::Dirt), None);
    assert_eq!(
        compat_weight(Tag::Dirt, Direction::Up, Tag::Sky),
        Some(SKY_ABOVE_DIRT)
    );
    assert_eq!(
        compat_weight(Tag::Dirt, Direction::West, Tag::Sky),
        Some(SKY_BESIDE_DIRT)
    );
    assert_eq!(compat_weight(Tag::Dirt, Direction::Down, Tag::Sky), None);
    // Tag pairs with no declared rule default to a ban.
    assert_eq!(compat_weight(Tag::Sky, Direction::East, Tag::Sky), None);
    assert_eq!(compat_weight(Tag::Grass, Direction::Up, Tag::Sky), None);
    assert_eq!(compat_weight(Tag::Road, Direction::East, Tag::Road), None);
}

#[test]
fn update_rows_follow_the_rules() {
    let ts = TileSet::gen(Template::Road);
    let row_up = ts.update(0, Direction::Up);
    assert_eq!(row_up.len(), 12);
    assert_eq!(row_up[11], Some(SKY_ABOVE_DIRT));
    assert_eq!(row_up[0], None);
    let row_east = ts.update(0, Direction::East);
    assert_eq!(row_east[0], Some(DIRT_BESIDE_DIRT));
    assert_eq!(row_east[11], Some(SKY_BESIDE_DIRT));
    assert_eq!(row_east[1], None);
}

#[test]
fn direction_predicates() {
    assert!(Direction::East.is_perpendicular(Direction::North));
    assert!(Direction::East.is_perpendicular(Direction::South));
    assert!(!Direction::East.is_perpendicular(Direction::West));
    assert!(!Direction::Up.is_perpendicular(Direction::North));
    assert!(Direction::North.is_horizontal());
    assert!(!Direction::Up.is_horizontal());
    assert!(Direction::Down.is_vertical());
    assert!(!Direction::NorthEast.is_horizontal());
    assert!(!Direction::NorthEast.is_vertical());
}

#[test]
fn direction_labels_are_lowercase_names() {
    assert_eq!(direction_label(&Direction::NorthWest), "northwest");
    assert_eq!(direction_label(&Direction::Up), "up");
    assert_eq!(direction_label(&Direction::East), "east");
}
