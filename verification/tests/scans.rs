use shadowcast::{GridCoords, Octant, Slope, TileType, Visibility, VisibleTiles, World};

fn world_of(columns: &[&str]) -> World {
    let mut tiles = Vec::new();
    for column in columns {
        for c in column.chars() {
            tiles.push(TileType::from(&c));
        }
    }
    World { tiles, width: columns.len() as i32, height: columns[0].len() as i32 }
}

fn at(x: i32, y: i32) -> GridCoords<i32> {
    GridCoords { x, y }
}

fn sorted(set: &VisibleTiles) -> Vec<(i32, i32)> {
    let mut tiles: Vec<(i32, i32)> = set.to_vec().iter().map(|t| (t.x, t.y)).collect();
    tiles.sort();
    tiles
}

const AXIS: Slope = Slope { rise: 0, run: 1 };

const DIAGONAL: Slope = Slope { rise: 1, run: 1 };

#[test]
fn octant_scan_covers_its_wedge_of_an_open_grid() {
    let world = world_of(&["____", "____", "____", "____"]);
    let visibility = Visibility::new(&world, false, 3);
    let seen = visibility.scan_octant(&at(0, 0), Octant::from_index(0), AXIS, DIAGONAL);
    assert_eq!(
        sorted(&seen),
        [(1, 0), (1, 1), (2, 0), (2, 1), (2, 2), (3, 0), (3, 1), (3, 2), (3, 3)]
    );
    let seen = visibility.scan_octant(&at(0, 0), Octant::from_index(4), AXIS, DIAGONAL);
    assert_eq!(
        sorted(&seen),
        [(0, 1), (0, 2), (0, 3), (1, 1), (1, 2), (1, 3), (2, 2), (2, 3), (3, 3)]
    );
    let seen = visibility.scan_octant(&at(0, 0), Octant::from_index(2), AXIS, DIAGONAL);
    assert_eq!(sorted(&seen), []);
}

#[test]
fn octant_scan_stops_at_the_viewing_distance() {
    let world = world_of(&["____", "____", "____", "____"]);
    let visibility = Visibility::new(&world, false, 1);
    let seen = visibility.scan_octant(&at(0, 0), Octant::from_index(0), AXIS, DIAGONAL);
    assert_eq!(sorted(&seen), [(1, 0), (1, 1)]);
}

#[test]
fn blocking_tile_narrows_the_rows_behind_it() {
    let world = world_of(&["_____", "_____", "__o__", "_____", "_____"]);
    let visibility = Visibility::new(&world, false, 4);
    let seen = visibility.scan_octant(&at(0, 0), Octant::from_index(0), AXIS, DIAGONAL);
    assert_eq!(
        sorted(&seen),
        [(1, 0), (1, 1), (2, 0), (2, 1), (2, 2), (3, 0), (3, 1), (3, 2), (4, 0), (4, 1), (4, 2)]
    );
}

#[test]
fn clear_tile_past_a_blocking_one_raises_the_lower_slope() {
    let world = world_of(&["______", "______", "_o____", "______", "______", "______"]);
    let visibility = Visibility::new(&world, false, 5);
    let seen = visibility.scan_octant(&at(0, 0), Octant::from_index(0), AXIS, DIAGONAL);
    assert_eq!(
        sorted(&seen),
        [(1, 0), (1, 1), (2, 0), (2, 1), (2, 2), (3, 0), (3, 1), (4, 0), (4, 1), (5, 0), (5, 1)]
    );
}

#[test]
fn zero_width_interval_follows_one_column_per_row() {
    let world = world_of(&["____", "____", "____", "____"]);
    let visibility = Visibility::new(&world, false, 3);
    let seen = visibility.scan_octant(&at(0, 0), Octant::from_index(0), DIAGONAL, DIAGONAL);
    assert_eq!(sorted(&seen), [(1, 1), (2, 2), (3, 3)]);
    let half = Slope { rise: 1, run: 2 };
    let seen = visibility.scan_octant(&at(0, 0), Octant::from_index(0), half, half);
    assert_eq!(sorted(&seen), [(1, 1), (2, 1), (3, 2)]);
    let world = world_of(&["____", "____", "__o_", "____"]);
    let visibility = Visibility::new(&world, false, 3);
    let seen = visibility.scan_octant(&at(0, 0), Octant::from_index(0), DIAGONAL, DIAGONAL);
    assert_eq!(sorted(&seen), [(1, 1), (2, 2)]);
}

#[test]
fn inverted_interval_sees_nothing() {
    let world = world_of(&["____", "____", "____", "____"]);
    let visibility = Visibility::new(&world, false, 3);
    let seen = visibility.scan_octant(&at(0, 0), Octant::from_index(0), DIAGONAL, AXIS);
    assert_eq!(sorted(&seen), []);
}

#[test]
fn scan_from_a_deeper_row_adds_to_what_was_seen() {
    let world = world_of(&["____", "____", "____", "____"]);
    let visibility = Visibility::new(&world, false, 3);
    let mut seen = VisibleTiles::new(4, 4);
    seen.insert(at(0, 3));
    visibility.compute_visible_tiles_in_octant(
        &at(0, 0),
        Octant::from_index(0),
        3,
        AXIS,
        DIAGONAL,
        &mut seen,
    );
    assert_eq!(sorted(&seen), [(0, 3), (3, 0), (3, 1), (3, 2), (3, 3)]);
    visibility.compute_visible_tiles_in_octant(
        &at(0, 0),
        Octant::from_index(0),
        4,
        AXIS,
        DIAGONAL,
        &mut seen,
    );
    assert_eq!(seen.len(), 5);
}

#[test]
fn rows_beyond_the_grid_end_the_scan() {
    let world = world_of(&["__", "__"]);
    let visibility = Visibility::new(&world, false, i32::MAX);
    let seen = visibility.compute_visible_tiles(&at(1, 1)).unwrap();
    assert_eq!(sorted(&seen), [(0, 0), (0, 1), (1, 0), (1, 1)]);
    let seen = visibility.scan_octant(&at(1, 1), Octant::from_index(0), AXIS, DIAGONAL);
    assert_eq!(sorted(&seen), []);
}

#[test]
fn neighbouring_octants_agree_on_their_shared_axis() {
    let world = world_of(&["_____", "_____", "_____", "__o__", "_____"]);
    let visibility = Visibility::new(&world, false, 4);
    let observer = at(0, 2);
    let above = visibility.scan_octant(&observer, Octant::from_index(0), AXIS, DIAGONAL);
    let below = visibility.scan_octant(&observer, Octant::from_index(1), AXIS, DIAGONAL);
    for x in 1..5 {
        assert_eq!(above.contains(&at(x, 2)), below.contains(&at(x, 2)));
        assert_eq!(above.contains(&at(x, 2)), x <= 3);
    }
}
