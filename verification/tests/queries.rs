use shadowcast::{GridCoords, Pivot, TileType, Visibility, VisibilityError, VisibleTiles, World};

fn world_of(columns: &[&str]) -> World {
    let mut tiles = Vec::new();
    for column in columns {
        for c in column.chars() {
            tiles.push(TileType::from(&c));
        }
    }
    World { tiles, width: columns.len() as i32, height: columns[0].len() as i32 }
}

fn at(x: i32, y: i32) -> GridCoords<i32> {
    GridCoords { x, y }
}

fn sorted(set: &VisibleTiles) -> Vec<(i32, i32)> {
    let mut tiles: Vec<(i32, i32)> = set.to_vec().iter().map(|t| (t.x, t.y)).collect();
    tiles.sort();
    tiles
}

fn square(from: i32, to: i32) -> Vec<(i32, i32)> {
    let mut tiles = Vec::new();
    for x in from..=to {
        for y in from..=to {
            tiles.push((x, y));
        }
    }
    tiles
}

#[test]
#[should_panic]
fn panics_world_is_too_small() {
    let world = World { tiles: vec![], width: 0, height: 0 };

    let visibility = Visibility::new(&world, false, 3);

    let observer = GridCoords { x: 0, y: 0 };

    let tile = GridCoords { x: 0, y: 0 };

    let is_visible = visibility.is_tile_visible(&observer, &tile).unwrap();
    assert!(is_visible);
}

#[test]
fn returns_true_for_one_sized_world() {
    let tiles: Vec<char> = vec!['_'];
    let world = World {
        tiles: tiles.iter().map(|value| TileType::from(value)).collect(),
        width: 1,
        height: 1,
    };

    let visibility = Visibility::new(&world, false, 3);

    let observer = GridCoords { x: 0, y: 0 };

    let tile = GridCoords { x: 0, y: 0 };

    let is_visible = visibility.is_tile_visible(&observer, &tile).unwrap();
    assert!(is_visible);
}

// @/x _
//  _  _
#[test]
fn returns_true_for_itself() {
    let tiles = vec![
        '_', '_',
        '_', '_'
    ];

    let world = World {
        tiles: tiles.iter().map(|value| TileType::from(value)).collect(),
        width: 2,
        height: 2,
    };

    let visibility = Visibility::new(&world, false, 3);

    let observer = GridCoords { x: 0, y: 0 };

    let tile = GridCoords { x: 0, y: 0 };

    let is_visible = visibility.is_tile_visible(&observer, &tile).unwrap();
    assert!(is_visible);
}

// @  _  _
// _  _  _
// _  _  _
#[test]
fn returns_all_visible_tiles() {
    let tiles = vec![
        '_', '_', '_',
        '_', '_', '_',
        '_', '_', '_'
    ];

    let world = World {
        tiles: tiles.iter().map(|value| TileType::from(value)).collect(),
        width: 3,
        height: 3,
    };

    let visibility = Visibility::new(&world, false, 4);

    let visible_tiles = visibility.compute_visible_tiles(&GridCoords { x: 0, y: 0 }).unwrap();
    let mut visible_tiles: Vec<GridCoords<i32>> = visible_tiles.to_vec();
    visible_tiles.sort_by_key(|tile| (tile.x, tile.y));
    assert_eq!(
        visible_tiles,
        [
            GridCoords { x: 0, y: 0 },
            GridCoords { x: 0, y: 1 },
            GridCoords { x: 0, y: 2 },
            GridCoords { x: 1, y: 0 },
            GridCoords { x: 1, y: 1 },
            GridCoords { x: 1, y: 2 },
            GridCoords { x: 2, y: 0 },
            GridCoords { x: 2, y: 1 },
            GridCoords { x: 2, y: 2 },
        ]
    )
}

// _  _  _
// _  _  _
// @  _  _
#[test]
fn get_slopes() {
    let tiles = vec![
        '_', '_', '_', '_',
        '_', '_', '_', '_',
        '_', '_', '_', '_',
        '_', '_', '_', '_'
    ];

    let tiles = tiles.iter().map(|value| TileType::from(value)).collect();
    let world = World { tiles, width: 3, height: 3 };

    let visibility = Visibility::new(&world, false, 4);
    let observer = GridCoords { x: 0, y: 0 };

    let coords = vec![
        [
            GridCoords { x: 0, y: 3 },
            GridCoords { x: 1, y: 3 },
            GridCoords { x: 2, y: 3 },
            GridCoords { x: 3, y: 3 },
        ],
        [
            GridCoords { x: 0, y: 2 },
            GridCoords { x: 1, y: 2 },
            GridCoords { x: 2, y: 2 },
            GridCoords { x: 3, y: 2 },
        ],
        [
            GridCoords { x: 0, y: 1 },
            GridCoords { x: 1, y: 1 },
            GridCoords { x: 2, y: 1 },
            GridCoords { x: 3, y: 1 },
        ],
        [
            GridCoords { x: 0, y: 0 },
            GridCoords { x: 1, y: 0 },
            GridCoords { x: 2, y: 0 },
            GridCoords { x: 3, y: 0 },
        ],
    ];

    let slopes = vec![
        vec![f32::INFINITY, 3.00, 1.50, 1.00],
        vec![f32::INFINITY, 2.00, 1.00, 0.67],
        vec![f32::INFINITY, 1.00, 0.50, 0.33],
        vec![0.00, 0.00, 0.00, 0.00],
    ];

    for i in 0..4 {
        for j in 0..4 {
            let coord = &coords[i][j];
            let exact = visibility.slope(&observer, &coord, Pivot::Center);
            let slope = exact.rise as f32 / exact.run as f32;
            if !slope.is_nan() && !slope.is_infinite() {
                let abs_diff = (slope - slopes[i][j]).abs();
                assert!(abs_diff < 0.01);
            }
        }
    }
}

#[test]
fn slope_is_taken_from_centre_to_pivot_in_half_tiles() {
    let world = world_of(&["_"]);
    let visibility = Visibility::new(&world, false, 1);
    let s = visibility.slope(&at(1, 2), &at(4, 3), Pivot::BottomRight);
    assert_eq!((s.rise, s.run), (1, 7));
    let s = visibility.slope(&at(1, 2), &at(4, 3), Pivot::TopLeft);
    assert_eq!((s.rise, s.run), (3, 5));
    let s = visibility.slope(&at(0, 0), &at(0, 0), Pivot::Center);
    assert_eq!((s.rise, s.run), (0, 0));
    let s = visibility.slope(&at(3, 3), &at(1, 5), Pivot::BottomLeft);
    assert_eq!((s.rise, s.run), (3, -5));
}

#[test]
fn empty_grid_is_invalid() {
    let world = World { tiles: vec![], width: 0, height: 0 };
    let visibility = Visibility::new(&world, false, 3);
    assert_eq!(
        visibility.is_tile_visible(&at(0, 0), &at(0, 0)),
        Err(VisibilityError::InvalidGrid)
    );
    assert_eq!(
        visibility.compute_visible_tiles(&at(0, 0)).err(),
        Some(VisibilityError::InvalidGrid)
    );
    assert_eq!(world.validate(), Err(VisibilityError::InvalidGrid));
}

#[test]
fn cell_count_must_match_the_sides() {
    let world = World { tiles: vec![TileType::Transparent; 5], width: 2, height: 3 };
    assert_eq!(world.validate(), Err(VisibilityError::InvalidGrid));
    let visibility = Visibility::new(&world, true, 3);
    assert_eq!(
        visibility.compute_visible_tiles(&at(0, 0)).err(),
        Some(VisibilityError::InvalidGrid)
    );
    let world = World { tiles: vec![TileType::Transparent; 6], width: 2, height: 3 };
    assert_eq!(world.validate(), Ok(()));
    let world = World { tiles: vec![TileType::Transparent; 6], width: -2, height: -3 };
    assert_eq!(world.validate(), Err(VisibilityError::InvalidGrid));
}

#[test]
fn zero_distance_is_invalid() {
    let world = world_of(&["__", "__"]);
    let visibility = Visibility::new(&world, false, 0);
    assert_eq!(
        visibility.compute_visible_tiles(&at(0, 0)).err(),
        Some(VisibilityError::InvalidDistance)
    );
    assert_eq!(
        visibility.is_tile_visible(&at(0, 0), &at(0, 0)),
        Err(VisibilityError::InvalidDistance)
    );
    let visibility = Visibility::new(&world, true, -4);
    assert_eq!(
        visibility.is_tile_visible(&at(0, 0), &at(1, 1)),
        Err(VisibilityError::InvalidDistance)
    );
}

#[test]
fn observer_with_negative_x_is_out_of_bounds() {
    let world = world_of(&["__", "__"]);
    let visibility = Visibility::new(&world, false, 3);
    assert_eq!(
        visibility.compute_visible_tiles(&at(-1, 0)).err(),
        Some(VisibilityError::OutOfBounds)
    );
    assert_eq!(
        visibility.is_tile_visible(&at(-1, 0), &at(0, 0)),
        Err(VisibilityError::OutOfBounds)
    );
    assert_eq!(
        visibility.is_tile_visible(&at(0, 0), &at(0, 2)),
        Err(VisibilityError::OutOfBounds)
    );
    assert_eq!(
        visibility.compute_visible_tiles(&at(2, 0)).err(),
        Some(VisibilityError::OutOfBounds)
    );
}

#[test]
fn errors_are_checked_grid_first_then_distance_then_coordinates() {
    let world = World { tiles: vec![], width: 0, height: 0 };
    let visibility = Visibility::new(&world, false, 0);
    assert_eq!(
        visibility.is_tile_visible(&at(-1, 0), &at(0, 0)),
        Err(VisibilityError::InvalidGrid)
    );
    let world = world_of(&["__", "__"]);
    let visibility = Visibility::new(&world, false, 0);
    assert_eq!(
        visibility.is_tile_visible(&at(-1, 0), &at(0, 0)),
        Err(VisibilityError::InvalidDistance)
    );
}

#[test]
fn observer_sees_its_own_tile() {
    let world = world_of(&["ooo", "ooo", "ooo"]);
    for omniscient in [false, true] {
        let visibility = Visibility::new(&world, omniscient, 1);
        for x in 0..3 {
            for y in 0..3 {
                let set = visibility.compute_visible_tiles(&at(x, y)).unwrap();
                assert!(set.contains(&at(x, y)));
                assert_eq!(visibility.is_tile_visible(&at(x, y), &at(x, y)), Ok(true));
            }
        }
    }
}

#[test]
fn single_cell_world_shows_its_cell() {
    for c in ["_", "o"] {
        let world = world_of(&[c]);
        for omniscient in [false, true] {
            let visibility = Visibility::new(&world, omniscient, 7);
            let set = visibility.compute_visible_tiles(&at(0, 0)).unwrap();
            assert_eq!(sorted(&set), [(0, 0)]);
            assert_eq!(set.len(), 1);
        }
    }
}

#[test]
fn centre_pillar_hides_the_far_corner() {
    let world = world_of(&["___", "_o_", "___"]);
    for distance in 3..6 {
        let visibility = Visibility::new(&world, false, distance);
        let set = visibility.compute_visible_tiles(&at(0, 0)).unwrap();
        assert!(!set.contains(&at(2, 2)));
        assert!(set.contains(&at(2, 0)));
        assert!(set.contains(&at(0, 2)));
        assert_eq!(
            sorted(&set),
            [(0, 0), (0, 1), (0, 2), (1, 0), (1, 1), (1, 2), (2, 0), (2, 1)]
        );
        assert_eq!(visibility.is_tile_visible(&at(0, 0), &at(2, 2)), Ok(false));
        assert_eq!(visibility.is_tile_visible(&at(0, 0), &at(2, 0)), Ok(true));
        assert_eq!(visibility.is_tile_visible(&at(0, 0), &at(0, 2)), Ok(true));
        assert_eq!(visibility.is_tile_visible(&at(0, 0), &at(1, 1)), Ok(true));
    }
}

#[test]
fn omniscience_sees_the_whole_square_within_reach() {
    let open = world_of(&["_____", "_____", "_____", "_____", "_____"]);
    let walled = world_of(&["ooooo", "ooooo", "ooooo", "ooooo", "ooooo"]);
    for world in [&open, &walled] {
        let visibility = Visibility::new(world, true, 1);
        let set = visibility.compute_visible_tiles(&at(2, 2)).unwrap();
        assert_eq!(sorted(&set), square(1, 3));
        let set = visibility.compute_visible_tiles(&at(0, 0)).unwrap();
        assert_eq!(sorted(&set), square(0, 1));
        let set = visibility.compute_visible_tiles(&at(4, 3)).unwrap();
        assert_eq!(sorted(&set), [(3, 2), (3, 3), (3, 4), (4, 2), (4, 3), (4, 4)]);
        let visibility = Visibility::new(world, true, 2);
        let set = visibility.compute_visible_tiles(&at(2, 2)).unwrap();
        assert_eq!(sorted(&set), square(0, 4));
        let visibility = Visibility::new(world, true, i32::MAX);
        let set = visibility.compute_visible_tiles(&at(4, 0)).unwrap();
        assert_eq!(sorted(&set), square(0, 4));
        assert_eq!(set.len(), 25);
    }
}

#[test]
fn omniscient_membership_is_the_distance_test() {
    let world = world_of(&["ooooo", "ooooo", "ooooo", "ooooo", "ooooo"]);
    let visibility = Visibility::new(&world, true, 2);
    assert_eq!(visibility.is_tile_visible(&at(0, 0), &at(2, 2)), Ok(true));
    assert_eq!(visibility.is_tile_visible(&at(0, 0), &at(3, 0)), Ok(false));
    assert_eq!(visibility.is_tile_visible(&at(0, 0), &at(0, 3)), Ok(false));
    assert_eq!(visibility.is_tile_visible(&at(4, 4), &at(2, 3)), Ok(true));
}

#[test]
fn membership_agrees_with_the_visible_set() {
    let world = world_of(&["_____", "_o___", "___o_", "_____", "o____"]);
    for omniscient in [false, true] {
        for distance in 1..6 {
            let visibility = Visibility::new(&world, omniscient, distance);
            for ox in 0..5 {
                for oy in 0..5 {
                    let set = visibility.compute_visible_tiles(&at(ox, oy)).unwrap();
                    for x in 0..5 {
                        for y in 0..5 {
                            assert_eq!(
                                visibility.is_tile_visible(&at(ox, oy), &at(x, y)),
                                Ok(set.contains(&at(x, y)))
                            );
                        }
                    }
                }
            }
        }
    }
}

#[test]
fn open_grid_is_seen_up_to_the_viewing_distance() {
    let world = world_of(&["_____", "_____", "_____", "_____", "_____"]);
    let visibility = Visibility::new(&world, false, 1);
    let set = visibility.compute_visible_tiles(&at(2, 2)).unwrap();
    assert_eq!(sorted(&set), square(1, 3));
    let visibility = Visibility::new(&world, false, 2);
    let set = visibility.compute_visible_tiles(&at(2, 2)).unwrap();
    assert_eq!(sorted(&set), square(0, 4));
    let visibility = Visibility::new(&world, false, 3);
    let set = visibility.compute_visible_tiles(&at(0, 0)).unwrap();
    assert_eq!(sorted(&set), square(0, 3));
    let visibility = Visibility::new(&world, false, 1000);
    let set = visibility.compute_visible_tiles(&at(4, 1)).unwrap();
    assert_eq!(sorted(&set), square(0, 4));
}

#[test]
fn oblong_grid_keeps_columns_apart() {
    let world = world_of(&["__", "_o", "__", "__"]);
    assert_eq!(world.width, 4);
    assert_eq!(world.height, 2);
    let visibility = Visibility::new(&world, false, 5);
    assert_eq!(visibility.get_tile_type(&at(1, 1)), Ok(TileType::Opaque));
    assert_eq!(visibility.get_tile_type(&at(1, 0)), Ok(TileType::Transparent));
    assert_eq!(visibility.get_tile_type(&at(3, 1)), Ok(TileType::Transparent));
    assert_eq!(visibility.get_tile_type(&at(0, 2)), Err(VisibilityError::OutOfBounds));
    assert_eq!(visibility.get_tile_type(&at(4, 0)), Err(VisibilityError::OutOfBounds));
    assert_eq!(visibility.grid_coord_to_idx(&at(0, 0)), 0);
    assert_eq!(visibility.grid_coord_to_idx(&at(1, 1)), 3);
    assert_eq!(visibility.grid_coord_to_idx(&at(3, 1)), 7);
    assert!(visibility.is_in_bounds(&at(3, 1)));
    assert!(!visibility.is_in_bounds(&at(1, 3)));
    assert!(!visibility.is_in_bounds(&at(0, -1)));
    let set = visibility.compute_visible_tiles(&at(0, 1)).unwrap();
    assert!(set.contains(&at(1, 1)));
    assert!(!set.contains(&at(2, 1)));
    assert!(!set.contains(&at(3, 1)));
    assert!(set.contains(&at(0, 0)));
    assert!(set.contains(&at(1, 0)));
}

#[test]
fn straight_sight_ends_at_the_first_opaque_tile() {
    let world = world_of(&["______", "______", "__o___", "______", "______", "______"]);
    let visibility = Visibility::new(&world, false, 6);
    let set = visibility.compute_visible_tiles(&at(0, 2)).unwrap();
    assert!(set.contains(&at(1, 2)));
    assert!(set.contains(&at(2, 2)));
    assert!(!set.contains(&at(3, 2)));
    assert!(!set.contains(&at(5, 2)));
    let set = visibility.compute_visible_tiles(&at(2, 0)).unwrap();
    assert!(set.contains(&at(2, 1)));
    assert!(set.contains(&at(2, 2)));
    assert!(!set.contains(&at(2, 3)));
    assert!(!set.contains(&at(2, 5)));
    let set = visibility.compute_visible_tiles(&at(2, 2)).unwrap();
    assert!(set.contains(&at(5, 2)));
    assert!(set.contains(&at(0, 2)));
    assert!(set.contains(&at(2, 5)));
    assert!(set.contains(&at(2, 0)));
}

#[test]
fn straight_sight_is_mutual() {
    let world = world_of(&["_o___", "_____", "o__o_", "_____", "__o__"]);
    for distance in 1..6 {
        let visibility = Visibility::new(&world, false, distance);
        for ax in 0..5 {
            for ay in 0..5 {
                for bx in 0..5 {
                    for by in 0..5 {
                        if ax == bx || ay == by {
                            assert_eq!(
                                visibility.is_tile_visible(&at(ax, ay), &at(bx, by)),
                                visibility.is_tile_visible(&at(bx, by), &at(ax, ay))
                            );
                        }
                    }
                }
            }
        }
    }
}

#[test]
fn seeing_farther_keeps_what_was_seen_off_the_corners() {
    let world = world_of(&["_o____", "o_____", "___o__", "______", "_o__o_", "______"]);
    for ox in 0..6 {
        for oy in 0..6 {
            for near in 1..7 {
                let here = Visibility::new(&world, false, near);
                let there = Visibility::new(&world, false, near + 1);
                let seen = here.compute_visible_tiles(&at(ox, oy)).unwrap();
                let seen_farther = there.compute_visible_tiles(&at(ox, oy)).unwrap();
                for t in seen.to_vec() {
                    let corner = (t.x - ox).abs() == near && (t.y - oy).abs() == near;
                    if !corner {
                        assert!(seen_farther.contains(&t));
                    }
                }
            }
        }
    }
}

#[test]
fn corner_behind_two_walls_is_seen_only_at_the_rim() {
    let world = world_of(&["_o_", "o__", "___"]);
    let near = Visibility::new(&world, false, 2);
    let far = Visibility::new(&world, false, 3);
    assert_eq!(
        sorted(&near.compute_visible_tiles(&at(0, 0)).unwrap()),
        [(0, 0), (0, 1), (1, 0), (1, 1), (2, 2)]
    );
    assert_eq!(
        sorted(&far.compute_visible_tiles(&at(0, 0)).unwrap()),
        [(0, 0), (0, 1), (1, 0), (1, 1)]
    );
    assert_eq!(far.is_tile_visible(&at(2, 2), &at(0, 0)), Ok(true));
    assert_eq!(far.is_tile_visible(&at(0, 0), &at(2, 2)), Ok(false));
}

#[test]
fn visible_tiles_lie_within_reach() {
    let world = world_of(&["_o____", "o_____", "___o__", "______", "_o__o_", "______"]);
    for distance in 1..4 {
        let visibility = Visibility::new(&world, false, distance);
        let set = visibility.compute_visible_tiles(&at(3, 3)).unwrap();
        for t in set.to_vec() {
            assert!((t.x - 3).abs() <= distance && (t.y - 3).abs() <= distance);
            assert!(visibility.is_in_bounds(&t));
        }
    }
}

#[test]
fn tile_is_read_from_its_map_character() {
    assert_eq!(TileType::from(&'o'), TileType::Opaque);
    assert_eq!(TileType::from(&'_'), TileType::Transparent);
}
