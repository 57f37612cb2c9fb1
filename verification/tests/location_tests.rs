use puddle_core::droplet::{default_shape_factory, Droplet};
use puddle_core::grid::Grid;
use puddle_core::location::{
    contains_location, copy_locations, distinct_locations, intersects, Location,
};

fn loc(y: i32, x: i32) -> Location {
    Location { y, x }
}

fn sorted(mut v: Vec<Location>) -> Vec<Location> {
    v.sort();
    v
}

#[test]
fn distance_is_manhattan() {
    assert_eq!(loc(0, 0).distance_to(&loc(3, 4)), 7);
    assert_eq!(loc(-2, 5).distance_to(&loc(1, -1)), 9);
}

#[test]
fn distance_is_symmetric() {
    let a = loc(2, -7);
    let b = loc(-3, 4);
    assert_eq!(a.distance_to(&b), b.distance_to(&a));
    assert_eq!(a.distance_to(&b), 16);
}

#[test]
fn distance_to_self_is_zero() {
    let a = loc(12, -9);
    assert_eq!(a.distance_to(&a), 0);
    assert_ne!(a.distance_to(&loc(12, -8)), 0);
}

#[test]
fn distance_obeys_triangle_inequality() {
    let a = loc(0, 0);
    let b = loc(5, -2);
    let c = loc(-1, 3);
    assert!(a.distance_to(&c) <= a.distance_to(&b) + b.distance_to(&c));
}

#[test]
fn distance_spans_the_whole_range() {
    assert_eq!(loc(i32::MIN, 0).distance_to(&loc(i32::MAX, 0)), u32::MAX);
}

#[test]
fn norm_adds_absolute_values() {
    assert_eq!(loc(-3, 4).norm(), 7);
    assert_eq!(loc(0, 0).norm(), 0);
    assert_eq!(loc(i32::MIN, 0).norm(), 2147483648);
}

#[test]
fn from_index_decodes_row_major() {
    assert_eq!(Location::from_index(0, 5), loc(0, 0));
    assert_eq!(Location::from_index(7, 5), loc(1, 2));
    assert_eq!(Location::from_index(14, 5), loc(2, 4));
    assert_eq!(Location::from_index(9, 1), loc(9, 0));
}

#[test]
fn from_index_round_trips() {
    let width: u32 = 7;
    for y in 0..6u32 {
        for x in 0..width {
            assert_eq!(Location::from_index(y * width + x, width), loc(y as i32, x as i32));
        }
    }
}

#[test]
fn from_index_cuts_large_rows_to_32_bits() {
    assert_eq!(Location::from_index(u32::MAX, 1), loc(-1, 0));
}

#[test]
fn add_and_sub_work_by_component() {
    assert_eq!(loc(1, 2).add(&loc(10, -20)), loc(11, -18));
    assert_eq!(loc(1, 2).sub(&loc(10, -20)), loc(-9, 22));
}

#[test]
fn default_shape_is_the_anchor_cell() {
    assert_eq!(default_shape_factory(), vec![loc(0, 0)]);
}

#[test]
fn from_location_builds_single_cell_droplet() {
    let d = Droplet::from_location(loc(3, 4));
    assert_eq!(d.location, loc(3, 4));
    assert_eq!(d.shape, vec![loc(0, 0)]);
    assert_eq!(d.destination, None);
    assert_eq!(d.collision_group, 0);
}

#[test]
fn from_location_and_shape_keeps_a_shape_without_repeats() {
    let shape = vec![loc(0, 1), loc(0, 0), loc(1, 0)];
    let d = Droplet::from_location_and_shape(loc(2, 2), shape.clone());
    assert_eq!(d.location, loc(2, 2));
    assert_eq!(d.shape, shape);
    assert_eq!(d.destination, None);
    assert_eq!(d.collision_group, 0);
}

#[test]
fn from_location_and_shape_counts_a_repeated_offset_once() {
    let d = Droplet::from_location_and_shape(
        loc(0, 0),
        vec![loc(0, 0), loc(0, 1), loc(0, 0), loc(0, 1), loc(1, 1)],
    );
    assert_eq!(d.shape, vec![loc(0, 0), loc(0, 1), loc(1, 1)]);
}

#[test]
fn info_shows_location_volume_and_shape() {
    let mut d = Droplet::from_location_and_shape(loc(1, 1), vec![loc(0, 0), loc(0, 1)]);
    d.destination = Some(loc(4, 4));
    d.collision_group = 9;
    let info = d.info();
    assert_eq!(info.location, loc(1, 1));
    assert_eq!(info.volume, 1);
    assert_eq!(info.shape, vec![loc(0, 0), loc(0, 1)]);
}

#[test]
fn copy_and_distinct_locations() {
    let v = vec![loc(1, 1), loc(2, 2), loc(1, 1)];
    assert_eq!(copy_locations(&v), v);
    assert_eq!(distinct_locations(&v), vec![loc(1, 1), loc(2, 2)]);
    assert_eq!(distinct_locations(&Vec::new()), Vec::<Location>::new());
}

#[test]
fn contains_and_intersects() {
    let a = vec![loc(0, 0), loc(0, 1)];
    let b = vec![loc(1, 1), loc(0, 1)];
    let c = vec![loc(5, 5)];
    assert!(contains_location(&a, loc(0, 1)));
    assert!(!contains_location(&a, loc(1, 0)));
    assert!(intersects(&a, &b));
    assert!(!intersects(&a, &c));
    assert!(!intersects(&a, &Vec::new()));
}

#[test]
fn rectangle_has_exactly_its_cells() {
    let grid = Grid::rectangle(2, 3);
    assert_eq!(grid.cells, vec![vec![true; 3]; 2]);
    assert!(grid.contains(&loc(0, 0)));
    assert!(grid.contains(&loc(1, 2)));
    assert!(!grid.contains(&loc(2, 0)));
    assert!(!grid.contains(&loc(0, 3)));
    assert!(!grid.contains(&loc(-1, 0)));
    assert!(!grid.contains(&loc(0, -1)));
}

#[test]
fn missing_cells_are_not_contained() {
    let grid = Grid { cells: vec![vec![true, false, true], vec![true]] };
    assert!(grid.contains(&loc(0, 0)));
    assert!(!grid.contains(&loc(0, 1)));
    assert!(grid.contains(&loc(0, 2)));
    assert!(grid.contains(&loc(1, 0)));
    assert!(!grid.contains(&loc(1, 1)));
}

#[test]
fn neighbors9_in_the_middle() {
    let grid = Grid::rectangle(3, 3);
    let cells = sorted(grid.neighbors9(&loc(1, 1)));
    let mut all = Vec::new();
    for y in 0..3 {
        for x in 0..3 {
            all.push(loc(y, x));
        }
    }
    assert_eq!(cells, all);
}

#[test]
fn neighbors9_at_a_corner_and_off_the_grid() {
    let grid = Grid::rectangle(3, 3);
    assert_eq!(
        sorted(grid.neighbors9(&loc(0, 0))),
        vec![loc(0, 0), loc(0, 1), loc(1, 0), loc(1, 1)]
    );
    assert_eq!(sorted(grid.neighbors9(&loc(-1, -1))), vec![loc(0, 0)]);
    assert_eq!(grid.neighbors9(&loc(5, 5)), Vec::<Location>::new());
    assert_eq!(grid.neighbors9(&loc(i32::MAX, i32::MIN)), Vec::<Location>::new());
}

#[test]
fn neighbors9_skips_missing_cells() {
    let grid = Grid { cells: vec![vec![true, false, true]] };
    assert_eq!(sorted(grid.neighbors9(&loc(0, 1))), vec![loc(0, 0), loc(0, 2)]);
}

#[test]
fn neighbors_shape_dilates_the_footprint() {
    let grid = Grid::rectangle(1, 5);
    let single = grid.neighbors_shape(&loc(0, 0), &vec![loc(0, 0)]);
    assert_eq!(sorted(single), vec![loc(0, 0), loc(0, 1)]);
    let wide = sorted(grid.neighbors_shape(&loc(0, 1), &vec![loc(0, 0), loc(0, 1)]));
    assert_eq!(wide, vec![loc(0, 0), loc(0, 1), loc(0, 2), loc(0, 3)]);
    assert_eq!(grid.neighbors_shape(&loc(0, 0), &Vec::new()), Vec::<Location>::new());
}
