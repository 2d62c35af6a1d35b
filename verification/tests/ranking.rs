use mcworldgen::blocks::BlockDescriptor;
use mcworldgen::bounds::Bounds;
use mcworldgen::points::Point;
use mcworldgen::ranking::{rank_order, rank_veins, select_within, sort_within, Ranked};
use mcworldgen::scan::ScanResult;
use mcworldgen::veins::Vein;
use std::cmp::Ordering;

fn named(name: &str, x: i64, y: i64, z: i64) -> BlockDescriptor {
    BlockDescriptor { name: name.to_string(), x, y, z, enity: None }
}

fn position(x: i64, y: i64, z: i64) -> Point {
    Point { x, y, z }
}

fn vein_around(center: Point, size: usize) -> Vein {
    let blocks = (0..size).map(|i| named("ore", center.x + i as i64, center.y, center.z)).collect();
    Vein { center, bounds: Bounds::from_point(&center), blocks }
}

fn ranked(distance: i64, size: usize, index: usize) -> Ranked {
    Ranked { distance, size, index }
}

#[test]
fn blocks_are_sorted_by_x_then_y_then_z() {
    let everywhere = Bounds { min: position(-100, -100, -100), max: position(100, 100, 100) };
    let sorted = sort_within(
        vec![
            named("a", 2, 0, 0),
            named("b", 1, 5, 0),
            named("c", 1, 0, 9),
            named("d", 1, 0, 3),
            named("e", -4, 7, 7),
        ],
        &everywhere,
    );
    assert_eq!(
        sorted,
        vec![
            named("e", -4, 7, 7),
            named("d", 1, 0, 3),
            named("c", 1, 0, 9),
            named("b", 1, 5, 0),
            named("a", 2, 0, 0),
        ]
    );
}

#[test]
fn blocks_at_one_position_keep_their_order() {
    let everywhere = Bounds { min: position(-100, -100, -100), max: position(100, 100, 100) };
    let sorted = sort_within(
        vec![named("z", 1, 1, 1), named("a", 0, 0, 0), named("m", 1, 1, 1), named("b", 1, 1, 1)],
        &everywhere,
    );
    assert_eq!(
        sorted,
        vec![named("a", 0, 0, 0), named("z", 1, 1, 1), named("m", 1, 1, 1), named("b", 1, 1, 1)]
    );
}

#[test]
fn blocks_outside_the_boundary_are_dropped() {
    let boundary = Bounds { min: position(0, 0, 0), max: position(10, 10, 10) };
    let summary = ScanResult {
        regions: 1,
        chunks: 2,
        sections: 3,
        blocks: 4,
        found: vec![
            named("a", 10, 10, 10),
            named("b", 11, 0, 0),
            named("c", 0, 0, 0),
            named("d", 5, -1, 5),
            named("e", 5, 5, 5),
        ],
    };
    let selected = select_within(summary, &boundary);
    assert_eq!(
        (selected.regions, selected.chunks, selected.sections, selected.blocks),
        (1, 2, 3, 4)
    );
    assert_eq!(
        selected.found,
        vec![named("c", 0, 0, 0), named("e", 5, 5, 5), named("a", 10, 10, 10)]
    );
    assert!(sort_within(Vec::new(), &boundary).is_empty());
}

#[test]
fn rank_order_is_by_distance_then_by_size_the_larger_first() {
    assert_eq!(rank_order(&ranked(1, 2, 0), &ranked(2, 9, 1)), Ordering::Less);
    assert_eq!(rank_order(&ranked(3, 9, 0), &ranked(2, 2, 1)), Ordering::Greater);
    assert_eq!(rank_order(&ranked(2, 9, 0), &ranked(2, 2, 1)), Ordering::Less);
    assert_eq!(rank_order(&ranked(2, 2, 0), &ranked(2, 9, 1)), Ordering::Greater);
    assert_eq!(rank_order(&ranked(2, 2, 0), &ranked(2, 2, 1)), Ordering::Equal);
}

#[test]
fn veins_are_ranked_nearest_first() {
    let home = position(0, 0, 0);
    let veins = vec![
        vein_around(position(30, 40, 0), 2),
        vein_around(position(3, 4, 0), 2),
        vein_around(position(0, 0, 12), 5),
        vein_around(position(1, 1, 1), 3),
    ];
    let ranking = rank_veins(&veins, &home).unwrap();
    assert_eq!(ranking, vec![ranked(1, 3, 3), ranked(5, 2, 1), ranked(12, 5, 2), ranked(50, 2, 0)]);
}

#[test]
fn at_one_distance_the_larger_vein_comes_first() {
    let home = position(10, 10, 10);
    let veins = vec![
        vein_around(position(13, 14, 10), 2),
        vein_around(position(10, 10, 15), 4),
        vein_around(position(10, 5, 10), 2),
        vein_around(position(5, 10, 10), 7),
        vein_around(position(10, 10, 10), 2),
    ];
    let ranking = rank_veins(&veins, &home).unwrap();
    assert_eq!(
        ranking,
        vec![ranked(0, 2, 4), ranked(5, 7, 3), ranked(5, 4, 1), ranked(5, 2, 0), ranked(5, 2, 2)]
    );
}

#[test]
fn a_vein_too_far_to_measure_stops_the_ranking() {
    let home = position(i64::MAX, 0, 0);
    let veins = vec![vein_around(position(0, 0, 0), 2), vein_around(position(i64::MIN, 0, 0), 2)];
    assert_eq!(rank_veins(&veins, &home), None);
    assert_eq!(rank_veins(&Vec::new(), &home), Some(Vec::new()));
}
