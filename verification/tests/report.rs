use mcworldgen::blocks::{BlockDescriptor, BlockEntity};
use mcworldgen::bounds::Bounds;
use mcworldgen::points::Point;
use mcworldgen::ranking::Ranked;
use mcworldgen::report::{
    details_lines, distinct_names, looking_line, render_report, scanning_line, spawner_lines,
    summary_lines, vein_line, vein_lines,
};
use mcworldgen::scan::ScanResult;
use mcworldgen::text::{distinct_texts, join};
use mcworldgen::veins::Vein;

fn match_of(name: &str) -> BlockDescriptor {
    BlockDescriptor { name: name.to_string(), x: 0, y: 0, z: 0, enity: None }
}

fn strings(texts: &[&str]) -> Vec<String> {
    texts.iter().map(|t| t.to_string()).collect()
}

fn entity_with(id: &str, values: [Option<isize>; 6]) -> BlockEntity {
    BlockEntity {
        id: id.to_string(),
        x: 0,
        y: 0,
        z: 0,
        min_spawn_delay: values[0],
        max_spawn_delay: values[1],
        spawn_count: values[2],
        spawn_range: values[3],
        max_entities: values[4],
        activation_range: values[5],
        spawn_data: None,
    }
}

fn box_of(min: (i64, i64, i64), max: (i64, i64, i64)) -> Bounds {
    Bounds {
        min: Point { x: min.0, y: min.1, z: min.2 },
        max: Point { x: max.0, y: max.1, z: max.2 },
    }
}

#[test]
fn numbers_are_written_in_decimal() {
    assert_eq!(vein_line(0, 0, 0, &box_of((0, 0, 0), (0, 0, 0))), "Vein 0 (0 blocks, 0m away): (0, 0, 0) -> (0, 0, 0)");
    assert_eq!(
        vein_line(1203, 4096, i64::MAX, &box_of((i64::MIN, -7, 7), (i64::MAX, 10, 100))),
        "Vein 1203 (4096 blocks, 9223372036854775807m away): (-9223372036854775808, -7, 7) -> (9223372036854775807, 10, 100)"
    );
    let spawner = entity_with("minecraft:mob_spawner", [Some(-20), Some(800), None, None, Some(0), None]);
    assert_eq!(spawner_lines(&spawner), strings(&["    spawn delay: -20-800 ticks", "    max entities: 0"]));
}

#[test]
fn texts_are_joined_with_a_separator_between_them() {
    assert_eq!(join(&strings(&[]), ", "), "");
    assert_eq!(join(&strings(&["a"]), ", "), "a");
    assert_eq!(join(&strings(&["a", "b", "c"]), ", "), "a, b, c");
    assert_eq!(join(&strings(&["", ""]), "-"), "-");
    assert_eq!(join(&strings(&["a", "b"]), ""), "ab");
}

#[test]
fn distinct_texts_keep_the_first_of_each() {
    assert_eq!(distinct_texts(&strings(&["b", "a", "b", "c", "a"])), strings(&["b", "a", "c"]));
    assert_eq!(distinct_texts(&strings(&[])), strings(&[]));
    assert_eq!(distinct_texts(&strings(&["x", "x", "x"])), strings(&["x"]));
}

#[test]
fn distinct_names_are_the_names_of_the_matches_once_each() {
    let found = vec![match_of("iron"), match_of("gold"), match_of("iron"), match_of("coal")];
    assert_eq!(distinct_names(&found), strings(&["iron", "gold", "coal"]));
    assert!(distinct_names(&Vec::new()).is_empty());
}

#[test]
fn the_search_is_announced() {
    assert_eq!(looking_line("*ore*"), "Looking for *ore*");
    assert_eq!(scanning_line(12), "Scanning 12 regions");
    assert_eq!(scanning_line(0), "Scanning 0 regions");
}

#[test]
fn the_summary_has_six_lines() {
    let summary = ScanResult {
        regions: 4,
        chunks: 1500,
        sections: 20000,
        blocks: 81920000,
        found: vec![match_of("minecraft:iron_ore"), match_of("minecraft:gold_ore"), match_of("minecraft:iron_ore")],
    };
    assert_eq!(
        summary_lines("*_ore", &summary),
        strings(&[
            "Scanned 4 regions",
            "Scanned 1500 chunks",
            "Scanned 20000 sections",
            "Scanned 81920000 blocks",
            "Types: minecraft:iron_ore, minecraft:gold_ore",
            "Found 3 blocks of *_ore",
        ])
    );
}

#[test]
fn the_summary_of_nothing_names_no_type() {
    assert_eq!(
        summary_lines("x", &ScanResult::new()),
        strings(&[
            "Scanned 0 regions",
            "Scanned 0 chunks",
            "Scanned 0 sections",
            "Scanned 0 blocks",
            "Types: ",
            "Found 0 blocks of x",
        ])
    );
}

#[test]
fn a_spawner_is_described_in_four_lines() {
    let spawner = entity_with(
        "minecraft:mob_spawner",
        [Some(200), Some(800), Some(4), Some(5), Some(6), Some(16)],
    );
    assert_eq!(
        spawner_lines(&spawner),
        strings(&[
            "    spawn delay: 200-800 ticks",
            "    spawn count: 4 @ 5 blocks",
            "    max entities: 6",
            "    activation range: 16 blocks",
        ])
    );
}

#[test]
fn what_is_no_spawner_is_not_described() {
    let chest =
        entity_with("minecraft:chest", [Some(200), Some(800), Some(4), Some(5), Some(6), Some(16)]);
    assert!(spawner_lines(&chest).is_empty());
}

#[test]
fn a_spawner_with_values_missing_is_described_as_far_as_known() {
    let partial = entity_with("minecraft:mob_spawner", [Some(200), None, Some(4), Some(5), None, Some(-1)]);
    assert_eq!(
        spawner_lines(&partial),
        strings(&["    spawn count: 4 @ 5 blocks", "    activation range: -1 blocks"])
    );
    let bare = entity_with("minecraft:mob_spawner", [None, None, None, None, None, None]);
    assert!(spawner_lines(&bare).is_empty());
}

#[test]
fn a_vein_is_described_in_one_line() {
    assert_eq!(
        vein_line(0, 2, 5, &box_of((0, 0, 0), (1, 0, 0))),
        "Vein 0 (2 blocks, 5m away): (0, 0, 0) -> (1, 0, 0)"
    );
    assert_eq!(
        vein_line(12, 340, 1024, &box_of((-5, 60, -7), (3, 64, 9))),
        "Vein 12 (340 blocks, 1024m away): (-5, 60, -7) -> (3, 64, 9)"
    );
}

#[test]
fn veins_are_listed_in_the_order_of_the_ranking() {
    let veins = vec![
        Vein { center: Point::zero(), bounds: box_of((0, 0, 0), (1, 0, 0)), blocks: Vec::new() },
        Vein { center: Point::zero(), bounds: box_of((9, 9, 9), (9, 9, 10)), blocks: Vec::new() },
    ];
    let ranking = vec![
        Ranked { distance: 3, size: 2, index: 1 },
        Ranked { distance: 8, size: 4, index: 0 },
    ];
    assert_eq!(
        vein_lines(&veins, &ranking),
        strings(&[
            "Vein 0 (2 blocks, 3m away): (9, 9, 9) -> (9, 9, 10)",
            "Vein 1 (4 blocks, 8m away): (0, 0, 0) -> (1, 0, 0)",
        ])
    );
    assert!(vein_lines(&veins, &Vec::new()).is_empty());
}

fn ore_at(x: i64, y: i64, z: i64) -> BlockDescriptor {
    BlockDescriptor { name: "minecraft:iron_ore".to_string(), x, y, z, enity: None }
}

fn spawner_at(x: i64, y: i64, z: i64) -> BlockDescriptor {
    let mut entity =
        entity_with("minecraft:mob_spawner", [Some(200), Some(800), Some(4), Some(4), Some(6), Some(16)]);
    entity.x = x;
    entity.y = y;
    entity.z = z;
    BlockDescriptor { name: "minecraft:mob_spawner".to_string(), x, y, z, enity: Some(entity) }
}

#[test]
fn details_follow_the_matches() {
    let found = vec![ore_at(0, 0, 0), spawner_at(1, 1, 1), ore_at(2, 2, 2), spawner_at(3, 3, 3)];
    let lines = details_lines(&found);
    assert_eq!(lines.len(), 8);
    assert_eq!(lines[0], "    spawn delay: 200-800 ticks");
    assert_eq!(lines[4], "    spawn delay: 200-800 ticks");
    assert_eq!(lines[7], "    activation range: 16 blocks");
    assert!(details_lines(&vec![ore_at(0, 0, 0)]).is_empty());
}

#[test]
fn a_search_is_reported_from_totals_to_veins() {
    let summary = ScanResult {
        regions: 2,
        chunks: 30,
        sections: 400,
        blocks: 5000,
        found: vec![
            ore_at(50, 8, 0),
            ore_at(3, 8, 0),
            spawner_at(0, 9, 0),
            ore_at(51, 8, 0),
            ore_at(500, 8, 0),
            ore_at(2, 8, 0),
            ore_at(-30, 8, 0),
            ore_at(52, 8, 0),
            ore_at(4, 8, 0),
            ore_at(501, 8, 0),
            ore_at(-31, 8, 0),
            ore_at(-30, 9, 0),
        ],
    };
    let boundary = box_of((-100, 0, -100), (100, 16, 100));
    let home = Point { x: 0, y: 8, z: 0 };
    let lines = render_report("*", summary, &boundary, &home).unwrap();
    assert_eq!(
        lines,
        strings(&[
            "Scanned 2 regions",
            "Scanned 30 chunks",
            "Scanned 400 sections",
            "Scanned 5000 blocks",
            "Types: minecraft:iron_ore, minecraft:mob_spawner",
            "Found 10 blocks of *",
            "    spawn delay: 200-800 ticks",
            "    spawn count: 4 @ 4 blocks",
            "    max entities: 6",
            "    activation range: 16 blocks",
            "Vein 0 (3 blocks, 3m away): (2, 8, 0) -> (4, 8, 0)",
            "Vein 1 (3 blocks, 31m away): (-31, 8, 0) -> (-30, 9, 0)",
            "Vein 2 (3 blocks, 51m away): (50, 8, 0) -> (52, 8, 0)",
        ])
    );
}

#[test]
fn a_vein_out_of_reach_stops_the_report() {
    let summary = ScanResult {
        regions: 1,
        chunks: 1,
        sections: 1,
        blocks: 2,
        found: vec![ore_at(i64::MIN, 0, 0), ore_at(i64::MIN + 1, 0, 0)],
    };
    let boundary = box_of((i64::MIN, -1, -1), (i64::MAX, 1, 1));
    assert!(render_report("*", summary, &boundary, &Point { x: i64::MAX, y: 0, z: 0 }).is_none());
}
