use fastnbt::{LongArray, Value};
use mcworldgen::blocks::{BlockDescriptor, BlockEntity, ChunkEntityContainer};
use mcworldgen::locator::{
    entity_matches, local_offsets, locate_in_region, palette_is_air, scan_chunk, scan_decoded,
    scan_record, scan_section, ChunkRecord, SectionTally,
};
use mcworldgen::names::{default_rules, NameRule};
use mcworldgen::scan::ScanResult;
use mcworldgen::sections::{Place, SectionData};
use std::collections::HashMap;

fn names_of(names: &[&str]) -> Vec<String> {
    names.iter().map(|n| n.to_string()).collect()
}

fn section_of(y: i8, palette: &[&str], indices: Option<Vec<usize>>) -> SectionData {
    SectionData { y, palette: names_of(palette), indices }
}

fn cells_with(marked: &[(usize, usize)]) -> Vec<usize> {
    let mut cells = vec![0usize; 4096];
    for (cell, index) in marked {
        cells[*cell] = *index;
    }
    cells
}

fn place_of(rx: i64, rz: i64, cx: i64, cz: i64) -> Place {
    Place { rx, rz, cx, cz }
}

fn block_at(name: &str, x: i64, y: i64, z: i64) -> BlockDescriptor {
    BlockDescriptor { name: name.to_string(), x, y, z, enity: None }
}

fn entity_at(id: &str, x: i64, y: i64, z: i64) -> BlockEntity {
    BlockEntity {
        id: id.to_string(),
        x,
        y,
        z,
        min_spawn_delay: None,
        max_spawn_delay: None,
        spawn_count: None,
        spawn_range: None,
        max_entities: None,
        activation_range: None,
        spawn_data: None,
    }
}

fn totals(scan: &ScanResult) -> (usize, usize, usize, usize) {
    (scan.regions, scan.chunks, scan.sections, scan.blocks)
}

fn compound_of(entries: Vec<(&str, Value)>) -> Value {
    let mut map = HashMap::new();
    for (key, value) in entries {
        map.insert(key.to_string(), value);
    }
    Value::Compound(map)
}

fn section_nbt(y: i8, palette: &[&str], cells: Option<&[usize]>) -> Value {
    let entries: Vec<Value> =
        palette.iter().map(|n| compound_of(vec![("Name", Value::String(n.to_string()))])).collect();
    let mut states = vec![("palette", Value::List(entries))];
    if let Some(cells) = cells {
        let mut longs = vec![0i64; 256];
        for (cell, index) in cells.iter().enumerate() {
            longs[cell / 16] |= (*index as i64) << ((cell % 16) * 4);
        }
        states.push(("data", Value::LongArray(LongArray::new(longs))));
    }
    compound_of(vec![("Y", Value::Byte(y)), ("block_states", compound_of(states))])
}

fn chunk_bytes(sections: Vec<Value>) -> Vec<u8> {
    let chunk = compound_of(vec![
        ("DataVersion", Value::Int(3120)),
        ("Status", Value::String("full".to_string())),
        ("sections", Value::List(sections)),
    ]);
    fastnbt::to_bytes(&chunk).unwrap()
}

fn empty_region() -> Vec<Option<ChunkRecord>> {
    let mut slots = Vec::new();
    for _ in 0..1024 {
        slots.push(None);
    }
    slots
}

#[test]
fn local_offsets_take_a_nibble_each() {
    assert_eq!(local_offsets(0), (0, 0, 0));
    assert_eq!(local_offsets(0x0ABC), (0xC, 0xA, 0xB));
    assert_eq!(local_offsets(1280), (0, 5, 0));
    assert_eq!(local_offsets(4095), (15, 15, 15));
    assert_eq!(local_offsets(4096), (0, 0, 0));
}

#[test]
fn only_the_palette_of_air_alone_is_air() {
    assert!(palette_is_air(&names_of(&["minecraft:air"])));
    assert!(!palette_is_air(&names_of(&["minecraft:air", "minecraft:stone"])));
    assert!(!palette_is_air(&names_of(&["minecraft:stone"])));
    assert!(!palette_is_air(&names_of(&["minecraft:cave_air"])));
    assert!(!palette_is_air(&names_of(&[])));
}

#[test]
fn an_air_section_counts_nothing() {
    let section = section_of(0, &["minecraft:air"], Some(vec![0; 4096]));
    let mut found = Vec::new();
    let tally = scan_section("*", &default_rules(), place_of(0, 0, 0, 0), &section, &mut found);
    assert_eq!(tally, SectionTally { examined: false, blocks: 0 });
    assert!(found.is_empty());
    let result = scan_chunk("*", &default_rules(), place_of(0, 0, 0, 0), &Vec::new(), &vec![section])
        .unwrap();
    assert_eq!(totals(&result), (0, 0, 0, 0));
    assert!(result.found.is_empty());
}

#[test]
fn a_chunk_of_air_sections_is_not_counted() {
    let sections = vec![
        section_of(0, &["minecraft:air"], Some(vec![0; 4096])),
        section_of(1, &["minecraft:air"], None),
    ];
    let result =
        scan_chunk("*", &default_rules(), place_of(0, 0, 0, 0), &Vec::new(), &sections).unwrap();
    assert_eq!(totals(&result), (0, 0, 0, 0));
}

#[test]
fn a_chunk_with_a_section_that_is_not_air_is_counted_without_a_match() {
    let sections = vec![
        section_of(0, &["minecraft:air"], Some(vec![0; 4096])),
        section_of(1, &["minecraft:air", "minecraft:stone"], Some(cells_with(&[(7, 1), (9, 1)]))),
    ];
    let result = scan_chunk(
        "minecraft:diamond_ore",
        &default_rules(),
        place_of(0, 0, 0, 0),
        &Vec::new(),
        &sections,
    )
    .unwrap();
    assert_eq!(totals(&result), (0, 1, 1, 2));
    assert!(result.found.is_empty());
}

#[test]
fn a_section_without_an_index_table_is_passed_over_but_marks_the_chunk() {
    let sections = vec![section_of(2, &["minecraft:stone"], None)];
    let result =
        scan_chunk("*", &default_rules(), place_of(0, 0, 0, 0), &Vec::new(), &sections).unwrap();
    assert_eq!(totals(&result), (0, 1, 0, 0));
    assert!(result.found.is_empty());
}

#[test]
fn a_section_whose_indices_leave_the_palette_is_passed_over() {
    let section = section_of(0, &["minecraft:air", "minecraft:stone"], Some(vec![0, 1, 2]));
    let mut found = vec![block_at("kept", 0, 0, 0)];
    let tally = scan_section("*", &default_rules(), place_of(0, 0, 0, 0), &section, &mut found);
    assert_eq!(tally, SectionTally { examined: false, blocks: 0 });
    assert_eq!(found, vec![block_at("kept", 0, 0, 0)]);
}

#[test]
fn world_coordinates_add_region_chunk_and_cell() {
    let section =
        section_of(3, &["minecraft:air", "minecraft:diamond_ore"], Some(cells_with(&[(1280, 1)])));
    let mut found = Vec::new();
    let tally =
        scan_section("*diamond*", &default_rules(), place_of(1, 0, 2, 0), &section, &mut found);
    assert_eq!(tally, SectionTally { examined: true, blocks: 1 });
    assert_eq!(found, vec![block_at("minecraft:diamond_ore", 544, 53, 0)]);
}

#[test]
fn world_coordinates_reach_below_zero() {
    let section = section_of(
        -4,
        &["minecraft:air", "minecraft:diamond_ore"],
        Some(cells_with(&[(0x0FFF, 1), (0x0123, 1)])),
    );
    let mut found = Vec::new();
    scan_section("*", &Vec::new(), place_of(-1, -2, 31, 0), &section, &mut found);
    assert_eq!(
        found,
        vec![
            block_at("minecraft:diamond_ore", -512 + 496 + 3, -64 + 1, -1024 + 2),
            block_at("minecraft:diamond_ore", -512 + 496 + 15, -64 + 15, -1024 + 15),
        ]
    );
}

#[test]
fn matches_are_normalized_and_air_is_not_examined() {
    let section = section_of(
        0,
        &["minecraft:air", "minecraft:deepslate_iron_ore", "minecraft:stone", "mod:iron_ore_kivi"],
        Some(vec![0, 1, 2, 3, 0, 1]),
    );
    let mut found = Vec::new();
    let tally = scan_section("*iron*", &default_rules(), place_of(0, 0, 0, 0), &section, &mut found);
    assert_eq!(tally, SectionTally { examined: true, blocks: 4 });
    assert_eq!(
        found,
        vec![
            block_at("minecraft:iron_ore", 1, 0, 0),
            block_at("mod:iron_ore", 3, 0, 0),
            block_at("minecraft:iron_ore", 5, 0, 0),
        ]
    );
    let mut renamed = Vec::new();
    let rules = vec![NameRule::Replace { from: "minecraft:".to_string(), to: String::new() }];
    scan_section("*stone", &rules, place_of(0, 0, 0, 0), &section, &mut renamed);
    assert_eq!(renamed, vec![block_at("stone", 2, 0, 0)]);
}

#[test]
fn matching_entities_become_descriptors_with_their_record() {
    let entities = vec![
        entity_at("minecraft:chest", 1, 2, 3),
        entity_at("minecraft:mob_spawner", 4, 5, 6),
        entity_at("minecraft:chest", 7, 8, 9),
    ];
    let found = entity_matches("*chest", &entities);
    assert_eq!(
        found,
        vec![
            BlockDescriptor {
                name: "minecraft:chest".to_string(),
                x: 1,
                y: 2,
                z: 3,
                enity: Some(entity_at("minecraft:chest", 1, 2, 3)),
            },
            BlockDescriptor {
                name: "minecraft:chest".to_string(),
                x: 7,
                y: 8,
                z: 9,
                enity: Some(entity_at("minecraft:chest", 7, 8, 9)),
            },
        ]
    );
    assert!(entity_matches("nothing", &entities).is_empty());
}

#[test]
fn a_chunk_lists_entities_before_blocks() {
    let entities = vec![entity_at("minecraft:iron_thing", 100, 0, 0)];
    let sections = vec![
        section_of(0, &["minecraft:air", "minecraft:iron_ore"], Some(cells_with(&[(2, 1)]))),
        section_of(1, &["minecraft:iron_ore"], Some(vec![0, 0])),
    ];
    let result =
        scan_chunk("*iron*", &default_rules(), place_of(0, 0, 1, 1), &entities, &sections).unwrap();
    assert_eq!(totals(&result), (0, 1, 2, 3));
    assert_eq!(result.found.len(), 4);
    assert_eq!(result.found[0].name, "minecraft:iron_thing");
    assert_eq!(result.found[1], block_at("minecraft:iron_ore", 18, 0, 16));
    assert_eq!(result.found[2], block_at("minecraft:iron_ore", 16, 16, 16));
    assert_eq!(result.found[3], block_at("minecraft:iron_ore", 17, 16, 16));
}

#[test]
fn bytes_that_decode_to_nothing_leave_the_entities() {
    let entities = vec![entity_at("minecraft:chest", 1, 2, 3)];
    let result =
        scan_decoded("*", &default_rules(), place_of(0, 0, 0, 0), &entities, None).unwrap();
    assert_eq!(totals(&result), (0, 0, 0, 0));
    assert_eq!(result.found.len(), 1);
    let record = ChunkRecord {
        data: vec![1, 2, 3],
        entities: Some(ChunkEntityContainer { block_entities: entities }),
    };
    let scanned = scan_record("*", &default_rules(), place_of(0, 0, 0, 0), &record).unwrap();
    assert_eq!(totals(&scanned), (0, 0, 0, 0));
    assert_eq!(scanned.found.len(), 1);
    assert_eq!(scanned.found[0].pos(), mcworldgen::points::Point { x: 1, y: 2, z: 3 });
}

#[test]
fn a_record_is_decoded_and_scanned() {
    let mut cells = vec![0usize; 4096];
    cells[0] = 1;
    cells[1280] = 1;
    cells[17] = 2;
    let data = chunk_bytes(vec![
        section_nbt(-1, &["minecraft:air"], None),
        section_nbt(3, &["minecraft:air", "minecraft:diamond_ore", "minecraft:stone"], Some(&cells)),
    ]);
    let record = ChunkRecord { data, entities: None };
    let result = scan_record("*diamond*", &default_rules(), place_of(1, 0, 2, 0), &record).unwrap();
    assert_eq!(totals(&result), (0, 1, 1, 3));
    assert_eq!(
        result.found,
        vec![
            block_at("minecraft:diamond_ore", 544, 48, 0),
            block_at("minecraft:diamond_ore", 544, 53, 0),
        ]
    );
}

#[test]
fn a_region_adds_up_its_slots() {
    let mut cells = vec![0usize; 4096];
    cells[1280] = 1;
    let ore = chunk_bytes(vec![section_nbt(
        3,
        &["minecraft:air", "minecraft:diamond_ore"],
        Some(&cells),
    )]);
    let air = chunk_bytes(vec![section_nbt(0, &["minecraft:air"], None)]);
    let mut slots = empty_region();
    slots[2] = Some(ChunkRecord { data: ore.clone(), entities: None });
    slots[5] = Some(ChunkRecord { data: air, entities: None });
    slots[33] = Some(ChunkRecord {
        data: ore,
        entities: Some(ChunkEntityContainer {
            block_entities: vec![entity_at("minecraft:diamond_chest", 9, 9, 9)],
        }),
    });
    slots[40] = Some(ChunkRecord { data: vec![0, 1, 2, 3], entities: None });
    let result = locate_in_region("*diamond*", &default_rules(), &slots, 1, 0).unwrap();
    assert_eq!(totals(&result), (1, 2, 2, 2));
    assert_eq!(result.found.len(), 3);
    assert_eq!(result.found[0], block_at("minecraft:diamond_ore", 544, 53, 0));
    assert_eq!(result.found[1].name, "minecraft:diamond_chest");
    assert_eq!(result.found[1].enity, Some(entity_at("minecraft:diamond_chest", 9, 9, 9)));
    assert_eq!(result.found[2], block_at("minecraft:diamond_ore", 512 + 16, 53, 16));
}

#[test]
fn an_empty_region_counts_one_region() {
    let result = locate_in_region("*", &default_rules(), &empty_region(), -3, 4).unwrap();
    assert_eq!(totals(&result), (1, 0, 0, 0));
    assert!(result.found.is_empty());
}

#[test]
fn an_index_table_beside_an_empty_palette_makes_the_chunk_undecodable() {
    let states = compound_of(vec![
        ("palette", Value::List(Vec::new())),
        ("data", Value::LongArray(LongArray::new(vec![0x1111; 4]))),
    ]);
    let section = compound_of(vec![("Y", Value::Byte(0)), ("block_states", states)]);
    let stone = section_nbt(1, &["minecraft:stone"], None);
    let record = ChunkRecord { data: chunk_bytes(vec![stone, section]), entities: None };
    let result = scan_record("*", &default_rules(), place_of(0, 0, 0, 0), &record).unwrap();
    assert_eq!(totals(&result), (0, 0, 0, 0));
    assert!(result.found.is_empty());
}

#[test]
fn an_empty_palette_without_an_index_table_is_a_section_like_any() {
    let states = compound_of(vec![("palette", Value::List(Vec::new()))]);
    let section = compound_of(vec![("Y", Value::Byte(0)), ("block_states", states)]);
    let record = ChunkRecord { data: chunk_bytes(vec![section]), entities: None };
    let result = scan_record("*", &default_rules(), place_of(0, 0, 0, 0), &record).unwrap();
    assert_eq!(totals(&result), (0, 1, 0, 0));
}

#[test]
fn a_short_index_table_is_scanned_as_far_as_it_goes() {
    let states = compound_of(vec![
        (
            "palette",
            Value::List(vec![
                compound_of(vec![("Name", Value::String("minecraft:air".to_string()))]),
                compound_of(vec![("Name", Value::String("minecraft:coal_ore".to_string()))]),
            ]),
        ),
        ("data", Value::LongArray(LongArray::new(vec![0x0000_0000_0000_1001]))),
    ]);
    let section = compound_of(vec![("Y", Value::Byte(1)), ("block_states", states)]);
    let record = ChunkRecord { data: chunk_bytes(vec![section]), entities: None };
    let result = scan_record("*coal*", &default_rules(), place_of(0, 0, 0, 0), &record).unwrap();
    assert_eq!(totals(&result), (0, 1, 1, 2));
    assert_eq!(
        result.found,
        vec![block_at("minecraft:coal_ore", 0, 16, 0), block_at("minecraft:coal_ore", 3, 16, 0)]
    );
}

#[test]
fn a_chunk_in_an_older_format_gives_its_entities_only() {
    let old = compound_of(vec![(
        "Level",
        compound_of(vec![("Status", Value::String("full".to_string()))]),
    )]);
    let record = ChunkRecord {
        data: fastnbt::to_bytes(&old).unwrap(),
        entities: Some(ChunkEntityContainer {
            block_entities: vec![entity_at("minecraft:chest", 1, 2, 3)],
        }),
    };
    let result = scan_record("*", &default_rules(), place_of(0, 0, 0, 0), &record).unwrap();
    assert_eq!(totals(&result), (0, 0, 0, 0));
    assert_eq!(result.found.len(), 1);
}
