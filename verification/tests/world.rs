use fastnbt::Value;
use mcworldgen::dimension::{is_hidden, Dimension, DimensionGroup, DimensionLoadError};
use mcworldgen::region::{names_in_chunk, ChunkRegion};
use mcworldgen::sections::SectionData;
use mcworldgen::ui::{UiBlockDistribution, UiDimensionSelector};
use mcworldgen::world::{App, World};
use std::collections::HashMap;
use std::path::PathBuf;

fn palette(y: i8, names: &[&str]) -> SectionData {
    SectionData { y, palette: names.iter().map(|n| n.to_string()).collect(), indices: None }
}

fn texts(names: &[&str]) -> Vec<String> {
    names.iter().map(|n| n.to_string()).collect()
}

fn region_with(x: i32, z: i32, chunks: Vec<Vec<SectionData>>) -> ChunkRegion {
    ChunkRegion { x, z, chunks }
}

fn tag(entries: Vec<(&str, Value)>) -> Value {
    let mut map = HashMap::new();
    for (key, value) in entries {
        map.insert(key.to_string(), value);
    }
    Value::Compound(map)
}

fn chunk_with_palette(names: &[&str]) -> Vec<u8> {
    let entries: Vec<Value> =
        names.iter().map(|n| tag(vec![("Name", Value::String(n.to_string()))])).collect();
    let section =
        tag(vec![("Y", Value::Byte(0)), ("block_states", tag(vec![("palette", Value::List(entries))]))]);
    let chunk = tag(vec![
        ("DataVersion", Value::Int(3120)),
        ("Status", Value::String("full".to_string())),
        ("sections", Value::List(vec![section])),
    ]);
    fastnbt::to_bytes(&chunk).unwrap()
}

fn world_of(count: usize) -> World {
    let dimensions =
        (0..count).map(|i| Dimension::vanilla(PathBuf::from("w"), &format!("d{}", i))).collect();
    World::with_dimensions(PathBuf::from("w"), dimensions)
}

#[test]
fn a_vanilla_dimension_starts_without_regions() {
    let end = Dimension::vanilla(PathBuf::from("world/DIM1"), "The End");
    assert_eq!(end.group, DimensionGroup::Vanilla);
    assert_eq!(end.name, "The End");
    assert_eq!(end.path, PathBuf::from("world/DIM1"));
    assert!(end.regions.is_empty());
    assert!(end.needs_regions());
}

#[test]
fn a_modded_dimension_names_its_mod() {
    let other = Dimension::modded(PathBuf::from("world/dimensions/aether/the_other"), "aether", "the_other");
    assert_eq!(other.group, DimensionGroup::Modded { group: "aether".to_string() });
    assert_eq!(other.name, "the_other");
    assert!(other.needs_regions());
}

#[test]
fn hidden_names_start_with_a_dot() {
    assert!(is_hidden(".git"));
    assert!(is_hidden("."));
    assert!(!is_hidden("aether"));
    assert!(!is_hidden("a.b"));
    assert!(!is_hidden(""));
}

#[test]
fn the_names_of_a_chunk_are_its_palettes_in_order() {
    let sections = vec![palette(0, &["air", "stone"]), palette(1, &[]), palette(2, &["stone", "dirt"])];
    assert_eq!(names_in_chunk(&sections), texts(&["air", "stone", "stone", "dirt"]));
    assert!(names_in_chunk(&Vec::new()).is_empty());
}

#[test]
fn the_names_of_a_region_follow_its_chunks() {
    let region = region_with(
        3,
        -4,
        vec![vec![palette(0, &["a", "b"])], vec![], vec![palette(0, &["c"]), palette(1, &["a"])]],
    );
    assert_eq!(region.names(), texts(&["a", "b", "c", "a"]));
    let fresh = ChunkRegion::new(3, -4);
    assert_eq!((fresh.x, fresh.z), (3, -4));
    assert!(fresh.chunks.is_empty());
    assert!(fresh.names().is_empty());
}

#[test]
fn a_region_keeps_the_chunks_that_decode() {
    let mut region = region_with(1, 2, vec![vec![palette(0, &["old"])]]);
    let slots = vec![
        None,
        Some(chunk_with_palette(&["minecraft:air", "minecraft:stone"])),
        Some(vec![9, 9, 9]),
        Some(chunk_with_palette(&["minecraft:dirt"])),
    ];
    region.load_chunks_from(&slots);
    assert_eq!((region.x, region.z), (1, 2));
    assert_eq!(region.chunks.len(), 2);
    assert_eq!(region.chunks[0], vec![palette(0, &["minecraft:air", "minecraft:stone"])]);
    assert_eq!(region.names(), texts(&["minecraft:air", "minecraft:stone", "minecraft:dirt"]));
}

#[test]
fn loaded_regions_are_stored_in_order() {
    let mut dimension = Dimension::vanilla(PathBuf::from("w"), "d");
    let stored = dimension.store_regions(vec![
        Ok(region_with(0, 0, vec![vec![palette(0, &["a", "b"])]])),
        Ok(region_with(0, 1, vec![])),
        Ok(region_with(1, 0, vec![vec![palette(0, &["b", "c"])]])),
    ]);
    assert_eq!(stored, Ok(()));
    assert!(!dimension.needs_regions());
    let places: Vec<(i32, i32)> = dimension.regions.iter().map(|r| (r.x, r.z)).collect();
    assert_eq!(places, vec![(0, 0), (0, 1), (1, 0)]);
    assert_eq!(dimension.block_names(), texts(&["a", "b", "c"]));
}

#[test]
fn the_first_failed_load_is_reported_and_nothing_is_stored() {
    let mut dimension = Dimension::vanilla(PathBuf::from("w"), "d");
    assert_eq!(dimension.store_regions(vec![Ok(region_with(7, 7, vec![]))]), Ok(()));
    let stored = dimension.store_regions(vec![
        Ok(region_with(0, 0, vec![])),
        Err(DimensionLoadError("second".to_string())),
        Ok(region_with(1, 0, vec![])),
        Err(DimensionLoadError("fourth".to_string())),
    ]);
    assert_eq!(stored, Err(DimensionLoadError("second".to_string())));
    assert_eq!(dimension.regions.len(), 1);
    assert_eq!((dimension.regions[0].x, dimension.regions[0].z), (7, 7));
    assert_eq!(dimension.store_regions(Vec::new()), Ok(()));
    assert!(dimension.needs_regions());
    assert!(dimension.block_names().is_empty());
}

#[test]
fn the_selection_wraps_around_forward() {
    let mut app = App::with_world(world_of(3));
    assert_eq!(app.dim_selected, 0);
    app.dim_next();
    assert_eq!(app.dim_selected, 1);
    app.dim_next();
    assert_eq!(app.dim_selected, 2);
    app.dim_next();
    assert_eq!(app.dim_selected, 0);
    assert_eq!(app.world.dimensions.len(), 3);
    app.dim_selected = 7;
    app.dim_next();
    assert_eq!(app.dim_selected, 2);
    app.dim_selected = usize::MAX;
    app.dim_next();
    assert_eq!(app.dim_selected, (usize::MAX % 3 + 1) % 3);
}

#[test]
fn the_selection_wraps_around_backward() {
    let mut app = App::with_world(world_of(3));
    app.dim_previous();
    assert_eq!(app.dim_selected, 2);
    app.dim_previous();
    assert_eq!(app.dim_selected, 1);
    app.dim_previous();
    assert_eq!(app.dim_selected, 0);
    let mut single = App::with_world(world_of(1));
    single.dim_next();
    assert_eq!(single.dim_selected, 0);
    single.dim_previous();
    assert_eq!(single.dim_selected, 0);
}

#[test]
fn the_screens_start_empty() {
    let distribution = UiBlockDistribution::new();
    assert!(distribution.counts.is_empty());
    let selector = UiDimensionSelector { dimensions: texts(&["The End"]) };
    assert_eq!(selector.dimensions.len(), 1);
}
