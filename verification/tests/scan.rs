use mcworldgen::blocks::BlockDescriptor;
use mcworldgen::scan::ScanResult;

fn found_at(name: &str, x: i64) -> BlockDescriptor {
    BlockDescriptor { name: name.to_string(), x, y: 0, z: 0, enity: None }
}

fn scan_of(regions: usize, chunks: usize, sections: usize, blocks: usize, xs: &[i64]) -> ScanResult {
    ScanResult {
        regions,
        chunks,
        sections,
        blocks,
        found: xs.iter().map(|x| found_at("ore", *x)).collect(),
    }
}

fn counters(scan: &ScanResult) -> (usize, usize, usize, usize) {
    (scan.regions, scan.chunks, scan.sections, scan.blocks)
}

fn sorted_xs(scan: &ScanResult) -> Vec<i64> {
    let mut xs: Vec<i64> = scan.found.iter().map(|b| b.x).collect();
    xs.sort();
    xs
}

#[test]
fn a_new_result_is_empty() {
    let scan = ScanResult::new();
    assert_eq!(counters(&scan), (0, 0, 0, 0));
    assert!(scan.found.is_empty());
}

#[test]
fn combining_nothing_gives_the_empty_result() {
    let scan = ScanResult::combine(Vec::new());
    assert_eq!(counters(&scan), (0, 0, 0, 0));
    assert!(scan.found.is_empty());
}

#[test]
fn combine_adds_the_counters_and_strings_the_matches_together() {
    let scan = ScanResult::combine(vec![
        scan_of(1, 2, 3, 4, &[1, 2]),
        scan_of(1, 0, 0, 0, &[]),
        scan_of(1, 10, 20, 30, &[3]),
    ]);
    assert_eq!(counters(&scan), (3, 12, 23, 34));
    assert_eq!(scan.found, vec![found_at("ore", 1), found_at("ore", 2), found_at("ore", 3)]);
}

#[test]
fn combine_is_associative() {
    let grouped_left = ScanResult::combine(vec![
        ScanResult::combine(vec![scan_of(1, 2, 3, 4, &[1]), scan_of(1, 1, 1, 1, &[2, 3])]),
        scan_of(1, 5, 6, 7, &[4]),
    ]);
    let grouped_right = ScanResult::combine(vec![
        scan_of(1, 2, 3, 4, &[1]),
        ScanResult::combine(vec![scan_of(1, 1, 1, 1, &[2, 3]), scan_of(1, 5, 6, 7, &[4])]),
    ]);
    let flat = ScanResult::combine(vec![
        scan_of(1, 2, 3, 4, &[1]),
        scan_of(1, 1, 1, 1, &[2, 3]),
        scan_of(1, 5, 6, 7, &[4]),
    ]);
    assert_eq!(counters(&grouped_left), (3, 8, 10, 12));
    assert_eq!(counters(&grouped_left), counters(&grouped_right));
    assert_eq!(counters(&grouped_left), counters(&flat));
    assert_eq!(grouped_left.found, grouped_right.found);
    assert_eq!(grouped_left.found, flat.found);
}

#[test]
fn combine_is_commutative_on_the_counters() {
    let one_way = ScanResult::combine(vec![scan_of(1, 2, 3, 4, &[1, 2]), scan_of(1, 7, 8, 9, &[3])]);
    let other_way = ScanResult::combine(vec![scan_of(1, 7, 8, 9, &[3]), scan_of(1, 2, 3, 4, &[1, 2])]);
    assert_eq!(counters(&one_way), (2, 9, 11, 13));
    assert_eq!(counters(&one_way), counters(&other_way));
    assert_eq!(sorted_xs(&one_way), sorted_xs(&other_way));
    assert_eq!(other_way.found[0], found_at("ore", 3));
}

#[test]
fn filtering_keeps_what_the_predicate_accepts() {
    let scan = scan_of(1, 2, 3, 4, &[5, -1, 7, 0, -3]).filtering_blocks(|b| b.x > 0);
    assert_eq!(counters(&scan), (1, 2, 3, 4));
    assert_eq!(scan.found, vec![found_at("ore", 5), found_at("ore", 7)]);
    let none = scan_of(1, 2, 3, 4, &[5, -1]).filtering_blocks(|_| false);
    assert_eq!(counters(&none), (1, 2, 3, 4));
    assert!(none.found.is_empty());
}

#[test]
fn replacing_hands_the_matches_to_the_mapper() {
    let scan = scan_of(1, 2, 3, 4, &[1, 2, 3]).replacing_blocks(|mut blocks| {
        blocks.reverse();
        blocks
    });
    assert_eq!(counters(&scan), (1, 2, 3, 4));
    assert_eq!(scan.found, vec![found_at("ore", 3), found_at("ore", 2), found_at("ore", 1)]);
}

#[test]
fn a_sum_that_does_not_fit_is_refused() {
    let overflow = ScanResult::checked_combine(vec![
        scan_of(1, 2, 3, usize::MAX, &[1]),
        scan_of(1, 2, 3, 1, &[2]),
    ]);
    assert!(overflow.is_none());
    let fits = ScanResult::checked_combine(vec![
        scan_of(1, 2, 3, usize::MAX - 1, &[1]),
        scan_of(1, 2, 3, 1, &[2]),
    ])
    .unwrap();
    assert_eq!(counters(&fits), (2, 4, 6, usize::MAX));
    assert_eq!(fits.found, vec![found_at("ore", 1), found_at("ore", 2)]);
}
