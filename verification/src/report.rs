//! The report of a search, line by line.

use crate::blocks::{block_models, BlockDescriptor, BlockEntity, BlockModel, EntityModel};
use crate::bounds::Bounds;
use crate::points::Point;
use crate::ranking::{is_ranking, rank_veins, rankable, select_within, selects, Ranked};
use crate::scan::{ScanResult, ScanTotals};
use crate::text::{decimal, distinct, distinct_texts, i128_to_string, join, joined_with, views};
use crate::veins::{find_veins, veins_of, Vein};
use vstd::prelude::*;

verus! {

/// The names of a sequence of blocks, in the same order.
pub open spec fn block_names(blocks: Seq<BlockModel>) -> Seq<Seq<char>> {
    blocks.map_values(|b: BlockModel| b.name)
}

/// The names of the matched blocks, each once, in the order in which they
/// first occur.
pub fn distinct_names(found: &Vec<BlockDescriptor>) -> (names: Vec<String>)
    ensures
        views(names@) == distinct(block_names(block_models(found@))),
{
    let ghost all = block_names(block_models(found@));
    let mut every: Vec<String> = Vec::new();
    let mut i: usize = 0;
    while i < found.len()
        invariant
            i <= found.len(),
            all == block_names(block_models(found@)),
            views(every@) == all.take(i as int),
        decreases found.len() - i,
    {
        let ghost before = every@;
        every.push(found[i].name.clone());
        assert(views(every@) =~= views(before).push(found@[i as int].name@));
        assert(all.take(i + 1) =~= all.take(i as int).push(all[i as int]));
        i += 1;
    }
    assert(all.take(i as int) =~= all);
    distinct_texts(&every)
}

/// The line that announces a search.
pub open spec fn looking_text(pattern: Seq<char>) -> Seq<char> {
    "Looking for "@ + pattern
}

/// The line that says how many regions will be scanned.
pub open spec fn scanning_text(regions: int) -> Seq<char> {
    "Scanning "@ + decimal(regions) + " regions"@
}

/// A line that says how many things of one kind were scanned.
pub open spec fn scanned_text(count: int, kind: Seq<char>) -> Seq<char> {
    "Scanned "@ + decimal(count) + " "@ + kind
}

/// The line that lists the distinct names of the matches.
pub open spec fn types_text(names: Seq<Seq<char>>) -> Seq<char> {
    "Types: "@ + joined_with(names, ", "@)
}

/// The line that says how many blocks matched.
pub open spec fn found_text(count: int, pattern: Seq<char>) -> Seq<char> {
    "Found "@ + decimal(count) + " blocks of "@ + pattern
}

/// The lines of the totals of a scan: the four counters, the distinct names
/// of the matches, and the number of matches.
pub open spec fn summary_texts(pattern: Seq<char>, totals: ScanTotals) -> Seq<Seq<char>> {
    seq![
        scanned_text(totals.regions as int, "regions"@),
        scanned_text(totals.chunks as int, "chunks"@),
        scanned_text(totals.sections as int, "sections"@),
        scanned_text(totals.blocks as int, "blocks"@),
        types_text(distinct(block_names(totals.found))),
        found_text(totals.found.len() as int, pattern),
    ]
}

/// The line of a ranked vein: its rank, the number of its blocks, its
/// distance, and its box.
pub open spec fn vein_text(rank: int, size: int, distance: int, bounds: Bounds) -> Seq<char> {
    "Vein "@ + decimal(rank) + " ("@ + decimal(size) + " blocks, "@ + decimal(distance)
        + "m away): "@ + bounds.text()
}

/// The id of a spawner.
pub open spec fn spawner_id() -> Seq<char> {
    "minecraft:mob_spawner"@
}

/// The line of a spawner's delay, where both ends of the range are known.
pub open spec fn delay_text(entity: EntityModel) -> Option<Seq<char>> {
    match (entity.min_spawn_delay, entity.max_spawn_delay) {
        (Some(low), Some(high)) => Some(
            "    spawn delay: "@ + decimal(low as int) + "-"@ + decimal(high as int) + " ticks"@,
        ),
        _ => None,
    }
}

/// The line of a spawner's count and range, where both are known.
pub open spec fn count_text_of(entity: EntityModel) -> Option<Seq<char>> {
    match (entity.spawn_count, entity.spawn_range) {
        (Some(count), Some(range)) => Some(
            "    spawn count: "@ + decimal(count as int) + " @ "@ + decimal(range as int)
                + " blocks"@,
        ),
        _ => None,
    }
}

/// The line of a spawner's limit of nearby entities, where it is known.
pub open spec fn entities_text(entity: EntityModel) -> Option<Seq<char>> {
    match entity.max_entities {
        Some(limit) => Some("    max entities: "@ + decimal(limit as int)),
        None => None,
    }
}

/// The line of a spawner's activation range, where it is known.
pub open spec fn activation_text(entity: EntityModel) -> Option<Seq<char>> {
    match entity.activation_range {
        Some(range) => Some("    activation range: "@ + decimal(range as int) + " blocks"@),
        None => None,
    }
}

/// `lines` with `line` added where there is one.
pub open spec fn with_line(lines: Seq<Seq<char>>, line: Option<Seq<char>>) -> Seq<Seq<char>> {
    match line {
        Some(text) => lines.push(text),
        None => lines,
    }
}

/// The detail lines of a block entity: for a spawner the lines whose values
/// are known, in the order delay, count, entities, activation; for any other
/// entity none.
pub open spec fn spawner_texts(entity: EntityModel) -> Seq<Seq<char>> {
    if entity.id == spawner_id() {
        with_line(
            with_line(
                with_line(with_line(Seq::empty(), delay_text(entity)), count_text_of(entity)),
                entities_text(entity),
            ),
            activation_text(entity),
        )
    } else {
        Seq::empty()
    }
}

/// The line that announces a search for `pattern`.
pub fn looking_line(pattern: &str) -> (line: String)
    ensures
        line@ == looking_text(pattern@),
{
    let mut line = String::from_str("Looking for ");
    line.append(pattern);
    line
}

/// The line that says how many regions will be scanned.
pub fn scanning_line(regions: usize) -> (line: String)
    ensures
        line@ == scanning_text(regions as int),
{
    let mut line = String::from_str("Scanning ");
    line.append(i128_to_string(regions as i128).as_str());
    line.append(" regions");
    line
}

/// A line that says how many things of one kind were scanned.
fn scanned_line(count: usize, kind: &str) -> (line: String)
    ensures
        line@ == scanned_text(count as int, kind@),
{
    let mut line = String::from_str("Scanned ");
    line.append(i128_to_string(count as i128).as_str());
    line.append(" ");
    line.append(kind);
    line
}

/// The lines of the totals of a scan.
pub fn summary_lines(pattern: &str, summary: &ScanResult) -> (lines: Vec<String>)
    ensures
        views(lines@) == summary_texts(pattern@, summary@),
{
    let mut lines: Vec<String> = Vec::new();
    lines.push(scanned_line(summary.regions, "regions"));
    lines.push(scanned_line(summary.chunks, "chunks"));
    lines.push(scanned_line(summary.sections, "sections"));
    lines.push(scanned_line(summary.blocks, "blocks"));
    let names = distinct_names(&summary.found);
    let mut types = String::from_str("Types: ");
    types.append(join(&names, ", ").as_str());
    lines.push(types);
    let mut found = String::from_str("Found ");
    found.append(i128_to_string(summary.found.len() as i128).as_str());
    found.append(" blocks of ");
    found.append(pattern);
    lines.push(found);
    assert(views(lines@) =~= summary_texts(pattern@, summary@));
    lines
}

/// The detail lines of a block entity: none unless it is a spawner, and of a
/// spawner only the lines whose values are known.
pub fn spawner_lines(entity: &BlockEntity) -> (lines: Vec<String>)
    ensures
        views(lines@) == spawner_texts(entity@),
{
    let mut lines: Vec<String> = Vec::new();
    assert(views(lines@) =~= Seq::<Seq<char>>::empty());
    if entity.id != String::from_str("minecraft:mob_spawner") {
        return lines;
    }
    match (entity.min_spawn_delay, entity.max_spawn_delay) {
        (Some(low), Some(high)) => {
            let ghost before = lines@;
            let mut line = String::from_str("    spawn delay: ");
            line.append(i128_to_string(low as i128).as_str());
            line.append("-");
            line.append(i128_to_string(high as i128).as_str());
            line.append(" ticks");
            lines.push(line);
            assert(views(lines@) =~= views(before).push(line@));
        },
        _ => {},
    }
    match (entity.spawn_count, entity.spawn_range) {
        (Some(count), Some(range)) => {
            let ghost before = lines@;
            let mut line = String::from_str("    spawn count: ");
            line.append(i128_to_string(count as i128).as_str());
            line.append(" @ ");
            line.append(i128_to_string(range as i128).as_str());
            line.append(" blocks");
            lines.push(line);
            assert(views(lines@) =~= views(before).push(line@));
        },
        _ => {},
    }
    match entity.max_entities {
        Some(limit) => {
            let ghost before = lines@;
            let mut line = String::from_str("    max entities: ");
            line.append(i128_to_string(limit as i128).as_str());
            lines.push(line);
            assert(views(lines@) =~= views(before).push(line@));
        },
        None => {},
    }
    match entity.activation_range {
        Some(range) => {
            let ghost before = lines@;
            let mut line = String::from_str("    activation range: ");
            line.append(i128_to_string(range as i128).as_str());
            line.append(" blocks");
            lines.push(line);
            assert(views(lines@) =~= views(before).push(line@));
        },
        None => {},
    }
    lines
}

/// The line of a ranked vein.
pub fn vein_line(rank: usize, size: usize, distance: i64, bounds: &Bounds) -> (line: String)
    ensures
        line@ == vein_text(rank as int, size as int, distance as int, *bounds),
{
    let mut line = String::from_str("Vein ");
    line.append(i128_to_string(rank as i128).as_str());
    line.append(" (");
    line.append(i128_to_string(size as i128).as_str());
    line.append(" blocks, ");
    line.append(i128_to_string(distance as i128).as_str());
    line.append("m away): ");
    line.append(bounds.to_string().as_str());
    line
}

/// The lines of the veins in the order of a ranking, each with its place in
/// the ranking, counted from zero.
pub fn vein_lines(veins: &Vec<Vein>, ranking: &Vec<Ranked>) -> (lines: Vec<String>)
    requires
        forall|k: int| 0 <= k < ranking@.len() ==> (#[trigger] ranking@[k]).index < veins@.len(),
    ensures
        lines@.len() == ranking@.len(),
        forall|k: int|
            0 <= k < ranking@.len() ==> (#[trigger] lines@[k])@ == vein_text(
                k,
                ranking@[k].size as int,
                ranking@[k].distance as int,
                veins@[ranking@[k].index as int].bounds,
            ),
{
    let mut lines: Vec<String> = Vec::new();
    let mut k: usize = 0;
    while k < ranking.len()
        invariant
            k <= ranking.len(),
            lines@.len() == k,
            forall|m: int| 0 <= m < ranking@.len() ==> (#[trigger] ranking@[m]).index < veins@.len(),
            forall|m: int|
                0 <= m < k ==> (#[trigger] lines@[m])@ == vein_text(
                    m,
                    ranking@[m].size as int,
                    ranking@[m].distance as int,
                    veins@[ranking@[m].index as int].bounds,
                ),
        decreases ranking.len() - k,
    {
        let entry = ranking[k];
        lines.push(vein_line(k, entry.size, entry.distance, &veins[entry.index].bounds));
        k += 1;
    }
    lines
}

/// The detail lines of the matches, match after match: those of the block
/// entity that a match carries, none for a match without one.
pub open spec fn details_texts(found: Seq<BlockModel>) -> Seq<Seq<char>>
    decreases found.len(),
{
    if found.len() == 0 {
        Seq::empty()
    } else {
        details_texts(found.drop_last()) + match found.last().entity {
            Some(entity) => spawner_texts(entity),
            None => Seq::empty(),
        }
    }
}

/// The lines of the veins in the order of a ranking.
pub open spec fn ranked_texts(veins: Seq<Vein>, ranking: Seq<Ranked>) -> Seq<Seq<char>> {
    Seq::new(
        ranking.len(),
        |k: int|
            vein_text(
                k,
                ranking[k].size as int,
                ranking[k].distance as int,
                veins[ranking[k].index as int].bounds,
            ),
    )
}

/// `selected` are the matches of `summary` inside `boundary` in position
/// order, and `veins` the veins that they form.
pub open spec fn clusters_of(
    summary: ScanResult,
    boundary: Bounds,
    selected: Seq<BlockDescriptor>,
    veins: Seq<Vein>,
) -> bool {
    selects(summary.found@, boundary, selected) && exists|listing: Seq<Seq<usize>>|
        veins_of(selected, veins, listing)
}

/// `lines` is the report on `selected` and `veins`: the totals of the scan
/// with the selected matches, the details of those matches, and the veins in
/// the order of `ranking`.
pub open spec fn reports(
    pattern: Seq<char>,
    summary: ScanResult,
    selected: Seq<BlockDescriptor>,
    veins: Seq<Vein>,
    ranking: Seq<Ranked>,
    lines: Seq<Seq<char>>,
) -> bool {
    lines == summary_texts(
        pattern,
        ScanTotals {
            regions: summary.regions as nat,
            chunks: summary.chunks as nat,
            sections: summary.sections as nat,
            blocks: summary.blocks as nat,
            found: block_models(selected),
        },
    ) + details_texts(block_models(selected)) + ranked_texts(veins, ranking)
}

/// `lines` is the report of a search: of the matches inside `boundary`, in
/// position order, and of the veins that they form, ranked as seen from `home`.
pub open spec fn is_report(
    pattern: Seq<char>,
    summary: ScanResult,
    boundary: Bounds,
    home: Point,
    lines: Seq<Seq<char>>,
) -> bool {
    exists|selected: Seq<BlockDescriptor>, veins: Seq<Vein>, ranking: Seq<Ranked>|
        #[trigger] clusters_of(summary, boundary, selected, veins) && is_ranking(
            veins,
            home,
            ranking,
        ) && #[trigger] reports(pattern, summary, selected, veins, ranking, lines)
}

/// No report can be made: a vein of the matches inside `boundary` lies too
/// far from `home` for its distance to fit in `i64`.
pub open spec fn is_out_of_reach(summary: ScanResult, boundary: Bounds, home: Point) -> bool {
    exists|selected: Seq<BlockDescriptor>, veins: Seq<Vein>|
        #[trigger] clusters_of(summary, boundary, selected, veins) && !rankable(veins, home)
}

/// The detail lines of the matches, match after match.
pub fn details_lines(found: &Vec<BlockDescriptor>) -> (lines: Vec<String>)
    ensures
        views(lines@) == details_texts(block_models(found@)),
{
    let ghost all = block_models(found@);
    let mut lines: Vec<String> = Vec::new();
    let mut i: usize = 0;
    assert(all.take(0) =~= Seq::<BlockModel>::empty());
    assert(views(lines@) =~= details_texts(all.take(0)));
    while i < found.len()
        invariant
            i <= found.len(),
            all == block_models(found@),
            views(lines@) == details_texts(all.take(i as int)),
        decreases found.len() - i,
    {
        proof {
            assert(all.take(i + 1).drop_last() =~= all.take(i as int));
            assert(all.take(i + 1).last() == found@[i as int]@);
        }
        let ghost before = lines@;
        match &found[i].enity {
            Some(entity) => {
                let mut added = spawner_lines(entity);
                let ghost new_lines = added@;
                lines.append(&mut added);
                assert(views(before + new_lines) =~= views(before) + views(new_lines));
            },
            None => {
                assert(views(before) + Seq::<Seq<char>>::empty() =~= views(before));
            },
        }
        i += 1;
    }
    assert(all.take(i as int) =~= all);
    lines
}

/// The report of a search, line by line: the totals of the scan with the
/// matches inside `boundary`, the details of those matches, and the veins
/// that they form, nearest to `home` first. `None` where a vein lies too far
/// from `home` for its distance to fit in `i64`.
pub fn render_report(pattern: &str, summary: ScanResult, boundary: &Bounds, home: &Point) -> (lines:
    Option<Vec<String>>)
    ensures
        match lines {
            Some(lines) => is_report(pattern@, summary, *boundary, *home, views(lines@)),
            None => is_out_of_reach(summary, *boundary, *home),
        },
{
    let selected = select_within(summary, boundary);
    let mut lines = summary_lines(pattern, &selected);
    let mut details = details_lines(&selected.found);
    let ghost head = lines@;
    let ghost middle = details@;
    lines.append(&mut details);
    assert(views(head + middle) =~= views(head) + views(middle));
    let ghost chosen = selected.found@;
    let veins = find_veins(selected.found);
    assert(clusters_of(summary, *boundary, chosen, veins@));
    match rank_veins(&veins, home) {
        Some(ranking) => {
            let mut ranked = vein_lines(&veins, &ranking);
            let ghost before = lines@;
            let ghost last = ranked@;
            lines.append(&mut ranked);
            proof {
                assert(views(before + last) =~= views(before) + views(last));
                assert(views(last) =~= ranked_texts(veins@, ranking@));
                assert(reports(pattern@, summary, chosen, veins@, ranking@, views(lines@)));
            }
            Some(lines)
        },
        None => None,
    }
}

} // verus!
