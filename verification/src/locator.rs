//! Scanning a region: each chunk slot is decoded and searched, and the
//! results of the slots add up to the result of the region.

use crate::blocks::{
    block_models, entity_models, BlockDescriptor, BlockEntity, BlockModel, ChunkEntityContainer,
    EntityModel,
};
use crate::names::{
    name_matches, normalize_with, normalized_with, rule_models, wildcard_matches, NameRule,
    RuleModel,
};
use crate::nbt::{chunk_is_safe, is_safe_chunk};
use crate::scan::{lemma_plus_zero, ScanResult, ScanTotals};
use crate::sections::{
    air_name, cell_block, cell_name, cells_examined, cells_found, chunk_totals, entities_found,
    entity_block, entity_totals, has_index_table, has_non_air, is_air_palette, is_examined,
    local_x, local_y, local_z, region_in_range, section_blocks, section_found, section_models,
    sections_blocks, sections_counted, sections_found, Place, Search, SectionData, SectionModel,
};
use vstd::prelude::*;

verus! {

/// What a scan of one section reports besides its matches.
#[derive(Clone, Copy, Debug, PartialEq, Eq, Structural)]
pub struct SectionTally {
    /// Whether the section was examined.
    pub examined: bool,
    /// How many of its blocks were not air.
    pub blocks: usize,
}

/// The offsets of a cell within its section, as `(x, y, z)`: one nibble of
/// the cell number each, x lowest, then z, then y.
pub fn local_offsets(cell: usize) -> (local: (i64, i64, i64))
    ensures
        local.0 == local_x(cell as int),
        local.1 == local_y(cell as int),
        local.2 == local_z(cell as int),
        0 <= local.0 < 16,
        0 <= local.1 < 16,
        0 <= local.2 < 16,
{
    let c = cell as u64;
    assert(c & 0x000F == c % 16) by (bit_vector);
    assert((c & 0x0F00) >> 8 == (c / 256) % 16) by (bit_vector);
    assert((c & 0x00F0) >> 4 == (c / 16) % 16) by (bit_vector);
    ((c & 0x000F) as i64, ((c & 0x0F00) >> 8) as i64, ((c & 0x00F0) >> 4) as i64)
}

/// Whether the palette holds air and nothing else.
pub fn palette_is_air(palette: &Vec<String>) -> (air: bool)
    ensures
        air == is_air_palette(palette@.map_values(|name: String| name@)),
{
    palette.len() == 1 && palette[0] == String::from_str("minecraft:air")
}

/// Whether each entry of the index table points into a palette of `len` names.
fn indices_point_into(cells: &Vec<usize>, len: usize) -> (valid: bool)
    ensures
        valid == forall|i: int| 0 <= i < cells@.len() ==> #[trigger] cells@[i] < len,
{
    let mut i: usize = 0;
    while i < cells.len()
        invariant
            i <= cells.len(),
            forall|k: int| 0 <= k < i ==> #[trigger] cells@[k] < len,
        decreases cells.len() - i,
    {
        if cells[i] >= len {
            return false;
        }
        i += 1;
    }
    true
}

/// For each name of a palette: `None` for air and for a name that does not
/// match, else the normalized name.
fn palette_choices(pattern: &str, rules: &Vec<NameRule>, palette: &Vec<String>) -> (choices: (
    Vec<bool>,
    Vec<Option<String>>,
))
    ensures
        choices.0@.len() == palette@.len(),
        choices.1@.len() == palette@.len(),
        forall|k: int|
            0 <= k < palette@.len() ==> #[trigger] choices.0@[k] == (palette@[k]@ == air_name()),
        forall|k: int|
            0 <= k < palette@.len() ==> (#[trigger] choices.1@[k] is Some) == (palette@[k]@
                != air_name() && wildcard_matches(pattern@, palette@[k]@)),
        forall|k: int|
            0 <= k < palette@.len() ==> (#[trigger] choices.1@[k] matches Some(name) ==> name@
                == normalized_with(rule_models(rules@), palette@[k]@)),
{
    let air = String::from_str("minecraft:air");
    let mut airy: Vec<bool> = Vec::new();
    let mut chosen: Vec<Option<String>> = Vec::new();
    let mut k: usize = 0;
    while k < palette.len()
        invariant
            k <= palette.len(),
            air@ == air_name(),
            airy@.len() == k,
            chosen@.len() == k,
            forall|j: int| 0 <= j < k ==> #[trigger] airy@[j] == (palette@[j]@ == air_name()),
            forall|j: int|
                0 <= j < k ==> (#[trigger] chosen@[j] is Some) == (palette@[j]@ != air_name()
                    && wildcard_matches(pattern@, palette@[j]@)),
            forall|j: int|
                0 <= j < k ==> (#[trigger] chosen@[j] matches Some(name) ==> name@
                    == normalized_with(rule_models(rules@), palette@[j]@)),
        decreases palette.len() - k,
    {
        let name = &palette[k];
        let is_air = *name == air;
        airy.push(is_air);
        if !is_air && name_matches(pattern, name.as_str()) {
            chosen.push(Some(normalize_with(rules, name.as_str())));
        } else {
            chosen.push(None);
        }
        k += 1;
    }
    (airy, chosen)
}

/// Scans one section: appends its matches to `found` and reports whether the
/// section was examined and how many of its blocks were not air. A section
/// that is air, or whose index table is missing or points outside the
/// palette, is passed over.
pub fn scan_section(
    pattern: &str,
    rules: &Vec<NameRule>,
    place: Place,
    section: &SectionData,
    found: &mut Vec<BlockDescriptor>,
) -> (tally: SectionTally)
    requires
        place.in_range(),
    ensures
        tally.examined == is_examined(section@),
        tally.blocks == section_blocks(section@),
        block_models(final(found)@) == block_models(old(found)@) + section_found(
            Search { pattern: pattern@, rules: rule_models(rules@), place },
            section@,
        ),
{
    let ghost search = Search { pattern: pattern@, rules: rule_models(rules@), place };
    let ghost model = section@;
    assert(block_models(found@) + Seq::<BlockModel>::empty() =~= block_models(found@));
    let cells = match &section.indices {
        Some(cells) => cells,
        None => {
            return SectionTally { examined: false, blocks: 0 };
        },
    };
    assert(model.indices == Some(cells@));
    assert(model.palette.len() == section.palette@.len());
    let air = palette_is_air(&section.palette);
    let valid = indices_point_into(cells, section.palette.len());
    assert(valid == has_index_table(model)) by {
        let table = model.indices->0;
        assert(table == cells@);
        if valid {
            assert forall|i: int| 0 <= i < table.len() implies #[trigger] table[i]
                < model.palette.len() by {
                assert(cells@[i] < section.palette.len());
            }
        }
        if has_index_table(model) {
            assert forall|i: int| 0 <= i < cells@.len() implies #[trigger] cells@[i]
                < section.palette.len() by {
                assert(table[i] < model.palette.len());
            }
        }
    }
    assert(air == is_air_palette(model.palette));
    if air || !valid {
        return SectionTally { examined: false, blocks: 0 };
    }
    assert(is_examined(model));
    let (airy, chosen) = palette_choices(pattern, rules, &section.palette);
    let base_x: i64 = place.rx * 512 + place.cx * 16;
    let base_y: i64 = (section.y as i64) * 16;
    let base_z: i64 = place.rz * 512 + place.cz * 16;
    let ghost before = block_models(found@);
    let mut blocks: usize = 0;
    let mut i: usize = 0;
    while i < cells.len()
        invariant
            i <= cells.len(),
            place.in_range(),
            model == section@,
            search == (Search { pattern: pattern@, rules: rule_models(rules@), place }),
            section.indices == Some(*cells),
            has_index_table(model),
            base_x == place.rx * 512 + place.cx * 16,
            base_y == section.y * 16,
            base_z == place.rz * 512 + place.cz * 16,
            airy@.len() == section.palette@.len(),
            chosen@.len() == section.palette@.len(),
            forall|k: int|
                0 <= k < section.palette@.len() ==> #[trigger] airy@[k] == (section.palette@[k]@
                    == air_name()),
            forall|k: int|
                0 <= k < section.palette@.len() ==> (#[trigger] chosen@[k] is Some) == (
                section.palette@[k]@ != air_name() && wildcard_matches(
                    pattern@,
                    section.palette@[k]@,
                )),
            forall|k: int|
                0 <= k < section.palette@.len() ==> (#[trigger] chosen@[k] matches Some(name)
                    ==> name@ == normalized_with(
                    rule_models(rules@),
                    section.palette@[k]@,
                )),
            blocks == cells_examined(model, i as nat),
            blocks <= i,
            block_models(found@) == before + cells_found(search, model, i as nat),
        decreases cells.len() - i,
    {
        let index = cells[i];
        assert(cells@[i as int] < section.palette@.len());
        assert(cell_name(model, i as int) == section.palette@[index as int]@);
        if !airy[index] {
            blocks += 1;
            match &chosen[index] {
                Some(name) => {
                    let (x, y, z) = local_offsets(i);
                    let ghost old_found = found@;
                    let block = BlockDescriptor {
                        name: name.clone(),
                        x: base_x + x,
                        y: base_y + y,
                        z: base_z + z,
                        enity: None,
                    };
                    assert(block@ == cell_block(search, model, i as int));
                    found.push(block);
                    assert(block_models(found@) =~= block_models(old_found).push(block@));
                },
                None => {},
            }
        }
        i += 1;
    }
    SectionTally { examined: true, blocks }
}

/// The descriptors of the block entities whose id matches the pattern, in
/// their order. Each carries its record.
pub fn entity_matches(pattern: &str, entities: &Vec<BlockEntity>) -> (found: Vec<BlockDescriptor>)
    ensures
        block_models(found@) == entities_found(pattern@, entity_models(entities@)),
{
    let mut found: Vec<BlockDescriptor> = Vec::new();
    let ghost accepts = |e: EntityModel| wildcard_matches(pattern@, e.id);
    let mut i: usize = 0;
    assert(entity_models(entities@.take(0)) =~= Seq::<EntityModel>::empty());
    assert(block_models(found@) =~= entities_found(pattern@, entity_models(entities@.take(0))))
        by {
        reveal(Seq::filter);
    }
    while i < entities.len()
        invariant
            i <= entities.len(),
            block_models(found@) == entities_found(pattern@, entity_models(entities@.take(i as int))),
        decreases entities.len() - i,
    {
        let entity = &entities[i];
        let ghost old_found = found@;
        proof {
            let next = entity_models(entities@.take(i + 1));
            assert(next.drop_last() =~= entity_models(entities@.take(i as int)));
            assert(next.last() == entity@);
            reveal(Seq::filter);
        }
        if name_matches(pattern, entity.id.as_str()) {
            let block = BlockDescriptor {
                name: entity.id.clone(),
                x: entity.x,
                y: entity.y,
                z: entity.z,
                enity: Some(entity.clone()),
            };
            assert(block@ == entity_block(entity@));
            found.push(block);
            assert(block_models(found@) =~= block_models(old_found).push(block@));
            assert(block_models(found@) =~= entities_found(
                pattern@,
                entity_models(entities@.take(i + 1)),
            ));
        }
        i += 1;
    }
    assert(entities@.take(i as int) =~= entities@);
    found
}

/// One populated chunk slot of a region file: the chunk's bytes and the
/// block entities that were read out of them.
#[derive(Debug)]
pub struct ChunkRecord {
    /// The decompressed chunk, as the region file holds it.
    pub data: Vec<u8>,
    /// The block entities of the chunk, or `None` where they could not be read.
    pub entities: Option<ChunkEntityContainer>,
}

/// What a `ChunkRecord` holds: its bytes and its block entities, none where
/// they could not be read.
pub struct RecordModel {
    pub data: Seq<u8>,
    pub entities: Seq<EntityModel>,
}

impl View for ChunkRecord {
    type V = RecordModel;

    open spec fn view(&self) -> RecordModel {
        RecordModel {
            data: self.data@,
            entities: match self.entities {
                Some(container) => entity_models(container.block_entities@),
                None => Seq::empty(),
            },
        }
    }
}

/// The models of the slots of a region, in slot order.
pub open spec fn slot_models(slots: Seq<Option<ChunkRecord>>) -> Seq<Option<RecordModel>> {
    slots.map_values(
        |slot: Option<ChunkRecord>|
            match slot {
                Some(record) => Some(record@),
                None => None,
            },
    )
}

/// The sections that the decoder makes of the bytes of a chunk, or `None`
/// where it takes the bytes for no chunk in the current format or the chunk
/// has no sections.
pub uninterp spec fn decoded_sections(data: Seq<u8>) -> Option<Seq<SectionModel>>;

/// Calls `fastnbt::from_bytes` for a `fastanvil::CurrentJavaChunk`, which
/// is the first step of `fastanvil::JavaChunk::from_bytes` and the one that
/// decides whether it gives a chunk in the current format. Of each section
/// the wrapper copies out its `y`, the names of its palette and what
/// `try_iter_indices` yields. The decoder panics on a list of the tag 0 that
/// is not empty, may lose its place where height maps come as a list, and
/// cannot size an index table for an empty palette: such bytes are left out.
/// The contract claims only that equal bytes decode to equal sections.
#[verifier::external_body]
pub(crate) fn decode_sections(data: &Vec<u8>) -> (sections: Option<Vec<SectionData>>)
    requires
        is_safe_chunk(data@),
    ensures
        match sections {
            Some(list) => decoded_sections(data@) == Some(section_models(list@)),
            None => decoded_sections(data@) is None,
        },
{
    match fastnbt::from_bytes::<fastanvil::CurrentJavaChunk>(data) {
        Ok(chunk) => chunk.sections.map(|tower| {
            tower.sections().iter().map(|s| SectionData {
                y: s.y,
                palette: s.block_states.palette().iter().map(|b| b.name().to_string()).collect(),
                indices: s.block_states.try_iter_indices().map(|cells| cells.collect()),
            }).collect()
        }),
        Err(_) => None,
    }
}

/// The sections of a chunk: what the decoder makes of its bytes where they
/// can be handed to it, and `None` for any other bytes.
pub open spec fn chunk_sections(data: Seq<u8>) -> Option<Seq<SectionModel>> {
    if is_safe_chunk(data) {
        decoded_sections(data)
    } else {
        None
    }
}

/// The models of the sections that decoding gave, if it gave any.
pub open spec fn decoded_models(decoded: Option<Vec<SectionData>>) -> Option<Seq<SectionModel>> {
    match decoded {
        Some(sections) => Some(section_models(sections@)),
        None => None,
    }
}

/// Decodes the bytes of a chunk into its sections. Bytes that cannot be
/// handed to the decoder count as bytes that hold no chunk.
pub fn decode_chunk(data: &Vec<u8>) -> (sections: Option<Vec<SectionData>>)
    ensures
        decoded_models(sections) == chunk_sections(data@),
{
    if chunk_is_safe(data) {
        decode_sections(data)
    } else {
        None
    }
}

/// The block counter never shrinks as sections are added.
proof fn lemma_sections_blocks_monotone(sections: Seq<SectionModel>, n: int)
    requires
        0 <= n <= sections.len(),
    ensures
        sections_blocks(sections.take(n)) <= sections_blocks(sections),
    decreases sections.len() - n,
{
    if n == sections.len() {
        assert(sections.take(n) =~= sections);
    } else {
        lemma_sections_blocks_monotone(sections, n + 1);
        assert(sections.take(n + 1).drop_last() =~= sections.take(n));
    }
}

/// Scans one decoded chunk: the block entities first, then the sections in
/// their order. `None` exactly where the block counter does not fit in `usize`.
pub fn scan_chunk(
    pattern: &str,
    rules: &Vec<NameRule>,
    place: Place,
    entities: &Vec<BlockEntity>,
    sections: &Vec<SectionData>,
) -> (result: Option<ScanResult>)
    requires
        place.in_range(),
    ensures
        result is Some <==> chunk_totals(
            Search { pattern: pattern@, rules: rule_models(rules@), place },
            entity_models(entities@),
            section_models(sections@),
        ).fits(),
        result matches Some(scan) ==> scan@ == chunk_totals(
            Search { pattern: pattern@, rules: rule_models(rules@), place },
            entity_models(entities@),
            section_models(sections@),
        ),
{
    let ghost search = Search { pattern: pattern@, rules: rule_models(rules@), place };
    let ghost all = section_models(sections@);
    let mut found = entity_matches(pattern, entities);
    let ghost first = block_models(found@);
    let mut counted: usize = 0;
    let mut blocks: usize = 0;
    let mut non_air = false;
    let mut i: usize = 0;
    assert(all.take(0) =~= Seq::<SectionModel>::empty());
    assert(first + sections_found(search, all.take(0)) =~= first);
    while i < sections.len()
        invariant
            i <= sections.len(),
            place.in_range(),
            all == section_models(sections@),
            search == (Search { pattern: pattern@, rules: rule_models(rules@), place }),
            counted == sections_counted(all.take(i as int)),
            counted <= i,
            blocks == sections_blocks(all.take(i as int)),
            non_air == has_non_air(all.take(i as int)),
            block_models(found@) == first + sections_found(search, all.take(i as int)),
        decreases sections.len() - i,
    {
        let section = &sections[i];
        let ghost before = block_models(found@);
        proof {
            assert(all.take(i + 1).drop_last() =~= all.take(i as int));
            assert(all.take(i + 1).last() == section@);
        }
        let air = palette_is_air(&section.palette);
        let tally = scan_section(pattern, rules, place, section, &mut found);
        proof {
            assert(block_models(found@) =~= first + sections_found(search, all.take(i + 1)));
            if has_non_air(all.take(i as int)) {
                let k = choose|k: int|
                    0 <= k < all.take(i as int).len() && !is_air_palette(
                        #[trigger] all.take(i as int)[k].palette,
                    );
                assert(all.take(i + 1)[k] == all.take(i as int)[k]);
            }
            if !air {
                assert(!is_air_palette(all.take(i + 1)[i as int].palette));
            }
            if has_non_air(all.take(i + 1)) {
                let k = choose|k: int|
                    0 <= k < all.take(i + 1).len() && !is_air_palette(
                        #[trigger] all.take(i + 1)[k].palette,
                    );
                if k < i {
                    assert(all.take(i as int)[k] == all.take(i + 1)[k]);
                }
            }
        }
        if tally.blocks > usize::MAX - blocks {
            proof {
                lemma_sections_blocks_monotone(all, i + 1);
            }
            return None;
        }
        blocks = blocks + tally.blocks;
        if tally.examined {
            counted = counted + 1;
        }
        non_air = non_air || !air;
        i += 1;
    }
    assert(all.take(i as int) =~= all);
    Some(
        ScanResult {
            regions: 0,
            chunks: if non_air {
                1
            } else {
                0
            },
            sections: counted,
            blocks,
            found,
        },
    )
}

/// What one chunk slot adds to a scan. Where the bytes decode to sections,
/// the chunk is scanned; where they do not, only its block entities count.
pub open spec fn record_totals(search: Search, record: RecordModel) -> ScanTotals {
    match chunk_sections(record.data) {
        Some(sections) => chunk_totals(search, record.entities, sections),
        None => entity_totals(search.pattern, record.entities),
    }
}

/// Scans what decoding made of a chunk slot: the sections of the chunk, or
/// `None` for bytes that hold none. `None` is returned exactly where the
/// block counter does not fit in `usize`.
pub fn scan_decoded(
    pattern: &str,
    rules: &Vec<NameRule>,
    place: Place,
    entities: &Vec<BlockEntity>,
    decoded: Option<Vec<SectionData>>,
) -> (result: Option<ScanResult>)
    requires
        place.in_range(),
    ensures
        result is Some <==> decoded_totals(
            Search { pattern: pattern@, rules: rule_models(rules@), place },
            entity_models(entities@),
            decoded,
        ).fits(),
        result matches Some(scan) ==> scan@ == decoded_totals(
            Search { pattern: pattern@, rules: rule_models(rules@), place },
            entity_models(entities@),
            decoded,
        ),
{
    match decoded {
        Some(sections) => scan_chunk(pattern, rules, place, entities, &sections),
        None => {
            let found = entity_matches(pattern, entities);
            Some(ScanResult { regions: 0, chunks: 0, sections: 0, blocks: 0, found })
        },
    }
}

/// What a chunk slot adds to a scan, given what its bytes decoded to.
pub open spec fn decoded_totals(
    search: Search,
    entities: Seq<EntityModel>,
    decoded: Option<Vec<SectionData>>,
) -> ScanTotals {
    match decoded {
        Some(sections) => chunk_totals(search, entities, section_models(sections@)),
        None => entity_totals(search.pattern, entities),
    }
}

/// Scans one populated chunk slot: decodes its bytes and scans what comes
/// out. `None` exactly where the block counter does not fit in `usize`.
pub fn scan_record(pattern: &str, rules: &Vec<NameRule>, place: Place, record: &ChunkRecord) -> (result:
    Option<ScanResult>)
    requires
        place.in_range(),
    ensures
        result is Some <==> record_totals(
            Search { pattern: pattern@, rules: rule_models(rules@), place },
            record@,
        ).fits(),
        result matches Some(scan) ==> scan@ == record_totals(
            Search { pattern: pattern@, rules: rule_models(rules@), place },
            record@,
        ),
{
    let decoded = decode_chunk(&record.data);
    match &record.entities {
        Some(container) => scan_decoded(pattern, rules, place, &container.block_entities, decoded),
        None => {
            let none: Vec<BlockEntity> = Vec::new();
            assert(entity_models(none@) =~= Seq::<EntityModel>::empty());
            scan_decoded(pattern, rules, place, &none, decoded)
        },
    }
}

/// The place of slot `k` of a region: slots run along x first, then along z.
pub open spec fn slot_place(rx: i64, rz: i64, k: int) -> Place {
    Place { rx, rz, cx: (k % 32) as i64, cz: (k / 32) as i64 }
}

/// What slot `k` of a region adds to a scan: nothing where the slot is empty.
pub open spec fn slot_totals(
    pattern: Seq<char>,
    rules: Seq<RuleModel>,
    rx: i64,
    rz: i64,
    slots: Seq<Option<RecordModel>>,
    k: int,
) -> ScanTotals {
    match slots[k] {
        Some(record) => record_totals(
            Search { pattern, rules, place: slot_place(rx, rz, k) },
            record,
        ),
        None => ScanTotals::zero(),
    }
}

/// The totals of a scan that has opened one region and seen nothing yet.
pub open spec fn one_region() -> ScanTotals {
    ScanTotals { regions: 1, chunks: 0, sections: 0, blocks: 0, found: Seq::empty() }
}

/// The totals of the first `n` slots of a region, after the region itself.
pub open spec fn slots_totals(
    pattern: Seq<char>,
    rules: Seq<RuleModel>,
    rx: i64,
    rz: i64,
    slots: Seq<Option<RecordModel>>,
    n: nat,
) -> ScanTotals
    decreases n,
{
    if n == 0 {
        one_region()
    } else {
        slots_totals(pattern, rules, rx, rz, slots, (n - 1) as nat).plus(
            slot_totals(pattern, rules, rx, rz, slots, n - 1),
        )
    }
}

/// The totals of a region: one region, and what each of its slots adds, in
/// slot order.
pub open spec fn region_totals(
    pattern: Seq<char>,
    rules: Seq<RuleModel>,
    rx: i64,
    rz: i64,
    slots: Seq<Option<RecordModel>>,
) -> ScanTotals {
    slots_totals(pattern, rules, rx, rz, slots, slots.len())
}

/// The counters never shrink as slots are added.
proof fn lemma_slots_totals_monotone(
    pattern: Seq<char>,
    rules: Seq<RuleModel>,
    rx: i64,
    rz: i64,
    slots: Seq<Option<RecordModel>>,
    n: nat,
    m: nat,
)
    requires
        n <= m,
    ensures
        slots_totals(pattern, rules, rx, rz, slots, n).chunks <= slots_totals(
            pattern,
            rules,
            rx,
            rz,
            slots,
            m,
        ).chunks,
        slots_totals(pattern, rules, rx, rz, slots, n).sections <= slots_totals(
            pattern,
            rules,
            rx,
            rz,
            slots,
            m,
        ).sections,
        slots_totals(pattern, rules, rx, rz, slots, n).blocks <= slots_totals(
            pattern,
            rules,
            rx,
            rz,
            slots,
            m,
        ).blocks,
        slots_totals(pattern, rules, rx, rz, slots, m).regions == 1,
    decreases m,
{
    if m > 0 {
        if n < m {
            lemma_slots_totals_monotone(pattern, rules, rx, rz, slots, n, (m - 1) as nat);
        } else {
            lemma_slots_totals_monotone(pattern, rules, rx, rz, slots, 0, (m - 1) as nat);
        }
    }
}

/// Scans a region: its 32×32 chunk slots in file order, along x first. An
/// empty slot adds nothing. `None` exactly where a counter does not fit in
/// `usize`.
pub fn locate_in_region(
    pattern: &str,
    rules: &Vec<NameRule>,
    slots: &Vec<Option<ChunkRecord>>,
    rx: i64,
    rz: i64,
) -> (result: Option<ScanResult>)
    requires
        slots@.len() == 1024,
        region_in_range(rx),
        region_in_range(rz),
    ensures
        result is Some <==> region_totals(
            pattern@,
            rule_models(rules@),
            rx,
            rz,
            slot_models(slots@),
        ).fits(),
        result matches Some(scan) ==> scan@ == region_totals(
            pattern@,
            rule_models(rules@),
            rx,
            rz,
            slot_models(slots@),
        ),
{
    let ghost all = slot_models(slots@);
    let mut summary = ScanResult { regions: 1, chunks: 0, sections: 0, blocks: 0, found: Vec::new() };
    assert(summary@.found =~= Seq::empty());
    let mut k: usize = 0;
    while k < slots.len()
        invariant
            k <= slots.len(),
            slots@.len() == 1024,
            region_in_range(rx),
            region_in_range(rz),
            all == slot_models(slots@),
            summary@ == slots_totals(pattern@, rule_models(rules@), rx, rz, all, k as nat),
        decreases slots.len() - k,
    {
        let ghost before = summary@;
        let ghost added = slot_totals(pattern@, rule_models(rules@), rx, rz, all, k as int);
        proof {
            lemma_plus_zero(before);
        }
        match &slots[k] {
            Some(record) => {
                let place = Place { rx, rz, cx: (k % 32) as i64, cz: (k / 32) as i64 };
                assert(place == slot_place(rx, rz, k as int));
                assert(all[k as int] == Some(record@));
                match scan_record(pattern, rules, place, record) {
                    Some(mut scan) => {
                        if scan.chunks > usize::MAX - summary.chunks || scan.sections > usize::MAX
                            - summary.sections || scan.blocks > usize::MAX - summary.blocks {
                            proof {
                                lemma_slots_totals_monotone(
                                    pattern@,
                                    rule_models(rules@),
                                    rx,
                                    rz,
                                    all,
                                    (k + 1) as nat,
                                    1024,
                                );
                            }
                            return None;
                        }
                        let ghost old_found = summary.found@;
                        let ghost new_found = scan.found@;
                        summary.chunks = summary.chunks + scan.chunks;
                        summary.sections = summary.sections + scan.sections;
                        summary.blocks = summary.blocks + scan.blocks;
                        summary.found.append(&mut scan.found);
                        assert(block_models(old_found + new_found) =~= block_models(old_found)
                            + block_models(new_found));
                    },
                    None => {
                        proof {
                            lemma_slots_totals_monotone(
                                pattern@,
                                rule_models(rules@),
                                rx,
                                rz,
                                all,
                                (k + 1) as nat,
                                1024,
                            );
                        }
                        return None;
                    },
                }
            },
            None => {
                assert(all[k as int] is None);
            },
        }
        k += 1;
    }
    proof {
        lemma_slots_totals_monotone(pattern@, rule_models(rules@), rx, rz, all, 0, 1024);
    }
    Some(summary)
}

} // verus!
