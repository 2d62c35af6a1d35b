//! The block scanner: walks the sections of a chunk, counts what it examines
//! and collects the blocks and block entities whose names match a pattern.

use crate::blocks::{BlockModel, EntityModel};
use crate::names::{normalized_with, wildcard_matches, RuleModel};
use crate::scan::ScanTotals;
use vstd::prelude::*;

verus! {

/// One 16×16×16 section of a chunk: its vertical index, its palette of block
/// names and, where the section stores one, the palette index of each cell.
#[derive(Debug, PartialEq, Eq)]
pub struct SectionData {
    pub y: i8,
    pub palette: Vec<String>,
    pub indices: Option<Vec<usize>>,
}

/// What a `SectionData` holds, with its names as sequences of characters.
pub struct SectionModel {
    pub y: i8,
    pub palette: Seq<Seq<char>>,
    pub indices: Option<Seq<usize>>,
}

impl View for SectionData {
    type V = SectionModel;

    open spec fn view(&self) -> SectionModel {
        SectionModel {
            y: self.y,
            palette: self.palette@.map_values(|name: String| name@),
            indices: match self.indices {
                Some(cells) => Some(cells@),
                None => None,
            },
        }
    }
}

/// The models of a sequence of sections, in the same order.
pub open spec fn section_models(sections: Seq<SectionData>) -> Seq<SectionModel> {
    sections.map_values(|s: SectionData| s@)
}

/// Where a chunk lies: the coordinates of its region and its slot in the region.
#[derive(Clone, Copy, Debug, PartialEq, Eq, Structural)]
pub struct Place {
    pub rx: i64,
    pub rz: i64,
    pub cx: i64,
    pub cz: i64,
}

/// Whether the blocks of region `r` along one axis have `i64` coordinates.
pub open spec fn region_in_range(r: i64) -> bool {
    i64::MIN <= r * 512 && r * 512 + 511 <= i64::MAX
}

impl Place {
    /// The chunk slot is one of the 32×32 of a region, and the region's blocks
    /// have `i64` coordinates.
    pub open spec fn in_range(self) -> bool {
        &&& 0 <= self.cx < 32
        &&& 0 <= self.cz < 32
        &&& region_in_range(self.rx)
        &&& region_in_range(self.rz)
    }
}

/// What a search looks for and where: the wildcard pattern, the alias table
/// and the place of the chunk at hand.
pub struct Search {
    pub pattern: Seq<char>,
    pub rules: Seq<RuleModel>,
    pub place: Place,
}

/// The name of air.
pub open spec fn air_name() -> Seq<char> {
    "minecraft:air"@
}

/// A palette that holds air and nothing else.
pub open spec fn is_air_palette(palette: Seq<Seq<char>>) -> bool {
    palette.len() == 1 && palette[0] == air_name()
}

/// The section has an index table, and each entry of it points into the palette.
pub open spec fn has_index_table(section: SectionModel) -> bool {
    section.indices matches Some(cells) && forall|i: int|
        0 <= i < cells.len() ==> #[trigger] cells[i] < section.palette.len()
}

/// The section is examined: it is not air and its index table can be read.
pub open spec fn is_examined(section: SectionModel) -> bool {
    !is_air_palette(section.palette) && has_index_table(section)
}

/// The offset of a cell within its section, along x.
pub open spec fn local_x(cell: int) -> int {
    cell % 16
}

/// The offset of a cell within its section, along y.
pub open spec fn local_y(cell: int) -> int {
    (cell / 256) % 16
}

/// The offset of a cell within its section, along z.
pub open spec fn local_z(cell: int) -> int {
    (cell / 16) % 16
}

/// The world x of a cell: 512 blocks per region, 16 per chunk, then the offset.
pub open spec fn world_x(place: Place, cell: int) -> int {
    place.rx * 512 + place.cx * 16 + local_x(cell)
}

/// The world y of a cell: 16 blocks per section, then the offset.
pub open spec fn world_y(section_y: i8, cell: int) -> int {
    section_y * 16 + local_y(cell)
}

/// The world z of a cell: 512 blocks per region, 16 per chunk, then the offset.
pub open spec fn world_z(place: Place, cell: int) -> int {
    place.rz * 512 + place.cz * 16 + local_z(cell)
}

/// The name of the block in a cell of a section with an index table.
pub open spec fn cell_name(section: SectionModel, cell: int) -> Seq<char> {
    section.palette[section.indices->0[cell] as int]
}

/// Whether the block in a cell counts as examined: it is not air.
pub open spec fn cell_examined(section: SectionModel, cell: int) -> bool {
    cell_name(section, cell) != air_name()
}

/// Whether the block in a cell is a match: it is not air and its name matches.
pub open spec fn cell_matched(search: Search, section: SectionModel, cell: int) -> bool {
    cell_examined(section, cell) && wildcard_matches(search.pattern, cell_name(section, cell))
}

/// The descriptor of a matched cell: the normalized name at the world position.
pub open spec fn cell_block(search: Search, section: SectionModel, cell: int) -> BlockModel {
    BlockModel {
        name: normalized_with(search.rules, cell_name(section, cell)),
        x: world_x(search.place, cell) as i64,
        y: world_y(section.y, cell) as i64,
        z: world_z(search.place, cell) as i64,
        entity: None,
    }
}

/// The matches among the first `n` cells of a section, in cell order.
pub open spec fn cells_found(search: Search, section: SectionModel, n: nat) -> Seq<BlockModel>
    decreases n,
{
    if n == 0 {
        Seq::empty()
    } else {
        let before = cells_found(search, section, (n - 1) as nat);
        if cell_matched(search, section, n - 1) {
            before.push(cell_block(search, section, n - 1))
        } else {
            before
        }
    }
}

/// How many of the first `n` cells of a section are examined.
pub open spec fn cells_examined(section: SectionModel, n: nat) -> nat
    decreases n,
{
    if n == 0 {
        0
    } else {
        cells_examined(section, (n - 1) as nat) + if cell_examined(section, n - 1) {
            1nat
        } else {
            0nat
        }
    }
}

/// The matches of a section: none where the section is not examined.
pub open spec fn section_found(search: Search, section: SectionModel) -> Seq<BlockModel> {
    if is_examined(section) {
        cells_found(search, section, section.indices->0.len())
    } else {
        Seq::empty()
    }
}

/// The blocks that a section adds to the block counter.
pub open spec fn section_blocks(section: SectionModel) -> nat {
    if is_examined(section) {
        cells_examined(section, section.indices->0.len())
    } else {
        0
    }
}

/// The matches of the sections of a chunk, section after section.
pub open spec fn sections_found(search: Search, sections: Seq<SectionModel>) -> Seq<BlockModel>
    decreases sections.len(),
{
    if sections.len() == 0 {
        Seq::empty()
    } else {
        sections_found(search, sections.drop_last()) + section_found(search, sections.last())
    }
}

/// How many sections of a chunk are examined.
pub open spec fn sections_counted(sections: Seq<SectionModel>) -> nat
    decreases sections.len(),
{
    if sections.len() == 0 {
        0
    } else {
        sections_counted(sections.drop_last()) + if is_examined(sections.last()) {
            1nat
        } else {
            0nat
        }
    }
}

/// How many blocks of a chunk are examined.
pub open spec fn sections_blocks(sections: Seq<SectionModel>) -> nat
    decreases sections.len(),
{
    if sections.len() == 0 {
        0
    } else {
        sections_blocks(sections.drop_last()) + section_blocks(sections.last())
    }
}

/// Whether a chunk has a section that is not air.
pub open spec fn has_non_air(sections: Seq<SectionModel>) -> bool {
    exists|i: int| 0 <= i < sections.len() && !is_air_palette(#[trigger] sections[i].palette)
}

/// The descriptor of a matched block entity: its id as the name, its own
/// position, and the record attached.
pub open spec fn entity_block(entity: EntityModel) -> BlockModel {
    BlockModel { name: entity.id, x: entity.x, y: entity.y, z: entity.z, entity: Some(entity) }
}

/// The descriptors of the block entities whose id matches, in their order.
pub open spec fn entities_found(pattern: Seq<char>, entities: Seq<EntityModel>) -> Seq<BlockModel> {
    entities.filter(|e: EntityModel| wildcard_matches(pattern, e.id)).map_values(
        |e: EntityModel| entity_block(e),
    )
}

/// What the block entities of a chunk add to a scan: their matches.
pub open spec fn entity_totals(pattern: Seq<char>, entities: Seq<EntityModel>) -> ScanTotals {
    ScanTotals {
        regions: 0,
        chunks: 0,
        sections: 0,
        blocks: 0,
        found: entities_found(pattern, entities),
    }
}

/// What one chunk adds to a scan: one chunk if a section is not air, the
/// examined sections and blocks, and the matches, block entities first.
pub open spec fn chunk_totals(
    search: Search,
    entities: Seq<EntityModel>,
    sections: Seq<SectionModel>,
) -> ScanTotals {
    ScanTotals {
        regions: 0,
        chunks: if has_non_air(sections) {
            1
        } else {
            0
        },
        sections: sections_counted(sections),
        blocks: sections_blocks(sections),
        found: entities_found(search.pattern, entities) + sections_found(search, sections),
    }
}

} // verus!
