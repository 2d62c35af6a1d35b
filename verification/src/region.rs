//! The decoded chunks of one region and the block names that occur in them.

use crate::locator::{chunk_sections, decode_chunk};
use crate::sections::{section_models, SectionData, SectionModel};
use crate::text::views;
use vstd::prelude::*;

verus! {

/// A region of a dimension: its coordinates and, once loaded, the sections
/// of each of its chunks.
#[derive(Debug)]
pub struct ChunkRegion {
    pub x: i32,
    pub z: i32,
    pub chunks: Vec<Vec<SectionData>>,
}

/// The palette names of the sections of a chunk, section after section,
/// each palette in its order. A name occurs as often as palettes hold it.
pub open spec fn chunk_names(sections: Seq<SectionModel>) -> Seq<Seq<char>>
    decreases sections.len(),
{
    if sections.len() == 0 {
        Seq::empty()
    } else {
        chunk_names(sections.drop_last()) + sections.last().palette
    }
}

/// The models of the chunks of a region, in the same order.
pub open spec fn chunk_models(chunks: Seq<Vec<SectionData>>) -> Seq<Seq<SectionModel>> {
    chunks.map_values(|c: Vec<SectionData>| section_models(c@))
}

/// The palette names of the chunks of a region, chunk after chunk.
pub open spec fn region_names(chunks: Seq<Seq<SectionModel>>) -> Seq<Seq<char>>
    decreases chunks.len(),
{
    if chunks.len() == 0 {
        Seq::empty()
    } else {
        region_names(chunks.drop_last()) + chunk_names(chunks.last())
    }
}

/// The bytes of the chunk slots of a region, in slot order.
pub open spec fn slot_bytes(slots: Seq<Option<Vec<u8>>>) -> Seq<Option<Seq<u8>>> {
    slots.map_values(
        |slot: Option<Vec<u8>>|
            match slot {
                Some(data) => Some(data@),
                None => None,
            },
    )
}

/// The chunks that the slots of a region decode to, in slot order: a slot
/// that is empty or does not decode to sections gives none.
pub open spec fn loaded_chunks(slots: Seq<Option<Seq<u8>>>) -> Seq<Seq<SectionModel>>
    decreases slots.len(),
{
    if slots.len() == 0 {
        Seq::empty()
    } else {
        let before = loaded_chunks(slots.drop_last());
        match slots.last() {
            Some(data) => match chunk_sections(data) {
                Some(sections) => before.push(sections),
                None => before,
            },
            None => before,
        }
    }
}

/// The palette names of the sections of a chunk, in their order.
pub fn names_in_chunk(sections: &Vec<SectionData>) -> (names: Vec<String>)
    ensures
        views(names@) == chunk_names(section_models(sections@)),
{
    let ghost all = section_models(sections@);
    let mut names: Vec<String> = Vec::new();
    append_chunk_names(&mut names, sections);
    assert(Seq::<Seq<char>>::empty() + chunk_names(all) =~= chunk_names(all));
    names
}

/// Appends the palette names of the sections of a chunk to `names`.
fn append_chunk_names(names: &mut Vec<String>, sections: &Vec<SectionData>)
    ensures
        views(final(names)@) == views(old(names)@) + chunk_names(section_models(sections@)),
{
    let ghost all = section_models(sections@);
    let ghost start = views(names@);
    let mut s: usize = 0;
    assert(all.take(0) =~= Seq::<SectionModel>::empty());
    assert(start + chunk_names(all.take(0)) =~= start);
    while s < sections.len()
        invariant
            s <= sections.len(),
            all == section_models(sections@),
            views(names@) == start + chunk_names(all.take(s as int)),
        decreases sections.len() - s,
    {
        let palette = &sections[s].palette;
        let ghost before = views(names@);
        proof {
            assert(all.take(s + 1).drop_last() =~= all.take(s as int));
            assert(all.take(s + 1).last() == sections@[s as int]@);
        }
        let mut k: usize = 0;
        while k < palette.len()
            invariant
                k <= palette.len(),
                views(names@) == before + views(palette@).take(k as int),
            decreases palette.len() - k,
        {
            let ghost old_names = names@;
            names.push(palette[k].clone());
            assert(views(names@) =~= views(old_names).push(palette@[k as int]@));
            assert(views(palette@).take(k + 1) =~= views(palette@).take(k as int).push(
                palette@[k as int]@,
            ));
            k += 1;
        }
        assert(views(palette@).take(k as int) =~= views(palette@));
        assert(views(palette@) =~= sections@[s as int]@.palette);
        assert(views(names@) =~= start + chunk_names(all.take(s + 1)));
        s += 1;
    }
    assert(all.take(s as int) =~= all);
}

impl ChunkRegion {
    /// A region at the given coordinates, with no chunk loaded.
    pub fn new(x: i32, z: i32) -> (region: ChunkRegion)
        ensures
            region.x == x,
            region.z == z,
            region.chunks@.len() == 0,
    {
        ChunkRegion { x, z, chunks: Vec::new() }
    }

    /// The palette names of the loaded chunks, chunk after chunk.
    pub fn names(&self) -> (names: Vec<String>)
        ensures
            views(names@) == region_names(chunk_models(self.chunks@)),
    {
        let ghost all = chunk_models(self.chunks@);
        let mut names: Vec<String> = Vec::new();
        let mut c: usize = 0;
        assert(all.take(0) =~= Seq::<Seq<SectionModel>>::empty());
        assert(views(names@) =~= region_names(all.take(0)));
        while c < self.chunks.len()
            invariant
                c <= self.chunks.len(),
                all == chunk_models(self.chunks@),
                views(names@) == region_names(all.take(c as int)),
            decreases self.chunks.len() - c,
        {
            proof {
                assert(all.take(c + 1).drop_last() =~= all.take(c as int));
                assert(all.take(c + 1).last() == section_models(self.chunks@[c as int]@));
            }
            append_chunk_names(&mut names, &self.chunks[c]);
            c += 1;
        }
        assert(all.take(c as int) =~= all);
        names
    }

    /// Decodes the chunk slots of the region, in slot order, and keeps the
    /// chunks that decode to sections. What was loaded before is replaced.
    pub fn load_chunks_from(&mut self, slots: &Vec<Option<Vec<u8>>>)
        ensures
            final(self).x == old(self).x,
            final(self).z == old(self).z,
            chunk_models(final(self).chunks@) == loaded_chunks(slot_bytes(slots@)),
    {
        let ghost all = slot_bytes(slots@);
        let mut chunks: Vec<Vec<SectionData>> = Vec::new();
        let mut k: usize = 0;
        assert(all.take(0) =~= Seq::<Option<Seq<u8>>>::empty());
        assert(chunk_models(chunks@) =~= loaded_chunks(all.take(0)));
        while k < slots.len()
            invariant
                k <= slots.len(),
                all == slot_bytes(slots@),
                chunk_models(chunks@) == loaded_chunks(all.take(k as int)),
            decreases slots.len() - k,
        {
            proof {
                assert(all.take(k + 1).drop_last() =~= all.take(k as int));
                assert(all.take(k + 1).last() == all[k as int]);
            }
            match &slots[k] {
                Some(data) => {
                    assert(all[k as int] == Some(data@));
                    match decode_chunk(data) {
                        Some(sections) => {
                            let ghost before = chunks@;
                            chunks.push(sections);
                            assert(chunk_models(chunks@) =~= chunk_models(before).push(
                                section_models(sections@),
                            ));
                        },
                        None => {},
                    }
                },
                None => {
                    assert(all[k as int] is None);
                },
            }
            k += 1;
        }
        assert(all.take(k as int) =~= all);
        self.chunks = chunks;
    }
}

} // verus!
