//! Dimensions of a world: where each lies on disk and which regions of it
//! have been loaded.

use crate::region::{chunk_models, region_names, ChunkRegion};
use crate::text::{distinct, distinct_texts, views};
use std::path::PathBuf;
use vstd::prelude::*;

verus! {

#[verifier::external_type_specification]
#[verifier::external_body]
pub struct ExPathBuf(PathBuf);

/// Where a dimension comes from: the game itself, or a mod.
#[derive(Debug, PartialEq, Eq)]
pub enum DimensionGroup {
    Vanilla,
    Modded { group: String },
}

/// A dimension: its origin, its name, its directory and, once loaded, its regions.
#[derive(Debug)]
pub struct Dimension {
    pub group: DimensionGroup,
    pub name: String,
    pub path: PathBuf,
    pub regions: Vec<ChunkRegion>,
}

/// Why the regions of a dimension could not be loaded.
#[derive(Debug, PartialEq, Eq)]
pub struct DimensionLoadError(pub String);

impl Clone for DimensionLoadError {
    fn clone(&self) -> (copy: Self)
        ensures
            copy == *self,
    {
        DimensionLoadError(self.0.clone())
    }
}

/// Whether a directory name marks a hidden entry: it starts with a dot.
pub fn is_hidden(name: &str) -> (hidden: bool)
    ensures
        hidden == (name@.len() > 0 && name@[0] == '.'),
{
    name.unicode_len() > 0 && name.get_char(0) == '.'
}

/// The first failure of a list of loads, if one failed.
pub open spec fn first_failure(loaded: Seq<Result<ChunkRegion, DimensionLoadError>>) -> Option<
    DimensionLoadError,
>
    decreases loaded.len(),
{
    if loaded.len() == 0 {
        None
    } else {
        match first_failure(loaded.drop_last()) {
            Some(error) => Some(error),
            None => match loaded.last() {
                Ok(_) => None,
                Err(error) => Some(error),
            },
        }
    }
}

/// The palette names of the regions of a dimension, region after region.
pub open spec fn dimension_names(regions: Seq<ChunkRegion>) -> Seq<Seq<char>>
    decreases regions.len(),
{
    if regions.len() == 0 {
        Seq::empty()
    } else {
        dimension_names(regions.drop_last()) + region_names(chunk_models(regions.last().chunks@))
    }
}

/// Where no load failed, every load succeeded.
proof fn lemma_no_failure(loaded: Seq<Result<ChunkRegion, DimensionLoadError>>, k: int)
    requires
        first_failure(loaded) is None,
        0 <= k < loaded.len(),
    ensures
        loaded[k] is Ok,
    decreases loaded.len(),
{
    if k < loaded.len() - 1 {
        lemma_no_failure(loaded.drop_last(), k);
    }
}

impl Dimension {
    /// A dimension of the game itself, with no region loaded.
    pub fn vanilla(path: PathBuf, name: &str) -> (dimension: Dimension)
        ensures
            dimension.group == DimensionGroup::Vanilla,
            dimension.name@ == name@,
            dimension.path == path,
            dimension.regions@.len() == 0,
    {
        Dimension { group: DimensionGroup::Vanilla, name: name.to_owned(), path, regions: Vec::new() }
    }

    /// A dimension that the mod `mod_name` declares, with no region loaded.
    pub fn modded(path: PathBuf, mod_name: &str, name: &str) -> (dimension: Dimension)
        ensures
            dimension.group matches DimensionGroup::Modded { group } && group@ == mod_name@,
            dimension.name@ == name@,
            dimension.path == path,
            dimension.regions@.len() == 0,
    {
        Dimension {
            group: DimensionGroup::Modded { group: mod_name.to_owned() },
            name: name.to_owned(),
            path,
            regions: Vec::new(),
        }
    }

    /// Whether the regions are still to be loaded: none is held.
    pub fn needs_regions(&self) -> (needed: bool)
        ensures
            needed == (self.regions@.len() == 0),
    {
        self.regions.len() == 0
    }

    /// Takes over what loading the regions gave. Where a load failed, the
    /// first failure in the order of the list is returned and the dimension
    /// keeps what it held; else the loaded regions replace those held.
    pub fn store_regions(&mut self, loaded: Vec<Result<ChunkRegion, DimensionLoadError>>) -> (stored:
        Result<(), DimensionLoadError>)
        ensures
            final(self).group == old(self).group,
            final(self).name == old(self).name,
            final(self).path == old(self).path,
            match first_failure(loaded@) {
                Some(error) => stored == Err::<(), _>(error) && final(self).regions == old(
                    self,
                ).regions,
                None => stored is Ok && final(self).regions@.len() == loaded@.len() && forall|k: int|
                    0 <= k < loaded@.len() ==> Ok::<_, DimensionLoadError>(
                        #[trigger] final(self).regions@[k],
                    ) == loaded@[k],
            },
    {
        let mut k: usize = 0;
        assert(loaded@.take(0) =~= Seq::<Result<ChunkRegion, DimensionLoadError>>::empty());
        while k < loaded.len()
            invariant
                k <= loaded.len(),
                first_failure(loaded@.take(k as int)) is None,
            decreases loaded.len() - k,
        {
            proof {
                assert(loaded@.take(k + 1).drop_last() =~= loaded@.take(k as int));
                assert(loaded@.take(k + 1).last() == loaded@[k as int]);
            }
            match &loaded[k] {
                Err(error) => {
                    proof {
                        lemma_first_failure_stays(loaded@, k + 1);
                    }
                    return Err(error.clone());
                },
                Ok(_) => {},
            }
            k += 1;
        }
        assert(loaded@.take(k as int) =~= loaded@);
        let ghost all = loaded@;
        let mut rest = loaded;
        let mut reversed: Vec<ChunkRegion> = Vec::new();
        while rest.len() > 0
            invariant
                rest@.len() + reversed@.len() == all.len(),
                rest@ == all.take(rest@.len() as int),
                first_failure(all) is None,
                forall|m: int|
                    0 <= m < reversed@.len() ==> Ok::<_, DimensionLoadError>(
                        #[trigger] reversed@[m],
                    ) == all[all.len() - 1 - m],
            decreases rest.len(),
        {
            let ghost n = rest@.len() as int;
            proof {
                lemma_no_failure(all, n - 1);
            }
            match rest.pop() {
                Some(Ok(region)) => {
                    reversed.push(region);
                    assert(rest@ =~= all.take(n - 1));
                },
                _ => {
                    assert(false);
                },
            }
        }
        let ghost back = reversed@;
        let mut regions: Vec<ChunkRegion> = Vec::new();
        while reversed.len() > 0
            invariant
                regions@.len() + reversed@.len() == all.len(),
                back.len() == all.len(),
                reversed@ == back.take(reversed@.len() as int),
                forall|m: int|
                    0 <= m < back.len() ==> Ok::<_, DimensionLoadError>(#[trigger] back[m])
                        == all[all.len() - 1 - m],
                forall|m: int|
                    0 <= m < regions@.len() ==> Ok::<_, DimensionLoadError>(
                        #[trigger] regions@[m],
                    ) == all[m],
            decreases reversed.len(),
        {
            let ghost n = reversed@.len() as int;
            match reversed.pop() {
                Some(region) => {
                    assert(region == back[n - 1]);
                    regions.push(region);
                    assert(reversed@ =~= back.take(n - 1));
                },
                None => {},
            }
        }
        self.regions = regions;
        Ok(())
    }

    /// The block names that occur in the loaded regions, each once, in the
    /// order in which they first occur.
    pub fn block_names(&self) -> (names: Vec<String>)
        ensures
            views(names@) == distinct(dimension_names(self.regions@)),
    {
        let mut every: Vec<String> = Vec::new();
        let mut r: usize = 0;
        assert(self.regions@.take(0) =~= Seq::<ChunkRegion>::empty());
        assert(views(every@) =~= dimension_names(self.regions@.take(0)));
        while r < self.regions.len()
            invariant
                r <= self.regions.len(),
                views(every@) == dimension_names(self.regions@.take(r as int)),
            decreases self.regions.len() - r,
        {
            let ghost before = every@;
            let mut names = self.regions[r].names();
            let ghost added = names@;
            every.append(&mut names);
            proof {
                assert(self.regions@.take(r + 1).drop_last() =~= self.regions@.take(r as int));
                assert(self.regions@.take(r + 1).last() == self.regions@[r as int]);
                assert(views(before + added) =~= views(before) + views(added));
            }
            r += 1;
        }
        assert(self.regions@.take(r as int) =~= self.regions@);
        distinct_texts(&every)
    }
}

/// The first failure of a list is the first failure of each beginning of
/// it that holds one.
proof fn lemma_first_failure_stays(loaded: Seq<Result<ChunkRegion, DimensionLoadError>>, n: int)
    requires
        0 <= n <= loaded.len(),
        first_failure(loaded.take(n)) is Some,
    ensures
        first_failure(loaded) == first_failure(loaded.take(n)),
    decreases loaded.len() - n,
{
    if n == loaded.len() {
        assert(loaded.take(n) =~= loaded);
    } else {
        assert(loaded.take(n + 1).drop_last() =~= loaded.take(n));
        lemma_first_failure_stays(loaded, n + 1);
    }
}

} // verus!
