//! A world and the dimension that is selected in it.

use crate::dimension::Dimension;
use std::path::PathBuf;
use vstd::prelude::*;

verus! {

/// A world: its directory and its dimensions.
#[derive(Debug)]
pub struct World {
    pub path: PathBuf,
    pub dimensions: Vec<Dimension>,
}

/// A world with one of its dimensions selected.
#[derive(Debug)]
pub struct App {
    pub world: World,
    pub dim_selected: usize,
}

impl World {
    /// A world at `path` with the given dimensions.
    pub fn with_dimensions(path: PathBuf, dimensions: Vec<Dimension>) -> (world: World)
        ensures
            world.path == path,
            world.dimensions == dimensions,
    {
        World { path, dimensions }
    }
}

impl App {
    /// A world with its first dimension selected.
    pub fn with_world(world: World) -> (app: App)
        ensures
            app.world == world,
            app.dim_selected == 0,
    {
        App { world, dim_selected: 0 }
    }

    /// Selects the next dimension; after the last comes the first.
    pub fn dim_next(&mut self)
        requires
            old(self).world.dimensions@.len() > 0,
        ensures
            final(self).world == old(self).world,
            final(self).dim_selected == (old(self).dim_selected + 1) % (old(
                self,
            ).world.dimensions@.len() as int),
    {
        let count = self.world.dimensions.len();
        let within = self.dim_selected % count;
        proof {
            vstd::arithmetic::div_mod::lemma_add_mod_noop(
                self.dim_selected as int,
                1,
                count as int,
            );
            vstd::arithmetic::div_mod::lemma_mod_twice(self.dim_selected as int, count as int);
            if count > 1 {
                vstd::arithmetic::div_mod::lemma_small_mod(1, count as nat);
            }
        }
        self.dim_selected = if within + 1 == count {
            0
        } else {
            within + 1
        };
        proof {
            if within + 1 < count {
                vstd::arithmetic::div_mod::lemma_small_mod((within + 1) as nat, count as nat);
            } else {
                vstd::arithmetic::div_mod::lemma_mod_self_0(count as int);
            }
        }
    }

    /// Selects the previous dimension; before the first comes the last.
    pub fn dim_previous(&mut self)
        requires
            old(self).world.dimensions@.len() > 0,
        ensures
            final(self).world == old(self).world,
            final(self).dim_selected == if old(self).dim_selected > 0 {
                old(self).dim_selected - 1
            } else {
                old(self).world.dimensions@.len() - 1
            },
    {
        if self.dim_selected > 0 {
            self.dim_selected = self.dim_selected - 1;
        } else {
            self.dim_selected = self.world.dimensions.len() - 1;
        }
    }
}

} // verus!
