//! Locates blocks in a saved voxel world and groups face-adjacent matches of
//! one type into veins.

pub mod args;
pub mod blocks;
pub mod bounds;
pub mod clusters;
pub mod dimension;
pub mod locator;
pub mod names;
pub mod nbt;
pub mod partition;
pub mod points;
pub mod position_index;
pub mod ranking;
pub mod region;
pub mod report;
pub mod scan;
pub mod sections;
pub mod text;
pub mod ui;
pub mod veins;
pub mod world;
