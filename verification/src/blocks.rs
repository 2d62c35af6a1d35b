//! Matched blocks and the block-entity records that may come with them.

use crate::points::Point;
use std::cmp::Ordering;
use vstd::prelude::*;

verus! {

/// The entity that a spawner produces.
#[derive(Debug, PartialEq, Eq)]
pub struct SpawnEntity {
    pub id: String,
}

/// What a spawner has been set to spawn.
#[derive(Debug, PartialEq, Eq)]
pub struct SpawnData {
    pub entity: SpawnEntity,
}

/// A block-entity record: a type id, a position and, for spawners, their parameters.
#[derive(Debug, PartialEq, Eq)]
pub struct BlockEntity {
    pub id: String,
    pub x: i64,
    pub y: i64,
    pub z: i64,
    pub min_spawn_delay: Option<isize>,
    pub max_spawn_delay: Option<isize>,
    pub spawn_count: Option<isize>,
    pub spawn_range: Option<isize>,
    pub max_entities: Option<isize>,
    pub activation_range: Option<isize>,
    pub spawn_data: Option<SpawnData>,
}

/// The block entities of one chunk.
#[derive(Debug)]
pub struct ChunkEntityContainer {
    pub block_entities: Vec<BlockEntity>,
}

/// One matched occurrence of a block or block entity.
#[derive(Debug, PartialEq, Eq)]
pub struct BlockDescriptor {
    pub name: String,
    pub x: i64,
    pub y: i64,
    pub z: i64,
    pub enity: Option<BlockEntity>,
}

/// What a `BlockEntity` holds, with its strings as sequences of characters.
pub struct EntityModel {
    pub id: Seq<char>,
    pub x: i64,
    pub y: i64,
    pub z: i64,
    pub min_spawn_delay: Option<isize>,
    pub max_spawn_delay: Option<isize>,
    pub spawn_count: Option<isize>,
    pub spawn_range: Option<isize>,
    pub max_entities: Option<isize>,
    pub activation_range: Option<isize>,
    pub spawned: Option<Seq<char>>,
}

/// What a `BlockDescriptor` holds, with its strings as sequences of characters.
pub struct BlockModel {
    pub name: Seq<char>,
    pub x: i64,
    pub y: i64,
    pub z: i64,
    pub entity: Option<EntityModel>,
}

impl View for BlockEntity {
    type V = EntityModel;

    open spec fn view(&self) -> EntityModel {
        EntityModel {
            id: self.id@,
            x: self.x,
            y: self.y,
            z: self.z,
            min_spawn_delay: self.min_spawn_delay,
            max_spawn_delay: self.max_spawn_delay,
            spawn_count: self.spawn_count,
            spawn_range: self.spawn_range,
            max_entities: self.max_entities,
            activation_range: self.activation_range,
            spawned: match self.spawn_data {
                Some(data) => Some(data.entity.id@),
                None => None,
            },
        }
    }
}

impl View for BlockDescriptor {
    type V = BlockModel;

    open spec fn view(&self) -> BlockModel {
        BlockModel {
            name: self.name@,
            x: self.x,
            y: self.y,
            z: self.z,
            entity: match self.enity {
                Some(entity) => Some(entity@),
                None => None,
            },
        }
    }
}

impl BlockModel {
    /// The position of the block.
    pub open spec fn pos(self) -> Point {
        Point { x: self.x, y: self.y, z: self.z }
    }
}

/// The models of a sequence of descriptors, in the same order.
pub open spec fn block_models(blocks: Seq<BlockDescriptor>) -> Seq<BlockModel> {
    blocks.map_values(|b: BlockDescriptor| b@)
}

/// The models of a sequence of block entities, in the same order.
pub open spec fn entity_models(entities: Seq<BlockEntity>) -> Seq<EntityModel> {
    entities.map_values(|e: BlockEntity| e@)
}

/// How two positions compare: by `x`, then by `y`, then by `z`.
pub open spec fn position_order(a: Point, b: Point) -> Ordering {
    if a.x < b.x {
        Ordering::Less
    } else if a.x > b.x {
        Ordering::Greater
    } else if a.y < b.y {
        Ordering::Less
    } else if a.y > b.y {
        Ordering::Greater
    } else if a.z < b.z {
        Ordering::Less
    } else if a.z > b.z {
        Ordering::Greater
    } else {
        Ordering::Equal
    }
}

impl Clone for SpawnEntity {
    fn clone(&self) -> (copy: Self)
        ensures
            copy == *self,
    {
        SpawnEntity { id: self.id.clone() }
    }
}

impl Clone for SpawnData {
    fn clone(&self) -> (copy: Self)
        ensures
            copy == *self,
    {
        SpawnData { entity: self.entity.clone() }
    }
}

impl Clone for BlockEntity {
    fn clone(&self) -> (copy: Self)
        ensures
            copy == *self,
    {
        BlockEntity {
            id: self.id.clone(),
            x: self.x,
            y: self.y,
            z: self.z,
            min_spawn_delay: self.min_spawn_delay,
            max_spawn_delay: self.max_spawn_delay,
            spawn_count: self.spawn_count,
            spawn_range: self.spawn_range,
            max_entities: self.max_entities,
            activation_range: self.activation_range,
            spawn_data: match &self.spawn_data {
                Some(data) => Some(data.clone()),
                None => None,
            },
        }
    }
}

impl Clone for BlockDescriptor {
    fn clone(&self) -> (copy: Self)
        ensures
            copy == *self,
    {
        BlockDescriptor {
            name: self.name.clone(),
            x: self.x,
            y: self.y,
            z: self.z,
            enity: match &self.enity {
                Some(entity) => Some(entity.clone()),
                None => None,
            },
        }
    }
}

impl BlockDescriptor {
    /// The position of the block.
    pub fn pos(&self) -> (p: Point)
        ensures
            p == self@.pos(),
    {
        Point { x: self.x, y: self.y, z: self.z }
    }

    /// Compares two descriptors by position: by `x`, then by `y`, then by `z`.
    /// Names and entities play no part.
    pub fn cmp(&self, other: &Self) -> (order: Ordering)
        ensures
            order == position_order(self@.pos(), other@.pos()),
    {
        if self.x < other.x {
            Ordering::Less
        } else if self.x > other.x {
            Ordering::Greater
        } else if self.y < other.y {
            Ordering::Less
        } else if self.y > other.y {
            Ordering::Greater
        } else if self.z < other.z {
            Ordering::Less
        } else if self.z > other.z {
            Ordering::Greater
        } else {
            Ordering::Equal
        }
    }
}

impl PartialOrd for BlockDescriptor {
    fn partial_cmp(&self, other: &Self) -> (order: Option<Ordering>) {
        Some(self.cmp(other))
    }
}

impl vstd::std_specs::cmp::PartialOrdSpecImpl for BlockDescriptor {
    open spec fn obeys_partial_cmp_spec() -> bool {
        true
    }

    open spec fn partial_cmp_spec(&self, other: &Self) -> Option<Ordering> {
        Some(position_order(self@.pos(), other@.pos()))
    }
}

} // verus!
