#![allow(non_snake_case)]
#![allow(non_camel_case_types)]

pub mod id;
pub mod geometry;
pub mod tile;
pub mod screen;
pub mod map;
pub mod collision;
pub mod message;
pub mod generator;
pub mod common;
pub mod player;
pub mod skeleton;
pub mod snake;
pub mod rock;
pub mod entity;
pub mod holder;
pub mod context;
pub mod po;
pub mod scheduler;
pub mod laws;
pub mod builder;
pub mod parsing;

pub use id::{ID, Direction};
pub use geometry::{Rect, Vec2d};
pub use tile::{Tile, CollisionType, TileBuilder, TileBuilderSignals};
pub use screen::{Screen, Location, CollisionBounds};
pub use map::TileMap;
pub use collision::{CollisionIndex, EntityHitbox};
pub use message::{Envelope, CounterMsg, CollisionMsg, Command, Request};
pub use generator::{Generator, EntityGenerator, InnerGenerator, InnerEntityGenerator};
pub use common::{DeathCounter, IDRegistration};
pub use player::{Player, PlayerData, Signals, InnerPlayer};
pub use skeleton::{Skeleton, SkeletonData, InnerSkeleton};
pub use snake::{Snake, SnakeData, InnerSnake};
pub use entity::{Entity, EntityKind, EntityData, TypedID, EntityTraitsWrappable};
pub use holder::Holder;
pub use context::GameContext;
pub use po::PO;
pub use scheduler::Scheduler;
pub use builder::{EntityBuilder, EntityBuilderSignals};
pub use rock::{Rock, Cannon, InnerRock, InnerCannon};
