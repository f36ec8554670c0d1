//! Balatro seed engine core: seed encoding and ranking, the integer half of
//! the game's RNG, node keys and the node cache, the filter compiler, and
//! the decisions of the seed scan.
//!
//! The floating-point half of the RNG (`pseudohash`, seeding doubles, draws
//! as doubles) runs around this library, which takes and returns the bit
//! patterns and integers those steps produce.

pub mod binary64;
pub mod derive;
pub mod filter;
pub mod heapless;
pub mod instance;
pub mod items;
pub mod rng;
pub mod search;
pub mod seed;
pub mod state;
pub mod sweep;
pub mod text;
pub mod v3;

pub use instance::{NodeKey, RandomSource, RandomType};
pub use rng::LuaRandom;
pub use search::{Match, Searcher};
pub use seed::Seed;
pub mod probe;
