//! Tessera core: MLA-aware KV block management.
//!
//! [`TesseraBlockManager`] owns a fixed pool of KV blocks on a device. It allocates blocks for
//! requests, deduplicates sealed blocks by content, forks them copy-on-write, evicts by tier and
//! age, and moves requests between ranks. Around it stand the configuration of the blocks, the
//! device backends, the transports between ranks, and the lookup of blocks on other ranks.

pub mod block;
pub mod block_manager;
pub mod calls;
pub mod config;
pub mod content_hash;
pub mod cross_agent;
pub mod device;
pub mod error;
pub mod index;
pub mod lists;
pub mod multiples;
pub mod observability;
pub mod pool;
pub mod rank;
pub mod shared_map;
pub mod sizing;
pub mod state_cache;
pub mod text;
pub mod transport;

pub use block::{BlockId, BlockMeta, GlobalBlockId, TokenRange, SHARED_SENTINEL};
pub use block_manager::{SealOutcome, TesseraBlockManager};
pub use config::{CkvDtype, CompressionScheme, MlaBlockConfig};
pub use cross_agent::CrossAgentShareTable;
pub use device::{CpuMockBackend, DeviceBackend, DevicePtr, DiskBackend, SwaCachingStrategy};
pub use error::{BackendError, Result, TesseraError};
pub use rank::{LatencyTier, NodeId, RankId, Topology, World};
pub use state_cache::{RequestArena, StateCache, StateCacheConfig};
pub use transport::{
    BlockPayload, LatencyInjector, LatencyProfile, MockTransport, RankTransport, ReservationToken,
};
