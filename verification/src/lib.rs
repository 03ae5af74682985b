//! An in-memory, column-family aware key-value engine on lock-free skip lists, with the
//! adaptor that stores the logs and states of Raft groups in it.

pub mod compact;
pub mod engine;
pub mod entry;
pub mod errors;
pub mod fetch;
pub mod iterator;
pub mod keys;
pub mod laws;
pub mod lex;
pub mod model;
pub mod node;
pub mod options;
pub mod raft_engine;
pub mod seek;
pub mod snapshot;
pub mod state;
pub mod table;
pub mod write_batch;

pub use engine::{SkiplistCFHandle, SkiplistEngine, SkiplistEngineBuilder, CF_DEFAULT};
pub use entry::{Entry, EntryType};
pub use errors::Error;
pub use iterator::SkiplistEngineIterator;
pub use options::{IterOptions, ReadOptions, SeekKey, WriteOptions};
pub use raft_engine::{CacheStats, MAX_DELETE_BATCH_SIZE};
pub use seek::SkiplistTable;
pub use snapshot::SkiplistSnapshot;
pub use state::{HardState, RaftLocalState};
pub use write_batch::{SkiplistWriteBatch, WriteOp};
