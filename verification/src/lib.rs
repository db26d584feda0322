//! Download-engine core: task model, option handling, queueing rules, progress
//! bookkeeping and the JSON-RPC surface of an aria2-compatible downloader.

pub mod assoc;
pub mod broadcaster;
pub mod bt;
pub mod cli;
pub mod config;
pub mod digits;
pub mod double;
pub mod engine;
pub mod fastdown;
pub mod gid;
pub mod http;
pub mod json;
pub mod kget;
pub mod laws;
pub mod ledger;
pub mod manager;
pub mod options;
pub mod path;
pub mod repository;
pub mod rpc;
pub mod rpc_backend;
pub mod session;
pub mod size;
pub mod task;
pub mod text;

pub use broadcaster::{build_snapshot, effective_interval, BroadcasterConfig};
pub use bt::{BtAddOptions, BtEngineConfig, BtEvent, BtProgress, PeerInfo};
pub use gid::generate_gid;
pub use json::{Json, Number};
pub use kget::KgetInitError;
pub use manager::TaskManager;
pub use options::{parse_headers, EngineOptions};
pub use repository::{GlobalStat, TaskRepository};
pub use rpc_backend::ENGINE_VERSION;
pub use size::parse_size;
pub use task::{BittorrentInfo, Task, TaskError, TaskFile, TaskStatus};
