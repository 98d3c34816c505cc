pub mod client;
pub mod config;
pub mod differ;
pub mod env;
pub mod history;
pub mod laws;
pub mod listing;
pub mod model;
pub mod protocol;
pub mod registry;
pub mod report;
pub mod search;
pub mod server;
pub mod session;
pub mod storage;
pub mod text;

pub use config::Config;
pub use differ::{diff_envs, EnvDiff};
pub use env::Env;
pub use server::{EnvEvent, EnvHistDaemon, EnvResponse};
pub use session::{Session, SessionMetadata};
pub use storage::{Storage, TimelineEntry};
