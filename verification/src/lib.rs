//! In-memory message relay core: named channels of opaque byte payloads,
//! pushed and pulled in FIFO order under configurable admission limits.

pub mod config;
pub mod store;

pub use config::Cli;
pub use config::Config;
pub use config::EnvVals;
pub use config::resolve_config;
pub use config::MAX_BODY_BYTES_CEILING;
pub use config::MAX_QUEUE_DEPTH_CEILING;
pub use store::AppState;
pub use store::Limits;
pub use store::Message;
pub use store::PushError;
