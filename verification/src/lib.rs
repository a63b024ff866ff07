//! Kaval: a developer-facing port and process inspector.
//!
//! The library holds the verified core: the service classifier, the
//! socket-to-process reconciliation pipeline, the sorting and filtering
//! machinery, and the interactive session state machine. The operating
//! system adapters (socket table, process table, signals) and the terminal
//! front end live outside the library and hand it plain values.

pub mod classify;
pub mod control;
pub mod models;
pub mod rows;
pub mod scan;
pub mod session;
pub mod sort;
pub mod text;

pub use classify::identify_service;
pub use models::{PortEntry, Protocol, ServiceCategory, SortField};
pub use scan::{scan_entries, ProcessInfo, SocketRecord, SocketState};
pub use session::{Action, App, KeyInput, Mode};
pub use text::truncate;
