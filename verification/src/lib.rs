//! Reading an editor's data store: its projects, workspaces and chat
//! sessions, what they add up to, and the removal of sessions with a trash
//! that keeps what was removed.
//!
//! The library works on values. Whoever uses it reads the files and the
//! stores, hands their contents over, and carries out what the library
//! decides.

pub mod aggregate;
pub mod json;
pub mod mutation;
pub mod order;
pub mod session;
pub mod storage;
pub mod store;
pub mod tally;
pub mod text;
pub mod time;
pub mod trash;
pub mod workspace;

pub use aggregate::{AnalysisResult, OverviewStats, ProjectStats, WorkspaceInfo};
pub use json::{Json, JsonNumber};
pub use mutation::{MutationError, Removal, Selection};
pub use session::ChatSession;
pub use storage::{Platform, StorageInfo, StorageSizes};
pub use store::{Category, DatabaseStats, StoreAnswers, Tally};
pub use trash::{TrashEntry, TrashItem, TrashLedger};
pub use workspace::WorkspaceSnapshot;
