//! A small persistent-state service core: a process-wide counter together
//! with user profiles whose rolling "hybrid" scores are derived from
//! weighted history vectors, and a stable binary encoding of the whole
//! state so that it survives a planned restart without loss.

pub mod codec;
pub mod state;
pub mod user;

pub use state::ProcessState;
pub use state::Store;
pub use state::StoreError;
pub use user::Hybrid;
pub use user::User;

