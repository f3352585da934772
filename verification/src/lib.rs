//! A local one-time-passcode authenticator core: a credential store of named
//! shared secrets, time-based code derivation, and the reconciliation of a
//! live view with the store.

pub mod app_state;
pub mod codec;
pub mod coordinator;
pub mod editing;
pub mod entry;
pub mod keyed;
pub mod reconciler;
pub mod rows;
pub mod text;
pub mod totp;

pub use app_state::{AppState, StoreError};
pub use codec::{decode, ByteKey, DecodeError, SecretMode};
pub use coordinator::{Command, Coordinator, Outcome, Reply};
pub use editing::EditingSet;
pub use entry::TOTPEntry;
pub use reconciler::{diff, RowOp};
pub use rows::{Row, ViewRows};
pub use totp::{current, generate, generate_totp, next, previous, remaining_seconds};
