//! Records stored in the database.
pub mod execution;
pub mod session;
pub mod trigger_attempt;
pub mod user;

pub use execution::{Execution, ExecutionStatus};
pub use session::Session;
pub use trigger_attempt::{same_text, TriggerAttempt, TriggerAttemptStatus};
pub use user::{validate_username, User};
