//! Credentials for a program, by reference.
//!
//! A credential is referred to by the name of an account in the system keyring,
//! or by a 1Password reference such as `op://vault/item/field`. This library
//! decides what a reference means, which environment variable its secret goes
//! to, what is to be asked of the keyring or of the `op` program, and what the
//! answers come to. It asks nothing itself: that is left to its caller.
//!
//! - [`uri`]: the form of 1Password references, and how they are shown.
//! - [`list`]: lists of credentials, and the mappings that they ask for.
//! - [`mappings`]: the map from references to environment variables.
//! - [`op`]: the stages of a read from 1Password.
//! - [`load`]: where a secret is asked for, and the loading of many.
//! - [`secret`]: secrets in memory.
//! - [`error`]: what can go wrong.
//! - [`text`]: the operations on text that all of these rest on.
pub mod error;
pub mod list;
pub mod load;
pub mod mappings;
pub mod op;
pub mod secret;
pub mod text;
pub mod uri;

pub use crate::error::NonoError;
pub use crate::list::{build_mappings_from_list, build_secret_mappings};
pub use crate::load::{
    request_secret, KeyringRead, KeyringReport, SecretBatch, SecretRequest, DEFAULT_SERVICE,
};
pub use crate::mappings::SecretMappings;
pub use crate::op::{
    classify_op_error, OpExit, OpOutput, OpRead, OpWait, PollReport, StartReport, WaitStep,
    OP_TIMEOUT_NANOS, POLL_INTERVAL_MILLIS,
};
pub use crate::secret::{LoadedSecret, Secret};
pub use crate::uri::{is_op_uri, redact_op_uri, shown_in_log, validate_op_uri, OP_URI_PREFIX};
