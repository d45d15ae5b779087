//! Configuration documents whose values may be deferred to the environment.
//!
//! A document is a tree of named values. A string value that is exactly
//! `<<ENV:NAME>>` or `<<ENV?:NAME>>` asks for the environment variable `NAME`:
//! the first form fails when the variable is unset, the second drops the field.
//! Every other value is a literal. All failures of one document are reported
//! together.
//!
//! [`load_config_from_str`] reads a TOML document and resolves it against an
//! [`Environment`], which the caller fills with the variables that are set.
//! [`load_env_variables`] does the same for a document that is already a
//! [`ValueTree`]. What these functions return is stated by the functions of
//! `overlay` on the models of the values, and `guarantees` proves what follows
//! from that for every document.

pub mod document;
pub mod environment;
pub mod error;
pub mod guarantees;
pub mod overlay;
pub mod placeholder;
pub mod value;

pub use crate::document::load_config_from_str;
pub use crate::environment::{Environment, Lookup};
pub use crate::error::{combine_errors, Cause, ConfigError};
pub use crate::overlay::{load_env_variable, load_env_variables};
pub use crate::placeholder::{classify, Placeholder};
pub use crate::value::ValueTree;
