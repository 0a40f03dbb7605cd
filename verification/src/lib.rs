//! A key-value store for passing values between separate expansions of
//! procedural macros within one build.
//!
//! A value is kept under a key, in a file of its own whose name holds the
//! key and the epoch of the build, so that no build finds what another
//! build stored. A key can also hold a list, to which items are appended
//! one by one.
//!
//! The library holds the rules and a store in memory that follows them.
//! It reads no clock and touches no file: a store on disk hands the
//! library's functions what it read, and writes what they return.

pub mod args;
pub mod encoding;
pub mod epoch;
pub mod error;
pub mod laws;
pub mod location;
pub mod outcome;
pub mod storage;
pub mod store;
pub mod text;

pub use crate::args::{key_arg, key_value_args, ArgToken};
pub use crate::encoding::{decode_list, encode_item, escape_newlines, unescape_newlines};
pub use crate::epoch::EpochCell;
pub use crate::error::StoreError;
pub use crate::location::state_file_path;
pub use crate::outcome::{
    clear_outcome, has_outcome, init_after_read, init_after_write, read_list_outcome, InitStep,
};
pub use crate::storage::Storage;
pub use crate::store::{
    proc_append_state, proc_clear_state, proc_has_state, proc_init_state, proc_read_state,
    proc_read_state_vec, proc_write_state, StateStore,
};
