//! Reads flight-simulator key-binding files into a registry of named
//! callbacks, each bound to a key, its modifiers and an optional combo key.
//!
//! A key file is a text of lines. A line that begins with `#` is a comment,
//! one whose first token is `SimDoNothing` holds a place and binds nothing,
//! and of the others those with a 0 as their third token bind a key:
//!
//! ```text
//! NAME TYPE 0 KEY MODIFIERS COMBO_KEY COMBO_MODIFIERS ...
//! ```
//!
//! The four fields behind the 0 are numbers of 16 bits, decimal or
//! hexadecimal behind `0x`. [`parse`] reads the lines of a whole file into a
//! [`FalconKeyfile`], which finds a callback by its name and proposes the
//! registered names that are nearest to a misspelt one.

pub mod callback;
pub mod distance;
pub mod error;
pub mod key;
pub mod keyfile;
pub mod modifier;
pub mod number;
pub mod proposal;
pub mod ranking;
pub mod record;
pub mod registry;
pub mod stream;
pub mod text;

pub use callback::Callback;
pub use error::{KeyFileError, LineError};
pub use key::{is_placeholder_code, parse_key_code, Key};
pub use keyfile::FalconKeyfile;
pub use modifier::{parse_modifiers, Modifier};
pub use number::convert_number;
pub use record::parse_line;
pub use stream::parse;
