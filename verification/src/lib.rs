//! Removes sensitive fields from partially signed Bitcoin transactions (PSBTs), so that they can
//! be shown to untrusted peers.

pub mod consensus;
pub mod counts;
pub mod error;
pub mod fields;
pub mod laws;
pub mod layout;
pub mod maps;
pub mod output;
pub mod pair;
pub mod psbt;
pub mod scrub;
pub mod wire;

pub use crate::counts::get_number_of_inputs_and_outputs;
pub use crate::error::Error;
pub use crate::fields::{GlobalInsensitive, InputInsensitive, OutputInsensitive};
pub use crate::output::{write_byte, write_bytes};
pub use crate::pair::{encode_pair, Key, Pair};
pub use crate::psbt::MAGIC;
pub use crate::scrub::scrub;
