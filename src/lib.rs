//! Schema-less decoding of tag-length-value (protobuf-style) wire data, and
//! the client files and gateway messages that surround it.
//!
//! - `wire`: the varint encoding, as spec functions, with its round trip.
//! - `decode`: the decoder and the model of what it produces; `decode_laws`
//!   states how nested and broken fields decode.
//! - `simplify`: the display form of a decoded tree.
//! - `cursor`, `layout`, `binary_version`, `client_config`: the client's
//!   binary files.
//! - `text`, `hotfix`: naming the fields of a gateway message.

pub mod wire;
pub mod decode;
pub mod decode_laws;
pub mod simplify;
pub mod cursor;
pub mod layout;
pub mod binary_version;
pub mod client_config;
pub mod text;
pub mod hotfix;
