//! Text encoding of image placeholder hashes: input validation, coefficient
//! packing and the base-83 serialisation of the hash string.

pub mod base83;
pub mod encoder;
pub mod properties;

pub use base83::encode_base83_string;
pub use encoder::{
    component_cells, encode, encode_ac, encode_dc, quantise_maximum, size_flag, validate,
    EncodingError,
};
