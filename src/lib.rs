//! Lossless QOI image codec: an encoder from flat RGB buffers to a QOI byte
//! stream and a decoder back to pixels, with the wire format stated as spec
//! functions and the round trip proved.

pub mod consts;
pub mod pixel;
pub mod format;
pub mod encoder;
pub mod decoder;
pub mod qoi_error;
pub mod qoi_file;
pub mod laws;
pub mod comp;
pub mod db;
