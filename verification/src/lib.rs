//! A bidirectional bridge between the BSON value model and a dynamically
//! typed host scripting value model: a decoder from BSON trees to host
//! values, an encoder back, an opaque-handle registry for the nine extended
//! BSON kinds, and a projection of BSON values to extended JSON text.

pub mod value;
pub mod foreign;
pub mod registry;
pub mod from;
pub mod to;
pub mod json;
pub mod laws;
