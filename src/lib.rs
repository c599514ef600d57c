//! A codec for a self-describing binary message format and a compiler from
//! its textual schema language to type declarations.
pub mod wire;
pub mod codec;
pub mod schema;
pub mod classify;
pub mod text;
pub mod parse;
pub mod emit;
