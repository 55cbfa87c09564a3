//! The XML engine: text helpers, the generic element tree, its writer and
//! its reader.

pub mod laws;
pub mod lookup;
pub mod number;
pub mod part;
pub mod reader;
pub mod record;
pub mod text;
pub mod token;
pub mod tree;
pub mod writer;
