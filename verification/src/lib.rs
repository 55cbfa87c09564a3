//! An object model for Office Open XML word-processing documents, with a
//! verified XML writer and reader.
//!
//! A document part is built as a tree of values, turned into a generic
//! element tree, and rendered as text; reading runs the other way. The text
//! is split into tokens by `hard_xml`; everything between the tokens and the
//! values is verified.

pub mod app;
pub mod codec;
pub mod document;
pub mod error;
pub mod formatting;
pub mod schema;
pub mod styles;

pub use crate::app::App;
pub use crate::codec::part::{from_pieces, from_str, to_string, XmlCodec};
pub use crate::codec::token::{read_pieces, Piece};
pub use crate::codec::tree::{Attribute, Element};
pub use crate::document::Document;
pub use crate::styles::Styles;
pub use crate::error::XmlError;
