//! The main document part and what a document body holds.

pub mod body;
pub mod document;
pub mod paragraph;
pub mod run;
pub mod tab;
pub mod table;

pub use self::body::{Body, BodyContent};
pub use self::document::Document;
pub use self::paragraph::Paragraph;
pub use self::run::{Run, RunContent, Text};
pub use self::tab::{CarriageReturn, Tab};
pub use self::table::{GridColumn, IntoCell, Table, TableCell, TableGrid, TableRow};
