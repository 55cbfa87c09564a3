//! The property blocks of tables, rows, cells, paragraphs and runs. Each is
//! present or absent in its owner; none has fields of its own.

use vstd::prelude::*;
use crate::codec::part::XmlCodec;
use crate::codec::text::same_text;
use crate::codec::tree::{empty_element, Element, ElementView};
use crate::error::XmlError;

verus! {

/// The properties of a table, written `<w:tblPr/>`.
#[derive(Debug, Default, Clone, Copy, PartialEq, Eq)]
pub struct TableProperty;

impl View for TableProperty {
    type V = TableProperty;

    open spec fn view(&self) -> TableProperty {
        *self
    }
}

impl XmlCodec for TableProperty {
    open spec fn accepts(name: Seq<char>) -> bool {
        name == "w:tblPr"@
    }

    open spec fn vacant(v: TableProperty) -> bool {
        true
    }

    open spec fn element_of(v: TableProperty) -> ElementView {
        empty_element("w:tblPr"@)
    }

    open spec fn value_of(e: ElementView) -> Result<TableProperty, XmlError> {
        if e.name == "w:tblPr"@ {
            Ok(TableProperty)
        } else {
            Err(XmlError::MissingElement)
        }
    }

    proof fn law_round_trip(v: TableProperty) {
    }

    proof fn law_suppression(v: TableProperty) {
    }

    fn accepts_name(name: &str) -> (r: bool) {
        same_text(name, "w:tblPr")
    }

    fn to_element(&self) -> (e: Element) {
        Element::empty("w:tblPr")
    }

    fn from_element(e: &Element) -> (r: Result<TableProperty, XmlError>) {
        if same_text(e.name.as_str(), "w:tblPr") {
            Ok(TableProperty)
        } else {
            Err(XmlError::MissingElement)
        }
    }
}

/// The properties of a table row, written `<w:trPr/>`.
#[derive(Debug, Default, Clone, Copy, PartialEq, Eq)]
pub struct TableRowProperty;

impl View for TableRowProperty {
    type V = TableRowProperty;

    open spec fn view(&self) -> TableRowProperty {
        *self
    }
}

impl XmlCodec for TableRowProperty {
    open spec fn accepts(name: Seq<char>) -> bool {
        name == "w:trPr"@
    }

    open spec fn vacant(v: TableRowProperty) -> bool {
        true
    }

    open spec fn element_of(v: TableRowProperty) -> ElementView {
        empty_element("w:trPr"@)
    }

    open spec fn value_of(e: ElementView) -> Result<TableRowProperty, XmlError> {
        if e.name == "w:trPr"@ {
            Ok(TableRowProperty)
        } else {
            Err(XmlError::MissingElement)
        }
    }

    proof fn law_round_trip(v: TableRowProperty) {
    }

    proof fn law_suppression(v: TableRowProperty) {
    }

    fn accepts_name(name: &str) -> (r: bool) {
        same_text(name, "w:trPr")
    }

    fn to_element(&self) -> (e: Element) {
        Element::empty("w:trPr")
    }

    fn from_element(e: &Element) -> (r: Result<TableRowProperty, XmlError>) {
        if same_text(e.name.as_str(), "w:trPr") {
            Ok(TableRowProperty)
        } else {
            Err(XmlError::MissingElement)
        }
    }
}

/// The properties of a table cell, written `<w:tcPr/>`.
#[derive(Debug, Default, Clone, Copy, PartialEq, Eq)]
pub struct TableCellProperty;

impl View for TableCellProperty {
    type V = TableCellProperty;

    open spec fn view(&self) -> TableCellProperty {
        *self
    }
}

impl XmlCodec for TableCellProperty {
    open spec fn accepts(name: Seq<char>) -> bool {
        name == "w:tcPr"@
    }

    open spec fn vacant(v: TableCellProperty) -> bool {
        true
    }

    open spec fn element_of(v: TableCellProperty) -> ElementView {
        empty_element("w:tcPr"@)
    }

    open spec fn value_of(e: ElementView) -> Result<TableCellProperty, XmlError> {
        if e.name == "w:tcPr"@ {
            Ok(TableCellProperty)
        } else {
            Err(XmlError::MissingElement)
        }
    }

    proof fn law_round_trip(v: TableCellProperty) {
    }

    proof fn law_suppression(v: TableCellProperty) {
    }

    fn accepts_name(name: &str) -> (r: bool) {
        same_text(name, "w:tcPr")
    }

    fn to_element(&self) -> (e: Element) {
        Element::empty("w:tcPr")
    }

    fn from_element(e: &Element) -> (r: Result<TableCellProperty, XmlError>) {
        if same_text(e.name.as_str(), "w:tcPr") {
            Ok(TableCellProperty)
        } else {
            Err(XmlError::MissingElement)
        }
    }
}

/// The properties of a paragraph, written `<w:pPr/>`.
#[derive(Debug, Default, Clone, Copy, PartialEq, Eq)]
pub struct ParagraphProperty;

impl View for ParagraphProperty {
    type V = ParagraphProperty;

    open spec fn view(&self) -> ParagraphProperty {
        *self
    }
}

impl XmlCodec for ParagraphProperty {
    open spec fn accepts(name: Seq<char>) -> bool {
        name == "w:pPr"@
    }

    open spec fn vacant(v: ParagraphProperty) -> bool {
        true
    }

    open spec fn element_of(v: ParagraphProperty) -> ElementView {
        empty_element("w:pPr"@)
    }

    open spec fn value_of(e: ElementView) -> Result<ParagraphProperty, XmlError> {
        if e.name == "w:pPr"@ {
            Ok(ParagraphProperty)
        } else {
            Err(XmlError::MissingElement)
        }
    }

    proof fn law_round_trip(v: ParagraphProperty) {
    }

    proof fn law_suppression(v: ParagraphProperty) {
    }

    fn accepts_name(name: &str) -> (r: bool) {
        same_text(name, "w:pPr")
    }

    fn to_element(&self) -> (e: Element) {
        Element::empty("w:pPr")
    }

    fn from_element(e: &Element) -> (r: Result<ParagraphProperty, XmlError>) {
        if same_text(e.name.as_str(), "w:pPr") {
            Ok(ParagraphProperty)
        } else {
            Err(XmlError::MissingElement)
        }
    }
}

/// The properties of the characters of a run, written `<w:rPr/>`.
#[derive(Debug, Default, Clone, Copy, PartialEq, Eq)]
pub struct CharacterProperty;

impl View for CharacterProperty {
    type V = CharacterProperty;

    open spec fn view(&self) -> CharacterProperty {
        *self
    }
}

impl XmlCodec for CharacterProperty {
    open spec fn accepts(name: Seq<char>) -> bool {
        name == "w:rPr"@
    }

    open spec fn vacant(v: CharacterProperty) -> bool {
        true
    }

    open spec fn element_of(v: CharacterProperty) -> ElementView {
        empty_element("w:rPr"@)
    }

    open spec fn value_of(e: ElementView) -> Result<CharacterProperty, XmlError> {
        if e.name == "w:rPr"@ {
            Ok(CharacterProperty)
        } else {
            Err(XmlError::MissingElement)
        }
    }

    proof fn law_round_trip(v: CharacterProperty) {
    }

    proof fn law_suppression(v: CharacterProperty) {
    }

    fn accepts_name(name: &str) -> (r: bool) {
        same_text(name, "w:rPr")
    }

    fn to_element(&self) -> (e: Element) {
        Element::empty("w:rPr")
    }

    fn from_element(e: &Element) -> (r: Result<CharacterProperty, XmlError>) {
        if same_text(e.name.as_str(), "w:rPr") {
            Ok(CharacterProperty)
        } else {
            Err(XmlError::MissingElement)
        }
    }
}

} // verus!
