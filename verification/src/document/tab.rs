//! The control characters of a run: the tab and the carriage return.

use vstd::prelude::*;
use crate::codec::part::XmlCodec;
use crate::codec::text::same_text;
use crate::codec::tree::{empty_element, Element, ElementView};
use crate::error::XmlError;

verus! {

/// A tab character in a run, written `<w:tab/>`.
#[derive(Debug, Default, Clone, Copy, PartialEq, Eq)]
pub struct Tab;

impl View for Tab {
    type V = Tab;

    open spec fn view(&self) -> Tab {
        *self
    }
}

impl XmlCodec for Tab {
    open spec fn accepts(name: Seq<char>) -> bool {
        name == "w:tab"@
    }

    open spec fn vacant(v: Tab) -> bool {
        true
    }

    open spec fn element_of(v: Tab) -> ElementView {
        empty_element("w:tab"@)
    }

    open spec fn value_of(e: ElementView) -> Result<Tab, XmlError> {
        if e.name == "w:tab"@ {
            Ok(Tab)
        } else {
            Err(XmlError::MissingElement)
        }
    }

    proof fn law_round_trip(v: Tab) {
    }

    proof fn law_suppression(v: Tab) {
    }

    fn accepts_name(name: &str) -> (r: bool) {
        same_text(name, "w:tab")
    }

    fn to_element(&self) -> (e: Element) {
        Element::empty("w:tab")
    }

    fn from_element(e: &Element) -> (r: Result<Tab, XmlError>) {
        if same_text(e.name.as_str(), "w:tab") {
            Ok(Tab)
        } else {
            Err(XmlError::MissingElement)
        }
    }
}

/// A carriage return in a run, written `<w:cr/>`.
#[derive(Debug, Default, Clone, Copy, PartialEq, Eq)]
pub struct CarriageReturn;

impl View for CarriageReturn {
    type V = CarriageReturn;

    open spec fn view(&self) -> CarriageReturn {
        *self
    }
}

impl XmlCodec for CarriageReturn {
    open spec fn accepts(name: Seq<char>) -> bool {
        name == "w:cr"@
    }

    open spec fn vacant(v: CarriageReturn) -> bool {
        true
    }

    open spec fn element_of(v: CarriageReturn) -> ElementView {
        empty_element("w:cr"@)
    }

    open spec fn value_of(e: ElementView) -> Result<CarriageReturn, XmlError> {
        if e.name == "w:cr"@ {
            Ok(CarriageReturn)
        } else {
            Err(XmlError::MissingElement)
        }
    }

    proof fn law_round_trip(v: CarriageReturn) {
    }

    proof fn law_suppression(v: CarriageReturn) {
    }

    fn accepts_name(name: &str) -> (r: bool) {
        same_text(name, "w:cr")
    }

    fn to_element(&self) -> (e: Element) {
        Element::empty("w:cr")
    }

    fn from_element(e: &Element) -> (r: Result<CarriageReturn, XmlError>) {
        if same_text(e.name.as_str(), "w:cr") {
            Ok(CarriageReturn)
        } else {
            Err(XmlError::MissingElement)
        }
    }
}

} // verus!
