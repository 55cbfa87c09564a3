//! Latent styles: what is known of a style before the document uses it.

use vstd::prelude::*;
use crate::codec::lookup::{
    attribute_value, bool_attribute, bool_option_text, format_bool_option, format_isize_option,
    isize_attribute, isize_option_text, lemma_optional_attributes_lookup,
    lemma_optional_attributes_vacant, optional_attributes, push_optional_attribute, text_option,
};
use crate::codec::number::lemma_decimal_round_trip;
use crate::codec::part::XmlCodec;
use crate::codec::text::{lemma_bool_round_trip, same_text};
use crate::codec::tree::{lemma_children_views, views, Attribute, Element, ElementView};
use crate::error::XmlError;

verus! {

/// An exception to the defaults of the latent styles: a flat record of
/// attributes, each of which may be absent. It is written as the element
/// `w:lsdException`.
#[derive(Debug, Clone, PartialEq, Eq)]
pub struct LatentStyle {
    /// The name of the style.
    pub name: Option<String>,
    /// Whether the style is locked.
    pub locked: Option<bool>,
    /// The place of the style in the user interface.
    pub priority: Option<isize>,
    /// Whether the style is hidden from the main user interface.
    pub semi_hidden: Option<bool>,
    /// Whether the style is shown once it is used.
    pub unhiden_when_used: Option<bool>,
    /// Whether the style is shown in the gallery of quick styles.
    pub q_format: Option<bool>,
}

/// What a [`LatentStyle`] holds.
pub struct LatentStyleView {
    pub name: Option<Seq<char>>,
    pub locked: Option<bool>,
    pub priority: Option<isize>,
    pub semi_hidden: Option<bool>,
    pub unhiden_when_used: Option<bool>,
    pub q_format: Option<bool>,
}

impl View for LatentStyle {
    type V = LatentStyleView;

    open spec fn view(&self) -> LatentStyleView {
        LatentStyleView {
            name: text_option(self.name),
            locked: self.locked,
            priority: self.priority,
            semi_hidden: self.semi_hidden,
            unhiden_when_used: self.unhiden_when_used,
            q_format: self.q_format,
        }
    }
}

/// The names of the attributes, in the order in which they are written.
pub open spec fn names() -> Seq<Seq<char>> {
    seq![
        "w:name"@,
        "w:locked"@,
        "w:uiPriority"@,
        "w:semiHidden"@,
        "w:unhideWhenUsed"@,
        "w:qFormat"@,
    ]
}

/// The texts of the attributes of a value, in the order in which they are
/// written: booleans as `true` or `false`, the priority in decimal.
pub open spec fn texts(v: LatentStyleView) -> Seq<Option<Seq<char>>> {
    seq![
        v.name,
        bool_option_text(v.locked),
        isize_option_text(v.priority),
        bool_option_text(v.semi_hidden),
        bool_option_text(v.unhiden_when_used),
        bool_option_text(v.q_format),
    ]
}

/// No two attribute names are the same.
pub proof fn lemma_names_differ(k: int)
    requires
        0 <= k < names().len(),
    ensures
        forall|j: int| 0 <= j < names().len() && j != k ==> #[trigger] names()[j] != names()[k],
{
    reveal_strlit("w:name");
    reveal_strlit("w:locked");
    reveal_strlit("w:uiPriority");
    reveal_strlit("w:semiHidden");
    reveal_strlit("w:unhideWhenUsed");
    reveal_strlit("w:qFormat");
    let b = names()[k];
    assert forall|j: int| 0 <= j < names().len() && j != k implies #[trigger] names()[j] != b by {
        let a = names()[j];
        assert(a.len() != b.len() || a[2] != b[2]);
    }
}

/// The element of a value gives each attribute as the value holds it.
pub proof fn lemma_attribute_read(v: LatentStyleView, k: int)
    requires
        0 <= k < names().len(),
    ensures
        attribute_value(LatentStyle::element_of(v).attributes, names()[k]) == texts(v)[k],
{
    lemma_names_differ(k);
    lemma_optional_attributes_lookup(names(), texts(v), names().len() as int, k);
}

impl Default for LatentStyle {
    /// The exception with every attribute absent.
    fn default() -> (r: LatentStyle)
        ensures
            LatentStyle::vacant(r@),
    {
        LatentStyle {
            name: None,
            locked: None,
            priority: None,
            semi_hidden: None,
            unhiden_when_used: None,
            q_format: None,
        }
    }
}

impl XmlCodec for LatentStyle {
    open spec fn accepts(name: Seq<char>) -> bool {
        name == "w:lsdException"@
    }

    open spec fn vacant(v: LatentStyleView) -> bool {
        v.name is None && v.locked is None && v.priority is None && v.semi_hidden is None
            && v.unhiden_when_used is None && v.q_format is None
    }

    open spec fn element_of(v: LatentStyleView) -> ElementView {
        ElementView {
            name: "w:lsdException"@,
            attributes: optional_attributes(names(), texts(v), names().len() as int),
            text: Seq::empty(),
            children: Seq::empty(),
            empty_tag: Self::vacant(v),
        }
    }

    open spec fn value_of(e: ElementView) -> Result<LatentStyleView, XmlError> {
        if e.name != "w:lsdException"@ {
            Err(XmlError::MissingElement)
        } else {
            match bool_attribute(e.attributes, "w:locked"@) {
                Err(err) => Err(err),
                Ok(locked) => match isize_attribute(e.attributes, "w:uiPriority"@) {
                    Err(err) => Err(err),
                    Ok(priority) => match bool_attribute(e.attributes, "w:semiHidden"@) {
                        Err(err) => Err(err),
                        Ok(semi_hidden) => match bool_attribute(
                            e.attributes,
                            "w:unhideWhenUsed"@,
                        ) {
                            Err(err) => Err(err),
                            Ok(unhiden_when_used) => match bool_attribute(
                                e.attributes,
                                "w:qFormat"@,
                            ) {
                                Err(err) => Err(err),
                                Ok(q_format) => Ok(
                                    LatentStyleView {
                                        name: attribute_value(e.attributes, "w:name"@),
                                        locked,
                                        priority,
                                        semi_hidden,
                                        unhiden_when_used,
                                        q_format,
                                    },
                                ),
                            },
                        },
                    },
                },
            }
        }
    }

    proof fn law_round_trip(v: LatentStyleView) {
        lemma_attribute_read(v, 0);
        lemma_attribute_read(v, 1);
        lemma_attribute_read(v, 2);
        lemma_attribute_read(v, 3);
        lemma_attribute_read(v, 4);
        lemma_attribute_read(v, 5);
        if let Some(b) = v.locked {
            lemma_bool_round_trip(b);
        }
        if let Some(n) = v.priority {
            lemma_decimal_round_trip(n as int);
        }
        if let Some(b) = v.semi_hidden {
            lemma_bool_round_trip(b);
        }
        if let Some(b) = v.unhiden_when_used {
            lemma_bool_round_trip(b);
        }
        if let Some(b) = v.q_format {
            lemma_bool_round_trip(b);
        }
    }

    proof fn law_suppression(v: LatentStyleView) {
        if Self::vacant(v) {
            lemma_optional_attributes_vacant(names(), texts(v), names().len() as int);
        }
    }

    fn accepts_name(name: &str) -> (r: bool) {
        same_text(name, "w:lsdException")
    }

    fn to_element(&self) -> (e: Element) {
        let ghost v = self@;
        let mut attributes: Vec<Attribute> = Vec::new();
        assert(views(attributes@) =~= optional_attributes(names(), texts(v), 0));
        push_optional_attribute(&mut attributes, "w:name", &self.name);
        assert(views(attributes@) == optional_attributes(names(), texts(v), 1));
        push_optional_attribute(&mut attributes, "w:locked", &format_bool_option(&self.locked));
        assert(views(attributes@) == optional_attributes(names(), texts(v), 2));
        push_optional_attribute(
            &mut attributes,
            "w:uiPriority",
            &format_isize_option(&self.priority),
        );
        assert(views(attributes@) == optional_attributes(names(), texts(v), 3));
        push_optional_attribute(
            &mut attributes,
            "w:semiHidden",
            &format_bool_option(&self.semi_hidden),
        );
        assert(views(attributes@) == optional_attributes(names(), texts(v), 4));
        push_optional_attribute(
            &mut attributes,
            "w:unhideWhenUsed",
            &format_bool_option(&self.unhiden_when_used),
        );
        assert(views(attributes@) == optional_attributes(names(), texts(v), 5));
        push_optional_attribute(&mut attributes, "w:qFormat", &format_bool_option(&self.q_format));
        assert(views(attributes@) == optional_attributes(names(), texts(v), 6));
        let empty_tag = self.name.is_none() && self.locked.is_none() && self.priority.is_none()
            && self.semi_hidden.is_none() && self.unhiden_when_used.is_none()
            && self.q_format.is_none();
        let e = Element {
            name: String::from_str("w:lsdException"),
            attributes,
            text: String::new(),
            children: Vec::new(),
            empty_tag,
        };
        proof {
            lemma_children_views(e);
            assert(e@.children =~= Seq::empty());
        }
        e
    }

    fn from_element(e: &Element) -> (r: Result<LatentStyle, XmlError>) {
        if !same_text(e.name.as_str(), "w:lsdException") {
            return Err(XmlError::MissingElement);
        }
        let locked = match e.bool_attribute("w:locked") {
            Ok(value) => value,
            Err(err) => {
                return Err(err);
            },
        };
        let priority = match e.isize_attribute("w:uiPriority") {
            Ok(value) => value,
            Err(err) => {
                return Err(err);
            },
        };
        let semi_hidden = match e.bool_attribute("w:semiHidden") {
            Ok(value) => value,
            Err(err) => {
                return Err(err);
            },
        };
        let unhiden_when_used = match e.bool_attribute("w:unhideWhenUsed") {
            Ok(value) => value,
            Err(err) => {
                return Err(err);
            },
        };
        let q_format = match e.bool_attribute("w:qFormat") {
            Ok(value) => value,
            Err(err) => {
                return Err(err);
            },
        };
        Ok(
            LatentStyle {
                name: e.attribute("w:name"),
                locked,
                priority,
                semi_hidden,
                unhiden_when_used,
                q_format,
            },
        )
    }
}

} // verus!
