//! Styles: named formatting that paragraphs, runs, tables and lists refer
//! to.

use vstd::prelude::*;
use crate::codec::lookup::{
    attribute_value, lemma_attribute_value_concat, lemma_attribute_value_optional,
    optional_attribute,
};
use crate::codec::part::{
    disjoint, first_of, lemma_first_in_context, lemma_none_accepted_concat,
    lemma_optional_well_formed, lemma_others_optional, option_view, optional_child, push_optional,
    read_optional, XmlCodec,
};
use crate::codec::text::same_text;
use crate::codec::tree::{
    lemma_all_well_formed_concat, lemma_children_views, views, Attribute, AttributeView, Element,
    ElementView,
};
use crate::error::XmlError;
use crate::formatting::{CharacterProperty, ParagraphProperty};

verus! {

/// What a style applies to.
#[derive(Debug, Clone, Copy, PartialEq, Eq, Structural)]
pub enum StyleType {
    Paragraph,
    Character,
    Table,
    Numbering,
}

/// The token that stands for a style type.
pub open spec fn style_type_text(ty: StyleType) -> Seq<char> {
    match ty {
        StyleType::Paragraph => "paragraph"@,
        StyleType::Character => "character"@,
        StyleType::Table => "table"@,
        StyleType::Numbering => "numbering"@,
    }
}

/// The style type that a token stands for, if any.
pub open spec fn style_type_value(text: Seq<char>) -> Option<StyleType> {
    if text == "paragraph"@ {
        Some(StyleType::Paragraph)
    } else if text == "character"@ {
        Some(StyleType::Character)
    } else if text == "table"@ {
        Some(StyleType::Table)
    } else if text == "numbering"@ {
        Some(StyleType::Numbering)
    } else {
        None
    }
}

/// Reading the token of a style type gives the type back.
pub proof fn lemma_style_type_round_trip(ty: StyleType)
    ensures
        style_type_value(style_type_text(ty)) == Some(ty),
{
    reveal_strlit("paragraph");
    reveal_strlit("character");
    reveal_strlit("table");
    reveal_strlit("numbering");
    assert("paragraph"@[0] == 'p');
    assert("character"@[0] == 'c');
    assert("numbering"@[0] == 'n');
    assert("table"@.len() == 5);
    assert("paragraph"@.len() == 9);
}

impl StyleType {
    /// The token that stands for the type.
    pub fn token(&self) -> (r: &'static str)
        ensures
            r@ == style_type_text(*self),
    {
        match self {
            StyleType::Paragraph => "paragraph",
            StyleType::Character => "character",
            StyleType::Table => "table",
            StyleType::Numbering => "numbering",
        }
    }

    /// The type that a token stands for.
    pub fn from_token(text: &str) -> (r: Option<StyleType>)
        ensures
            r == style_type_value(text@),
    {
        if same_text(text, "paragraph") {
            Some(StyleType::Paragraph)
        } else if same_text(text, "character") {
            Some(StyleType::Character)
        } else if same_text(text, "table") {
            Some(StyleType::Table)
        } else if same_text(text, "numbering") {
            Some(StyleType::Numbering)
        } else {
            None
        }
    }
}

/// The display name of a style, written `<w:name w:val="name">`.
#[derive(Debug, Default, Clone, PartialEq, Eq)]
pub struct StyleName {
    /// The name.
    pub value: String,
}

/// What a [`StyleName`] holds.
pub struct StyleNameView {
    pub value: Seq<char>,
}

impl View for StyleName {
    type V = StyleNameView;

    open spec fn view(&self) -> StyleNameView {
        StyleNameView { value: self.value@ }
    }
}

impl StyleName {
    /// The name with the given characters.
    pub fn new(value: &str) -> (r: StyleName)
        ensures
            r@.value == value@,
    {
        StyleName { value: String::from_str(value) }
    }
}

impl XmlCodec for StyleName {
    open spec fn accepts(name: Seq<char>) -> bool {
        name == "w:name"@
    }

    open spec fn vacant(v: StyleNameView) -> bool {
        false
    }

    open spec fn element_of(v: StyleNameView) -> ElementView {
        ElementView {
            name: "w:name"@,
            attributes: seq![AttributeView { name: "w:val"@, value: v.value }],
            text: Seq::empty(),
            children: Seq::empty(),
            empty_tag: false,
        }
    }

    open spec fn value_of(e: ElementView) -> Result<StyleNameView, XmlError> {
        if e.name != "w:name"@ {
            Err(XmlError::MissingElement)
        } else {
            match attribute_value(e.attributes, "w:val"@) {
                Some(value) => Ok(StyleNameView { value }),
                None => Err(XmlError::MissingAttribute),
            }
        }
    }

    proof fn law_round_trip(v: StyleNameView) {
        lemma_attribute_value_optional("w:val"@, Some(v.value), "w:val"@);
    }

    proof fn law_suppression(v: StyleNameView) {
    }

    fn accepts_name(name: &str) -> (r: bool) {
        same_text(name, "w:name")
    }

    fn to_element(&self) -> (e: Element) {
        let mut attributes: Vec<Attribute> = Vec::new();
        attributes.push(Attribute::new("w:val", self.value.as_str()));
        let e = Element {
            name: String::from_str("w:name"),
            attributes,
            text: String::new(),
            children: Vec::new(),
            empty_tag: false,
        };
        proof {
            lemma_children_views(e);
            assert(e@.children =~= Seq::empty());
            assert(e@.attributes =~= Self::element_of(self@).attributes);
        }
        e
    }

    fn from_element(e: &Element) -> (r: Result<StyleName, XmlError>) {
        if !same_text(e.name.as_str(), "w:name") {
            return Err(XmlError::MissingElement);
        }
        match e.attribute("w:val") {
            Some(value) => Ok(StyleName { value }),
            None => Err(XmlError::MissingAttribute),
        }
    }
}

/// A style: its type and its identifier, which every style has, and its
/// display name and its paragraph and character properties, each of which
/// may be absent. It is written as the element `w:style`.
#[derive(Debug, Clone, PartialEq, Eq)]
pub struct Style {
    /// What the style applies to.
    pub ty: StyleType,
    /// The identifier by which the document refers to the style.
    pub style_id: String,
    /// The name under which the style is shown.
    pub name: Option<StyleName>,
    /// The paragraph properties of the style.
    pub paragraph: Option<ParagraphProperty>,
    /// The character properties of the style.
    pub character: Option<CharacterProperty>,
}

/// What a [`Style`] holds.
pub struct StyleView {
    pub ty: StyleType,
    pub style_id: Seq<char>,
    pub name: Option<StyleNameView>,
    pub paragraph: Option<ParagraphProperty>,
    pub character: Option<CharacterProperty>,
}

impl View for Style {
    type V = StyleView;

    open spec fn view(&self) -> StyleView {
        StyleView {
            ty: self.ty,
            style_id: self.style_id@,
            name: option_view(self.name),
            paragraph: self.paragraph,
            character: self.character,
        }
    }
}

/// The attributes of a style: its type, then its identifier.
pub open spec fn style_attributes(v: StyleView) -> Seq<AttributeView> {
    seq![
        AttributeView { name: "w:type"@, value: style_type_text(v.ty) },
        AttributeView { name: "w:styleId"@, value: v.style_id },
    ]
}

/// The name of a style and its two property blocks have three different
/// tags.
pub proof fn lemma_style_tags()
    ensures
        disjoint::<StyleName, ParagraphProperty>(),
        disjoint::<ParagraphProperty, StyleName>(),
        disjoint::<StyleName, CharacterProperty>(),
        disjoint::<CharacterProperty, StyleName>(),
        disjoint::<ParagraphProperty, CharacterProperty>(),
        disjoint::<CharacterProperty, ParagraphProperty>(),
{
    reveal_strlit("w:name");
    reveal_strlit("w:pPr");
    reveal_strlit("w:rPr");
    assert("w:name"@.len() == 6);
    assert("w:pPr"@.len() == 5);
    assert("w:rPr"@.len() == 5);
    assert("w:pPr"@[2] == 'p');
    assert("w:rPr"@[2] == 'r');
}

/// The attributes of a style give its type and its identifier.
pub proof fn lemma_style_attributes_read(v: StyleView)
    ensures
        attribute_value(style_attributes(v), "w:type"@) == Some(style_type_text(v.ty)),
        attribute_value(style_attributes(v), "w:styleId"@) == Some(v.style_id),
{
    reveal_strlit("w:type");
    reveal_strlit("w:styleId");
    assert("w:type"@.len() == 6);
    assert("w:styleId"@.len() == 9);
    let first = optional_attribute("w:type"@, Some(style_type_text(v.ty)));
    let second = optional_attribute("w:styleId"@, Some(v.style_id));
    assert(style_attributes(v) =~= first + second);
    lemma_attribute_value_concat(first, second, "w:type"@);
    lemma_attribute_value_concat(first, second, "w:styleId"@);
    lemma_attribute_value_optional("w:type"@, Some(style_type_text(v.ty)), "w:type"@);
    lemma_attribute_value_optional("w:type"@, Some(style_type_text(v.ty)), "w:styleId"@);
    lemma_attribute_value_optional("w:styleId"@, Some(v.style_id), "w:styleId"@);
}

impl Style {
    /// The style of the given type with the given identifier, without a
    /// name and without properties.
    pub fn new(ty: StyleType, style_id: &str) -> (r: Style)
        ensures
            r@ == (StyleView {
                ty,
                style_id: style_id@,
                name: None,
                paragraph: None,
                character: None,
            }),
    {
        Style {
            ty,
            style_id: String::from_str(style_id),
            name: None,
            paragraph: None,
            character: None,
        }
    }

    /// Sets the display name of the style, in place of any that it had.
    pub fn name(self, name: &str) -> (r: Style)
        ensures
            r@ == (StyleView { name: Some(StyleNameView { value: name@ }), ..self@ }),
    {
        let mut style = self;
        style.name = Some(StyleName::new(name));
        style
    }

    /// Sets the paragraph properties of the style, in place of any that it
    /// had.
    pub fn paragraph(self, property: ParagraphProperty) -> (r: Style)
        ensures
            r@ == (StyleView { paragraph: Some(property), ..self@ }),
    {
        let mut style = self;
        style.paragraph = Some(property);
        style
    }

    /// Sets the character properties of the style, in place of any that it
    /// had.
    pub fn character(self, property: CharacterProperty) -> (r: Style)
        ensures
            r@ == (StyleView { character: Some(property), ..self@ }),
    {
        let mut style = self;
        style.character = Some(property);
        style
    }
}

impl XmlCodec for Style {
    open spec fn accepts(name: Seq<char>) -> bool {
        name == "w:style"@
    }

    open spec fn vacant(v: StyleView) -> bool {
        false
    }

    open spec fn element_of(v: StyleView) -> ElementView {
        ElementView {
            name: "w:style"@,
            attributes: style_attributes(v),
            text: Seq::empty(),
            children: optional_child::<StyleName>(v.name) + optional_child::<ParagraphProperty>(
                v.paragraph,
            ) + optional_child::<CharacterProperty>(v.character),
            empty_tag: false,
        }
    }

    open spec fn value_of(e: ElementView) -> Result<StyleView, XmlError> {
        if e.name != "w:style"@ {
            Err(XmlError::MissingElement)
        } else {
            match attribute_value(e.attributes, "w:type"@) {
                None => Err(XmlError::MissingAttribute),
                Some(token) => match style_type_value(token) {
                    None => Err(XmlError::InvalidValue),
                    Some(ty) => match attribute_value(e.attributes, "w:styleId"@) {
                        None => Err(XmlError::MissingAttribute),
                        Some(style_id) => match first_of::<StyleName>(e.children) {
                            Err(err) => Err(err),
                            Ok(name) => match first_of::<ParagraphProperty>(e.children) {
                                Err(err) => Err(err),
                                Ok(paragraph) => match first_of::<CharacterProperty>(
                                    e.children,
                                ) {
                                    Err(err) => Err(err),
                                    Ok(character) => Ok(
                                        StyleView { ty, style_id, name, paragraph, character },
                                    ),
                                },
                            },
                        },
                    },
                },
            }
        }
    }

    proof fn law_round_trip(v: StyleView) {
        let own = optional_child::<StyleName>(v.name);
        let first = optional_child::<ParagraphProperty>(v.paragraph);
        let second = optional_child::<CharacterProperty>(v.character);
        let none = Seq::<ElementView>::empty();
        lemma_style_attributes_read(v);
        lemma_style_type_round_trip(v.ty);
        lemma_style_tags();
        lemma_others_optional::<StyleName, ParagraphProperty>(v.paragraph);
        lemma_others_optional::<StyleName, CharacterProperty>(v.character);
        lemma_none_accepted_concat::<StyleName>(first, second);
        lemma_first_in_context::<StyleName>(none, v.name, first + second);
        assert(none + own + (first + second) =~= own + first + second);
        lemma_others_optional::<ParagraphProperty, StyleName>(v.name);
        lemma_others_optional::<ParagraphProperty, CharacterProperty>(v.character);
        lemma_first_in_context::<ParagraphProperty>(own, v.paragraph, second);
        lemma_others_optional::<CharacterProperty, StyleName>(v.name);
        lemma_others_optional::<CharacterProperty, ParagraphProperty>(v.paragraph);
        lemma_none_accepted_concat::<CharacterProperty>(own, first);
        lemma_first_in_context::<CharacterProperty>(own + first, v.character, none);
        assert(own + first + second + none =~= own + first + second);
        lemma_optional_well_formed::<StyleName>(v.name);
        lemma_optional_well_formed::<ParagraphProperty>(v.paragraph);
        lemma_optional_well_formed::<CharacterProperty>(v.character);
        lemma_all_well_formed_concat(own, first);
        lemma_all_well_formed_concat(own + first, second);
    }

    proof fn law_suppression(v: StyleView) {
    }

    fn accepts_name(name: &str) -> (r: bool) {
        same_text(name, "w:style")
    }

    fn to_element(&self) -> (e: Element) {
        let mut attributes: Vec<Attribute> = Vec::new();
        attributes.push(Attribute::new("w:type", self.ty.token()));
        attributes.push(Attribute::new("w:styleId", self.style_id.as_str()));
        assert(views(attributes@) =~= style_attributes(self@));
        let mut children: Vec<Element> = Vec::new();
        push_optional(&mut children, &self.name);
        push_optional(&mut children, &self.paragraph);
        push_optional(&mut children, &self.character);
        let e = Element {
            name: String::from_str("w:style"),
            attributes,
            text: String::new(),
            children,
            empty_tag: false,
        };
        proof {
            lemma_children_views(e);
            assert(e@.children =~= Self::element_of(self@).children);
        }
        e
    }

    fn from_element(e: &Element) -> (r: Result<Style, XmlError>) {
        if !same_text(e.name.as_str(), "w:style") {
            return Err(XmlError::MissingElement);
        }
        let ty = match e.attribute("w:type") {
            Some(token) => match StyleType::from_token(token.as_str()) {
                Some(ty) => ty,
                None => {
                    return Err(XmlError::InvalidValue);
                },
            },
            None => {
                return Err(XmlError::MissingAttribute);
            },
        };
        let style_id = match e.attribute("w:styleId") {
            Some(value) => value,
            None => {
                return Err(XmlError::MissingAttribute);
            },
        };
        let name = match read_optional::<StyleName>(e) {
            Ok(value) => value,
            Err(err) => {
                return Err(err);
            },
        };
        let paragraph = match read_optional::<ParagraphProperty>(e) {
            Ok(value) => value,
            Err(err) => {
                return Err(err);
            },
        };
        match read_optional::<CharacterProperty>(e) {
            Ok(character) => Ok(Style { ty, style_id, name, paragraph, character }),
            Err(err) => Err(err),
        }
    }
}

} // verus!
