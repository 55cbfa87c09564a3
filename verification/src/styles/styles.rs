//! The styles part.
//!
//! In a package the part is the item `/word/styles.xml`.

use vstd::prelude::*;
use crate::codec::part::{
    children_of, disjoint, first_of, from_pieces, from_str, lemma_children_well_formed,
    lemma_optional_then_children, lemma_values_round_trip, option_view, optional_child,
    push_children, push_optional, read_children, read_optional, result_view, value_of_pieces,
    value_of_text, values_of, write_part, XmlCodec,
};
use crate::codec::text::same_text;
use crate::codec::token::Piece;
use crate::codec::tree::{
    lemma_children_views, lemma_views_push, rendered, views, Attribute, AttributeView, Element,
    ElementView,
};
use crate::error::XmlError;
use crate::schema::{SCHEMA_MAIN, SCHEMA_XML};
use crate::styles::latent_style::{LatentStyle, LatentStyleView};
use crate::styles::style::{Style, StyleView};

verus! {

/// The latent styles of a document, written as the element
/// `w:latentStyles` around one exception for each style that departs from
/// the defaults.
#[derive(Debug, Clone, PartialEq, Eq)]
pub struct LatentStyles {
    /// The exceptions, in the order in which they are written.
    pub exceptions: Vec<LatentStyle>,
}

/// What a [`LatentStyles`] holds.
pub struct LatentStylesView {
    pub exceptions: Seq<LatentStyleView>,
}

impl View for LatentStyles {
    type V = LatentStylesView;

    open spec fn view(&self) -> LatentStylesView {
        LatentStylesView { exceptions: views(self.exceptions@) }
    }
}

impl Default for LatentStyles {
    /// The latent styles without exceptions.
    fn default() -> (r: LatentStyles)
        ensures
            r@.exceptions == Seq::<LatentStyleView>::empty(),
    {
        let r = LatentStyles { exceptions: Vec::new() };
        assert(r@.exceptions =~= Seq::<LatentStyleView>::empty());
        r
    }
}

impl LatentStyles {
    /// Adds an exception after those that there are.
    pub fn push(self, exception: LatentStyle) -> (r: LatentStyles)
        ensures
            r@.exceptions == self@.exceptions.push(exception@),
    {
        let mut latent = self;
        proof {
            lemma_views_push(latent.exceptions@, exception);
        }
        latent.exceptions.push(exception);
        latent
    }
}

impl XmlCodec for LatentStyles {
    open spec fn accepts(name: Seq<char>) -> bool {
        name == "w:latentStyles"@
    }

    open spec fn vacant(v: LatentStylesView) -> bool {
        v.exceptions.len() == 0
    }

    open spec fn element_of(v: LatentStylesView) -> ElementView {
        ElementView {
            name: "w:latentStyles"@,
            attributes: Seq::empty(),
            text: Seq::empty(),
            children: children_of::<LatentStyle>(v.exceptions),
            empty_tag: v.exceptions.len() == 0,
        }
    }

    open spec fn value_of(e: ElementView) -> Result<LatentStylesView, XmlError> {
        if e.name != "w:latentStyles"@ {
            Err(XmlError::MissingElement)
        } else {
            match values_of::<LatentStyle>(e.children) {
                Ok(exceptions) => Ok(LatentStylesView { exceptions }),
                Err(err) => Err(err),
            }
        }
    }

    proof fn law_round_trip(v: LatentStylesView) {
        lemma_values_round_trip::<LatentStyle>(v.exceptions);
        lemma_children_well_formed::<LatentStyle>(v.exceptions);
    }

    proof fn law_suppression(v: LatentStylesView) {
    }

    fn accepts_name(name: &str) -> (r: bool) {
        same_text(name, "w:latentStyles")
    }

    fn to_element(&self) -> (e: Element) {
        let mut children: Vec<Element> = Vec::new();
        push_children(&mut children, &self.exceptions);
        let empty_tag = self.exceptions.len() == 0;
        let e = Element {
            name: String::from_str("w:latentStyles"),
            attributes: Vec::new(),
            text: String::new(),
            children,
            empty_tag,
        };
        proof {
            lemma_children_views(e);
            assert(e@.children =~= children_of::<LatentStyle>(self@.exceptions));
            assert(e@.attributes =~= Seq::empty());
        }
        e
    }

    fn from_element(e: &Element) -> (r: Result<LatentStyles, XmlError>) {
        if !same_text(e.name.as_str(), "w:latentStyles") {
            return Err(XmlError::MissingElement);
        }
        match read_children::<LatentStyle>(e) {
            Ok(exceptions) => Ok(LatentStyles { exceptions }),
            Err(err) => Err(err),
        }
    }
}

/// The root of the styles part: the latent styles, which may be absent,
/// and the styles. It is written as the element `w:styles`, which declares
/// the main vocabulary under the prefix `w`.
#[derive(Debug, Clone, PartialEq, Eq)]
pub struct Styles {
    /// The latent styles.
    pub latent_styles: Option<LatentStyles>,
    /// The styles, in the order in which they are written.
    pub styles: Vec<Style>,
}

/// What a [`Styles`] holds.
pub struct StylesView {
    pub latent_styles: Option<LatentStylesView>,
    pub styles: Seq<StyleView>,
}

impl View for Styles {
    type V = StylesView;

    open spec fn view(&self) -> StylesView {
        StylesView { latent_styles: option_view(self.latent_styles), styles: views(self.styles@) }
    }
}

/// The namespace declaration on the root element.
pub open spec fn namespaces() -> Seq<AttributeView> {
    seq![AttributeView { name: "xmlns:w"@, value: SCHEMA_MAIN@ }]
}

/// The text of the part: the XML declaration and the root element.
pub open spec fn xml(v: StylesView) -> Seq<char> {
    SCHEMA_XML@ + rendered(Styles::element_of(v))
}

/// The latent styles and a style have different tags.
pub proof fn lemma_styles_tags()
    ensures
        disjoint::<LatentStyles, Style>(),
        disjoint::<Style, LatentStyles>(),
{
    reveal_strlit("w:latentStyles");
    reveal_strlit("w:style");
    assert("w:latentStyles"@.len() == 14);
    assert("w:style"@.len() == 7);
}

impl Default for Styles {
    /// The part without latent styles and without styles.
    fn default() -> (r: Styles)
        ensures
            r@ == (StylesView { latent_styles: None, styles: Seq::empty() }),
    {
        let r = Styles { latent_styles: None, styles: Vec::new() };
        assert(r@.styles =~= Seq::<StyleView>::empty());
        r
    }
}

impl Styles {
    /// Sets the latent styles, in place of any that there were.
    pub fn latent_styles(self, latent_styles: LatentStyles) -> (r: Styles)
        ensures
            r@ == (StylesView { latent_styles: Some(latent_styles@), ..self@ }),
    {
        let mut styles = self;
        styles.latent_styles = Some(latent_styles);
        styles
    }

    /// Adds a style after those that there are.
    pub fn push(self, style: Style) -> (r: Styles)
        ensures
            r@ == (StylesView { styles: self@.styles.push(style@), ..self@ }),
    {
        let mut styles = self;
        proof {
            lemma_views_push(styles.styles@, style);
        }
        styles.styles.push(style);
        styles
    }

    /// Appends the part to a text: the XML declaration, then the root
    /// element with its namespace declaration around the latent styles
    /// and the styles.
    pub fn to_writer(&self, writer: &mut String)
        ensures
            final(writer)@ == old(writer)@ + xml(self@),
    {
        write_part(self, writer);
    }

    /// The part as a text.
    pub fn to_string(&self) -> (r: String)
        ensures
            r@ == xml(self@),
    {
        let mut out = String::new();
        self.to_writer(&mut out);
        assert(out@ =~= xml(self@));
        out
    }

    /// Reads the part from the pieces of a text.
    pub fn from_pieces(pieces: &Vec<Piece<String>>) -> (r: Result<Styles, XmlError>)
        ensures
            result_view(r) == value_of_pieces::<Styles>(views(pieces@)),
    {
        from_pieces::<Styles>(pieces)
    }

    /// Reads the part from a text.
    pub fn from_str(text: &str) -> (r: Result<Styles, XmlError>)
        ensures
            result_view(r) == value_of_text::<Styles>(text@),
    {
        from_str::<Styles>(text)
    }
}

impl XmlCodec for Styles {
    open spec fn accepts(name: Seq<char>) -> bool {
        name == "w:styles"@
    }

    open spec fn vacant(v: StylesView) -> bool {
        v.latent_styles is None && v.styles.len() == 0
    }

    open spec fn element_of(v: StylesView) -> ElementView {
        ElementView {
            name: "w:styles"@,
            attributes: namespaces(),
            text: Seq::empty(),
            children: optional_child::<LatentStyles>(v.latent_styles) + children_of::<Style>(
                v.styles,
            ),
            empty_tag: Self::vacant(v),
        }
    }

    open spec fn value_of(e: ElementView) -> Result<StylesView, XmlError> {
        if e.name != "w:styles"@ {
            Err(XmlError::MissingElement)
        } else {
            match first_of::<LatentStyles>(e.children) {
                Err(err) => Err(err),
                Ok(latent_styles) => match values_of::<Style>(e.children) {
                    Err(err) => Err(err),
                    Ok(styles) => Ok(StylesView { latent_styles, styles }),
                },
            }
        }
    }

    proof fn law_round_trip(v: StylesView) {
        lemma_styles_tags();
        lemma_optional_then_children::<LatentStyles, Style>(v.latent_styles, v.styles);
    }

    proof fn law_suppression(v: StylesView) {
        reveal_strlit("xmlns:w");
        reveal_strlit("xmlns:");
        assert("xmlns:w"@.take(6) =~= "xmlns:"@);
    }

    fn accepts_name(name: &str) -> (r: bool) {
        same_text(name, "w:styles")
    }

    fn to_element(&self) -> (e: Element) {
        let mut attributes: Vec<Attribute> = Vec::new();
        attributes.push(Attribute::new("xmlns:w", SCHEMA_MAIN));
        assert(views(attributes@) =~= namespaces());
        let mut children: Vec<Element> = Vec::new();
        push_optional(&mut children, &self.latent_styles);
        push_children(&mut children, &self.styles);
        let empty_tag = self.latent_styles.is_none() && self.styles.len() == 0;
        let e = Element {
            name: String::from_str("w:styles"),
            attributes,
            text: String::new(),
            children,
            empty_tag,
        };
        proof {
            lemma_children_views(e);
            assert(e@.children =~= Self::element_of(self@).children);
        }
        e
    }

    fn from_element(e: &Element) -> (r: Result<Styles, XmlError>) {
        if !same_text(e.name.as_str(), "w:styles") {
            return Err(XmlError::MissingElement);
        }
        let latent_styles = match read_optional::<LatentStyles>(e) {
            Ok(value) => value,
            Err(err) => {
                return Err(err);
            },
        };
        match read_children::<Style>(e) {
            Ok(styles) => Ok(Styles { latent_styles, styles }),
            Err(err) => Err(err),
        }
    }
}

} // verus!
