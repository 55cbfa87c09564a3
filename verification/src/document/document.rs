//! The main document part.
//!
//! In a package the part is the item `/word/document.xml`.

use vstd::prelude::*;
use vstd::std_specs::convert::IntoSpec;
use crate::codec::part::{
    from_pieces, from_str, lemma_first_round_trip, optional_child, read_required, required_of,
    result_view, value_of_pieces, value_of_text, write_part, XmlCodec,
};
use crate::codec::text::same_text;
use crate::codec::token::Piece;
use crate::codec::tree::{
    lemma_children_views, rendered, views, Attribute, AttributeView, Element, ElementView,
};
use crate::document::body::{Body, BodyContent, BodyContentView, BodyView};
use crate::error::XmlError;
use crate::schema::{
    SCHEMA_MAIN, SCHEMA_RELATIONSHIPS_DOCUMENT, SCHEMA_WORDML_14, SCHEMA_WP, SCHEMA_XML,
};

verus! {

/// The root of the main document part: it owns the one body of the
/// document. It is written as the element `w:document`, which declares the
/// four namespaces of the part, around the body.
#[derive(Debug, Clone, PartialEq, Eq)]
pub struct Document {
    /// The body of the document.
    pub body: Body,
}

/// What a [`Document`] holds.
pub struct DocumentView {
    pub body: BodyView,
}

impl View for Document {
    type V = DocumentView;

    open spec fn view(&self) -> DocumentView {
        DocumentView { body: self.body@ }
    }
}

/// The namespace declarations on the root element: the main vocabulary
/// under `w`, the Word 2010 extensions under `w14`, drawing under `wp` and
/// relationships under `r`.
pub open spec fn namespaces() -> Seq<AttributeView> {
    seq![
        AttributeView { name: "xmlns:w"@, value: SCHEMA_MAIN@ },
        AttributeView { name: "xmlns:w14"@, value: SCHEMA_WORDML_14@ },
        AttributeView { name: "xmlns:wp"@, value: SCHEMA_WP@ },
        AttributeView { name: "xmlns:r"@, value: SCHEMA_RELATIONSHIPS_DOCUMENT@ },
    ]
}

/// The text of the part: the XML declaration and the root element.
pub open spec fn xml(v: DocumentView) -> Seq<char> {
    SCHEMA_XML@ + rendered(Document::element_of(v))
}

impl Default for Document {
    /// The document whose body holds nothing.
    fn default() -> (r: Document)
        ensures
            r@.body.content == Seq::<BodyContentView>::empty(),
    {
        Document { body: Body::default() }
    }
}

impl Document {
    /// Adds a paragraph or a table at the end of the body, and gives the
    /// document back for the next call.
    pub fn push<T: Into<BodyContent>>(&mut self, content: T) -> (r: &mut Self)
        ensures
            r@.body.content.len() == old(self)@.body.content.len() + 1,
            r@.body.content.drop_last() == old(self)@.body.content,
            <T as IntoSpec<BodyContent>>::obeys_into_spec() ==> r@.body.content.last()
                == content.into_spec()@,
            exists|converted: BodyContent|
                call_ensures(<T as Into<BodyContent>>::into, (content,), converted)
                    && r@.body.content.last() == converted@,
            *final(self) == *final(r),
    {
        self.body.push(content);
        self
    }

    /// Appends the part to a text: the XML declaration, then the root
    /// element with its namespace declarations around the body.
    pub fn to_writer(&self, writer: &mut String)
        ensures
            final(writer)@ == old(writer)@ + xml(self@),
    {
        write_part(self, writer);
    }

    /// The part as a text.
    pub fn to_string(&self) -> (r: String)
        ensures
            r@ == xml(self@),
    {
        let mut out = String::new();
        self.to_writer(&mut out);
        assert(out@ =~= xml(self@));
        out
    }

    /// Reads the part from the pieces of a text.
    pub fn from_pieces(pieces: &Vec<Piece<String>>) -> (r: Result<Document, XmlError>)
        ensures
            result_view(r) == value_of_pieces::<Document>(views(pieces@)),
    {
        from_pieces::<Document>(pieces)
    }

    /// Reads the part from a text.
    pub fn from_str(text: &str) -> (r: Result<Document, XmlError>)
        ensures
            result_view(r) == value_of_text::<Document>(text@),
    {
        from_str::<Document>(text)
    }
}

impl XmlCodec for Document {
    open spec fn accepts(name: Seq<char>) -> bool {
        name == "w:document"@
    }

    open spec fn vacant(v: DocumentView) -> bool {
        false
    }

    open spec fn element_of(v: DocumentView) -> ElementView {
        ElementView {
            name: "w:document"@,
            attributes: namespaces(),
            text: Seq::empty(),
            children: optional_child::<Body>(Some(v.body)),
            empty_tag: false,
        }
    }

    open spec fn value_of(e: ElementView) -> Result<DocumentView, XmlError> {
        if e.name != "w:document"@ {
            Err(XmlError::MissingElement)
        } else {
            match required_of::<Body>(e.children) {
                Ok(body) => Ok(DocumentView { body }),
                Err(err) => Err(err),
            }
        }
    }

    proof fn law_round_trip(v: DocumentView) {
        lemma_first_round_trip::<Body>(Some(v.body));
        Body::law_round_trip(v.body);
    }

    proof fn law_suppression(v: DocumentView) {
    }

    fn accepts_name(name: &str) -> (r: bool) {
        same_text(name, "w:document")
    }

    fn to_element(&self) -> (e: Element) {
        let mut attributes: Vec<Attribute> = Vec::new();
        attributes.push(Attribute::new("xmlns:w", SCHEMA_MAIN));
        attributes.push(Attribute::new("xmlns:w14", SCHEMA_WORDML_14));
        attributes.push(Attribute::new("xmlns:wp", SCHEMA_WP));
        attributes.push(Attribute::new("xmlns:r", SCHEMA_RELATIONSHIPS_DOCUMENT));
        assert(views(attributes@) =~= namespaces());
        let mut children: Vec<Element> = Vec::new();
        children.push(self.body.to_element());
        let e = Element {
            name: String::from_str("w:document"),
            attributes,
            text: String::new(),
            children,
            empty_tag: false,
        };
        proof {
            lemma_children_views(e);
            assert(e@.children =~= optional_child::<Body>(Some(self@.body)));
        }
        e
    }

    fn from_element(e: &Element) -> (r: Result<Document, XmlError>) {
        if !same_text(e.name.as_str(), "w:document") {
            return Err(XmlError::MissingElement);
        }
        match read_required::<Body>(e) {
            Ok(body) => Ok(Document { body }),
            Err(err) => Err(err),
        }
    }
}

} // verus!
