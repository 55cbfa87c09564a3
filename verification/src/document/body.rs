//! The body of a document: its paragraphs and tables, in reading order.

use vstd::prelude::*;
use vstd::std_specs::convert::{FromSpecImpl, IntoSpec};
use crate::codec::part::{
    children_of, law_order_preserved, lemma_children_well_formed, lemma_values_round_trip,
    push_children, read_children, values_of, XmlCodec,
};
use crate::codec::text::same_text;
use crate::codec::tree::{
    lemma_children_views, lemma_views_push, rendered, rendered_all, views, Element, ElementView,
};
use crate::document::paragraph::{Paragraph, ParagraphView};
use crate::document::table::{Table, TableView};
use crate::error::XmlError;

verus! {

/// What a body may hold.
#[derive(Debug, Clone, PartialEq, Eq)]
pub enum BodyContent {
    Paragraph(Paragraph),
    Table(Table),
}

/// What a [`BodyContent`] holds.
pub enum BodyContentView {
    Paragraph(ParagraphView),
    Table(TableView),
}

impl View for BodyContent {
    type V = BodyContentView;

    open spec fn view(&self) -> BodyContentView {
        match self {
            BodyContent::Paragraph(p) => BodyContentView::Paragraph(p@),
            BodyContent::Table(t) => BodyContentView::Table(t@),
        }
    }
}

impl From<Paragraph> for BodyContent {
    fn from(paragraph: Paragraph) -> (r: BodyContent) {
        BodyContent::Paragraph(paragraph)
    }
}

impl FromSpecImpl<Paragraph> for BodyContent {
    open spec fn obeys_from_spec() -> bool {
        true
    }

    open spec fn from_spec(paragraph: Paragraph) -> BodyContent {
        BodyContent::Paragraph(paragraph)
    }
}

impl From<Table> for BodyContent {
    fn from(table: Table) -> (r: BodyContent) {
        BodyContent::Table(table)
    }
}

impl FromSpecImpl<Table> for BodyContent {
    open spec fn obeys_from_spec() -> bool {
        true
    }

    open spec fn from_spec(table: Table) -> BodyContent {
        BodyContent::Table(table)
    }
}

/// A paragraph and a table have different tags.
pub proof fn lemma_body_tags_differ()
    ensures
        "w:p"@ != "w:tbl"@,
{
    reveal_strlit("w:p");
    reveal_strlit("w:tbl");
    assert("w:p"@.len() == 3);
    assert("w:tbl"@.len() == 5);
}

impl XmlCodec for BodyContent {
    open spec fn accepts(name: Seq<char>) -> bool {
        Paragraph::accepts(name) || Table::accepts(name)
    }

    open spec fn vacant(v: BodyContentView) -> bool {
        match v {
            BodyContentView::Paragraph(p) => Paragraph::vacant(p),
            BodyContentView::Table(t) => Table::vacant(t),
        }
    }

    open spec fn element_of(v: BodyContentView) -> ElementView {
        match v {
            BodyContentView::Paragraph(p) => Paragraph::element_of(p),
            BodyContentView::Table(t) => Table::element_of(t),
        }
    }

    open spec fn value_of(e: ElementView) -> Result<BodyContentView, XmlError> {
        if Paragraph::accepts(e.name) {
            match Paragraph::value_of(e) {
                Ok(p) => Ok(BodyContentView::Paragraph(p)),
                Err(err) => Err(err),
            }
        } else if Table::accepts(e.name) {
            match Table::value_of(e) {
                Ok(t) => Ok(BodyContentView::Table(t)),
                Err(err) => Err(err),
            }
        } else {
            Err(XmlError::MissingElement)
        }
    }

    proof fn law_round_trip(v: BodyContentView) {
        lemma_body_tags_differ();
        match v {
            BodyContentView::Paragraph(p) => Paragraph::law_round_trip(p),
            BodyContentView::Table(t) => Table::law_round_trip(t),
        }
    }

    proof fn law_suppression(v: BodyContentView) {
        match v {
            BodyContentView::Paragraph(p) => Paragraph::law_suppression(p),
            BodyContentView::Table(t) => Table::law_suppression(t),
        }
    }

    fn accepts_name(name: &str) -> (r: bool) {
        Paragraph::accepts_name(name) || Table::accepts_name(name)
    }

    fn to_element(&self) -> (e: Element) {
        match self {
            BodyContent::Paragraph(p) => p.to_element(),
            BodyContent::Table(t) => t.to_element(),
        }
    }

    fn from_element(e: &Element) -> (r: Result<BodyContent, XmlError>) {
        if Paragraph::accepts_name(e.name.as_str()) {
            match Paragraph::from_element(e) {
                Ok(p) => Ok(BodyContent::Paragraph(p)),
                Err(err) => Err(err),
            }
        } else if Table::accepts_name(e.name.as_str()) {
            match Table::from_element(e) {
                Ok(t) => Ok(BodyContent::Table(t)),
                Err(err) => Err(err),
            }
        } else {
            Err(XmlError::MissingElement)
        }
    }
}

/// The body of a document, written as the element `w:body` around what it
/// holds.
#[derive(Debug, Clone, PartialEq, Eq)]
pub struct Body {
    /// What the body holds, in reading order.
    pub content: Vec<BodyContent>,
}

/// What a [`Body`] holds.
pub struct BodyView {
    pub content: Seq<BodyContentView>,
}

impl View for Body {
    type V = BodyView;

    open spec fn view(&self) -> BodyView {
        BodyView { content: views(self.content@) }
    }
}

impl Default for Body {
    /// The body that holds nothing.
    fn default() -> (r: Body)
        ensures
            r@.content == Seq::<BodyContentView>::empty(),
    {
        let r = Body { content: Vec::new() };
        assert(r@.content =~= Seq::<BodyContentView>::empty());
        r
    }
}

impl Body {
    /// Adds a paragraph or a table after what the body holds, and gives
    /// the body back for the next call.
    pub fn push<T: Into<BodyContent>>(&mut self, content: T) -> (r: &mut Self)
        ensures
            r@.content.len() == old(self)@.content.len() + 1,
            r@.content.drop_last() == old(self)@.content,
            <T as IntoSpec<BodyContent>>::obeys_into_spec() ==> r@.content.last()
                == content.into_spec()@,
            exists|converted: BodyContent|
                call_ensures(<T as Into<BodyContent>>::into, (content,), converted)
                    && r@.content.last() == converted@,
            *final(self) == *final(r),
    {
        let converted: BodyContent = content.into();
        proof {
            lemma_views_push(self.content@, converted);
            assert(old(self)@.content.push(converted@).drop_last() =~= old(self)@.content);
        }
        self.content.push(converted);
        self
    }
}

/// Order in a body: appending content appends its element after the
/// elements of what the body held and its text after their text, and the
/// body is read back with the content in the order of the appending.
pub proof fn law_content_in_order(body: BodyView, content: BodyContentView)
    ensures
        ({
            let before = Body::element_of(body);
            let longer = BodyView { content: body.content.push(content) };
            let after = Body::element_of(longer);
            &&& after.children == before.children.push(BodyContent::element_of(content))
            &&& rendered_all(after.children) == rendered_all(before.children) + rendered(
                BodyContent::element_of(content),
            )
            &&& Body::value_of(after) == Ok::<BodyView, XmlError>(longer)
        }),
{
    law_order_preserved::<BodyContent>(body.content, content);
    Body::law_round_trip(BodyView { content: body.content.push(content) });
}

impl XmlCodec for Body {
    open spec fn accepts(name: Seq<char>) -> bool {
        name == "w:body"@
    }

    open spec fn vacant(v: BodyView) -> bool {
        v.content.len() == 0
    }

    open spec fn element_of(v: BodyView) -> ElementView {
        ElementView {
            name: "w:body"@,
            attributes: Seq::empty(),
            text: Seq::empty(),
            children: children_of::<BodyContent>(v.content),
            empty_tag: v.content.len() == 0,
        }
    }

    open spec fn value_of(e: ElementView) -> Result<BodyView, XmlError> {
        if e.name != "w:body"@ {
            Err(XmlError::MissingElement)
        } else {
            match values_of::<BodyContent>(e.children) {
                Ok(content) => Ok(BodyView { content }),
                Err(err) => Err(err),
            }
        }
    }

    proof fn law_round_trip(v: BodyView) {
        lemma_values_round_trip::<BodyContent>(v.content);
        lemma_children_well_formed::<BodyContent>(v.content);
    }

    proof fn law_suppression(v: BodyView) {
    }

    fn accepts_name(name: &str) -> (r: bool) {
        same_text(name, "w:body")
    }

    fn to_element(&self) -> (e: Element) {
        let mut children: Vec<Element> = Vec::new();
        push_children(&mut children, &self.content);
        let empty_tag = self.content.len() == 0;
        let e = Element {
            name: String::from_str("w:body"),
            attributes: Vec::new(),
            text: String::new(),
            children,
            empty_tag,
        };
        proof {
            lemma_children_views(e);
            assert(e@.children =~= children_of::<BodyContent>(self@.content));
            assert(e@.attributes =~= Seq::empty());
        }
        e
    }

    fn from_element(e: &Element) -> (r: Result<Body, XmlError>) {
        if !same_text(e.name.as_str(), "w:body") {
            return Err(XmlError::MissingElement);
        }
        match read_children::<BodyContent>(e) {
            Ok(content) => Ok(Body { content }),
            Err(err) => Err(err),
        }
    }
}

} // verus!
