//! Paragraphs.

use vstd::prelude::*;
use crate::codec::part::{
    children_of, disjoint, first_of, lemma_optional_then_children, optional_child, push_children,
    push_optional, read_children, read_optional, values_of, XmlCodec,
};
use crate::codec::text::same_text;
use crate::codec::tree::{lemma_children_views, lemma_views_push, views, Element, ElementView};
use crate::document::run::{Run, RunContentView, RunView, TextView};
use crate::error::XmlError;
use crate::formatting::ParagraphProperty;

verus! {

/// A paragraph, written as the element `w:p` around its properties and its
/// runs.
#[derive(Debug, Clone, PartialEq, Eq)]
pub struct Paragraph {
    /// The properties of the paragraph.
    pub property: Option<ParagraphProperty>,
    /// The runs of the paragraph, in reading order.
    pub runs: Vec<Run>,
}

/// What a [`Paragraph`] holds.
pub struct ParagraphView {
    pub property: Option<ParagraphProperty>,
    pub runs: Seq<RunView>,
}

impl View for Paragraph {
    type V = ParagraphView;

    open spec fn view(&self) -> ParagraphView {
        ParagraphView { property: self.property, runs: views(self.runs@) }
    }
}

impl Default for Paragraph {
    /// The paragraph without properties and runs.
    fn default() -> (r: Paragraph)
        ensures
            r@ == (ParagraphView { property: None, runs: Seq::empty() }),
    {
        let r = Paragraph { property: None, runs: Vec::new() };
        assert(r@.runs =~= Seq::<RunView>::empty());
        r
    }
}

/// The properties of a paragraph and a run have different tags.
pub proof fn lemma_paragraph_tags()
    ensures
        disjoint::<ParagraphProperty, Run>(),
        disjoint::<Run, ParagraphProperty>(),
{
    reveal_strlit("w:pPr");
    reveal_strlit("w:r");
    assert("w:pPr"@.len() == 5);
    assert("w:r"@.len() == 3);
}

impl Paragraph {
    /// Sets the properties of the paragraph, in place of any that it had.
    pub fn property(self, property: ParagraphProperty) -> (r: Paragraph)
        ensures
            r@ == (ParagraphView { property: Some(property), ..self@ }),
    {
        let mut paragraph = self;
        paragraph.property = Some(property);
        paragraph
    }

    /// Adds a run after those that the paragraph has.
    pub fn push(self, run: Run) -> (r: Paragraph)
        ensures
            r@ == (ParagraphView { runs: self@.runs.push(run@), ..self@ }),
    {
        let mut paragraph = self;
        proof {
            lemma_views_push(paragraph.runs@, run);
        }
        paragraph.runs.push(run);
        paragraph
    }

    /// Adds a run that holds the given text.
    pub fn push_text(self, text: &str) -> (r: Paragraph)
        ensures
            r@ == (ParagraphView {
                runs: self@.runs.push(
                    RunView {
                        property: None,
                        content: seq![RunContentView::Text(TextView { text: text@ })],
                    },
                ),
                ..self@
            }),
    {
        self.push(Run::text(text))
    }
}

impl XmlCodec for Paragraph {
    open spec fn accepts(name: Seq<char>) -> bool {
        name == "w:p"@
    }

    open spec fn vacant(v: ParagraphView) -> bool {
        v.property is None && v.runs.len() == 0
    }

    open spec fn element_of(v: ParagraphView) -> ElementView {
        ElementView {
            name: "w:p"@,
            attributes: Seq::empty(),
            text: Seq::empty(),
            children: optional_child::<ParagraphProperty>(v.property) + children_of::<Run>(v.runs),
            empty_tag: Self::vacant(v),
        }
    }

    open spec fn value_of(e: ElementView) -> Result<ParagraphView, XmlError> {
        if e.name != "w:p"@ {
            Err(XmlError::MissingElement)
        } else {
            match first_of::<ParagraphProperty>(e.children) {
                Err(err) => Err(err),
                Ok(property) => match values_of::<Run>(e.children) {
                    Err(err) => Err(err),
                    Ok(runs) => Ok(ParagraphView { property, runs }),
                },
            }
        }
    }

    proof fn law_round_trip(v: ParagraphView) {
        lemma_paragraph_tags();
        lemma_optional_then_children::<ParagraphProperty, Run>(v.property, v.runs);
    }

    proof fn law_suppression(v: ParagraphView) {
    }

    fn accepts_name(name: &str) -> (r: bool) {
        same_text(name, "w:p")
    }

    fn to_element(&self) -> (e: Element) {
        let mut children: Vec<Element> = Vec::new();
        push_optional(&mut children, &self.property);
        push_children(&mut children, &self.runs);
        let empty_tag = self.property.is_none() && self.runs.len() == 0;
        let e = Element {
            name: String::from_str("w:p"),
            attributes: Vec::new(),
            text: String::new(),
            children,
            empty_tag,
        };
        proof {
            lemma_children_views(e);
            assert(e@.children =~= Self::element_of(self@).children);
            assert(e@.attributes =~= Seq::empty());
        }
        e
    }

    fn from_element(e: &Element) -> (r: Result<Paragraph, XmlError>) {
        if !same_text(e.name.as_str(), "w:p") {
            return Err(XmlError::MissingElement);
        }
        let property = match read_optional::<ParagraphProperty>(e) {
            Ok(value) => value,
            Err(err) => {
                return Err(err);
            },
        };
        match read_children::<Run>(e) {
            Ok(runs) => Ok(Paragraph { property, runs }),
            Err(err) => Err(err),
        }
    }
}

} // verus!
