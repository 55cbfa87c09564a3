//! Runs: stretches of text with one formatting.

use vstd::prelude::*;
use crate::codec::part::{
    children_of, disjoint, first_of, lemma_optional_then_children, optional_child, push_children,
    push_optional, read_children, read_optional, values_of, XmlCodec,
};
use crate::codec::text::same_text;
use crate::codec::tree::{
    lemma_children_views, lemma_views_push, text_element, views, Element, ElementView,
};
use crate::document::tab::{CarriageReturn, Tab};
use crate::error::XmlError;
use crate::formatting::CharacterProperty;

verus! {

/// Literal text in a run, written `<w:t>text</w:t>`.
#[derive(Debug, Default, Clone, PartialEq, Eq)]
pub struct Text {
    /// The characters of the text.
    pub text: String,
}

/// What a [`Text`] holds.
pub struct TextView {
    pub text: Seq<char>,
}

impl View for Text {
    type V = TextView;

    open spec fn view(&self) -> TextView {
        TextView { text: self.text@ }
    }
}

impl Text {
    /// The text with the given characters.
    pub fn new(text: &str) -> (r: Text)
        ensures
            r@.text == text@,
    {
        Text { text: String::from_str(text) }
    }
}

impl XmlCodec for Text {
    open spec fn accepts(name: Seq<char>) -> bool {
        name == "w:t"@
    }

    open spec fn vacant(v: TextView) -> bool {
        false
    }

    open spec fn element_of(v: TextView) -> ElementView {
        text_element("w:t"@, v.text)
    }

    open spec fn value_of(e: ElementView) -> Result<TextView, XmlError> {
        if e.name == "w:t"@ {
            Ok(TextView { text: e.text })
        } else {
            Err(XmlError::MissingElement)
        }
    }

    proof fn law_round_trip(v: TextView) {
    }

    proof fn law_suppression(v: TextView) {
    }

    fn accepts_name(name: &str) -> (r: bool) {
        same_text(name, "w:t")
    }

    fn to_element(&self) -> (e: Element) {
        Element::with_text("w:t", self.text.as_str())
    }

    fn from_element(e: &Element) -> (r: Result<Text, XmlError>) {
        if same_text(e.name.as_str(), "w:t") {
            Ok(Text { text: e.text.clone() })
        } else {
            Err(XmlError::MissingElement)
        }
    }
}

/// What a run may hold.
#[derive(Debug, Clone, PartialEq, Eq)]
pub enum RunContent {
    Text(Text),
    Tab(Tab),
    CarriageReturn(CarriageReturn),
}

/// What a [`RunContent`] holds.
pub enum RunContentView {
    Text(TextView),
    Tab(Tab),
    CarriageReturn(CarriageReturn),
}

impl View for RunContent {
    type V = RunContentView;

    open spec fn view(&self) -> RunContentView {
        match self {
            RunContent::Text(t) => RunContentView::Text(t@),
            RunContent::Tab(t) => RunContentView::Tab(*t),
            RunContent::CarriageReturn(c) => RunContentView::CarriageReturn(*c),
        }
    }
}

/// The three kinds of run content have three different tags.
pub proof fn lemma_run_tags_differ()
    ensures
        "w:t"@ != "w:tab"@,
        "w:t"@ != "w:cr"@,
        "w:tab"@ != "w:cr"@,
{
    reveal_strlit("w:t");
    reveal_strlit("w:tab");
    reveal_strlit("w:cr");
    assert("w:t"@.len() == 3);
    assert("w:tab"@.len() == 5);
    assert("w:cr"@.len() == 4);
}

impl XmlCodec for RunContent {
    open spec fn accepts(name: Seq<char>) -> bool {
        Text::accepts(name) || Tab::accepts(name) || CarriageReturn::accepts(name)
    }

    open spec fn vacant(v: RunContentView) -> bool {
        match v {
            RunContentView::Text(t) => Text::vacant(t),
            RunContentView::Tab(t) => Tab::vacant(t),
            RunContentView::CarriageReturn(c) => CarriageReturn::vacant(c),
        }
    }

    open spec fn element_of(v: RunContentView) -> ElementView {
        match v {
            RunContentView::Text(t) => Text::element_of(t),
            RunContentView::Tab(t) => Tab::element_of(t),
            RunContentView::CarriageReturn(c) => CarriageReturn::element_of(c),
        }
    }

    open spec fn value_of(e: ElementView) -> Result<RunContentView, XmlError> {
        if Text::accepts(e.name) {
            match Text::value_of(e) {
                Ok(t) => Ok(RunContentView::Text(t)),
                Err(err) => Err(err),
            }
        } else if Tab::accepts(e.name) {
            match Tab::value_of(e) {
                Ok(t) => Ok(RunContentView::Tab(t)),
                Err(err) => Err(err),
            }
        } else if CarriageReturn::accepts(e.name) {
            match CarriageReturn::value_of(e) {
                Ok(c) => Ok(RunContentView::CarriageReturn(c)),
                Err(err) => Err(err),
            }
        } else {
            Err(XmlError::MissingElement)
        }
    }

    proof fn law_round_trip(v: RunContentView) {
        lemma_run_tags_differ();
        match v {
            RunContentView::Text(t) => Text::law_round_trip(t),
            RunContentView::Tab(t) => Tab::law_round_trip(t),
            RunContentView::CarriageReturn(c) => CarriageReturn::law_round_trip(c),
        }
    }

    proof fn law_suppression(v: RunContentView) {
        match v {
            RunContentView::Text(t) => Text::law_suppression(t),
            RunContentView::Tab(t) => Tab::law_suppression(t),
            RunContentView::CarriageReturn(c) => CarriageReturn::law_suppression(c),
        }
    }

    fn accepts_name(name: &str) -> (r: bool) {
        Text::accepts_name(name) || Tab::accepts_name(name) || CarriageReturn::accepts_name(name)
    }

    fn to_element(&self) -> (e: Element) {
        match self {
            RunContent::Text(t) => t.to_element(),
            RunContent::Tab(t) => t.to_element(),
            RunContent::CarriageReturn(c) => c.to_element(),
        }
    }

    fn from_element(e: &Element) -> (r: Result<RunContent, XmlError>) {
        if Text::accepts_name(e.name.as_str()) {
            match Text::from_element(e) {
                Ok(t) => Ok(RunContent::Text(t)),
                Err(err) => Err(err),
            }
        } else if Tab::accepts_name(e.name.as_str()) {
            match Tab::from_element(e) {
                Ok(t) => Ok(RunContent::Tab(t)),
                Err(err) => Err(err),
            }
        } else if CarriageReturn::accepts_name(e.name.as_str()) {
            match CarriageReturn::from_element(e) {
                Ok(c) => Ok(RunContent::CarriageReturn(c)),
                Err(err) => Err(err),
            }
        } else {
            Err(XmlError::MissingElement)
        }
    }
}

/// The properties of a run and what a run holds have different tags.
pub proof fn lemma_run_property_tags()
    ensures
        disjoint::<CharacterProperty, RunContent>(),
        disjoint::<RunContent, CharacterProperty>(),
{
    reveal_strlit("w:rPr");
    reveal_strlit("w:t");
    reveal_strlit("w:tab");
    reveal_strlit("w:cr");
    assert("w:rPr"@.len() == 5);
    assert("w:t"@.len() == 3);
    assert("w:cr"@.len() == 4);
    assert("w:rPr"@[2] == 'r');
    assert("w:tab"@[2] == 't');
}

/// A run, written as the element `w:r` around its properties and what it
/// holds.
#[derive(Debug, Clone, PartialEq, Eq)]
pub struct Run {
    /// The properties of the characters of the run.
    pub property: Option<CharacterProperty>,
    /// What the run holds, in reading order.
    pub content: Vec<RunContent>,
}

/// What a [`Run`] holds.
pub struct RunView {
    pub property: Option<CharacterProperty>,
    pub content: Seq<RunContentView>,
}

impl View for Run {
    type V = RunView;

    open spec fn view(&self) -> RunView {
        RunView { property: self.property, content: views(self.content@) }
    }
}

impl Default for Run {
    /// The run without properties that holds nothing.
    fn default() -> (r: Run)
        ensures
            r@ == (RunView { property: None, content: Seq::empty() }),
    {
        let r = Run { property: None, content: Vec::new() };
        assert(r@.content =~= Seq::<RunContentView>::empty());
        r
    }
}

impl Run {
    /// The run that holds the given text and nothing else.
    pub fn text(text: &str) -> (r: Run)
        ensures
            r@ == (RunView {
                property: None,
                content: seq![RunContentView::Text(TextView { text: text@ })],
            }),
    {
        let r = Run::default().push(RunContent::Text(Text::new(text)));
        assert(r@.content =~= seq![RunContentView::Text(TextView { text: text@ })]);
        r
    }

    /// Sets the properties of the run, in place of any that it had.
    pub fn property(self, property: CharacterProperty) -> (r: Run)
        ensures
            r@ == (RunView { property: Some(property), ..self@ }),
    {
        let mut run = self;
        run.property = Some(property);
        run
    }

    /// Adds content after what the run holds.
    pub fn push(self, content: RunContent) -> (r: Run)
        ensures
            r@ == (RunView { content: self@.content.push(content@), ..self@ }),
    {
        let mut run = self;
        proof {
            lemma_views_push(run.content@, content);
        }
        run.content.push(content);
        run
    }
}

impl XmlCodec for Run {
    open spec fn accepts(name: Seq<char>) -> bool {
        name == "w:r"@
    }

    open spec fn vacant(v: RunView) -> bool {
        v.property is None && v.content.len() == 0
    }

    open spec fn element_of(v: RunView) -> ElementView {
        ElementView {
            name: "w:r"@,
            attributes: Seq::empty(),
            text: Seq::empty(),
            children: optional_child::<CharacterProperty>(v.property) + children_of::<RunContent>(
                v.content,
            ),
            empty_tag: Self::vacant(v),
        }
    }

    open spec fn value_of(e: ElementView) -> Result<RunView, XmlError> {
        if e.name != "w:r"@ {
            Err(XmlError::MissingElement)
        } else {
            match first_of::<CharacterProperty>(e.children) {
                Err(err) => Err(err),
                Ok(property) => match values_of::<RunContent>(e.children) {
                    Err(err) => Err(err),
                    Ok(content) => Ok(RunView { property, content }),
                },
            }
        }
    }

    proof fn law_round_trip(v: RunView) {
        lemma_run_property_tags();
        lemma_optional_then_children::<CharacterProperty, RunContent>(v.property, v.content);
    }

    proof fn law_suppression(v: RunView) {
    }

    fn accepts_name(name: &str) -> (r: bool) {
        same_text(name, "w:r")
    }

    fn to_element(&self) -> (e: Element) {
        let mut children: Vec<Element> = Vec::new();
        push_optional(&mut children, &self.property);
        push_children(&mut children, &self.content);
        let empty_tag = self.property.is_none() && self.content.len() == 0;
        let e = Element {
            name: String::from_str("w:r"),
            attributes: Vec::new(),
            text: String::new(),
            children,
            empty_tag,
        };
        proof {
            lemma_children_views(e);
            assert(e@.children =~= Self::element_of(self@).children);
            assert(e@.attributes =~= Seq::empty());
        }
        e
    }

    fn from_element(e: &Element) -> (r: Result<Run, XmlError>) {
        if !same_text(e.name.as_str(), "w:r") {
            return Err(XmlError::MissingElement);
        }
        let property = match read_optional::<CharacterProperty>(e) {
            Ok(value) => value,
            Err(err) => {
                return Err(err);
            },
        };
        match read_children::<RunContent>(e) {
            Ok(content) => Ok(Run { property, content }),
            Err(err) => Err(err),
        }
    }
}

} // verus!
