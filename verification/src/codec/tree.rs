//! The generic element tree that every part is mapped to, and the text that
//! a tree is rendered as.

use vstd::prelude::*;
use crate::codec::text::xml_escaped;

verus! {

/// The views of the items of a sequence, in order.
pub open spec fn views<T: View>(s: Seq<T>) -> Seq<T::V> {
    s.map_values(|x: T| x@)
}

/// Pushing an item pushes its view.
pub proof fn lemma_views_push<T: View>(s: Seq<T>, x: T)
    ensures
        views(s.push(x)) == views(s).push(x@),
{
    assert(views(s.push(x)) =~= views(s).push(x@));
}

/// An attribute of an element: its name as written, and its value with
/// entities resolved.
#[derive(Debug, Clone, PartialEq, Eq)]
pub struct Attribute {
    pub name: String,
    pub value: String,
}

/// What an [`Attribute`] holds.
pub struct AttributeView {
    pub name: Seq<char>,
    pub value: Seq<char>,
}

impl View for Attribute {
    type V = AttributeView;

    open spec fn view(&self) -> AttributeView {
        AttributeView { name: self.name@, value: self.value@ }
    }
}

impl Attribute {
    /// An attribute with the given name and value.
    pub fn new(name: &str, value: &str) -> (a: Attribute)
        ensures
            a@ == (AttributeView { name: name@, value: value@ }),
    {
        Attribute { name: String::from_str(name), value: String::from_str(value) }
    }
}

/// An element: its name as written (prefix included), its attributes in
/// order, the character data directly inside it, its child elements in
/// order, and whether it is written as an empty-element tag (`<a/>`).
///
/// Character data and child elements are kept apart: where both occur, the
/// tree does not say how they interleave.
#[derive(Debug, PartialEq, Eq)]
pub struct Element {
    pub name: String,
    pub attributes: Vec<Attribute>,
    pub text: String,
    pub children: Vec<Element>,
    pub empty_tag: bool,
}

/// What an [`Element`] holds.
pub struct ElementView {
    pub name: Seq<char>,
    pub attributes: Seq<AttributeView>,
    pub text: Seq<char>,
    pub children: Seq<ElementView>,
    pub empty_tag: bool,
}

/// What an element holds: its own fields, and the views of its children.
pub open spec fn element_view(e: Element) -> ElementView
    decreases e,
{
    ElementView {
        name: e.name@,
        attributes: views(e.attributes@),
        text: e.text@,
        children: Seq::new(
            e.children@.len(),
            |i: int|
                if 0 <= i < e.children@.len() {
                    element_view(e.children@[i])
                } else {
                    arbitrary()
                },
        ),
        empty_tag: e.empty_tag,
    }
}

impl View for Element {
    type V = ElementView;

    open spec fn view(&self) -> ElementView {
        element_view(*self)
    }
}

/// The views of a sequence of elements, as the view of an element lists
/// its children.
pub open spec fn element_views(s: Seq<Element>) -> Seq<ElementView> {
    Seq::new(s.len(), |i: int| s[i]@)
}

/// The children of an element's view are the views of its children.
pub proof fn lemma_children_views(e: Element)
    ensures
        e@.children == element_views(e.children@),
{
    assert(e@.children =~= element_views(e.children@));
}

/// Pushing an element pushes its view.
pub proof fn lemma_element_views_push(s: Seq<Element>, e: Element)
    ensures
        element_views(s.push(e)) == element_views(s).push(e@),
{
    assert(element_views(s.push(e)) =~= element_views(s).push(e@));
}

/// An element is well-formed if an empty-element tag holds neither
/// character data nor children, and its children are well-formed.
pub open spec fn well_formed(e: ElementView) -> bool
    decreases e,
{
    &&& e.empty_tag ==> e.text.len() == 0 && e.children.len() == 0
    &&& forall|i: int| 0 <= i < e.children.len() ==> well_formed(#[trigger] e.children[i])
}

/// Every element of the sequence is well-formed.
pub open spec fn all_well_formed(elements: Seq<ElementView>) -> bool {
    forall|i: int| 0 <= i < elements.len() ==> well_formed(#[trigger] elements[i])
}

/// Two sequences of well-formed elements make one.
pub proof fn lemma_all_well_formed_concat(a: Seq<ElementView>, b: Seq<ElementView>)
    requires
        all_well_formed(a),
        all_well_formed(b),
    ensures
        all_well_formed(a + b),
{
    assert forall|i: int| 0 <= i < (a + b).len() implies well_formed(#[trigger] (a + b)[i]) by {
        if i < a.len() {
            assert((a + b)[i] == a[i]);
        } else {
            assert((a + b)[i] == b[i - a.len()]);
        }
    }
}

/// The element with the given name and nothing in it, written `<name/>`.
pub open spec fn empty_element(name: Seq<char>) -> ElementView {
    ElementView {
        name,
        attributes: Seq::empty(),
        text: Seq::empty(),
        children: Seq::empty(),
        empty_tag: true,
    }
}

/// The element with the given name that holds the given character data and
/// nothing else, written `<name>text</name>`.
pub open spec fn text_element(name: Seq<char>, text: Seq<char>) -> ElementView {
    ElementView {
        name,
        attributes: Seq::empty(),
        text,
        children: Seq::empty(),
        empty_tag: false,
    }
}

impl Element {
    /// The element `<name/>`.
    pub fn empty(name: &str) -> (e: Element)
        ensures
            e@ == empty_element(name@),
    {
        let e = Element {
            name: String::from_str(name),
            attributes: Vec::new(),
            text: String::new(),
            children: Vec::new(),
            empty_tag: true,
        };
        assert(e@.attributes =~= Seq::empty());
        assert(e@.children =~= Seq::empty());
        e
    }

    /// The element `<name>text</name>`.
    pub fn with_text(name: &str, text: &str) -> (e: Element)
        ensures
            e@ == text_element(name@, text@),
    {
        let e = Element {
            name: String::from_str(name),
            attributes: Vec::new(),
            text: String::from_str(text),
            children: Vec::new(),
            empty_tag: false,
        };
        assert(e@.attributes =~= Seq::empty());
        assert(e@.children =~= Seq::empty());
        e
    }

    /// Adds an attribute after those that the element has.
    pub fn push_attribute(&mut self, name: &str, value: &str)
        ensures
            final(self)@ == (ElementView {
                attributes: old(self)@.attributes.push(
                    AttributeView { name: name@, value: value@ },
                ),
                ..old(self)@
            }),
    {
        let ghost before = *self;
        let a = Attribute::new(name, value);
        self.attributes.push(a);
        proof {
            lemma_views_push(before.attributes@, a);
            lemma_children_views(before);
            lemma_children_views(*self);
        }
    }

    /// Adds a child after those that the element has; the element is then
    /// no empty-element tag.
    pub fn push_child(&mut self, child: Element)
        ensures
            final(self)@ == (ElementView {
                children: old(self)@.children.push(child@),
                empty_tag: false,
                ..old(self)@
            }),
    {
        let ghost before = *self;
        self.children.push(child);
        self.empty_tag = false;
        proof {
            lemma_children_views(before);
            lemma_children_views(*self);
            lemma_element_views_push(before.children@, child);
        }
    }
}

/// The text of one attribute: a space, the name, `="`, the escaped value
/// and `"`.
pub open spec fn rendered_attribute(a: AttributeView) -> Seq<char> {
    seq![' '] + a.name + seq!['=', '"'] + xml_escaped(a.value) + seq!['"']
}

/// The text of the attributes of an element, in order.
pub open spec fn rendered_attributes(attributes: Seq<AttributeView>) -> Seq<char>
    decreases attributes.len(),
{
    if attributes.len() == 0 {
        Seq::empty()
    } else {
        rendered_attributes(attributes.drop_last()) + rendered_attribute(attributes.last())
    }
}

/// What follows the attributes of an element that is no empty-element tag:
/// `>`, the escaped character data, the children, and the closing tag.
pub open spec fn rendered_content(e: ElementView) -> Seq<char>
    decreases e, 0nat,
{
    seq!['>'] + xml_escaped(e.text) + rendered_all(e.children) + seq!['<', '/'] + e.name
        + seq!['>']
}

/// The text of an element: `<`, the name and the attributes, then `/>` for
/// an empty-element tag and the content for any other.
pub open spec fn rendered(e: ElementView) -> Seq<char>
    decreases e, 1nat,
{
    seq!['<'] + e.name + rendered_attributes(e.attributes) + if e.empty_tag {
        seq!['/', '>']
    } else {
        rendered_content(e)
    }
}

/// The texts of a sequence of elements, one after the other with nothing
/// between them.
pub open spec fn rendered_all(elements: Seq<ElementView>) -> Seq<char>
    decreases elements,
{
    if elements.len() == 0 {
        Seq::empty()
    } else {
        rendered_all(elements.drop_last()) + rendered(elements.last())
    }
}

} // verus!
