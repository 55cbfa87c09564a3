//! Records of optional texts, each written as a child element that holds
//! the text: `<Tag>text</Tag>`.

use vstd::prelude::*;
use crate::codec::lookup::{
    check_denotes, denotes, first_index, lemma_first_index_bounds, lemma_first_index_concat,
    lemma_first_index_is, text_option,
};
use crate::codec::tree::{
    element_views, lemma_children_views, lemma_element_views_push, text_element, Element,
    ElementView,
};

verus! {

/// The element that stands for an optional text: none where the text is
/// absent.
pub open spec fn property(tag: Seq<char>, value: Option<Seq<char>>) -> Seq<ElementView> {
    match value {
        Some(text) => seq![text_element(tag, text)],
        None => Seq::empty(),
    }
}

/// The elements that stand for the first `n` of a list of optional texts,
/// each under its tag.
pub open spec fn properties(
    tags: Seq<Seq<char>>,
    values: Seq<Option<Seq<char>>>,
    n: int,
) -> Seq<ElementView>
    decreases n,
{
    if n <= 0 {
        Seq::empty()
    } else {
        properties(tags, values, n - 1) + property(tags[n - 1], values[n - 1])
    }
}

/// The condition of bearing the given name.
pub open spec fn named(name: Seq<char>) -> spec_fn(ElementView) -> bool {
    |e: ElementView| e.name == name
}

/// The condition of bearing, under the namespace declarations among
/// `attributes`, the name with local name `local` in the namespace `uri`.
pub open spec fn denoted(
    attributes: Seq<crate::codec::tree::AttributeView>,
    uri: Seq<char>,
    local: Seq<char>,
) -> spec_fn(ElementView) -> bool {
    |e: ElementView| denotes(attributes, uri, local)(e.name)
}

/// The character data of the first element that meets the condition, if
/// there is one.
pub open spec fn child_text(children: Seq<ElementView>, p: spec_fn(ElementView) -> bool) -> Option<
    Seq<char>,
> {
    let i = first_index(children, p, 0);
    if i < children.len() {
        Some(children[i].text)
    } else {
        None
    }
}

/// Every element of a record bears one of the record's tags.
pub proof fn lemma_properties_names(
    tags: Seq<Seq<char>>,
    values: Seq<Option<Seq<char>>>,
    n: int,
    i: int,
) -> (j: int)
    requires
        0 <= n <= tags.len(),
        n <= values.len(),
        0 <= i < properties(tags, values, n).len(),
    ensures
        0 <= j < n,
        properties(tags, values, n)[i].name == tags[j],
    decreases n,
{
    let before = properties(tags, values, n - 1);
    if i < before.len() {
        lemma_properties_names(tags, values, n - 1, i)
    } else {
        n - 1
    }
}

/// A record without present texts has no elements.
pub proof fn lemma_properties_vacant(tags: Seq<Seq<char>>, values: Seq<Option<Seq<char>>>, n: int)
    requires
        0 <= n <= values.len(),
        forall|i: int| 0 <= i < n ==> (#[trigger] values[i]) is None,
    ensures
        properties(tags, values, n).len() == 0,
    decreases n,
{
    if n > 0 {
        lemma_properties_vacant(tags, values, n - 1);
    }
}

/// The elements of a record hold no children and are no empty-element
/// tags.
pub proof fn lemma_properties_shape(
    tags: Seq<Seq<char>>,
    values: Seq<Option<Seq<char>>>,
    n: int,
    i: int,
)
    requires
        0 <= n <= values.len(),
        0 <= i < properties(tags, values, n).len(),
    ensures
        properties(tags, values, n)[i].children.len() == 0,
        !properties(tags, values, n)[i].empty_tag,
    decreases n,
{
    let before = properties(tags, values, n - 1);
    if i < before.len() {
        lemma_properties_shape(tags, values, n - 1, i);
    }
}

/// Looking a tag up in a record gives the text that stands under it,
/// where no two tags are the same.
pub proof fn lemma_properties_lookup(
    tags: Seq<Seq<char>>,
    values: Seq<Option<Seq<char>>>,
    n: int,
    k: int,
)
    requires
        0 <= k < n <= tags.len(),
        n <= values.len(),
        forall|j: int| 0 <= j < n && j != k ==> #[trigger] tags[j] != tags[k],
    ensures
        child_text(properties(tags, values, n), named(tags[k])) == values[k],
        values[k] is None ==> first_index(properties(tags, values, n), named(tags[k]), 0)
            == properties(tags, values, n).len(),
    decreases n,
{
    let p = named(tags[k]);
    let before = properties(tags, values, n - 1);
    let last = property(tags[n - 1], values[n - 1]);
    lemma_first_index_concat(before, last, p);
    lemma_first_index_bounds(before, p, 0);
    lemma_first_index_bounds(last, p, 0);
    if k == n - 1 {
        assert forall|i: int| 0 <= i < before.len() implies !p(#[trigger] before[i]) by {
            let j = lemma_properties_names(tags, values, n - 1, i);
        }
        lemma_first_index_is(before, p, 0, before.len() as int);
        if values[k] is Some {
            lemma_first_index_is(last, p, 0, 0);
        }
    } else {
        lemma_properties_lookup(tags, values, n - 1, k);
        if first_index(before, p, 0) < before.len() {
        } else {
            lemma_first_index_is(last, p, 0, last.len() as int);
        }
    }
}

/// Adds the element of an optional text under the given tag, if the text
/// is present.
pub fn push_property(out: &mut Vec<Element>, tag: &str, value: &Option<String>)
    ensures
        element_views(final(out)@) == element_views(old(out)@) + property(
            tag@,
            text_option(*value),
        ),
{
    match value {
        Some(text) => {
            let e = Element::with_text(tag, text.as_str());
            proof {
                lemma_element_views_push(out@, e);
                assert(element_views(out@).push(e@) =~= element_views(out@) + seq![e@]);
            }
            out.push(e);
        },
        None => {
            assert(element_views(out@) + Seq::<ElementView>::empty() =~= element_views(out@));
        },
    }
}

/// The character data of the first child that bears, under the namespace
/// declarations on the element itself, the name with the given local name
/// in the given namespace.
pub fn property_text(e: &Element, uri: &str, local: &str) -> (r: Option<String>)
    ensures
        text_option(r) == child_text(e@.children, denoted(e@.attributes, uri@, local@)),
{
    let ghost all = e@.children;
    let ghost p = denoted(e@.attributes, uri@, local@);
    proof {
        lemma_children_views(*e);
    }
    let mut i: usize = 0;
    while i < e.children.len()
        invariant
            i <= e.children.len(),
            all == e@.children,
            all == element_views(e.children@),
            p == denoted(e@.attributes, uri@, local@),
            first_index(all, p, 0) == first_index(all, p, i as int),
        decreases e.children.len() - i,
    {
        let child = &e.children[i];
        if check_denotes(&e.attributes, uri, local, child.name.as_str()) {
            assert(p(all[i as int]));
            return Some(child.text.clone());
        }
        assert(!p(all[i as int]));
        i += 1;
    }
    None
}

} // verus!
