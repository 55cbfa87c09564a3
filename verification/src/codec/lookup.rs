//! Finding things in an element: the first item of a sequence that meets a
//! condition, an attribute by its name, and names under namespace
//! declarations.

use vstd::prelude::*;
use crate::codec::number::{decimal, format_isize, isize_value, parse_isize};
use crate::codec::text::{bool_text, bool_value, format_bool, parse_bool, same_text};
use crate::codec::tree::{views, Attribute, AttributeView, Element};
use crate::error::XmlError;

verus! {

/// The first place at or after `i` whose item meets `p`, or the length of
/// the sequence where none does.
pub open spec fn first_index<A>(s: Seq<A>, p: spec_fn(A) -> bool, i: int) -> int
    decreases s.len() - i,
{
    if 0 <= i < s.len() && !p(s[i]) {
        first_index(s, p, i + 1)
    } else {
        i
    }
}

/// What the first place is: no item before it meets the condition, and the
/// item at it does, unless it is the end.
pub proof fn lemma_first_index_bounds<A>(s: Seq<A>, p: spec_fn(A) -> bool, i: int)
    requires
        0 <= i <= s.len(),
    ensures
        i <= first_index(s, p, i) <= s.len(),
        forall|k: int| i <= k < first_index(s, p, i) ==> !p(#[trigger] s[k]),
        first_index(s, p, i) < s.len() ==> p(s[first_index(s, p, i)]),
    decreases s.len() - i,
{
    if i < s.len() && !p(s[i]) {
        lemma_first_index_bounds(s, p, i + 1);
    }
}

/// A place that no item meeting the condition precedes, and that is the
/// end or holds one, is the first place.
pub proof fn lemma_first_index_is<A>(s: Seq<A>, p: spec_fn(A) -> bool, i: int, r: int)
    requires
        0 <= i <= r <= s.len(),
        forall|k: int| i <= k < r ==> !p(#[trigger] s[k]),
        r < s.len() ==> p(s[r]),
    ensures
        first_index(s, p, i) == r,
    decreases r - i,
{
    if i < r {
        lemma_first_index_is(s, p, i + 1, r);
    }
}

/// The first place in a concatenation: that in the first part where it has
/// one, else that in the second part, counted on.
pub proof fn lemma_first_index_concat<A>(a: Seq<A>, b: Seq<A>, p: spec_fn(A) -> bool)
    ensures
        first_index(a + b, p, 0) == if first_index(a, p, 0) < a.len() {
            first_index(a, p, 0)
        } else {
            a.len() + first_index(b, p, 0)
        },
{
    let i = first_index(a, p, 0);
    let j = first_index(b, p, 0);
    lemma_first_index_bounds(a, p, 0);
    lemma_first_index_bounds(b, p, 0);
    if i < a.len() {
        assert forall|k: int| 0 <= k < i implies !p(#[trigger] (a + b)[k]) by {
            assert((a + b)[k] == a[k]);
        }
        assert((a + b)[i] == a[i]);
        lemma_first_index_is(a + b, p, 0, i);
    } else {
        assert forall|k: int| 0 <= k < a.len() + j implies !p(#[trigger] (a + b)[k]) by {
            if k < a.len() {
                assert((a + b)[k] == a[k]);
            } else {
                assert((a + b)[k] == b[k - a.len()]);
            }
        }
        if j < b.len() {
            assert((a + b)[a.len() + j] == b[j]);
        }
        lemma_first_index_is(a + b, p, 0, a.len() + j);
    }
}

/// Two conditions that agree on the items of a sequence have the same
/// first place.
pub proof fn lemma_first_index_same<A>(
    s: Seq<A>,
    p: spec_fn(A) -> bool,
    q: spec_fn(A) -> bool,
    i: int,
)
    requires
        0 <= i <= s.len(),
        forall|k: int| 0 <= k < s.len() ==> p(#[trigger] s[k]) == q(s[k]),
    ensures
        first_index(s, p, i) == first_index(s, q, i),
    decreases s.len() - i,
{
    if i < s.len() && !p(s[i]) {
        lemma_first_index_same(s, p, q, i + 1);
    }
}

/// The text of a string that may be absent.
pub open spec fn text_option(o: Option<String>) -> Option<Seq<char>> {
    match o {
        Some(s) => Some(s@),
        None => None,
    }
}

/// The condition of bearing the given name.
pub open spec fn has_name(name: Seq<char>) -> spec_fn(AttributeView) -> bool {
    |a: AttributeView| a.name == name
}

/// The value of the first attribute with the given name, if there is one.
pub open spec fn attribute_value(attributes: Seq<AttributeView>, name: Seq<char>) -> Option<
    Seq<char>,
> {
    let i = first_index(attributes, has_name(name), 0);
    if i < attributes.len() {
        Some(attributes[i].value)
    } else {
        None
    }
}

/// The attribute that stands for an optional value: none where the value
/// is absent.
pub open spec fn optional_attribute(name: Seq<char>, value: Option<Seq<char>>) -> Seq<
    AttributeView,
> {
    match value {
        Some(v) => seq![AttributeView { name, value: v }],
        None => Seq::empty(),
    }
}

/// Looking a name up in two lists of attributes, one after the other: the
/// first list decides where it has the name.
pub proof fn lemma_attribute_value_concat(
    a: Seq<AttributeView>,
    b: Seq<AttributeView>,
    name: Seq<char>,
)
    ensures
        attribute_value(a + b, name) == match attribute_value(a, name) {
            Some(v) => Some(v),
            None => attribute_value(b, name),
        },
{
    lemma_first_index_concat(a, b, has_name(name));
    lemma_first_index_bounds(a, has_name(name), 0);
    lemma_first_index_bounds(b, has_name(name), 0);
}

/// Looking a name up in the attribute of an optional value.
pub proof fn lemma_attribute_value_optional(
    given: Seq<char>,
    value: Option<Seq<char>>,
    name: Seq<char>,
)
    ensures
        attribute_value(optional_attribute(given, value), name) == if given == name {
            value
        } else {
            None
        },
{
    let s = optional_attribute(given, value);
    let p = has_name(name);
    lemma_first_index_bounds(s, p, 0);
    if value is Some && given == name {
        lemma_first_index_is(s, p, 0, 0);
    }
}

/// The attributes that stand for the first `n` of a list of optional
/// values, each under its name.
pub open spec fn optional_attributes(
    names: Seq<Seq<char>>,
    values: Seq<Option<Seq<char>>>,
    n: int,
) -> Seq<AttributeView>
    decreases n,
{
    if n <= 0 {
        Seq::empty()
    } else {
        optional_attributes(names, values, n - 1) + optional_attribute(names[n - 1], values[n - 1])
    }
}

/// Every attribute of a list of optional values bears one of the names.
pub proof fn lemma_optional_attributes_names(
    names: Seq<Seq<char>>,
    values: Seq<Option<Seq<char>>>,
    n: int,
    i: int,
) -> (j: int)
    requires
        0 <= n <= names.len(),
        n <= values.len(),
        0 <= i < optional_attributes(names, values, n).len(),
    ensures
        0 <= j < n,
        optional_attributes(names, values, n)[i].name == names[j],
    decreases n,
{
    let before = optional_attributes(names, values, n - 1);
    if i < before.len() {
        lemma_optional_attributes_names(names, values, n - 1, i)
    } else {
        n - 1
    }
}

/// A list of absent values has no attributes.
pub proof fn lemma_optional_attributes_vacant(
    names: Seq<Seq<char>>,
    values: Seq<Option<Seq<char>>>,
    n: int,
)
    requires
        0 <= n <= values.len(),
        forall|i: int| 0 <= i < n ==> (#[trigger] values[i]) is None,
    ensures
        optional_attributes(names, values, n).len() == 0,
    decreases n,
{
    if n > 0 {
        lemma_optional_attributes_vacant(names, values, n - 1);
    }
}

/// Looking a name up among the attributes of a list of optional values
/// gives the value that stands under it, where no two names are the same.
pub proof fn lemma_optional_attributes_lookup(
    names: Seq<Seq<char>>,
    values: Seq<Option<Seq<char>>>,
    n: int,
    k: int,
)
    requires
        0 <= k < n <= names.len(),
        n <= values.len(),
        forall|j: int| 0 <= j < n && j != k ==> #[trigger] names[j] != names[k],
    ensures
        attribute_value(optional_attributes(names, values, n), names[k]) == values[k],
    decreases n,
{
    let p = has_name(names[k]);
    let before = optional_attributes(names, values, n - 1);
    let last = optional_attribute(names[n - 1], values[n - 1]);
    lemma_attribute_value_concat(before, last, names[k]);
    lemma_attribute_value_optional(names[n - 1], values[n - 1], names[k]);
    if k == n - 1 {
        assert forall|i: int| 0 <= i < before.len() implies !p(#[trigger] before[i]) by {
            let j = lemma_optional_attributes_names(names, values, n - 1, i);
        }
        lemma_first_index_is(before, p, 0, before.len() as int);
    } else {
        lemma_optional_attributes_lookup(names, values, n - 1, k);
    }
}

/// The text of a boolean that may be absent.
pub open spec fn bool_option_text(value: Option<bool>) -> Option<Seq<char>> {
    match value {
        Some(b) => Some(bool_text(b)),
        None => None,
    }
}

/// The text of an integer that may be absent.
pub open spec fn isize_option_text(value: Option<isize>) -> Option<Seq<char>> {
    match value {
        Some(n) => Some(decimal(n as int)),
        None => None,
    }
}

/// The boolean that an optional attribute stands for: absent where the
/// attribute is; an error where its value is no boolean.
pub open spec fn bool_attribute(attributes: Seq<AttributeView>, name: Seq<char>) -> Result<
    Option<bool>,
    XmlError,
> {
    match attribute_value(attributes, name) {
        Some(text) => match bool_value(text) {
            Some(b) => Ok(Some(b)),
            None => Err(XmlError::InvalidValue),
        },
        None => Ok(None),
    }
}

/// The integer that an optional attribute stands for: absent where the
/// attribute is; an error where its value is no integer of machine size.
pub open spec fn isize_attribute(attributes: Seq<AttributeView>, name: Seq<char>) -> Result<
    Option<isize>,
    XmlError,
> {
    match attribute_value(attributes, name) {
        Some(text) => match isize_value(text) {
            Some(n) => Ok(Some(n)),
            None => Err(XmlError::InvalidValue),
        },
        None => Ok(None),
    }
}

/// Adds the attribute of an optional value, if the value is present.
pub fn push_optional_attribute(out: &mut Vec<Attribute>, name: &str, value: &Option<String>)
    ensures
        views(final(out)@) == views(old(out)@) + optional_attribute(name@, text_option(*value)),
{
    match value {
        Some(text) => {
            let a = Attribute::new(name, text.as_str());
            proof {
                assert(views(out@.push(a)) =~= views(out@) + seq![a@]);
            }
            out.push(a);
        },
        None => {
            assert(views(out@) + Seq::<AttributeView>::empty() =~= views(out@));
        },
    }
}

/// The text of a boolean that may be absent.
pub fn format_bool_option(value: &Option<bool>) -> (r: Option<String>)
    ensures
        text_option(r) == bool_option_text(*value),
{
    match value {
        Some(b) => Some(format_bool(*b)),
        None => None,
    }
}

/// The text of an integer that may be absent.
pub fn format_isize_option(value: &Option<isize>) -> (r: Option<String>)
    ensures
        text_option(r) == isize_option_text(*value),
{
    match value {
        Some(n) => Some(format_isize(*n)),
        None => None,
    }
}

impl Element {
    /// The boolean of the first attribute with the given name.
    pub fn bool_attribute(&self, name: &str) -> (r: Result<Option<bool>, XmlError>)
        ensures
            r == bool_attribute(self@.attributes, name@),
    {
        match self.attribute(name) {
            Some(text) => match parse_bool(text.as_str()) {
                Some(b) => Ok(Some(b)),
                None => Err(XmlError::InvalidValue),
            },
            None => Ok(None),
        }
    }

    /// The integer of the first attribute with the given name.
    pub fn isize_attribute(&self, name: &str) -> (r: Result<Option<isize>, XmlError>)
        ensures
            r == isize_attribute(self@.attributes, name@),
    {
        match self.attribute(name) {
            Some(text) => match parse_isize(text.as_str()) {
                Some(n) => Ok(Some(n)),
                None => Err(XmlError::InvalidValue),
            },
            None => Ok(None),
        }
    }

    /// The value of the first attribute with the given name.
    pub fn attribute(&self, name: &str) -> (r: Option<String>)
        ensures
            text_option(r) == attribute_value(self@.attributes, name@),
    {
        let ghost attrs = self@.attributes;
        let ghost p = has_name(name@);
        let mut i: usize = 0;
        while i < self.attributes.len()
            invariant
                i <= self.attributes.len(),
                attrs == views(self.attributes@),
                attrs == self@.attributes,
                p == has_name(name@),
                first_index(attrs, p, 0) == first_index(attrs, p, i as int),
            decreases self.attributes.len() - i,
        {
            let a = &self.attributes[i];
            if same_text(a.name.as_str(), name) {
                return Some(a.value.clone());
            }
            i += 1;
        }
        None
    }
}

/// Whether an attribute declares a namespace: its name is `xmlns`, or
/// begins with `xmlns:`.
pub open spec fn declares_namespace(a: AttributeView) -> bool {
    a.name == "xmlns"@ || (a.name.len() > 6 && a.name.take(6) == "xmlns:"@)
}

/// Whether the namespace declaration `declaration="..."` gives the name
/// `name` the local name `local` in its namespace: either the declaration
/// is `xmlns` and `name` is `local`, or the declaration is `xmlns:p` and
/// `name` is `p:local`.
pub open spec fn binds(declaration: Seq<char>, name: Seq<char>, local: Seq<char>) -> bool {
    "xmlns:"@ + name == declaration + seq![':'] + local
}

/// The condition of being, under the declarations among `attributes`, the
/// name with local name `local` in the namespace `uri`.
pub open spec fn denotes(
    attributes: Seq<AttributeView>,
    uri: Seq<char>,
    local: Seq<char>,
) -> spec_fn(Seq<char>) -> bool {
    |name: Seq<char>|
        exists|i: int|
            0 <= i < attributes.len() && (#[trigger] attributes[i]).value == uri && binds(
                attributes[i].name,
                name,
                local,
            )
}

/// Whether a declaration gives a name a local name.
pub fn check_binds(declaration: &str, name: &str, local: &str) -> (r: bool)
    ensures
        r == binds(declaration@, name@, local@),
{
    proof {
        reveal_strlit(":");
        assert(":"@ =~= seq![':']);
    }
    let mut left = String::from_str("xmlns:");
    left.append(name);
    let mut right = String::from_str(declaration);
    right.append(":");
    right.append(local);
    left == right
}

/// Whether a name is, under the declarations among the attributes, the
/// name with the given local name in the given namespace.
pub fn check_denotes(attributes: &Vec<Attribute>, uri: &str, local: &str, name: &str) -> (r: bool)
    ensures
        r == denotes(views(attributes@), uri@, local@)(name@),
{
    let ghost attrs = views(attributes@);
    let mut i: usize = 0;
    while i < attributes.len()
        invariant
            i <= attributes.len(),
            attrs == views(attributes@),
            forall|k: int|
                0 <= k < i ==> !((#[trigger] attrs[k]).value == uri@ && binds(
                    attrs[k].name,
                    name@,
                    local@,
                )),
        decreases attributes.len() - i,
    {
        let a = &attributes[i];
        if same_text(a.value.as_str(), uri) && check_binds(a.name.as_str(), name, local) {
            assert(attrs[i as int].value == uri@ && binds(attrs[i as int].name, name@, local@));
            return true;
        }
        i += 1;
    }
    false
}

} // verus!
