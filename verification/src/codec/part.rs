//! What binds a type to XML: the element that stands for a value, the value
//! that an element stands for, and the laws that tie the two together.

use vstd::prelude::*;
use crate::codec::laws::{lemma_document_read, lemma_rendered_pieces};
use crate::codec::lookup::{
    declares_namespace, first_index, lemma_first_index_bounds, lemma_first_index_concat,
    lemma_first_index_is,
};
use crate::codec::reader::{
    build_document, lemma_others_end_bounds, lemma_others_run, others_end, parse_document,
    skip_others,
};
use crate::codec::text::xml_escaped;
use crate::codec::token::{
    pieces, pieces_text, push_pieces, read_pieces, same_pieces, xml_pieces, Piece, PieceView,
};
use crate::codec::tree::{
    all_well_formed, element_views, lemma_all_well_formed_concat, lemma_children_views,
    lemma_element_views_push, lemma_views_push, rendered, rendered_all, rendered_attributes,
    rendered_content, views, well_formed, Element, ElementView,
};
use crate::codec::writer::{element_to_string, write_element};
use crate::error::XmlError;
use crate::schema::SCHEMA_XML;

verus! {

/// A type whose values are written as one XML element each, and read from
/// one.
pub trait XmlCodec: View + Sized {
    /// Whether an element with this name is taken for a value of the type,
    /// where elements of several types stand side by side.
    spec fn accepts(name: Seq<char>) -> bool;

    /// Whether every optional field of the value is absent.
    spec fn vacant(v: Self::V) -> bool;

    /// The element that stands for a value.
    spec fn element_of(v: Self::V) -> ElementView;

    /// The value that an element stands for, or why it stands for none.
    spec fn value_of(e: ElementView) -> Result<Self::V, XmlError>;

    /// The round trip: the element of a value is well-formed, bears a name
    /// that the type accepts, and stands for that value.
    proof fn law_round_trip(v: Self::V)
        ensures
            well_formed(Self::element_of(v)),
            Self::accepts(Self::element_of(v).name),
            Self::value_of(Self::element_of(v)) == Ok::<Self::V, XmlError>(v),
    ;

    /// Suppression of absent fields: the element of a value is an
    /// empty-element tag exactly if every optional field of the value is
    /// absent, and then it has no character data, no child, and no attribute
    /// but namespace declarations.
    proof fn law_suppression(v: Self::V)
        ensures
            Self::element_of(v).empty_tag == Self::vacant(v),
            Self::vacant(v) ==> Self::element_of(v).text.len() == 0 && Self::element_of(
                v,
            ).children.len() == 0,
            Self::vacant(v) ==> forall|i: int|
                0 <= i < Self::element_of(v).attributes.len() ==> declares_namespace(
                    #[trigger] Self::element_of(v).attributes[i],
                ),
    ;

    /// Whether an element with this name is taken for a value of the type.
    fn accepts_name(name: &str) -> (r: bool)
        ensures
            r == Self::accepts(name@),
    ;

    /// Builds the element that stands for the value.
    fn to_element(&self) -> (e: Element)
        ensures
            e@ == Self::element_of(self@),
    ;

    /// Reads the value that the element stands for.
    fn from_element(e: &Element) -> (r: Result<Self, XmlError>)
        ensures
            result_view(r) == Self::value_of(e@),
    ;
}

/// The view of a value that may be absent.
pub open spec fn option_view<T: View>(o: Option<T>) -> Option<T::V> {
    match o {
        Some(v) => Some(v@),
        None => None,
    }
}

/// The view of a value or an error.
pub open spec fn result_view<T: View>(r: Result<T, XmlError>) -> Result<T::V, XmlError> {
    match r {
        Ok(v) => Ok(v@),
        Err(err) => Err(err),
    }
}

/// The views of a sequence of values or an error.
pub open spec fn result_views<T: View>(r: Result<Vec<T>, XmlError>) -> Result<
    Seq<T::V>,
    XmlError,
> {
    match r {
        Ok(v) => Ok(views(v@)),
        Err(err) => Err(err),
    }
}

/// The view of a value that may be absent, or an error.
pub open spec fn result_option_view<T: View>(r: Result<Option<T>, XmlError>) -> Result<
    Option<T::V>,
    XmlError,
> {
    match r {
        Ok(v) => Ok(option_view(v)),
        Err(err) => Err(err),
    }
}

/// The elements that stand for a sequence of values, in order.
pub open spec fn children_of<T: XmlCodec>(values: Seq<T::V>) -> Seq<ElementView> {
    Seq::new(values.len(), |i: int| T::element_of(values[i]))
}

/// The element that stands for an optional value: none where it is absent.
pub open spec fn optional_child<T: XmlCodec>(value: Option<T::V>) -> Seq<ElementView> {
    match value {
        Some(v) => seq![T::element_of(v)],
        None => Seq::empty(),
    }
}

/// The values of the elements that the type accepts, in order; other
/// elements are passed over. The first element that stands for no value
/// gives the error.
pub open spec fn values_of<T: XmlCodec>(elements: Seq<ElementView>) -> Result<
    Seq<T::V>,
    XmlError,
>
    decreases elements.len(),
{
    if elements.len() == 0 {
        Ok(Seq::empty())
    } else {
        match values_of::<T>(elements.drop_last()) {
            Ok(values) => if T::accepts(elements.last().name) {
                match T::value_of(elements.last()) {
                    Ok(v) => Ok(values.push(v)),
                    Err(err) => Err(err),
                }
            } else {
                Ok(values)
            },
            Err(err) => Err(err),
        }
    }
}

/// The condition of bearing a name that the type accepts.
pub open spec fn accepted<T: XmlCodec>() -> spec_fn(ElementView) -> bool {
    |e: ElementView| T::accepts(e.name)
}

/// The value of the first element that the type accepts, if there is one.
pub open spec fn first_of<T: XmlCodec>(elements: Seq<ElementView>) -> Result<
    Option<T::V>,
    XmlError,
> {
    let i = first_index(elements, accepted::<T>(), 0);
    if i < elements.len() {
        match T::value_of(elements[i]) {
            Ok(v) => Ok(Some(v)),
            Err(err) => Err(err),
        }
    } else {
        Ok(None)
    }
}

/// The value of the first element that the type accepts; its absence is an
/// error.
pub open spec fn required_of<T: XmlCodec>(elements: Seq<ElementView>) -> Result<T::V, XmlError> {
    match first_of::<T>(elements) {
        Ok(Some(v)) => Ok(v),
        Ok(None) => Err(XmlError::MissingElement),
        Err(err) => Err(err),
    }
}

/// The text of a value: the text of its element.
pub open spec fn xml_of<T: XmlCodec>(v: T::V) -> Seq<char> {
    rendered(T::element_of(v))
}

/// The value that a sequence of pieces stands for: the pieces are read as
/// a document, and its root element as a value.
pub open spec fn value_of_pieces<T: XmlCodec>(ps: Seq<PieceView>) -> Result<T::V, XmlError> {
    match parse_document(ps) {
        Ok(e) => T::value_of(e),
        Err(err) => Err(err),
    }
}

/// The value that a text stands for.
pub open spec fn value_of_text<T: XmlCodec>(text: Seq<char>) -> Result<T::V, XmlError> {
    value_of_pieces::<T>(xml_pieces(text))
}

/// The text of a part with the value at its root: the XML declaration,
/// then the text of the value.
pub open spec fn part_of<T: XmlCodec>(v: T::V) -> Seq<char> {
    SCHEMA_XML@ + xml_of::<T>(v)
}

/// Appends a part with the value at its root to a text.
pub fn write_part<T: XmlCodec>(value: &T, out: &mut String)
    ensures
        final(out)@ == old(out)@ + part_of::<T>(value@),
{
    out.append(SCHEMA_XML);
    let e = value.to_element();
    write_element(out, &e);
    assert(out@ =~= old(out)@ + part_of::<T>(value@));
}

/// Writes a value as text.
pub fn to_string<T: XmlCodec>(value: &T) -> (r: String)
    ensures
        r@ == xml_of::<T>(value@),
{
    let e = value.to_element();
    element_to_string(&e)
}

/// Reads a value from the pieces of a text: the pieces are read as a
/// document, then its root element as a value. Pieces that make no document
/// give a syntax error, whatever the shape of what they hold.
pub fn from_pieces<T: XmlCodec>(pieces: &Vec<Piece<String>>) -> (r: Result<T, XmlError>)
    ensures
        result_view(r) == value_of_pieces::<T>(views(pieces@)),
{
    match build_document(pieces) {
        Ok(e) => T::from_element(&e),
        Err(err) => Err(err),
    }
}

/// Reads a value from a text: the text is split into pieces, and the value
/// is read from the pieces.
pub fn from_str<T: XmlCodec>(text: &str) -> (r: Result<T, XmlError>)
    ensures
        result_view(r) == value_of_text::<T>(text@),
{
    let pieces = read_pieces(text);
    from_pieces(&pieces)
}

/// The round trip through pieces: the pieces of a value's element, after
/// any number of declarations and comments, are read as that value; and the
/// text of those pieces is the text of the value.
pub proof fn law_pieces_round_trip<T: XmlCodec>(v: T::V, prolog: Seq<PieceView>)
    requires
        forall|m: int| 0 <= m < prolog.len() ==> (#[trigger] prolog[m]) is Other,
    ensures
        value_of_pieces::<T>(prolog + pieces(T::element_of(v))) == Ok::<T::V, XmlError>(v),
        pieces_text(pieces(T::element_of(v))) == xml_of::<T>(v),
{
    T::law_round_trip(v);
    lemma_document_read(prolog, T::element_of(v));
    lemma_rendered_pieces(T::element_of(v));
}

/// The pieces of a document after the declarations and comments that open
/// it.
pub open spec fn after_prolog(ps: Seq<PieceView>) -> Seq<PieceView> {
    ps.skip(others_end(ps, 0))
}

/// Whether a text holds, after the declarations and comments that open it,
/// exactly the pieces that stand for the value. A text that does is read as
/// the value.
pub fn reads_back<T: XmlCodec>(value: &T, text: &str) -> (r: bool)
    ensures
        r == (after_prolog(xml_pieces(text@)) == pieces(T::element_of(value@))),
        r ==> value_of_text::<T>(text@) == Ok::<T::V, XmlError>(value@),
{
    let found = read_pieces(text);
    let start = skip_others(&found, 0);
    let e = value.to_element();
    let mut expected: Vec<Piece<String>> = Vec::new();
    push_pieces(&mut expected, &e);
    assert(views(expected@) =~= pieces(e@));
    let r = same_pieces(&found, start, &expected);
    proof {
        if r {
            let ps = xml_pieces(text@);
            let k = others_end(ps, 0);
            lemma_others_end_bounds(ps, 0);
            assert(ps =~= ps.take(k) + pieces(e@));
            assert forall|m: int| 0 <= m < ps.take(k).len() implies (#[trigger] ps.take(
                k,
            )[m]) is Other by {
                lemma_others_run(ps, 0, m);
            }
            law_pieces_round_trip::<T>(value@, ps.take(k));
        }
    }
    r
}

/// Suppression of absent fields, in the text: a value whose optional fields
/// are all absent is written as an empty-element tag, `<name .../>`; any
/// other value as a start tag, content and a closing tag.
pub proof fn law_absent_fields_suppressed<T: XmlCodec>(v: T::V)
    ensures
        T::vacant(v) ==> xml_of::<T>(v) == seq!['<'] + T::element_of(v).name
            + rendered_attributes(T::element_of(v).attributes) + seq!['/', '>'],
        !T::vacant(v) ==> xml_of::<T>(v) == seq!['<'] + T::element_of(v).name
            + rendered_attributes(T::element_of(v).attributes) + seq!['>'] + xml_escaped(
            T::element_of(v).text,
        ) + rendered_all(T::element_of(v).children) + seq!['<', '/'] + T::element_of(v).name
            + seq!['>'],
{
    T::law_suppression(v);
    let e = T::element_of(v);
    let head = seq!['<'] + e.name + rendered_attributes(e.attributes);
    if !T::vacant(v) {
        assert(head + rendered_content(e) =~= head + seq!['>'] + xml_escaped(e.text)
            + rendered_all(e.children) + seq!['<', '/'] + e.name + seq!['>']);
    }
}

/// Order preservation: appending a value to a sequence of values appends
/// its element to their elements and its text to their text, and the
/// elements are read back as the values, in the same order.
pub proof fn law_order_preserved<T: XmlCodec>(values: Seq<T::V>, v: T::V)
    ensures
        children_of::<T>(values.push(v)) == children_of::<T>(values).push(T::element_of(v)),
        rendered_all(children_of::<T>(values.push(v))) == rendered_all(children_of::<T>(values))
            + xml_of::<T>(v),
        values_of::<T>(children_of::<T>(values.push(v))) == Ok::<Seq<T::V>, XmlError>(
            values.push(v),
        ),
{
    lemma_children_push::<T>(values, v);
    lemma_values_round_trip::<T>(values.push(v));
    let es = children_of::<T>(values);
    assert(es.push(T::element_of(v)).drop_last() =~= es);
}

/// Adds the elements of a sequence of values, in order.
pub fn push_children<T: XmlCodec>(out: &mut Vec<Element>, values: &Vec<T>)
    ensures
        element_views(final(out)@) == element_views(old(out)@) + children_of::<T>(views(values@)),
{
    let ghost start = element_views(out@);
    let ghost all = children_of::<T>(views(values@));
    let mut i: usize = 0;
    assert(start + all.take(0) =~= start);
    while i < values.len()
        invariant
            i <= values.len(),
            all == children_of::<T>(views(values@)),
            element_views(out@) == start + all.take(i as int),
        decreases values.len() - i,
    {
        let e = values[i].to_element();
        proof {
            lemma_element_views_push(out@, e);
            assert(all[i as int] == e@);
            assert((start + all.take(i as int)).push(e@) =~= start + all.take(i + 1));
        }
        out.push(e);
        i += 1;
    }
    assert(all.take(i as int) =~= all);
}

/// Adds the element of an optional value, if the value is present.
pub fn push_optional<T: XmlCodec>(out: &mut Vec<Element>, value: &Option<T>)
    ensures
        element_views(final(out)@) == element_views(old(out)@) + optional_child::<T>(
            option_view(*value),
        ),
{
    match value {
        Some(v) => {
            let e = v.to_element();
            proof {
                lemma_element_views_push(out@, e);
                assert(element_views(out@).push(e@) =~= element_views(out@) + seq![e@]);
            }
            out.push(e);
        },
        None => {
            assert(element_views(out@) + Seq::<ElementView>::empty() =~= element_views(out@));
        },
    }
}

/// Reads the values of the children that the type accepts, in order.
pub fn read_children<T: XmlCodec>(e: &Element) -> (r: Result<Vec<T>, XmlError>)
    ensures
        result_views(r) == values_of::<T>(e@.children),
{
    let ghost all = e@.children;
    proof {
        lemma_children_views(*e);
    }
    let mut values: Vec<T> = Vec::new();
    let mut i: usize = 0;
    assert(all.take(0) =~= Seq::<ElementView>::empty());
    assert(views(values@) =~= Seq::<T::V>::empty());
    while i < e.children.len()
        invariant
            i <= e.children.len(),
            all == e@.children,
            all == element_views(e.children@),
            values_of::<T>(all.take(i as int)) == Ok::<Seq<T::V>, XmlError>(views(values@)),
        decreases e.children.len() - i,
    {
        let child = &e.children[i];
        proof {
            assert(all.take(i + 1).drop_last() =~= all.take(i as int));
            assert(all.take(i + 1).last() == child@);
        }
        if T::accepts_name(child.name.as_str()) {
            match T::from_element(child) {
                Ok(v) => {
                    proof {
                        lemma_views_push(values@, v);
                    }
                    values.push(v);
                },
                Err(err) => {
                    proof {
                        lemma_values_error::<T>(all, i + 1);
                    }
                    return Err(err);
                },
            }
        }
        i += 1;
    }
    assert(all.take(i as int) =~= all);
    Ok(values)
}

/// An error among the first children is the error of all children.
pub proof fn lemma_values_error<T: XmlCodec>(elements: Seq<ElementView>, k: int)
    requires
        0 <= k <= elements.len(),
        values_of::<T>(elements.take(k)) is Err,
    ensures
        values_of::<T>(elements) == values_of::<T>(elements.take(k)),
    decreases elements.len() - k,
{
    if k == elements.len() {
        assert(elements.take(k) =~= elements);
    } else {
        assert(elements.take(k + 1).drop_last() =~= elements.take(k));
        lemma_values_error::<T>(elements, k + 1);
    }
}

/// Reads the value of the first child that the type accepts.
pub fn read_optional<T: XmlCodec>(e: &Element) -> (r: Result<Option<T>, XmlError>)
    ensures
        result_option_view(r) == first_of::<T>(e@.children),
{
    let ghost all = e@.children;
    let ghost p = accepted::<T>();
    proof {
        lemma_children_views(*e);
    }
    let mut i: usize = 0;
    while i < e.children.len()
        invariant
            i <= e.children.len(),
            all == e@.children,
            all == element_views(e.children@),
            p == accepted::<T>(),
            first_index(all, p, 0) == first_index(all, p, i as int),
        decreases e.children.len() - i,
    {
        let child = &e.children[i];
        if T::accepts_name(child.name.as_str()) {
            assert(p(all[i as int]));
            return match T::from_element(child) {
                Ok(v) => Ok(Some(v)),
                Err(err) => Err(err),
            };
        }
        assert(!p(all[i as int]));
        i += 1;
    }
    Ok(None)
}

/// Reads the value of the first child that the type accepts; its absence
/// is an error.
pub fn read_required<T: XmlCodec>(e: &Element) -> (r: Result<T, XmlError>)
    ensures
        result_view(r) == required_of::<T>(e@.children),
{
    match read_optional::<T>(e) {
        Ok(Some(v)) => Ok(v),
        Ok(None) => Err(XmlError::MissingElement),
        Err(err) => Err(err),
    }
}

/// Reading the children of two sequences of elements, one after the
/// other: the values of the first followed by those of the second.
pub proof fn lemma_values_concat<T: XmlCodec>(a: Seq<ElementView>, b: Seq<ElementView>)
    ensures
        values_of::<T>(a + b) == match values_of::<T>(a) {
            Ok(x) => match values_of::<T>(b) {
                Ok(y) => Ok(x + y),
                Err(err) => Err(err),
            },
            Err(err) => Err(err),
        },
    decreases b.len(),
{
    if b.len() == 0 {
        assert(a + b =~= a);
        if let Ok(x) = values_of::<T>(a) {
            assert(x + Seq::<T::V>::empty() =~= x);
        }
    } else {
        lemma_values_concat::<T>(a, b.drop_last());
        assert((a + b).drop_last() =~= a + b.drop_last());
        assert((a + b).last() == b.last());
        if let Ok(x) = values_of::<T>(a) {
            if let Ok(y) = values_of::<T>(b.drop_last()) {
                if T::accepts(b.last().name) {
                    if let Ok(v) = T::value_of(b.last()) {
                        assert((x + y).push(v) =~= x + y.push(v));
                    }
                }
            }
        }
    }
}

/// Elements that the type does not accept give no values.
pub proof fn lemma_values_none<T: XmlCodec>(elements: Seq<ElementView>)
    requires
        forall|i: int| 0 <= i < elements.len() ==> !T::accepts((#[trigger] elements[i]).name),
    ensures
        values_of::<T>(elements) == Ok::<Seq<T::V>, XmlError>(Seq::empty()),
    decreases elements.len(),
{
    if elements.len() > 0 {
        assert forall|i: int| 0 <= i < elements.drop_last().len() implies !T::accepts(
            (#[trigger] elements.drop_last()[i]).name,
        ) by {
            assert(elements.drop_last()[i] == elements[i]);
        }
        lemma_values_none::<T>(elements.drop_last());
    }
}

/// The elements of a sequence of values are read as those values.
pub proof fn lemma_values_round_trip<T: XmlCodec>(values: Seq<T::V>)
    ensures
        values_of::<T>(children_of::<T>(values)) == Ok::<Seq<T::V>, XmlError>(values),
    decreases values.len(),
{
    let es = children_of::<T>(values);
    if values.len() == 0 {
        assert(values =~= Seq::empty());
    } else {
        lemma_values_round_trip::<T>(values.drop_last());
        assert(es.drop_last() =~= children_of::<T>(values.drop_last()));
        assert(es.last() == T::element_of(values.last()));
        T::law_round_trip(values.last());
        assert(values.drop_last().push(values.last()) =~= values);
    }
}

/// The elements of a sequence of values are well-formed.
pub proof fn lemma_children_well_formed<T: XmlCodec>(values: Seq<T::V>)
    ensures
        all_well_formed(children_of::<T>(values)),
{
    assert forall|i: int| 0 <= i < values.len() implies well_formed(
        #[trigger] children_of::<T>(values)[i],
    ) by {
        T::law_round_trip(values[i]);
    }
}

/// The first accepted element of a concatenation: that of the first part
/// where it has one, else that of the second.
pub proof fn lemma_first_concat<T: XmlCodec>(a: Seq<ElementView>, b: Seq<ElementView>)
    ensures
        first_of::<T>(a + b) == if first_index(a, accepted::<T>(), 0) < a.len() {
            first_of::<T>(a)
        } else {
            first_of::<T>(b)
        },
{
    lemma_first_index_concat(a, b, accepted::<T>());
    lemma_first_index_bounds(a, accepted::<T>(), 0);
    lemma_first_index_bounds(b, accepted::<T>(), 0);
}

/// A sequence without accepted elements has no first accepted element.
pub proof fn lemma_first_none<T: XmlCodec>(elements: Seq<ElementView>)
    requires
        forall|i: int| 0 <= i < elements.len() ==> !T::accepts((#[trigger] elements[i]).name),
    ensures
        first_index(elements, accepted::<T>(), 0) == elements.len(),
        first_of::<T>(elements) == Ok::<Option<T::V>, XmlError>(None),
{
    let p = accepted::<T>();
    assert forall|k: int| 0 <= k < elements.len() implies !p(#[trigger] elements[k]) by {}
    lemma_first_index_is(elements, p, 0, elements.len() as int);
}

/// The element of an optional value is read as that value.
pub proof fn lemma_first_round_trip<T: XmlCodec>(value: Option<T::V>)
    ensures
        first_of::<T>(optional_child::<T>(value)) == Ok::<Option<T::V>, XmlError>(value),
        value is Some ==> first_index(optional_child::<T>(value), accepted::<T>(), 0) < 1,
        optional_child::<T>(value).len() == if value is Some { 1int } else { 0int },
{
    let p = accepted::<T>();
    let s = optional_child::<T>(value);
    match value {
        Some(v) => {
            T::law_round_trip(v);
            assert(p(s[0]));
            lemma_first_index_is(s, p, 0, 0);
        },
        None => {
            lemma_first_index_is(s, p, 0, 0);
        },
    }
}

/// No name is accepted by both types.
pub open spec fn disjoint<T: XmlCodec, U: XmlCodec>() -> bool {
    forall|name: Seq<char>| !(T::accepts(name) && U::accepts(name))
}

/// No element of the sequence is accepted by the type.
pub open spec fn none_accepted<T: XmlCodec>(elements: Seq<ElementView>) -> bool {
    forall|i: int| 0 <= i < elements.len() ==> !T::accepts((#[trigger] elements[i]).name)
}

/// The elements of values of one type are not accepted by a type that
/// shares no name with it.
pub proof fn lemma_others_children<T: XmlCodec, U: XmlCodec>(values: Seq<U::V>)
    requires
        disjoint::<T, U>(),
    ensures
        none_accepted::<T>(children_of::<U>(values)),
{
    assert forall|i: int| 0 <= i < values.len() implies !T::accepts(
        (#[trigger] children_of::<U>(values)[i]).name,
    ) by {
        U::law_round_trip(values[i]);
    }
}

/// The element of an optional value of one type is not accepted by a type
/// that shares no name with it.
pub proof fn lemma_others_optional<T: XmlCodec, U: XmlCodec>(value: Option<U::V>)
    requires
        disjoint::<T, U>(),
    ensures
        none_accepted::<T>(optional_child::<U>(value)),
{
    if let Some(v) = value {
        U::law_round_trip(v);
    }
}

/// Two sequences without accepted elements make one.
pub proof fn lemma_none_accepted_concat<T: XmlCodec>(a: Seq<ElementView>, b: Seq<ElementView>)
    requires
        none_accepted::<T>(a),
        none_accepted::<T>(b),
    ensures
        none_accepted::<T>(a + b),
{
    assert forall|i: int| 0 <= i < (a + b).len() implies !T::accepts(
        (#[trigger] (a + b)[i]).name,
    ) by {
        if i < a.len() {
            assert((a + b)[i] == a[i]);
        } else {
            assert((a + b)[i] == b[i - a.len()]);
        }
    }
}

/// The element of an optional value is read as that value among elements
/// of other types.
pub proof fn lemma_first_in_context<T: XmlCodec>(
    before: Seq<ElementView>,
    value: Option<T::V>,
    after: Seq<ElementView>,
)
    requires
        none_accepted::<T>(before),
        none_accepted::<T>(after),
    ensures
        first_of::<T>(before + optional_child::<T>(value) + after) == Ok::<
            Option<T::V>,
            XmlError,
        >(value),
{
    let own = optional_child::<T>(value);
    lemma_first_none::<T>(before);
    lemma_first_none::<T>(after);
    lemma_first_round_trip::<T>(value);
    lemma_first_concat::<T>(before, own);
    lemma_first_concat::<T>(before + own, after);
    lemma_first_index_concat(before, own, accepted::<T>());
    lemma_first_index_bounds(own, accepted::<T>(), 0);
}

/// The elements of a sequence of values are read as those values among
/// elements of other types.
pub proof fn lemma_values_in_context<T: XmlCodec>(
    before: Seq<ElementView>,
    values: Seq<T::V>,
    after: Seq<ElementView>,
)
    requires
        none_accepted::<T>(before),
        none_accepted::<T>(after),
    ensures
        values_of::<T>(before + children_of::<T>(values) + after) == Ok::<Seq<T::V>, XmlError>(
            values,
        ),
{
    let own = children_of::<T>(values);
    lemma_values_none::<T>(before);
    lemma_values_none::<T>(after);
    lemma_values_round_trip::<T>(values);
    lemma_values_concat::<T>(before, own);
    lemma_values_concat::<T>(before + own, after);
    assert(Seq::<T::V>::empty() + values =~= values);
    assert(values + Seq::<T::V>::empty() =~= values);
}

/// The element of an optional value is well-formed.
pub proof fn lemma_optional_well_formed<T: XmlCodec>(value: Option<T::V>)
    ensures
        all_well_formed(optional_child::<T>(value)),
{
    if let Some(v) = value {
        T::law_round_trip(v);
    }
}

/// An optional value of one type followed by values of another, where the
/// two types share no name: the elements are well-formed and read as the
/// optional value and the values.
pub proof fn lemma_optional_then_children<P: XmlCodec, C: XmlCodec>(
    value: Option<P::V>,
    values: Seq<C::V>,
)
    requires
        disjoint::<P, C>(),
        disjoint::<C, P>(),
    ensures
        first_of::<P>(optional_child::<P>(value) + children_of::<C>(values)) == Ok::<
            Option<P::V>,
            XmlError,
        >(value),
        values_of::<C>(optional_child::<P>(value) + children_of::<C>(values)) == Ok::<
            Seq<C::V>,
            XmlError,
        >(values),
        all_well_formed(optional_child::<P>(value) + children_of::<C>(values)),
{
    let own = optional_child::<P>(value);
    let kids = children_of::<C>(values);
    let none = Seq::<ElementView>::empty();
    lemma_others_children::<P, C>(values);
    lemma_others_optional::<C, P>(value);
    lemma_first_in_context::<P>(none, value, kids);
    lemma_values_in_context::<C>(own, values, none);
    assert(none + own + kids =~= own + kids);
    assert(own + kids + none =~= own + kids);
    lemma_optional_well_formed::<P>(value);
    lemma_children_well_formed::<C>(values);
    lemma_all_well_formed_concat(own, kids);
}

/// Appending a value appends its element.
pub proof fn lemma_children_push<T: XmlCodec>(values: Seq<T::V>, v: T::V)
    ensures
        children_of::<T>(values.push(v)) == children_of::<T>(values).push(T::element_of(v)),
{
    assert(children_of::<T>(values.push(v)) =~= children_of::<T>(values).push(T::element_of(v)));
}

} // verus!
