//! The reader: builds element trees from pieces.

use vstd::prelude::*;
use crate::codec::text::same_text;
use crate::codec::token::{Piece, PieceView};
use crate::codec::tree::{
    element_views, lemma_children_views, lemma_element_views_push, lemma_views_push, views,
    Attribute, AttributeView, Element, ElementView,
};
use crate::error::XmlError;

verus! {

/// The attribute that an attribute piece holds.
pub open spec fn attribute_of(p: PieceView) -> AttributeView {
    match p {
        Piece::Attribute(name, value) => AttributeView { name, value },
        _ => AttributeView { name: Seq::empty(), value: Seq::empty() },
    }
}

/// The first place at or after `i` that holds no attribute piece.
pub open spec fn attributes_end(ps: Seq<PieceView>, i: int) -> int
    decreases ps.len() - i,
{
    if 0 <= i < ps.len() && ps[i] is Attribute {
        attributes_end(ps, i + 1)
    } else {
        i
    }
}

/// The attributes that the pieces from `i` up to `j` hold.
pub open spec fn attributes_between(ps: Seq<PieceView>, i: int, j: int) -> Seq<AttributeView> {
    Seq::new((j - i) as nat, |k: int| attribute_of(ps[i + k]))
}

/// The first place at or after `i` that holds something else than a
/// declaration, comment or the like.
pub open spec fn others_end(ps: Seq<PieceView>, i: int) -> int
    decreases ps.len() - i,
{
    if 0 <= i < ps.len() && ps[i] is Other {
        others_end(ps, i + 1)
    } else {
        i
    }
}

/// What stands between a start tag and the closing tag that ends its
/// element: the character data, the children, the place after the closing
/// tag, and the name in the closing tag.
pub struct Content {
    pub text: Seq<char>,
    pub children: Seq<ElementView>,
    pub next: int,
    pub close: Seq<char>,
}

/// Reads content from place `i` on, after the character data `text` and the
/// children `children` of the same element. Character data is joined,
/// child elements are read in order, declarations and comments are passed
/// over. The content ends at the first closing tag on this level. The end
/// of the pieces, an invalid piece, and a piece that belongs inside a start
/// tag are errors.
pub open spec fn parse_content(
    ps: Seq<PieceView>,
    i: int,
    text: Seq<char>,
    children: Seq<ElementView>,
) -> Result<Content, XmlError>
    decreases ps.len() - i, 1nat,
{
    if i < 0 || i >= ps.len() {
        Err(XmlError::UnexpectedEof)
    } else {
        match ps[i] {
            Piece::Text(t) => parse_content(ps, i + 1, text + t, children),
            Piece::Other => parse_content(ps, i + 1, text, children),
            Piece::Start(_) => match parse_element(ps, i) {
                Ok((e, j)) => if i < j <= ps.len() {
                    parse_content(ps, j, text, children.push(e))
                } else {
                    Err(XmlError::UnexpectedEof)
                },
                Err(err) => Err(err),
            },
            Piece::Close(name) => Ok(Content { text, children, next: i + 1, close: name }),
            Piece::Invalid => Err(XmlError::Malformed),
            _ => Err(XmlError::UnexpectedToken),
        }
    }
}

/// Reads the element that starts at place `i`, and gives it with the place
/// after it. The piece at `i` must start a tag; attributes follow; then the
/// tag ends as an empty-element tag, or content follows up to a closing tag
/// that must repeat the element's name.
pub open spec fn parse_element(ps: Seq<PieceView>, i: int) -> Result<(ElementView, int), XmlError>
    decreases ps.len() - i, 0nat,
{
    if i < 0 || i >= ps.len() {
        Err(XmlError::UnexpectedEof)
    } else {
        match ps[i] {
            Piece::Start(name) => {
                let j = attributes_end(ps, i + 1);
                let attributes = attributes_between(ps, i + 1, j);
                if j <= i || j >= ps.len() {
                    Err(XmlError::UnexpectedEof)
                } else {
                    match ps[j] {
                        Piece::Empty => Ok(
                            (
                                ElementView {
                                    name,
                                    attributes,
                                    text: Seq::empty(),
                                    children: Seq::empty(),
                                    empty_tag: true,
                                },
                                j + 1,
                            ),
                        ),
                        Piece::Open => match parse_content(
                            ps,
                            j + 1,
                            Seq::empty(),
                            Seq::empty(),
                        ) {
                            Ok(c) => if c.close == name {
                                Ok(
                                    (
                                        ElementView {
                                            name,
                                            attributes,
                                            text: c.text,
                                            children: c.children,
                                            empty_tag: false,
                                        },
                                        c.next,
                                    ),
                                )
                            } else {
                                Err(XmlError::TagMismatch)
                            },
                            Err(err) => Err(err),
                        },
                        Piece::Invalid => Err(XmlError::Malformed),
                        _ => Err(XmlError::UnexpectedToken),
                    }
                }
            },
            Piece::Invalid => Err(XmlError::Malformed),
            _ => Err(XmlError::UnexpectedToken),
        }
    }
}

/// Reads a document: declarations and comments, one root element, and
/// nothing but declarations and comments after it.
pub open spec fn parse_document(ps: Seq<PieceView>) -> Result<ElementView, XmlError> {
    match parse_element(ps, others_end(ps, 0)) {
        Ok((e, j)) => {
            let k = others_end(ps, j);
            if k >= ps.len() {
                Ok(e)
            } else if ps[k] is Invalid {
                Err(XmlError::Malformed)
            } else {
                Err(XmlError::UnexpectedToken)
            }
        },
        Err(err) => Err(err),
    }
}

/// The end of a run of declarations and comments is not before its start,
/// and not after the end of the pieces.
pub proof fn lemma_others_end_bounds(ps: Seq<PieceView>, i: int)
    requires
        0 <= i <= ps.len(),
    ensures
        i <= others_end(ps, i) <= ps.len(),
        others_end(ps, i) < ps.len() ==> !(ps[others_end(ps, i)] is Other),
    decreases ps.len() - i,
{
    if i < ps.len() && ps[i] is Other {
        lemma_others_end_bounds(ps, i + 1);
    }
}

/// Every piece of a run of declarations and comments is one.
pub proof fn lemma_others_run(ps: Seq<PieceView>, i: int, m: int)
    requires
        0 <= i <= m < others_end(ps, i),
        i <= ps.len(),
    ensures
        ps[m] is Other,
    decreases ps.len() - i,
{
    if i < ps.len() && ps[i] is Other {
        if i < m {
            lemma_others_run(ps, i + 1, m);
        }
    }
}

/// Passes over declarations and comments from place `i` on.
pub fn skip_others(pieces: &Vec<Piece<String>>, i: usize) -> (k: usize)
    requires
        i <= pieces.len(),
    ensures
        k == others_end(views(pieces@), i as int),
        i <= k <= pieces.len(),
{
    let ghost ps = views(pieces@);
    let mut k = i;
    while k < pieces.len()
        invariant
            i <= k <= pieces.len(),
            ps == views(pieces@),
            others_end(ps, i as int) == others_end(ps, k as int),
        decreases pieces.len() - k,
    {
        match &pieces[k] {
            Piece::Other => {
                k += 1;
            },
            _ => {
                return k;
            },
        }
    }
    k
}

/// Reads the attributes of a start tag from place `i` on, and gives them
/// with the place after them.
pub fn build_attributes(pieces: &Vec<Piece<String>>, i: usize) -> (r: (Vec<Attribute>, usize))
    requires
        i <= pieces.len(),
    ensures
        r.1 == attributes_end(views(pieces@), i as int),
        views(r.0@) == attributes_between(views(pieces@), i as int, r.1 as int),
        i <= r.1 <= pieces.len(),
{
    let ghost ps = views(pieces@);
    let mut attributes: Vec<Attribute> = Vec::new();
    let mut k = i;
    assert(views(attributes@) =~= attributes_between(ps, i as int, k as int));
    while k < pieces.len()
        invariant
            i <= k <= pieces.len(),
            ps == views(pieces@),
            attributes_end(ps, i as int) == attributes_end(ps, k as int),
            views(attributes@) == attributes_between(ps, i as int, k as int),
        decreases pieces.len() - k,
    {
        match &pieces[k] {
            Piece::Attribute(name, value) => {
                let ghost before = attributes@;
                let a = Attribute { name: name.clone(), value: value.clone() };
                attributes.push(a);
                proof {
                    lemma_views_push(before, a);
                    assert(a@ == attribute_of(ps[k as int]));
                    assert(attributes_between(ps, i as int, k + 1) =~= attributes_between(
                        ps,
                        i as int,
                        k as int,
                    ).push(a@));
                }
                k += 1;
            },
            _ => {
                return (attributes, k);
            },
        }
    }
    (attributes, k)
}

/// Reads the element that starts at place `i`, with everything in it, and
/// gives it with the place after it.
pub fn build_element(pieces: &Vec<Piece<String>>, i: usize) -> (r: Result<
    (Element, usize),
    XmlError,
>)
    ensures
        match r {
            Ok((e, j)) => parse_element(views(pieces@), i as int) == Ok::<
                (ElementView, int),
                XmlError,
            >((e@, j as int)) && i < j <= pieces.len(),
            Err(err) => parse_element(views(pieces@), i as int) == Err::<
                (ElementView, int),
                XmlError,
            >(err),
        },
    decreases pieces.len() - i,
{
    let ghost ps = views(pieces@);
    if i >= pieces.len() {
        return Err(XmlError::UnexpectedEof);
    }
    let name = match &pieces[i] {
        Piece::Start(name) => name.clone(),
        Piece::Invalid => {
            return Err(XmlError::Malformed);
        },
        _ => {
            return Err(XmlError::UnexpectedToken);
        },
    };
    let (attributes, j) = build_attributes(pieces, i + 1);
    if j >= pieces.len() {
        return Err(XmlError::UnexpectedEof);
    }
    match &pieces[j] {
        Piece::Empty => {
            let e = Element {
                name,
                attributes,
                text: String::new(),
                children: Vec::new(),
                empty_tag: true,
            };
            proof {
                lemma_children_views(e);
                assert(e@.children =~= Seq::empty());
            }
            return Ok((e, j + 1));
        },
        Piece::Open => {},
        Piece::Invalid => {
            return Err(XmlError::Malformed);
        },
        _ => {
            return Err(XmlError::UnexpectedToken);
        },
    }
    let mut text = String::new();
    let mut children: Vec<Element> = Vec::new();
    let mut k = j + 1;
    assert(element_views(children@) =~= Seq::empty());
    loop
        invariant
            ps == views(pieces@),
            i < j < k <= pieces.len(),
            parse_content(ps, j + 1, Seq::empty(), Seq::empty()) == parse_content(
                ps,
                k as int,
                text@,
                element_views(children@),
            ),
            ps[i as int] == Piece::<Seq<char>>::Start(name@),
            j == attributes_end(ps, i + 1),
            ps[j as int] is Open,
            views(attributes@) == attributes_between(ps, i + 1, j as int),
        decreases pieces.len() - k,
    {
        if k >= pieces.len() {
            return Err(XmlError::UnexpectedEof);
        }
        match &pieces[k] {
            Piece::Text(t) => {
                text.append(t.as_str());
                k += 1;
            },
            Piece::Other => {
                k += 1;
            },
            Piece::Start(_) => {
                match build_element(pieces, k) {
                    Ok((child, next)) => {
                        proof {
                            lemma_element_views_push(children@, child);
                        }
                        children.push(child);
                        k = next;
                    },
                    Err(err) => {
                        return Err(err);
                    },
                }
            },
            Piece::Close(close) => {
                if same_text(close.as_str(), name.as_str()) {
                    let e = Element { name, attributes, text, children, empty_tag: false };
                    proof {
                        lemma_children_views(e);
                    }
                    return Ok((e, k + 1));
                } else {
                    return Err(XmlError::TagMismatch);
                }
            },
            Piece::Invalid => {
                return Err(XmlError::Malformed);
            },
            _ => {
                return Err(XmlError::UnexpectedToken);
            },
        }
    }
}

/// Reads a document and gives its root element.
pub fn build_document(pieces: &Vec<Piece<String>>) -> (r: Result<Element, XmlError>)
    ensures
        match r {
            Ok(e) => parse_document(views(pieces@)) == Ok::<ElementView, XmlError>(e@),
            Err(err) => parse_document(views(pieces@)) == Err::<ElementView, XmlError>(err),
        },
{
    let i = skip_others(pieces, 0);
    match build_element(pieces, i) {
        Ok((e, j)) => {
            let k = skip_others(pieces, j);
            if k >= pieces.len() {
                Ok(e)
            } else {
                match &pieces[k] {
                    Piece::Invalid => Err(XmlError::Malformed),
                    _ => Err(XmlError::UnexpectedToken),
                }
            }
        },
        Err(err) => Err(err),
    }
}

} // verus!
