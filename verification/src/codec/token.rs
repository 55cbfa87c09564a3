//! The tokens of an XML text. `hard_xml` splits the text; this module holds
//! the tokens as plain values, resolves their entities, and says which
//! tokens stand for an element tree.

use vstd::prelude::*;
use hard_xml::XmlReader;
use hard_xml::xmlparser::ElementEnd::{Close, Empty, Open};
use hard_xml::xmlparser::Token::{Attribute, Cdata, ElementEnd, ElementStart, Text};
use crate::codec::text::{
    qualified, qualified_name, same_text, unescape, xml_escaped, xml_unescaped,
};
use crate::codec::tree::{
    element_views, lemma_children_views, rendered_attribute, views, AttributeView, Element,
    ElementView,
};

verus! {

/// `hard_xml::XmlReader`, the reader that gives the tokens of a text one by
/// one. Nothing of what is inside it is known here.
#[verifier::external_type_specification]
#[verifier::external_body]
pub struct ExXmlReader<'a>(XmlReader<'a>);

/// A token as the tokenizer gives it: names split into prefix and local
/// name, values and character data with their entities unresolved.
#[derive(Debug, Clone, PartialEq, Eq)]
pub enum RawToken<S> {
    /// `<prefix:local`
    Start(S, S),
    /// `prefix:local="value"`
    Attribute(S, S, S),
    /// `>` at the end of a start tag
    Open,
    /// `/>` at the end of an empty-element tag
    Empty,
    /// `</prefix:local>`
    Close(S, S),
    /// Character data between tags.
    Text(S),
    /// The text inside `<![CDATA[` and `]]>`.
    Cdata(S),
    /// A declaration, a comment, a processing instruction or a part of a
    /// document type definition.
    Other,
    /// The tokenizer's error; nothing follows it.
    Invalid,
}

impl View for RawToken<String> {
    type V = RawToken<Seq<char>>;

    open spec fn view(&self) -> RawToken<Seq<char>> {
        match self {
            RawToken::Start(p, l) => RawToken::Start(p@, l@),
            RawToken::Attribute(p, l, v) => RawToken::Attribute(p@, l@, v@),
            RawToken::Open => RawToken::Open,
            RawToken::Empty => RawToken::Empty,
            RawToken::Close(p, l) => RawToken::Close(p@, l@),
            RawToken::Text(t) => RawToken::Text(t@),
            RawToken::Cdata(t) => RawToken::Cdata(t@),
            RawToken::Other => RawToken::Other,
            RawToken::Invalid => RawToken::Invalid,
        }
    }
}

/// A token with names joined and entities resolved: what the reader of
/// element trees works on.
#[derive(Debug, Clone, PartialEq, Eq)]
pub enum Piece<S> {
    /// `<name`
    Start(S),
    /// `name="value"`, the value with entities resolved
    Attribute(S, S),
    /// `>` at the end of a start tag
    Open,
    /// `/>` at the end of an empty-element tag
    Empty,
    /// `</name>`
    Close(S),
    /// Character data, entities resolved.
    Text(S),
    /// A declaration, a comment, a processing instruction or a part of a
    /// document type definition.
    Other,
    /// Where the text is not well-formed: the tokenizer's error, or an
    /// entity that cannot be resolved.
    Invalid,
}

/// A [`Piece`] over mathematical strings.
pub type PieceView = Piece<Seq<char>>;

impl View for Piece<String> {
    type V = Piece<Seq<char>>;

    open spec fn view(&self) -> Piece<Seq<char>> {
        match self {
            Piece::Start(n) => Piece::Start(n@),
            Piece::Attribute(n, v) => Piece::Attribute(n@, v@),
            Piece::Open => Piece::Open,
            Piece::Empty => Piece::Empty,
            Piece::Close(n) => Piece::Close(n@),
            Piece::Text(t) => Piece::Text(t@),
            Piece::Other => Piece::Other,
            Piece::Invalid => Piece::Invalid,
        }
    }
}

/// The tokens that a reader has yet to give, in order.
pub uninterp spec fn pending(reader: XmlReader) -> Seq<RawToken<Seq<char>>>;

/// The tokens that `xmlparser`'s tokenizer, which `hard_xml::XmlReader`
/// wraps, splits a text into; the tokenizer's error, where it reports one,
/// is the last of them.
pub uninterp spec fn xml_tokens(text: Seq<char>) -> Seq<RawToken<Seq<char>>>;

/// Calls `hard_xml::XmlReader::new`, which starts a tokenizer at the
/// beginning of the text: the reader has all tokens of the text to give.
#[verifier::external_body]
fn reader_new<'a>(text: &'a str) -> (reader: XmlReader<'a>)
    ensures
        pending(reader) == xml_tokens(text@),
{
    XmlReader::new(text)
}

/// Calls `hard_xml::XmlReader::next`, which takes the next token from the
/// tokenizer, and copies the token's parts into a [`RawToken`]. The
/// contract says that the first pending token is given and leaves the
/// reader, and that `None` comes when none is pending.
#[verifier::external_body]
fn next_token(reader: &mut XmlReader<'_>) -> (r: Option<RawToken<String>>)
    ensures
        match r {
            Some(t) => pending(*old(reader)).len() > 0 && t@ == pending(*old(reader))[0]
                && pending(*final(reader)) == pending(*old(reader)).skip(1),
            None => pending(*old(reader)).len() == 0 && pending(*final(reader)).len() == 0,
        },
{
    Some(match reader.next()? {
        Ok(ElementStart { prefix, local, .. }) => RawToken::Start(prefix.to_string(), local.to_string()),
        Ok(Attribute { prefix, local, value, .. }) => RawToken::Attribute(prefix.to_string(), local.to_string(), value.to_string()),
        Ok(ElementEnd { end, .. }) => match end {
            Open => RawToken::Open,
            Empty => RawToken::Empty,
            Close(prefix, local) => RawToken::Close(prefix.to_string(), local.to_string()),
        },
        Ok(Text { text }) => RawToken::Text(text.to_string()),
        Ok(Cdata { text, .. }) => RawToken::Cdata(text.to_string()),
        Ok(_) => RawToken::Other,
        Err(_) => RawToken::Invalid,
    })
}

/// The piece that a raw token becomes: names are joined, and the entities
/// in attribute values and character data are resolved. A value or text
/// whose entities cannot be resolved makes the piece invalid. The text of a
/// CDATA section is character data as it stands.
pub open spec fn decoded(t: RawToken<Seq<char>>) -> PieceView {
    match t {
        RawToken::Start(p, l) => Piece::Start(qualified(p, l)),
        RawToken::Attribute(p, l, v) => match xml_unescaped(v) {
            Some(d) => Piece::Attribute(qualified(p, l), d),
            None => Piece::Invalid,
        },
        RawToken::Open => Piece::Open,
        RawToken::Empty => Piece::Empty,
        RawToken::Close(p, l) => Piece::Close(qualified(p, l)),
        RawToken::Text(t) => match xml_unescaped(t) {
            Some(d) => Piece::Text(d),
            None => Piece::Invalid,
        },
        RawToken::Cdata(t) => Piece::Text(t),
        RawToken::Other => Piece::Other,
        RawToken::Invalid => Piece::Invalid,
    }
}

/// The pieces of a text: its tokens, each decoded.
pub open spec fn xml_pieces(text: Seq<char>) -> Seq<PieceView> {
    xml_tokens(text).map_values(|t: RawToken<Seq<char>>| decoded(t))
}

/// Decodes one token.
pub fn decode(token: RawToken<String>) -> (p: Piece<String>)
    ensures
        p@ == decoded(token@),
{
    match token {
        RawToken::Start(prefix, local) => Piece::Start(
            qualified_name(prefix.as_str(), local.as_str()),
        ),
        RawToken::Attribute(prefix, local, value) => match unescape(value.as_str()) {
            Some(d) => Piece::Attribute(qualified_name(prefix.as_str(), local.as_str()), d),
            None => Piece::Invalid,
        },
        RawToken::Open => Piece::Open,
        RawToken::Empty => Piece::Empty,
        RawToken::Close(prefix, local) => Piece::Close(
            qualified_name(prefix.as_str(), local.as_str()),
        ),
        RawToken::Text(text) => match unescape(text.as_str()) {
            Some(d) => Piece::Text(d),
            None => Piece::Invalid,
        },
        RawToken::Cdata(text) => Piece::Text(text),
        RawToken::Other => Piece::Other,
        RawToken::Invalid => Piece::Invalid,
    }
}

/// Splits a text into pieces.
pub fn read_pieces(text: &str) -> (pieces: Vec<Piece<String>>)
    ensures
        views(pieces@) == xml_pieces(text@),
{
    let mut reader = reader_new(text);
    let mut pieces: Vec<Piece<String>> = Vec::new();
    let ghost tokens = xml_tokens(text@);
    let ghost mut done: int = 0;
    assert(tokens.skip(0) =~= tokens);
    assert(views(pieces@) =~= xml_pieces(text@).take(0));
    loop
        invariant
            tokens == xml_tokens(text@),
            0 <= done <= tokens.len(),
            pending(reader) == tokens.skip(done),
            views(pieces@) == xml_pieces(text@).take(done),
        ensures
            views(pieces@) == xml_pieces(text@),
        decreases pending(reader).len(),
    {
        let ghost before = pieces@;
        match next_token(&mut reader) {
            Some(t) => {
                let p = decode(t);
                pieces.push(p);
                proof {
                    assert(tokens.skip(done)[0] == tokens[done]);
                    assert(tokens.skip(done).skip(1) =~= tokens.skip(done + 1));
                    assert(p@ == xml_pieces(text@)[done]);
                    assert(pieces@ == before.push(p));
                    assert(views(before.push(p)) =~= views(before).push(p@));
                    assert(xml_pieces(text@).take(done + 1) =~= xml_pieces(text@).take(
                        done,
                    ).push(xml_pieces(text@)[done]));
                    done = done + 1;
                }
            },
            None => {
                assert(done == tokens.len());
                assert(xml_pieces(text@).take(done) =~= xml_pieces(text@));
                break ;
            },
        }
    }
    pieces
}

/// The attribute pieces of a start tag, in order.
pub open spec fn attribute_pieces(attributes: Seq<AttributeView>) -> Seq<PieceView> {
    Seq::new(
        attributes.len(),
        |i: int| Piece::Attribute(attributes[i].name, attributes[i].value),
    )
}

/// The piece for the character data of an element: none where there is no
/// character data.
pub open spec fn text_pieces(text: Seq<char>) -> Seq<PieceView> {
    if text.len() == 0 {
        Seq::empty()
    } else {
        seq![Piece::Text(text)]
    }
}

/// The pieces that stand for an element: the start of its tag and its
/// attributes, then the end of an empty-element tag, or the end of the
/// start tag, the character data, the children and the closing tag.
pub open spec fn pieces(e: ElementView) -> Seq<PieceView>
    decreases e,
{
    seq![Piece::Start(e.name)] + attribute_pieces(e.attributes) + if e.empty_tag {
        seq![Piece::Empty]
    } else {
        seq![Piece::Open] + text_pieces(e.text) + pieces_all(e.children) + seq![
            Piece::Close(e.name),
        ]
    }
}

/// The pieces of a sequence of elements, one element after the other.
pub open spec fn pieces_all(elements: Seq<ElementView>) -> Seq<PieceView>
    decreases elements,
{
    if elements.len() == 0 {
        Seq::empty()
    } else {
        pieces_all(elements.drop_last()) + pieces(elements.last())
    }
}

/// Adds one piece.
fn push_piece(out: &mut Vec<Piece<String>>, p: Piece<String>)
    ensures
        views(final(out)@) == views(old(out)@).push(p@),
{
    assert(views(out@.push(p)) =~= views(out@).push(p@));
    out.push(p);
}

/// Adds the pieces that stand for an element.
pub fn push_pieces(out: &mut Vec<Piece<String>>, e: &Element)
    ensures
        views(final(out)@) == views(old(out)@) + pieces(e@),
    decreases e,
{
    let ghost start = views(out@);
    let ghost attrs = attribute_pieces(e@.attributes);
    let ghost head = seq![Piece::<Seq<char>>::Start(e@.name)];
    push_piece(out, Piece::Start(e.name.clone()));
    let mut i: usize = 0;
    assert(start + head + attrs.take(0) =~= start.push(head[0]));
    while i < e.attributes.len()
        invariant
            i <= e.attributes.len(),
            attrs == attribute_pieces(e@.attributes),
            e@.attributes == views(e.attributes@),
            views(out@) == start + head + attrs.take(i as int),
        decreases e.attributes.len() - i,
    {
        let a = &e.attributes[i];
        let p = Piece::Attribute(a.name.clone(), a.value.clone());
        proof {
            assert(p@ == attrs[i as int]);
            assert((start + head + attrs.take(i as int)).push(p@) =~= start + head + attrs.take(
                i + 1,
            ));
        }
        push_piece(out, p);
        i += 1;
    }
    assert(attrs.take(i as int) =~= attrs);
    if e.empty_tag {
        proof {
            assert((start + head + attrs).push(Piece::<Seq<char>>::Empty) =~= start + pieces(e@));
        }
        push_piece(out, Piece::Empty);
    } else {
        let ghost open = head + attrs + seq![Piece::<Seq<char>>::Open];
        let ghost inner = open + text_pieces(e@.text);
        proof {
            assert((start + head + attrs).push(Piece::<Seq<char>>::Open) =~= start + open);
        }
        push_piece(out, Piece::Open);
        if !e.text.as_str().is_empty() {
            let p = Piece::Text(e.text.clone());
            proof {
                assert((start + open).push(p@) =~= start + inner);
            }
            push_piece(out, p);
        } else {
            assert(start + open =~= start + inner);
        }
        let ghost all = e@.children;
        proof {
            lemma_children_views(*e);
            assert(all.take(0) =~= Seq::<ElementView>::empty());
            assert(start + inner + pieces_all(all.take(0)) =~= start + inner);
        }
        let mut k: usize = 0;
        while k < e.children.len()
            invariant
                k <= e.children.len(),
                all == e@.children,
                all == element_views(e.children@),
                views(out@) == start + inner + pieces_all(all.take(k as int)),
            decreases e.children.len() - k,
        {
            push_pieces(out, &e.children[k]);
            proof {
                assert(all.take(k + 1).drop_last() =~= all.take(k as int));
                assert(all.take(k + 1).last() == e.children[k as int]@);
                assert(views(out@) =~= start + inner + pieces_all(all.take(k + 1)));
            }
            k += 1;
        }
        assert(all.take(k as int) =~= all);
        let p = Piece::Close(e.name.clone());
        proof {
            assert((start + inner + pieces_all(all)).push(p@) =~= start + pieces(e@));
        }
        push_piece(out, p);
    }
}

/// Whether two pieces hold the same.
pub fn same_piece(a: &Piece<String>, b: &Piece<String>) -> (r: bool)
    ensures
        r == (a@ == b@),
{
    match (a, b) {
        (Piece::Start(x), Piece::Start(y)) => same_text(x.as_str(), y.as_str()),
        (Piece::Attribute(x, v), Piece::Attribute(y, w)) => same_text(x.as_str(), y.as_str())
            && same_text(v.as_str(), w.as_str()),
        (Piece::Open, Piece::Open) => true,
        (Piece::Empty, Piece::Empty) => true,
        (Piece::Close(x), Piece::Close(y)) => same_text(x.as_str(), y.as_str()),
        (Piece::Text(x), Piece::Text(y)) => same_text(x.as_str(), y.as_str()),
        (Piece::Other, Piece::Other) => true,
        (Piece::Invalid, Piece::Invalid) => true,
        _ => false,
    }
}

/// Whether the pieces of `a` from place `from` on hold the same as the
/// pieces of `b`.
pub fn same_pieces(a: &Vec<Piece<String>>, from: usize, b: &Vec<Piece<String>>) -> (r: bool)
    requires
        from <= a.len(),
    ensures
        r == (views(a@).skip(from as int) == views(b@)),
{
    let ghost left = views(a@).skip(from as int);
    let ghost right = views(b@);
    if a.len() - from != b.len() {
        assert(left.len() != right.len());
        return false;
    }
    let mut i: usize = 0;
    while i < b.len()
        invariant
            i <= b.len(),
            from + b.len() == a.len(),
            left == views(a@).skip(from as int),
            right == views(b@),
            forall|k: int| 0 <= k < i ==> left[k] == right[k],
        decreases b.len() - i,
    {
        if !same_piece(&a[from + i], &b[i]) {
            assert(left[i as int] != right[i as int]);
            return false;
        }
        i += 1;
    }
    assert(left =~= right);
    true
}

/// The text that a piece is written as. A piece that holds no element
/// content (`Other`, `Invalid`) has no text here.
pub open spec fn piece_text(p: PieceView) -> Seq<char> {
    match p {
        Piece::Start(name) => seq!['<'] + name,
        Piece::Attribute(name, value) => rendered_attribute(AttributeView { name, value }),
        Piece::Open => seq!['>'],
        Piece::Empty => seq!['/', '>'],
        Piece::Close(name) => seq!['<', '/'] + name + seq!['>'],
        Piece::Text(text) => xml_escaped(text),
        Piece::Other => Seq::empty(),
        Piece::Invalid => Seq::empty(),
    }
}

/// The text that a sequence of pieces is written as.
pub open spec fn pieces_text(ps: Seq<PieceView>) -> Seq<char>
    decreases ps.len(),
{
    if ps.len() == 0 {
        Seq::empty()
    } else {
        pieces_text(ps.drop_last()) + piece_text(ps.last())
    }
}

} // verus!
