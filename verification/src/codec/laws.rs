//! What holds of the engine as a whole: the pieces of an element are read
//! back as that element, and their text is the element's text.

use vstd::prelude::*;
use crate::codec::reader::{
    attribute_of, attributes_between, attributes_end, others_end, parse_content, parse_document,
    parse_element, Content,
};
use crate::codec::token::{
    attribute_pieces, piece_text, pieces, pieces_all, pieces_text, text_pieces, Piece, PieceView,
};
use crate::codec::tree::{
    rendered, rendered_all, rendered_attributes, well_formed, AttributeView, ElementView,
};
use crate::error::XmlError;

verus! {

/// The sequence `s` stands in `ps` from place `i` on.
pub open spec fn holds_at(ps: Seq<PieceView>, i: int, s: Seq<PieceView>) -> bool {
    &&& 0 <= i
    &&& i + s.len() <= ps.len()
    &&& ps.subrange(i, i + s.len()) == s
}

/// Where a concatenation stands, its two parts stand one after the other.
pub proof fn lemma_holds_at_split(ps: Seq<PieceView>, i: int, a: Seq<PieceView>, b: Seq<PieceView>)
    requires
        holds_at(ps, i, a + b),
    ensures
        holds_at(ps, i, a),
        holds_at(ps, i + a.len(), b),
{
    let w = ps.subrange(i, i + (a + b).len());
    assert(w == a + b);
    assert forall|k: int| 0 <= k < a.len() implies ps.subrange(i, i + a.len())[k] == a[k] by {
        assert(w[k] == ps[i + k]);
        assert((a + b)[k] == a[k]);
    }
    assert(ps.subrange(i, i + a.len()) =~= a);
    assert forall|k: int| 0 <= k < b.len() implies ps.subrange(
        i + a.len(),
        i + a.len() + b.len(),
    )[k] == b[k] by {
        assert(w[a.len() + k] == ps[i + a.len() + k]);
        assert((a + b)[a.len() + k] == b[k]);
    }
    assert(ps.subrange(i + a.len(), i + a.len() + b.len()) =~= b);
}

/// Where a sequence stands, each of its items stands at its place.
pub proof fn lemma_holds_at_index(ps: Seq<PieceView>, i: int, s: Seq<PieceView>, k: int)
    requires
        holds_at(ps, i, s),
        0 <= k < s.len(),
    ensures
        ps[i + k] == s[k],
{
    assert(ps.subrange(i, i + s.len())[k] == ps[i + k]);
}

/// The pieces of a concatenation of element sequences are the pieces of
/// the first followed by the pieces of the second.
pub proof fn lemma_pieces_all_concat(a: Seq<ElementView>, b: Seq<ElementView>)
    ensures
        pieces_all(a + b) == pieces_all(a) + pieces_all(b),
    decreases b.len(),
{
    if b.len() == 0 {
        assert(a + b =~= a);
        assert(pieces_all(a) + pieces_all(b) =~= pieces_all(a));
    } else {
        lemma_pieces_all_concat(a, b.drop_last());
        assert((a + b).drop_last() =~= a + b.drop_last());
        assert((a + b).last() == b.last());
        assert(pieces_all(a + b) =~= pieces_all(a) + pieces_all(b));
    }
}

/// The pieces of the first `k + 1` elements are those of the first `k`
/// followed by those of the element at `k`.
pub proof fn lemma_pieces_all_take(elements: Seq<ElementView>, k: int)
    requires
        0 <= k < elements.len(),
    ensures
        pieces_all(elements.take(k + 1)) == pieces_all(elements.take(k)) + pieces(elements[k]),
{
    assert(elements.take(k + 1).drop_last() =~= elements.take(k));
    assert(elements.take(k + 1).last() == elements[k]);
}

/// The attribute pieces of a start tag are read as its attributes.
pub proof fn lemma_attributes_read(
    ps: Seq<PieceView>,
    i: int,
    attributes: Seq<AttributeView>,
    k: int,
)
    requires
        holds_at(ps, i, attribute_pieces(attributes)),
        0 <= k <= attributes.len(),
        i + attributes.len() < ps.len(),
        !(ps[i + attributes.len()] is Attribute),
    ensures
        attributes_end(ps, i + k) == i + attributes.len(),
        attributes_between(ps, i, i + attributes.len()) == attributes,
    decreases attributes.len() - k,
{
    let n = attributes.len() as int;
    assert forall|m: int| 0 <= m < n implies attribute_of(ps[i + m]) == attributes[m] by {
        lemma_holds_at_index(ps, i, attribute_pieces(attributes), m);
    }
    assert(attributes_between(ps, i, i + n) =~= attributes);
    if k < n {
        lemma_holds_at_index(ps, i, attribute_pieces(attributes), k);
        lemma_attributes_read(ps, i, attributes, k + 1);
    }
}

/// The children of a well-formed element, followed by its closing tag, are
/// read as its content. `base` is the place of the first child's pieces,
/// and the first `k` children have been read.
pub proof fn lemma_content_read(
    ps: Seq<PieceView>,
    base: int,
    e: ElementView,
    text: Seq<char>,
    k: int,
)
    requires
        well_formed(e),
        0 <= k <= e.children.len(),
        holds_at(ps, base, pieces_all(e.children) + seq![Piece::Close(e.name)]),
    ensures
        parse_content(ps, base + pieces_all(e.children.take(k)).len(), text, e.children.take(k))
            == Ok::<Content, XmlError>(
            Content {
                text,
                children: e.children,
                next: base + pieces_all(e.children).len() + 1,
                close: e.name,
            },
        ),
    decreases e, e.children.len() - k,
{
    let cs = e.children;
    let n = cs.len() as int;
    let all = pieces_all(cs);
    let close = seq![Piece::<Seq<char>>::Close(e.name)];
    let done = pieces_all(cs.take(k));
    lemma_holds_at_split(ps, base, all, close);
    if k == n {
        assert(cs.take(k) =~= cs);
        lemma_holds_at_index(ps, base + all.len(), close, 0);
        assert(ps[base + all.len()] == Piece::<Seq<char>>::Close(e.name));
    } else {
        let c = cs[k];
        lemma_pieces_all_take(cs, k);
        lemma_pieces_all_concat(cs.take(k + 1), cs.skip(k + 1));
        assert(cs.take(k + 1) + cs.skip(k + 1) =~= cs);
        let rest = pieces_all(cs.skip(k + 1));
        assert(all == (done + pieces(c)) + rest);
        lemma_holds_at_split(ps, base, done + pieces(c), rest);
        lemma_holds_at_split(ps, base, done, pieces(c));
        let p = base + done.len();
        assert(holds_at(ps, p, pieces(c)));
        assert(well_formed(c));
        lemma_element_read(ps, p, c);
        lemma_holds_at_index(ps, p, pieces(c), 0);
        assert(ps[p] == Piece::<Seq<char>>::Start(c.name));
        assert(cs.take(k).push(c) =~= cs.take(k + 1));
        lemma_content_read(ps, base, e, text, k + 1);
        assert(p + pieces(c).len() == base + pieces_all(cs.take(k + 1)).len());
    }
}

/// The pieces of a well-formed element, wherever they stand, are read as
/// that element, and the reader stops after them.
pub proof fn lemma_element_read(ps: Seq<PieceView>, i: int, e: ElementView)
    requires
        well_formed(e),
        holds_at(ps, i, pieces(e)),
    ensures
        parse_element(ps, i) == Ok::<(ElementView, int), XmlError>((e, i + pieces(e).len())),
    decreases e, e.children.len() + 1,
{
    let start = seq![Piece::<Seq<char>>::Start(e.name)];
    let attrs = attribute_pieces(e.attributes);
    let n = e.attributes.len() as int;
    let j = i + 1 + n;
    if e.empty_tag {
        let tail = seq![Piece::<Seq<char>>::Empty];
        assert(pieces(e) == (start + attrs) + tail);
        lemma_holds_at_split(ps, i, start + attrs, tail);
        lemma_holds_at_split(ps, i, start, attrs);
        lemma_holds_at_index(ps, i, start, 0);
        lemma_holds_at_index(ps, j, tail, 0);
        lemma_attributes_read(ps, i + 1, e.attributes, 0);
        assert(e.text =~= Seq::empty());
        assert(e.children =~= Seq::empty());
    } else {
        let open = seq![Piece::<Seq<char>>::Open];
        let text = text_pieces(e.text);
        let inner = pieces_all(e.children) + seq![Piece::<Seq<char>>::Close(e.name)];
        assert(pieces(e) =~= (((start + attrs) + open) + text) + inner);
        lemma_holds_at_split(ps, i, ((start + attrs) + open) + text, inner);
        lemma_holds_at_split(ps, i, (start + attrs) + open, text);
        lemma_holds_at_split(ps, i, start + attrs, open);
        lemma_holds_at_split(ps, i, start, attrs);
        lemma_holds_at_index(ps, i, start, 0);
        lemma_holds_at_index(ps, j, open, 0);
        lemma_attributes_read(ps, i + 1, e.attributes, 0);
        let base = j + 1 + text.len();
        assert(e.children.take(0) =~= Seq::empty());
        assert(pieces_all(e.children.take(0)).len() == 0);
        if e.text.len() == 0 {
            assert(e.text =~= Seq::empty());
            lemma_content_read(ps, base, e, Seq::empty(), 0);
        } else {
            lemma_holds_at_index(ps, j + 1, text, 0);
            assert(Seq::<char>::empty() + e.text =~= e.text);
            lemma_content_read(ps, base, e, e.text, 0);
        }
    }
}

/// Declarations and comments before an element are passed over.
pub proof fn lemma_others_read(ps: Seq<PieceView>, n: int, k: int)
    requires
        0 <= k <= n <= ps.len(),
        forall|m: int| 0 <= m < n ==> (#[trigger] ps[m]) is Other,
        n < ps.len() ==> !(ps[n] is Other),
    ensures
        others_end(ps, k) == n,
    decreases n - k,
{
    if k < n {
        lemma_others_read(ps, n, k + 1);
    }
}

/// The pieces of a well-formed element, after any number of declarations
/// and comments, are read as a document with that element as its root.
pub proof fn lemma_document_read(prolog: Seq<PieceView>, e: ElementView)
    requires
        well_formed(e),
        forall|m: int| 0 <= m < prolog.len() ==> (#[trigger] prolog[m]) is Other,
    ensures
        parse_document(prolog + pieces(e)) == Ok::<ElementView, XmlError>(e),
{
    let ps = prolog + pieces(e);
    let n = prolog.len() as int;
    assert(ps.subrange(n, n + pieces(e).len()) =~= pieces(e));
    assert(ps[n] == pieces(e)[0]);
    assert forall|m: int| 0 <= m < n implies (#[trigger] ps[m]) is Other by {
        assert(ps[m] == prolog[m]);
    }
    lemma_others_read(ps, n, 0);
    lemma_element_read(ps, n, e);
    assert(others_end(ps, ps.len() as int) == ps.len());
}

/// The text of a concatenation of pieces is the concatenation of the texts.
pub proof fn lemma_pieces_text_concat(a: Seq<PieceView>, b: Seq<PieceView>)
    ensures
        pieces_text(a + b) == pieces_text(a) + pieces_text(b),
    decreases b.len(),
{
    if b.len() == 0 {
        assert(a + b =~= a);
        assert(pieces_text(a) + pieces_text(b) =~= pieces_text(a));
    } else {
        lemma_pieces_text_concat(a, b.drop_last());
        assert((a + b).drop_last() =~= a + b.drop_last());
        assert((a + b).last() == b.last());
        assert(pieces_text(a + b) =~= pieces_text(a) + pieces_text(b));
    }
}

/// The text of a single piece, seen as a sequence of pieces.
pub proof fn lemma_pieces_text_one(p: PieceView)
    ensures
        pieces_text(seq![p]) == piece_text(p),
{
    assert(seq![p].drop_last() =~= Seq::<PieceView>::empty());
    assert(pieces_text(Seq::<PieceView>::empty()) =~= Seq::<char>::empty());
    assert(seq![p].last() == p);
    assert(pieces_text(seq![p]) =~= piece_text(p));
}

/// The text of the attribute pieces is the text of the attributes.
pub proof fn lemma_attributes_text(attributes: Seq<AttributeView>)
    ensures
        pieces_text(attribute_pieces(attributes)) == rendered_attributes(attributes),
    decreases attributes.len(),
{
    if attributes.len() > 0 {
        lemma_attributes_text(attributes.drop_last());
        assert(attribute_pieces(attributes).drop_last() =~= attribute_pieces(
            attributes.drop_last(),
        ));
    }
}

/// The text of an element is the text of its pieces.
pub proof fn lemma_rendered_pieces(e: ElementView)
    ensures
        pieces_text(pieces(e)) == rendered(e),
    decreases e, 1nat,
{
    let start = seq![Piece::<Seq<char>>::Start(e.name)];
    let attrs = attribute_pieces(e.attributes);
    lemma_pieces_text_one(Piece::<Seq<char>>::Start(e.name));
    lemma_attributes_text(e.attributes);
    lemma_pieces_text_concat(start, attrs);
    if e.empty_tag {
        let tail = seq![Piece::<Seq<char>>::Empty];
        lemma_pieces_text_one(Piece::<Seq<char>>::Empty);
        lemma_pieces_text_concat(start + attrs, tail);
        assert(pieces(e) == (start + attrs) + tail);
    } else {
        let open = seq![Piece::<Seq<char>>::Open];
        let text = text_pieces(e.text);
        let kids = pieces_all(e.children);
        let close = seq![Piece::<Seq<char>>::Close(e.name)];
        lemma_pieces_text_one(Piece::<Seq<char>>::Open);
        lemma_pieces_text_one(Piece::<Seq<char>>::Close(e.name));
        if e.text.len() > 0 {
            lemma_pieces_text_one(Piece::<Seq<char>>::Text(e.text));
        }
        lemma_rendered_pieces_all(e.children);
        assert(pieces(e) =~= ((((start + attrs) + open) + text) + kids) + close);
        lemma_pieces_text_concat((((start + attrs) + open) + text) + kids, close);
        lemma_pieces_text_concat(((start + attrs) + open) + text, kids);
        lemma_pieces_text_concat((start + attrs) + open, text);
        lemma_pieces_text_concat(start + attrs, open);
        assert(pieces_text(pieces(e)) =~= rendered(e));
    }
}

/// The text of a sequence of elements is the text of their pieces.
pub proof fn lemma_rendered_pieces_all(elements: Seq<ElementView>)
    ensures
        pieces_text(pieces_all(elements)) == rendered_all(elements),
    decreases elements, 0nat,
{
    if elements.len() > 0 {
        lemma_rendered_pieces_all(elements.drop_last());
        lemma_rendered_pieces(elements.last());
        lemma_pieces_text_concat(pieces_all(elements.drop_last()), pieces(elements.last()));
    }
}

} // verus!
