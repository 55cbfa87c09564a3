//! The writer: appends the text of tags, attributes, character data and
//! whole elements to a string.

use vstd::prelude::*;
use crate::codec::text::{escape, xml_escaped};
use crate::codec::tree::{
    element_views, lemma_children_views, rendered, rendered_all, rendered_attribute,
    rendered_attributes, views, Attribute, AttributeView, Element,
};

verus! {

/// Opens a start tag: `<tag`.
pub fn write_element_start(out: &mut String, tag: &str)
    ensures
        final(out)@ == old(out)@ + seq!['<'] + tag@,
{
    proof {
        reveal_strlit("<");
        assert("<"@ =~= seq!['<']);
    }
    out.append("<");
    out.append(tag);
}

/// Writes one attribute inside a start tag: ` key="value"`, the value
/// escaped.
pub fn write_attribute(out: &mut String, key: &str, value: &str)
    ensures
        final(out)@ == old(out)@ + rendered_attribute(AttributeView { name: key@, value: value@ }),
{
    proof {
        reveal_strlit(" ");
        reveal_strlit("=\"");
        reveal_strlit("\"");
        assert(" "@ =~= seq![' ']);
        assert("=\""@ =~= seq!['=', '"']);
        assert("\""@ =~= seq!['"']);
    }
    let escaped = escape(value);
    out.append(" ");
    out.append(key);
    out.append("=\"");
    out.append(escaped.as_str());
    out.append("\"");
    assert(out@ =~= old(out)@ + rendered_attribute(AttributeView { name: key@, value: value@ }));
}

/// Writes character data, escaped.
pub fn write_text(out: &mut String, content: &str)
    ensures
        final(out)@ == old(out)@ + xml_escaped(content@),
{
    let escaped = escape(content);
    out.append(escaped.as_str());
}

/// Ends a start tag that content follows: `>`.
pub fn write_element_end_open(out: &mut String)
    ensures
        final(out)@ == old(out)@ + seq!['>'],
{
    proof {
        reveal_strlit(">");
        assert(">"@ =~= seq!['>']);
    }
    out.append(">");
}

/// Ends an empty-element tag: `/>`.
pub fn write_element_end_empty(out: &mut String)
    ensures
        final(out)@ == old(out)@ + seq!['/', '>'],
{
    proof {
        reveal_strlit("/>");
        assert("/>"@ =~= seq!['/', '>']);
    }
    out.append("/>");
}

/// Writes a closing tag: `</tag>`.
pub fn write_element_end_close(out: &mut String, tag: &str)
    ensures
        final(out)@ == old(out)@ + seq!['<', '/'] + tag@ + seq!['>'],
{
    proof {
        reveal_strlit("</");
        reveal_strlit(">");
        assert("</"@ =~= seq!['<', '/']);
        assert(">"@ =~= seq!['>']);
    }
    out.append("</");
    out.append(tag);
    out.append(">");
}

/// Writes an element that holds character data only:
/// `<tag>content</tag>`, the content escaped.
pub fn write_flatten_text(out: &mut String, tag: &str, content: &str)
    ensures
        final(out)@ == old(out)@ + seq!['<'] + tag@ + seq!['>'] + xml_escaped(content@) + seq![
            '<',
            '/',
        ] + tag@ + seq!['>'],
{
    write_element_start(out, tag);
    write_element_end_open(out);
    write_text(out, content);
    write_element_end_close(out, tag);
}

/// Writes the attributes of an element, in order.
pub fn write_attributes(out: &mut String, attributes: &Vec<Attribute>)
    ensures
        final(out)@ == old(out)@ + rendered_attributes(views(attributes@)),
{
    let ghost all = views(attributes@);
    let mut i: usize = 0;
    assert(all.take(0) =~= Seq::empty());
    assert(out@ =~= old(out)@ + rendered_attributes(all.take(0)));
    while i < attributes.len()
        invariant
            i <= attributes.len(),
            all == views(attributes@),
            out@ == old(out)@ + rendered_attributes(all.take(i as int)),
        decreases attributes.len() - i,
    {
        let a = &attributes[i];
        let ghost before = out@;
        write_attribute(out, a.name.as_str(), a.value.as_str());
        proof {
            assert(all.take(i + 1).drop_last() =~= all.take(i as int));
            assert(all.take(i + 1).last() == a@);
            assert(out@ =~= old(out)@ + rendered_attributes(all.take(i + 1)));
        }
        i += 1;
    }
    assert(all.take(i as int) =~= all);
}

/// Writes an element with all that it holds.
pub fn write_element(out: &mut String, e: &Element)
    ensures
        final(out)@ == old(out)@ + rendered(e@),
    decreases e,
{
    let ghost start = out@;
    write_element_start(out, e.name.as_str());
    write_attributes(out, &e.attributes);
    let ghost head = seq!['<'] + e@.name + rendered_attributes(e@.attributes);
    assert(out@ =~= start + head);
    if e.empty_tag {
        write_element_end_empty(out);
        assert(out@ =~= start + rendered(e@));
    } else {
        write_element_end_open(out);
        write_text(out, e.text.as_str());
        let ghost inner = head + seq!['>'] + xml_escaped(e@.text);
        assert(out@ =~= start + inner);
        let ghost all = e@.children;
        proof {
            lemma_children_views(*e);
            assert(all.take(0) =~= Seq::empty());
            assert(out@ =~= start + inner + rendered_all(all.take(0)));
        }
        let mut i: usize = 0;
        while i < e.children.len()
            invariant
                i <= e.children.len(),
                all == e@.children,
                all == element_views(e.children@),
                out@ == start + inner + rendered_all(all.take(i as int)),
            decreases e.children.len() - i,
        {
            let ghost before = out@;
            write_element(out, &e.children[i]);
            proof {
                assert(all.take(i + 1).drop_last() =~= all.take(i as int));
                assert(all.take(i + 1).last() == e.children[i as int]@);
                assert(out@ =~= start + inner + rendered_all(all.take(i + 1)));
            }
            i += 1;
        }
        assert(all.take(i as int) =~= all);
        write_element_end_close(out, e.name.as_str());
        assert(out@ =~= start + rendered(e@));
    }
}

/// The text of an element.
pub fn element_to_string(e: &Element) -> (r: String)
    ensures
        r@ == rendered(e@),
{
    let mut out = String::new();
    write_element(&mut out, e);
    assert(out@ =~= rendered(e@));
    out
}

} // verus!
