use docx_rust::codec::lookup::{check_binds, check_denotes};
use docx_rust::codec::number::{format_isize, parse_isize};
use docx_rust::codec::part::{from_pieces, from_str};
use docx_rust::codec::reader::{build_document, build_element};
use docx_rust::codec::text::{format_bool, parse_bool, qualified_name, same_text};
use docx_rust::codec::token::{
    decode, push_pieces, read_pieces, same_piece, same_pieces, Piece, RawToken,
};
use docx_rust::codec::tree::{Attribute, Element};
use docx_rust::codec::writer::{
    element_to_string, write_attribute, write_element_end_close, write_element_end_empty,
    write_element_end_open, write_element_start, write_flatten_text, write_text,
};
use docx_rust::document::Tab;
use docx_rust::error::XmlError;

fn s(text: &str) -> String {
    text.to_string()
}

#[test]
fn writer_primitives() {
    let mut out = String::new();
    write_element_start(&mut out, "a:b");
    write_attribute(&mut out, "k", "v<&>'\"");
    write_element_end_open(&mut out);
    write_text(&mut out, "1 < 2");
    write_flatten_text(&mut out, "t", "x&y");
    write_element_start(&mut out, "e");
    write_element_end_empty(&mut out);
    write_element_end_close(&mut out, "a:b");
    assert_eq!(
        out,
        "<a:b k=\"v&lt;&amp;&gt;&apos;&quot;\">1 &lt; 2<t>x&amp;y</t><e/></a:b>"
    );
}

#[test]
fn escaping_leaves_other_characters() {
    let mut out = String::new();
    write_text(&mut out, "é;= \u{1F600}\n");
    assert_eq!(out, "é;= \u{1F600}\n");
}

#[test]
fn element_text() {
    let mut root = Element::empty("root");
    assert_eq!(element_to_string(&root), "<root/>");
    root.push_attribute("a", "1");
    assert_eq!(element_to_string(&root), "<root a=\"1\"/>");
    root.push_child(Element::with_text("leaf", "x"));
    root.push_child(Element::empty("end"));
    assert_eq!(element_to_string(&root), "<root a=\"1\"><leaf>x</leaf><end/></root>");
    assert_eq!(root.attribute("a"), Some(s("1")));
    assert_eq!(root.attribute("b"), None);
}

#[test]
fn pieces_of_a_text() {
    assert_eq!(
        read_pieces("<?xml version=\"1.0\"?><!-- c --><p:a k=\"&lt;v\" n:m='w'>t&amp;<![CDATA[<c>]]><b/></p:a>"),
        vec![
            Piece::Other,
            Piece::Other,
            Piece::Start(s("p:a")),
            Piece::Attribute(s("k"), s("<v")),
            Piece::Attribute(s("n:m"), s("w")),
            Piece::Open,
            Piece::Text(s("t&")),
            Piece::Text(s("<c>")),
            Piece::Start(s("b")),
            Piece::Empty,
            Piece::Close(s("p:a")),
        ]
    );
    assert_eq!(read_pieces(""), Vec::<Piece<String>>::new());
}

#[test]
fn pieces_end_with_the_error() {
    assert_eq!(
        read_pieces("<a k=\"v\" <b/>"),
        vec![Piece::Start(s("a")), Piece::Attribute(s("k"), s("v")), Piece::Invalid]
    );
    assert_eq!(
        read_pieces("<a><b"),
        vec![Piece::Start(s("a")), Piece::Open, Piece::Start(s("b"))]
    );
    assert_eq!(
        read_pieces("<a k=\"&nope;\">&#x41;&#66;</a>"),
        vec![
            Piece::Start(s("a")),
            Piece::Invalid,
            Piece::Open,
            Piece::Text(s("AB")),
            Piece::Close(s("a")),
        ]
    );
}

#[test]
fn decoding_tokens() {
    assert_eq!(decode(RawToken::Start(s(""), s("a"))), Piece::Start(s("a")));
    assert_eq!(decode(RawToken::Start(s("w"), s("a"))), Piece::Start(s("w:a")));
    assert_eq!(decode(RawToken::Close(s("w"), s("a"))), Piece::Close(s("w:a")));
    assert_eq!(
        decode(RawToken::Attribute(s("w"), s("k"), s("&gt;"))),
        Piece::Attribute(s("w:k"), s(">"))
    );
    assert_eq!(decode(RawToken::Attribute(s("w"), s("k"), s("&gt"))), Piece::Invalid);
    assert_eq!(decode(RawToken::Text(s("&quot;&apos;"))), Piece::Text(s("\"'")));
    assert_eq!(decode(RawToken::Text(s("&unknown;"))), Piece::Invalid);
    assert_eq!(decode(RawToken::Cdata(s("&lt;"))), Piece::Text(s("&lt;")));
    assert_eq!(decode(RawToken::Open), Piece::Open);
    assert_eq!(decode(RawToken::Empty), Piece::Empty);
    assert_eq!(decode(RawToken::Other), Piece::Other);
    assert_eq!(decode(RawToken::Invalid), Piece::Invalid);
}

#[test]
fn building_an_element() {
    let pieces = read_pieces("<a x=\"1\">t<b/>u<c y=\"2\">v</c></a>");
    let (element, next) = build_element(&pieces, 0).unwrap();
    assert_eq!(next, pieces.len());
    assert_eq!(
        element,
        Element {
            name: s("a"),
            attributes: vec![Attribute { name: s("x"), value: s("1") }],
            text: s("tu"),
            children: vec![
                Element::empty("b"),
                Element {
                    name: s("c"),
                    attributes: vec![Attribute { name: s("y"), value: s("2") }],
                    text: s("v"),
                    children: vec![],
                    empty_tag: false,
                },
            ],
            empty_tag: false,
        }
    );
    assert_eq!(build_element(&pieces, 2), Err(XmlError::UnexpectedToken));
    let (inner, after) = build_element(&pieces, 4).unwrap();
    assert_eq!(inner, Element::empty("b"));
    assert_eq!(after, 6);
}

#[test]
fn building_a_document() {
    assert_eq!(build_document(&read_pieces("<!--a--><r/><!--b-->")), Ok(Element::empty("r")));
    assert_eq!(build_document(&vec![]), Err(XmlError::UnexpectedEof));
    assert_eq!(build_document(&vec![Piece::Other]), Err(XmlError::UnexpectedEof));
    assert_eq!(build_document(&vec![Piece::Invalid]), Err(XmlError::Malformed));
    assert_eq!(build_document(&vec![Piece::Open]), Err(XmlError::UnexpectedToken));
    assert_eq!(
        build_document(&vec![Piece::Start(s("a")), Piece::Text(s("x"))]),
        Err(XmlError::UnexpectedToken)
    );
    assert_eq!(
        build_document(&vec![Piece::Start(s("a")), Piece::Open, Piece::Empty]),
        Err(XmlError::UnexpectedToken)
    );
    assert_eq!(
        build_document(&vec![Piece::Start(s("a")), Piece::Empty, Piece::Start(s("b")), Piece::Empty]),
        Err(XmlError::UnexpectedToken)
    );
    assert_eq!(
        build_document(&vec![Piece::Start(s("a")), Piece::Empty, Piece::Other, Piece::Invalid]),
        Err(XmlError::Malformed)
    );
    assert_eq!(
        build_document(&vec![Piece::Start(s("a")), Piece::Invalid]),
        Err(XmlError::Malformed)
    );
    assert_eq!(
        build_document(&vec![Piece::Start(s("a")), Piece::Open, Piece::Invalid]),
        Err(XmlError::Malformed)
    );
    assert_eq!(
        build_document(&vec![Piece::Start(s("a")), Piece::Attribute(s("k"), s("v"))]),
        Err(XmlError::UnexpectedEof)
    );
    assert_eq!(
        build_document(&vec![Piece::Start(s("a")), Piece::Open, Piece::Close(s("b"))]),
        Err(XmlError::TagMismatch)
    );
}

#[test]
fn every_error_has_its_kind_and_message() {
    let syntax = [
        XmlError::Malformed,
        XmlError::UnexpectedEof,
        XmlError::UnexpectedToken,
        XmlError::TagMismatch,
    ];
    let schema = [XmlError::MissingElement, XmlError::MissingAttribute, XmlError::InvalidValue];
    for error in syntax {
        assert!(error.is_syntax());
        assert!(!error.is_schema());
    }
    for error in schema {
        assert!(error.is_schema());
        assert!(!error.is_syntax());
    }
    assert_eq!(XmlError::Malformed.message(), "malformed XML");
    assert_eq!(XmlError::UnexpectedEof.message(), "unexpected end of input");
    assert_eq!(XmlError::UnexpectedToken.message(), "unexpected token in XML");
    assert_eq!(XmlError::TagMismatch.message(), "mismatched closing tag");
    assert_eq!(XmlError::MissingElement.message(), "missing element");
    assert_eq!(XmlError::MissingAttribute.message(), "missing attribute");
    assert_eq!(XmlError::InvalidValue.message(), "invalid attribute value");
}

#[test]
fn values_from_pieces() {
    assert_eq!(
        from_pieces::<Tab>(&vec![Piece::Other, Piece::Start(s("w:tab")), Piece::Empty]),
        Ok(Tab)
    );
    assert_eq!(from_pieces::<Tab>(&vec![Piece::Close(s("w:tab"))]), Err(XmlError::UnexpectedToken));
    assert_eq!(from_str::<Tab>("<?xml version=\"1.0\"?>\n<w:tab/>\n"), Ok(Tab));
}

#[test]
fn decimal_text() {
    assert_eq!(format_isize(0), "0");
    assert_eq!(format_isize(7), "7");
    assert_eq!(format_isize(-42), "-42");
    assert_eq!(format_isize(1200), "1200");
    assert_eq!(format_isize(isize::MAX), isize::MAX.to_string());
    assert_eq!(format_isize(isize::MIN), isize::MIN.to_string());
    assert_eq!(parse_isize("0"), Some(0));
    assert_eq!(parse_isize("-0"), Some(0));
    assert_eq!(parse_isize("+7"), Some(7));
    assert_eq!(parse_isize("007"), Some(7));
    assert_eq!(parse_isize("-42"), Some(-42));
    assert_eq!(parse_isize(&isize::MAX.to_string()), Some(isize::MAX));
    assert_eq!(parse_isize(&isize::MIN.to_string()), Some(isize::MIN));
    assert_eq!(parse_isize("9223372036854775808"), None);
    assert_eq!(parse_isize("-9223372036854775809"), None);
    assert_eq!(parse_isize("000000000000000000000000000000000000000000012"), Some(12));
    assert_eq!(parse_isize(""), None);
    assert_eq!(parse_isize("-"), None);
    assert_eq!(parse_isize("+"), None);
    assert_eq!(parse_isize("+-1"), None);
    assert_eq!(parse_isize("1 "), None);
    assert_eq!(parse_isize("1_0"), None);
    assert_eq!(parse_isize("١"), None);
    for n in [-1000, -1, 0, 1, 9, 10, 11, 99, 100, 101, 65535] {
        assert_eq!(parse_isize(&format_isize(n)), Some(n));
        assert_eq!(format_isize(n), n.to_string());
    }
}

#[test]
fn boolean_text() {
    assert_eq!(format_bool(true), "true");
    assert_eq!(format_bool(false), "false");
    for text in ["t", "true", "y", "yes", "on", "1"] {
        assert_eq!(parse_bool(text), Some(true));
    }
    for text in ["f", "false", "n", "no", "off", "0"] {
        assert_eq!(parse_bool(text), Some(false));
    }
    for text in ["", "True", "TRUE", "2", " true", "maybe"] {
        assert_eq!(parse_bool(text), None);
    }
}

#[test]
fn names_and_namespaces() {
    assert_eq!(qualified_name("", "body"), "body");
    assert_eq!(qualified_name("w", "body"), "w:body");
    assert!(same_text("a", "a"));
    assert!(!same_text("a", "b"));
    assert!(!same_text("a", "ab"));
    assert!(same_text("", ""));
    assert!(same_text("é\u{1F600}", "é\u{1F600}"));
    assert!(!same_text("é", "e"));
    assert!(check_binds("xmlns", "Pages", "Pages"));
    assert!(check_binds("xmlns:ap", "ap:Pages", "Pages"));
    assert!(!check_binds("xmlns", "ap:Pages", "Pages"));
    assert!(!check_binds("xmlns:ap", "Pages", "Pages"));
    assert!(!check_binds("xmlns:ap", "vt:Pages", "Pages"));
    assert!(!check_binds("xml", "Pages", "Pages"));
    assert!(!check_binds("id", "Pages", "Pages"));
    let declarations = vec![Attribute::new("xmlns", "u"), Attribute::new("xmlns:p", "v")];
    assert!(check_denotes(&declarations, "u", "a", "a"));
    assert!(check_denotes(&declarations, "v", "a", "p:a"));
    assert!(!check_denotes(&declarations, "v", "a", "a"));
    assert!(!check_denotes(&declarations, "u", "a", "p:a"));
    assert!(!check_denotes(&declarations, "w", "a", "a"));
}

#[test]
fn pieces_of_an_element() {
    let mut root = Element::empty("root");
    root.push_attribute("a", "1<");
    root.push_child(Element::with_text("leaf", "x"));
    root.push_child(Element::with_text("blank", ""));
    root.push_child(Element::empty("end"));
    let mut pieces = vec![Piece::Other];
    push_pieces(&mut pieces, &root);
    assert_eq!(
        pieces,
        vec![
            Piece::Other,
            Piece::Start(s("root")),
            Piece::Attribute(s("a"), s("1<")),
            Piece::Open,
            Piece::Start(s("leaf")),
            Piece::Open,
            Piece::Text(s("x")),
            Piece::Close(s("leaf")),
            Piece::Start(s("blank")),
            Piece::Open,
            Piece::Close(s("blank")),
            Piece::Start(s("end")),
            Piece::Empty,
            Piece::Close(s("root")),
        ]
    );
    assert_eq!(read_pieces(&element_to_string(&root)), pieces[1..].to_vec());
    assert_eq!(build_document(&pieces), Ok(root));
}

#[test]
fn comparing_pieces() {
    assert!(same_piece(&Piece::Start(s("a")), &Piece::Start(s("a"))));
    assert!(!same_piece(&Piece::Start(s("a")), &Piece::Start(s("b"))));
    assert!(!same_piece(&Piece::Start(s("a")), &Piece::Close(s("a"))));
    assert!(same_piece(&Piece::Attribute(s("a"), s("b")), &Piece::Attribute(s("a"), s("b"))));
    assert!(!same_piece(&Piece::Attribute(s("a"), s("b")), &Piece::Attribute(s("a"), s("c"))));
    assert!(same_piece(&Piece::Invalid, &Piece::Invalid));
    assert!(!same_piece(&Piece::Open, &Piece::Empty));
    let a = vec![Piece::Other, Piece::Start(s("a")), Piece::Empty];
    let b = vec![Piece::Start(s("a")), Piece::Empty];
    assert!(same_pieces(&a, 1, &b));
    assert!(!same_pieces(&a, 0, &b));
    assert!(!same_pieces(&a, 2, &b));
    assert!(same_pieces(&a, 3, &vec![]));
}
