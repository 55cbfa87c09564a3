//! The application-defined file properties part.
//!
//! In a package the part is the item `/docProps/app.xml`.

use vstd::prelude::*;
use crate::codec::laws::lemma_document_read;
use crate::codec::lookup::{
    binds, check_denotes, denotes, first_index, lemma_first_index_same, text_option,
};
use crate::codec::part::{
    from_pieces, from_str, result_view, value_of_pieces, value_of_text, write_part, XmlCodec,
};
use crate::codec::record::{
    child_text, denoted, lemma_properties_lookup, lemma_properties_names, lemma_properties_shape,
    lemma_properties_vacant, named, properties, property, property_text, push_property,
};
use crate::codec::text::{qualified, same_text};
use crate::codec::token::{pieces, Piece, PieceView};
use crate::codec::tree::{
    element_views, lemma_children_views, rendered, views, well_formed, Attribute, AttributeView,
    Element, ElementView,
};
use crate::error::XmlError;
use crate::schema::{
    lemma_property_schemas_differ, SCHEMAS_EXTENDED, SCHEMA_DOC_PROPS_V_TYPES, SCHEMA_XML,
};

verus! {

/// The application properties of a document: a flat record of texts, each
/// of which may be absent.
#[derive(Debug, Clone, PartialEq, Eq)]
pub struct App {
    /// The name of the document template.
    pub template: Option<String>,
    /// The total editing time, in minutes.
    pub total_time: Option<String>,
    /// The number of pages.
    pub pages: Option<String>,
    /// The number of words.
    pub words: Option<String>,
    /// The number of characters, spaces not counted.
    pub characters: Option<String>,
    /// The name of the application that made the document.
    pub application: Option<String>,
    /// The security level of the document.
    pub doc_security: Option<String>,
    /// The number of lines.
    pub lines: Option<String>,
    /// The number of paragraphs.
    pub paragraphs: Option<String>,
    /// How a thumbnail of the document is shown.
    pub scale_crop: Option<String>,
    /// The name of a company.
    pub company: Option<String>,
    /// Whether the hyperlinks are up to date.
    pub links_up_to_date: Option<String>,
    /// The number of characters, spaces counted.
    pub characters_with_spaces: Option<String>,
    /// Whether the document is shared.
    pub shared_doc: Option<String>,
    /// Whether hyperlinks were changed.
    pub hyperlinks_changed: Option<String>,
    /// The version of the application.
    pub app_version: Option<String>,
}

/// What an [`App`] holds.
pub struct AppView {
    pub template: Option<Seq<char>>,
    pub total_time: Option<Seq<char>>,
    pub pages: Option<Seq<char>>,
    pub words: Option<Seq<char>>,
    pub characters: Option<Seq<char>>,
    pub application: Option<Seq<char>>,
    pub doc_security: Option<Seq<char>>,
    pub lines: Option<Seq<char>>,
    pub paragraphs: Option<Seq<char>>,
    pub scale_crop: Option<Seq<char>>,
    pub company: Option<Seq<char>>,
    pub links_up_to_date: Option<Seq<char>>,
    pub characters_with_spaces: Option<Seq<char>>,
    pub shared_doc: Option<Seq<char>>,
    pub hyperlinks_changed: Option<Seq<char>>,
    pub app_version: Option<Seq<char>>,
}

impl View for App {
    type V = AppView;

    open spec fn view(&self) -> AppView {
        AppView {
            template: text_option(self.template),
            total_time: text_option(self.total_time),
            pages: text_option(self.pages),
            words: text_option(self.words),
            characters: text_option(self.characters),
            application: text_option(self.application),
            doc_security: text_option(self.doc_security),
            lines: text_option(self.lines),
            paragraphs: text_option(self.paragraphs),
            scale_crop: text_option(self.scale_crop),
            company: text_option(self.company),
            links_up_to_date: text_option(self.links_up_to_date),
            characters_with_spaces: text_option(self.characters_with_spaces),
            shared_doc: text_option(self.shared_doc),
            hyperlinks_changed: text_option(self.hyperlinks_changed),
            app_version: text_option(self.app_version),
        }
    }
}

/// The tags of the properties, in the order in which they are written.
pub open spec fn tags() -> Seq<Seq<char>> {
    seq![
        "Template"@,
        "TotalTime"@,
        "Pages"@,
        "Words"@,
        "Characters"@,
        "Application"@,
        "DocSecurity"@,
        "Lines"@,
        "Paragraphs"@,
        "ScaleCrop"@,
        "Company"@,
        "LinksUpToDate"@,
        "CharactersWithSpaces"@,
        "SharedDoc"@,
        "HyperlinksChanged"@,
        "AppVersion"@,
    ]
}

/// The properties of a value, in the order in which they are written.
pub open spec fn fields(v: AppView) -> Seq<Option<Seq<char>>> {
    seq![
        v.template,
        v.total_time,
        v.pages,
        v.words,
        v.characters,
        v.application,
        v.doc_security,
        v.lines,
        v.paragraphs,
        v.scale_crop,
        v.company,
        v.links_up_to_date,
        v.characters_with_spaces,
        v.shared_doc,
        v.hyperlinks_changed,
        v.app_version,
    ]
}

/// The namespace declarations on the root element: the extended
/// properties vocabulary as the default namespace, and the variant types
/// vocabulary under the prefix `vt`.
pub open spec fn namespaces() -> Seq<AttributeView> {
    seq![
        AttributeView { name: "xmlns"@, value: SCHEMAS_EXTENDED@ },
        AttributeView { name: "xmlns:vt"@, value: SCHEMA_DOC_PROPS_V_TYPES@ },
    ]
}

/// The property with the tag at place `k`, as an element gives it: the
/// character data of the first child that bears, under the namespace
/// declarations on the element, that tag in the extended properties
/// vocabulary.
pub open spec fn field_of(e: ElementView, k: int) -> Option<Seq<char>> {
    child_text(e.children, denoted(e.attributes, SCHEMAS_EXTENDED@, tags()[k]))
}

/// The properties with which a new document starts.
pub open spec fn standard() -> AppView {
    AppView {
        template: Some("Normal.dotm"@),
        total_time: Some("1"@),
        pages: Some("1"@),
        words: Some("0"@),
        characters: Some("0"@),
        application: Some("docx-rs"@),
        doc_security: Some("0"@),
        lines: Some("0"@),
        paragraphs: Some("1"@),
        scale_crop: Some("false"@),
        company: Some("MS"@),
        links_up_to_date: Some("false"@),
        characters_with_spaces: Some("25"@),
        shared_doc: Some("false"@),
        hyperlinks_changed: Some("false"@),
        app_version: Some("12.0000"@),
    }
}

/// The text of the part: the XML declaration and the root element.
pub open spec fn xml(v: AppView) -> Seq<char> {
    SCHEMA_XML@ + rendered(App::element_of(v))
}

impl Default for App {
    /// The properties with which a new document starts; every one is
    /// present.
    fn default() -> (r: App)
        ensures
            r@ == standard(),
    {
        App {
            template: Some(String::from_str("Normal.dotm")),
            total_time: Some(String::from_str("1")),
            pages: Some(String::from_str("1")),
            words: Some(String::from_str("0")),
            characters: Some(String::from_str("0")),
            application: Some(String::from_str("docx-rs")),
            doc_security: Some(String::from_str("0")),
            lines: Some(String::from_str("0")),
            paragraphs: Some(String::from_str("1")),
            scale_crop: Some(String::from_str("false")),
            company: Some(String::from_str("MS")),
            links_up_to_date: Some(String::from_str("false")),
            characters_with_spaces: Some(String::from_str("25")),
            shared_doc: Some(String::from_str("false")),
            hyperlinks_changed: Some(String::from_str("false")),
            app_version: Some(String::from_str("12.0000")),
        }
    }
}

/// No two tags are the same.
pub proof fn lemma_tags_differ(k: int)
    requires
        0 <= k < tags().len(),
    ensures
        forall|j: int| 0 <= j < tags().len() && j != k ==> #[trigger] tags()[j] != tags()[k],
{
    reveal_strlit("Template");
    reveal_strlit("TotalTime");
    reveal_strlit("Pages");
    reveal_strlit("Words");
    reveal_strlit("Characters");
    reveal_strlit("Application");
    reveal_strlit("DocSecurity");
    reveal_strlit("Lines");
    reveal_strlit("Paragraphs");
    reveal_strlit("ScaleCrop");
    reveal_strlit("Company");
    reveal_strlit("LinksUpToDate");
    reveal_strlit("CharactersWithSpaces");
    reveal_strlit("SharedDoc");
    reveal_strlit("HyperlinksChanged");
    reveal_strlit("AppVersion");
    let b = tags()[k];
    assert forall|j: int| 0 <= j < tags().len() && j != k implies #[trigger] tags()[j] != b by {
        let a = tags()[j];
        assert(a.len() != b.len() || a[0] != b[0] || a[1] != b[1]);
    }
}

/// Under the namespace declarations that the part is written with, a name
/// has a local name in the extended properties vocabulary exactly if it is
/// that local name.
pub proof fn lemma_written_names(name: Seq<char>, local: Seq<char>)
    ensures
        denotes(namespaces(), SCHEMAS_EXTENDED@, local)(name) == (name == local),
{
    reveal_strlit("xmlns");
    reveal_strlit("xmlns:");
    lemma_property_schemas_differ();
    let left = "xmlns:"@ + name;
    let right = "xmlns"@ + seq![':'] + local;
    assert("xmlns"@ + seq![':'] =~= "xmlns:"@);
    if name == local {
        assert(left =~= right);
        assert(binds(namespaces()[0].name, name, local));
    }
    if denotes(namespaces(), SCHEMAS_EXTENDED@, local)(name) {
        let i = choose|i: int|
            0 <= i < namespaces().len() && (#[trigger] namespaces()[i]).value == SCHEMAS_EXTENDED@
                && binds(namespaces()[i].name, name, local);
        assert(i == 0);
        assert(left == right);
        assert(left.skip(6) =~= name);
        assert(right.skip(6) =~= local);
    }
}

/// The element of a value gives each property as the value holds it.
pub proof fn lemma_field_read(v: AppView, k: int)
    requires
        0 <= k < tags().len(),
    ensures
        field_of(App::element_of(v), k) == fields(v)[k],
{
    let e = App::element_of(v);
    let p = denoted(e.attributes, SCHEMAS_EXTENDED@, tags()[k]);
    let q = named(tags()[k]);
    assert forall|i: int| 0 <= i < e.children.len() implies p(#[trigger] e.children[i]) == q(
        e.children[i],
    ) by {
        lemma_written_names(e.children[i].name, tags()[k]);
    }
    lemma_first_index_same(e.children, p, q, 0);
    lemma_tags_differ(k);
    lemma_properties_lookup(tags(), fields(v), tags().len() as int, k);
}

/// Whether a text holds no colon.
pub open spec fn colon_free(s: Seq<char>) -> bool {
    forall|i: int| 0 <= i < s.len() ==> s[i] != ':'
}

/// The tags of the properties, each under the given prefix.
pub open spec fn aliased_tags(prefix: Seq<char>) -> Seq<Seq<char>> {
    Seq::new(tags().len(), |k: int| qualified(prefix, tags()[k]))
}

/// The namespace declarations of a root element that binds the extended
/// properties vocabulary to the given prefix too.
pub open spec fn aliased_namespaces(prefix: Seq<char>) -> Seq<AttributeView> {
    namespaces().push(AttributeView { name: "xmlns:"@ + prefix, value: SCHEMAS_EXTENDED@ })
}

/// The element of a value as a producer writes it that calls the extended
/// properties vocabulary by a prefix: the root element binds the prefix,
/// and the root element and every property bear it.
pub open spec fn aliased_element(v: AppView, prefix: Seq<char>) -> ElementView {
    ElementView {
        name: qualified(prefix, "Properties"@),
        attributes: aliased_namespaces(prefix),
        text: Seq::empty(),
        children: properties(aliased_tags(prefix), fields(v), tags().len() as int),
        empty_tag: App::vacant(v),
    }
}

/// No tag holds a colon.
pub proof fn lemma_tags_colon_free(k: int)
    requires
        0 <= k < tags().len(),
    ensures
        colon_free(tags()[k]),
        colon_free("Properties"@),
{
    reveal_strlit("Properties");
    assert("Properties"@ =~= seq!['P', 'r', 'o', 'p', 'e', 'r', 't', 'i', 'e', 's']);
    reveal_strlit("Template");
    assert("Template"@ =~= seq!['T', 'e', 'm', 'p', 'l', 'a', 't', 'e']);
    reveal_strlit("TotalTime");
    assert("TotalTime"@ =~= seq!['T', 'o', 't', 'a', 'l', 'T', 'i', 'm', 'e']);
    reveal_strlit("Pages");
    assert("Pages"@ =~= seq!['P', 'a', 'g', 'e', 's']);
    reveal_strlit("Words");
    assert("Words"@ =~= seq!['W', 'o', 'r', 'd', 's']);
    reveal_strlit("Characters");
    assert("Characters"@ =~= seq!['C', 'h', 'a', 'r', 'a', 'c', 't', 'e', 'r', 's']);
    reveal_strlit("Application");
    assert("Application"@ =~= seq!['A', 'p', 'p', 'l', 'i', 'c', 'a', 't', 'i', 'o', 'n']);
    reveal_strlit("DocSecurity");
    assert("DocSecurity"@ =~= seq!['D', 'o', 'c', 'S', 'e', 'c', 'u', 'r', 'i', 't', 'y']);
    reveal_strlit("Lines");
    assert("Lines"@ =~= seq!['L', 'i', 'n', 'e', 's']);
    reveal_strlit("Paragraphs");
    assert("Paragraphs"@ =~= seq!['P', 'a', 'r', 'a', 'g', 'r', 'a', 'p', 'h', 's']);
    reveal_strlit("ScaleCrop");
    assert("ScaleCrop"@ =~= seq!['S', 'c', 'a', 'l', 'e', 'C', 'r', 'o', 'p']);
    reveal_strlit("Company");
    assert("Company"@ =~= seq!['C', 'o', 'm', 'p', 'a', 'n', 'y']);
    reveal_strlit("LinksUpToDate");
    assert("LinksUpToDate"@ =~= seq!['L', 'i', 'n', 'k', 's', 'U', 'p', 'T', 'o', 'D', 'a', 't', 'e']);
    reveal_strlit("CharactersWithSpaces");
    assert("CharactersWithSpaces"@ =~= seq!['C', 'h', 'a', 'r', 'a', 'c', 't', 'e', 'r', 's', 'W', 'i', 't', 'h', 'S', 'p', 'a', 'c', 'e', 's']);
    reveal_strlit("SharedDoc");
    assert("SharedDoc"@ =~= seq!['S', 'h', 'a', 'r', 'e', 'd', 'D', 'o', 'c']);
    reveal_strlit("HyperlinksChanged");
    assert("HyperlinksChanged"@ =~= seq!['H', 'y', 'p', 'e', 'r', 'l', 'i', 'n', 'k', 's', 'C', 'h', 'a', 'n', 'g', 'e', 'd']);
    reveal_strlit("AppVersion");
    assert("AppVersion"@ =~= seq!['A', 'p', 'p', 'V', 'e', 'r', 's', 'i', 'o', 'n']);
}

/// Under the namespace declarations of a root element that binds a prefix
/// to the extended properties vocabulary, a name under that prefix has a
/// local name in that vocabulary exactly if its own local name is that
/// local name.
pub proof fn lemma_aliased_names(prefix: Seq<char>, own: Seq<char>, local: Seq<char>)
    requires
        prefix.len() > 0,
        colon_free(local),
    ensures
        denotes(aliased_namespaces(prefix), SCHEMAS_EXTENDED@, local)(qualified(prefix, own)) == (
        own == local),
{
    reveal_strlit("xmlns");
    reveal_strlit("xmlns:");
    lemma_property_schemas_differ();
    let attrs = aliased_namespaces(prefix);
    let name = qualified(prefix, own);
    let left = "xmlns:"@ + name;
    assert("xmlns"@ + seq![':'] =~= "xmlns:"@);
    if own == local {
        assert(left =~= attrs[2].name + seq![':'] + local);
        assert(attrs[2].value == SCHEMAS_EXTENDED@ && binds(attrs[2].name, name, local));
    }
    if denotes(attrs, SCHEMAS_EXTENDED@, local)(name) {
        let i = choose|i: int|
            0 <= i < attrs.len() && (#[trigger] attrs[i]).value == SCHEMAS_EXTENDED@ && binds(
                attrs[i].name,
                name,
                local,
            );
        let right = attrs[i].name + seq![':'] + local;
        let width = prefix.len() as int + 1;
        assert(left == right);
        assert(left.skip(6) =~= name);
        if i == 0 {
            assert(right.skip(6) =~= local);
            assert(name[prefix.len() as int] == ':');
        } else {
            assert(i == 2);
            assert(right.skip(6) =~= name.take(width) + local);
            assert(name.skip(width) =~= own);
            assert((name.take(width) + local).skip(width) =~= local);
        }
    }
}

/// Tolerance of prefixes: the element of a value, written by a producer
/// that binds the extended properties vocabulary to a prefix of its own and
/// puts the prefix before the root element and every property, stands for
/// the same value as the element without prefixes; and so do its pieces,
/// after any number of declarations and comments.
pub proof fn law_prefix_tolerated(v: AppView, prefix: Seq<char>, prolog: Seq<PieceView>)
    requires
        prefix.len() > 0,
        forall|m: int| 0 <= m < prolog.len() ==> (#[trigger] prolog[m]) is Other,
    ensures
        App::value_of(aliased_element(v, prefix)) == Ok::<AppView, XmlError>(v),
        value_of_pieces::<App>(prolog + pieces(aliased_element(v, prefix))) == Ok::<
            AppView,
            XmlError,
        >(v),
{
    let e = aliased_element(v, prefix);
    let n = tags().len() as int;
    lemma_tags_colon_free(0);
    lemma_aliased_names(prefix, "Properties"@, "Properties"@);
    assert forall|k: int| 0 <= k < tags().len() implies field_of(e, k) == fields(v)[k] by {
        lemma_aliased_field_read(v, prefix, k);
    }
    if App::vacant(v) {
        lemma_properties_vacant(aliased_tags(prefix), fields(v), n);
    }
    assert forall|i: int| 0 <= i < e.children.len() implies well_formed(
        #[trigger] e.children[i],
    ) by {
        lemma_properties_shape(aliased_tags(prefix), fields(v), n, i);
    }
    lemma_document_read(prolog, e);
}

/// The element of a value under a prefix gives each property as the value
/// holds it.
pub proof fn lemma_aliased_field_read(v: AppView, prefix: Seq<char>, k: int)
    requires
        prefix.len() > 0,
        0 <= k < tags().len(),
    ensures
        field_of(aliased_element(v, prefix), k) == fields(v)[k],
{
    let e = aliased_element(v, prefix);
    let n = tags().len() as int;
    let wide = aliased_tags(prefix);
    let p = denoted(e.attributes, SCHEMAS_EXTENDED@, tags()[k]);
    let q = named(wide[k]);
    let width = prefix.len() as int + 1;
    lemma_tags_colon_free(k);
    lemma_tags_differ(k);
    assert forall|j: int| 0 <= j < n && j != k implies #[trigger] wide[j] != wide[k] by {
        assert(wide[j].skip(width) =~= tags()[j]);
        assert(wide[k].skip(width) =~= tags()[k]);
    }
    assert forall|i: int| 0 <= i < e.children.len() implies p(#[trigger] e.children[i]) == q(
        e.children[i],
    ) by {
        let j = lemma_properties_names(wide, fields(v), n, i);
        lemma_aliased_names(prefix, tags()[j], tags()[k]);
        assert(wide[j].skip(width) =~= tags()[j]);
        assert(wide[k].skip(width) =~= tags()[k]);
    }
    lemma_first_index_same(e.children, p, q, 0);
    lemma_properties_lookup(wide, fields(v), n, k);
}

/// An empty property: where the first element that stands for a property
/// holds no character data, be it written `<Company/>` or
/// `<Company></Company>`, the property is present and holds the empty text.
pub proof fn law_empty_property_is_present(e: ElementView, k: int)
    requires
        0 <= k < tags().len(),
        ({
            let i = first_index(
                e.children,
                denoted(e.attributes, SCHEMAS_EXTENDED@, tags()[k]),
                0,
            );
            i < e.children.len() && e.children[i].text.len() == 0
        }),
    ensures
        field_of(e, k) == Some(Seq::<char>::empty()),
{
    let i = first_index(e.children, denoted(e.attributes, SCHEMAS_EXTENDED@, tags()[k]), 0);
    assert(e.children[i].text =~= Seq::<char>::empty());
}

impl XmlCodec for App {
    open spec fn accepts(name: Seq<char>) -> bool {
        name == "Properties"@
    }

    open spec fn vacant(v: AppView) -> bool {
        forall|k: int| 0 <= k < fields(v).len() ==> (#[trigger] fields(v)[k]) is None
    }

    open spec fn element_of(v: AppView) -> ElementView {
        ElementView {
            name: "Properties"@,
            attributes: namespaces(),
            text: Seq::empty(),
            children: properties(tags(), fields(v), tags().len() as int),
            empty_tag: Self::vacant(v),
        }
    }

    open spec fn value_of(e: ElementView) -> Result<AppView, XmlError> {
        if denotes(e.attributes, SCHEMAS_EXTENDED@, "Properties"@)(e.name) {
            Ok(
                AppView {
                    template: field_of(e, 0),
                    total_time: field_of(e, 1),
                    pages: field_of(e, 2),
                    words: field_of(e, 3),
                    characters: field_of(e, 4),
                    application: field_of(e, 5),
                    doc_security: field_of(e, 6),
                    lines: field_of(e, 7),
                    paragraphs: field_of(e, 8),
                    scale_crop: field_of(e, 9),
                    company: field_of(e, 10),
                    links_up_to_date: field_of(e, 11),
                    characters_with_spaces: field_of(e, 12),
                    shared_doc: field_of(e, 13),
                    hyperlinks_changed: field_of(e, 14),
                    app_version: field_of(e, 15),
                },
            )
        } else {
            Err(XmlError::MissingElement)
        }
    }

    proof fn law_round_trip(v: AppView) {
        let e = Self::element_of(v);
        let n = tags().len() as int;
        lemma_written_names("Properties"@, "Properties"@);
        if Self::vacant(v) {
            lemma_properties_vacant(tags(), fields(v), n);
        }
        assert forall|i: int| 0 <= i < e.children.len() implies well_formed(
            #[trigger] e.children[i],
        ) by {
            lemma_properties_shape(tags(), fields(v), n, i);
        }
        lemma_field_read(v, 0);
        lemma_field_read(v, 1);
        lemma_field_read(v, 2);
        lemma_field_read(v, 3);
        lemma_field_read(v, 4);
        lemma_field_read(v, 5);
        lemma_field_read(v, 6);
        lemma_field_read(v, 7);
        lemma_field_read(v, 8);
        lemma_field_read(v, 9);
        lemma_field_read(v, 10);
        lemma_field_read(v, 11);
        lemma_field_read(v, 12);
        lemma_field_read(v, 13);
        lemma_field_read(v, 14);
        lemma_field_read(v, 15);
    }

    proof fn law_suppression(v: AppView) {
        reveal_strlit("xmlns");
        reveal_strlit("xmlns:");
        reveal_strlit("xmlns:vt");
        if Self::vacant(v) {
            lemma_properties_vacant(tags(), fields(v), tags().len() as int);
            assert("xmlns:vt"@.take(6) =~= "xmlns:"@);
        }
    }

    fn accepts_name(name: &str) -> (r: bool) {
        same_text(name, "Properties")
    }

    fn to_element(&self) -> (e: Element) {
        let ghost v = self@;
        let mut attributes: Vec<Attribute> = Vec::new();
        attributes.push(Attribute::new("xmlns", SCHEMAS_EXTENDED));
        attributes.push(Attribute::new("xmlns:vt", SCHEMA_DOC_PROPS_V_TYPES));
        assert(views(attributes@) =~= namespaces());
        let mut children: Vec<Element> = Vec::new();
        assert(element_views(children@) =~= properties(tags(), fields(v), 0));
        push_property(&mut children, "Template", &self.template);
        assert(element_views(children@) == properties(tags(), fields(v), 1));
        push_property(&mut children, "TotalTime", &self.total_time);
        assert(element_views(children@) == properties(tags(), fields(v), 2));
        push_property(&mut children, "Pages", &self.pages);
        assert(element_views(children@) == properties(tags(), fields(v), 3));
        push_property(&mut children, "Words", &self.words);
        assert(element_views(children@) == properties(tags(), fields(v), 4));
        push_property(&mut children, "Characters", &self.characters);
        assert(element_views(children@) == properties(tags(), fields(v), 5));
        push_property(&mut children, "Application", &self.application);
        assert(element_views(children@) == properties(tags(), fields(v), 6));
        push_property(&mut children, "DocSecurity", &self.doc_security);
        assert(element_views(children@) == properties(tags(), fields(v), 7));
        push_property(&mut children, "Lines", &self.lines);
        assert(element_views(children@) == properties(tags(), fields(v), 8));
        push_property(&mut children, "Paragraphs", &self.paragraphs);
        assert(element_views(children@) == properties(tags(), fields(v), 9));
        push_property(&mut children, "ScaleCrop", &self.scale_crop);
        assert(element_views(children@) == properties(tags(), fields(v), 10));
        push_property(&mut children, "Company", &self.company);
        assert(element_views(children@) == properties(tags(), fields(v), 11));
        push_property(&mut children, "LinksUpToDate", &self.links_up_to_date);
        assert(element_views(children@) == properties(tags(), fields(v), 12));
        push_property(&mut children, "CharactersWithSpaces", &self.characters_with_spaces);
        assert(element_views(children@) == properties(tags(), fields(v), 13));
        push_property(&mut children, "SharedDoc", &self.shared_doc);
        assert(element_views(children@) == properties(tags(), fields(v), 14));
        push_property(&mut children, "HyperlinksChanged", &self.hyperlinks_changed);
        assert(element_views(children@) == properties(tags(), fields(v), 15));
        push_property(&mut children, "AppVersion", &self.app_version);
        assert(element_views(children@) == properties(tags(), fields(v), 16));
        let empty_tag = self.is_vacant();
        let e = Element {
            name: String::from_str("Properties"),
            attributes,
            text: String::new(),
            children,
            empty_tag,
        };
        proof {
            lemma_children_views(e);
        }
        e
    }

    fn from_element(e: &Element) -> (r: Result<App, XmlError>) {
        if !check_denotes(&e.attributes, SCHEMAS_EXTENDED, "Properties", e.name.as_str()) {
            return Err(XmlError::MissingElement);
        }
        Ok(
            App {
                template: property_text(e, SCHEMAS_EXTENDED, "Template"),
                total_time: property_text(e, SCHEMAS_EXTENDED, "TotalTime"),
                pages: property_text(e, SCHEMAS_EXTENDED, "Pages"),
                words: property_text(e, SCHEMAS_EXTENDED, "Words"),
                characters: property_text(e, SCHEMAS_EXTENDED, "Characters"),
                application: property_text(e, SCHEMAS_EXTENDED, "Application"),
                doc_security: property_text(e, SCHEMAS_EXTENDED, "DocSecurity"),
                lines: property_text(e, SCHEMAS_EXTENDED, "Lines"),
                paragraphs: property_text(e, SCHEMAS_EXTENDED, "Paragraphs"),
                scale_crop: property_text(e, SCHEMAS_EXTENDED, "ScaleCrop"),
                company: property_text(e, SCHEMAS_EXTENDED, "Company"),
                links_up_to_date: property_text(e, SCHEMAS_EXTENDED, "LinksUpToDate"),
                characters_with_spaces: property_text(e, SCHEMAS_EXTENDED, "CharactersWithSpaces"),
                shared_doc: property_text(e, SCHEMAS_EXTENDED, "SharedDoc"),
                hyperlinks_changed: property_text(e, SCHEMAS_EXTENDED, "HyperlinksChanged"),
                app_version: property_text(e, SCHEMAS_EXTENDED, "AppVersion"),
            },
        )
    }
}

impl App {
    /// Whether every property is absent.
    pub fn is_vacant(&self) -> (r: bool)
        ensures
            r == Self::vacant(self@),
    {
        let r = self.template.is_none()
            && self.total_time.is_none()
            && self.pages.is_none()
            && self.words.is_none()
            && self.characters.is_none()
            && self.application.is_none()
            && self.doc_security.is_none()
            && self.lines.is_none()
            && self.paragraphs.is_none()
            && self.scale_crop.is_none()
            && self.company.is_none()
            && self.links_up_to_date.is_none()
            && self.characters_with_spaces.is_none()
            && self.shared_doc.is_none()
            && self.hyperlinks_changed.is_none()
            && self.app_version.is_none();
        proof {
            if r {
                assert forall|k: int| 0 <= k < fields(self@).len() implies (#[trigger] fields(
                    self@,
                )[k]) is None by {}
            } else {
                if self.template.is_some() {
                    assert(fields(self@)[0] is Some);
                }
                if self.total_time.is_some() {
                    assert(fields(self@)[1] is Some);
                }
                if self.pages.is_some() {
                    assert(fields(self@)[2] is Some);
                }
                if self.words.is_some() {
                    assert(fields(self@)[3] is Some);
                }
                if self.characters.is_some() {
                    assert(fields(self@)[4] is Some);
                }
                if self.application.is_some() {
                    assert(fields(self@)[5] is Some);
                }
                if self.doc_security.is_some() {
                    assert(fields(self@)[6] is Some);
                }
                if self.lines.is_some() {
                    assert(fields(self@)[7] is Some);
                }
                if self.paragraphs.is_some() {
                    assert(fields(self@)[8] is Some);
                }
                if self.scale_crop.is_some() {
                    assert(fields(self@)[9] is Some);
                }
                if self.company.is_some() {
                    assert(fields(self@)[10] is Some);
                }
                if self.links_up_to_date.is_some() {
                    assert(fields(self@)[11] is Some);
                }
                if self.characters_with_spaces.is_some() {
                    assert(fields(self@)[12] is Some);
                }
                if self.shared_doc.is_some() {
                    assert(fields(self@)[13] is Some);
                }
                if self.hyperlinks_changed.is_some() {
                    assert(fields(self@)[14] is Some);
                }
                if self.app_version.is_some() {
                    assert(fields(self@)[15] is Some);
                }
            }
        }
        r
    }

    /// Appends the part to a text: the XML declaration, then the root
    /// element `Properties` with its namespace declarations and one child
    /// for each property that is present. Without any, the root element is
    /// an empty-element tag.
    pub fn to_writer(&self, writer: &mut String)
        ensures
            final(writer)@ == old(writer)@ + xml(self@),
    {
        write_part(self, writer);
    }

    /// The part as a text.
    pub fn to_string(&self) -> (r: String)
        ensures
            r@ == xml(self@),
    {
        let mut out = String::new();
        self.to_writer(&mut out);
        assert(out@ =~= xml(self@));
        out
    }

    /// Reads the part from the pieces of a text.
    pub fn from_pieces(pieces: &Vec<Piece<String>>) -> (r: Result<App, XmlError>)
        ensures
            result_view(r) == value_of_pieces::<App>(views(pieces@)),
    {
        from_pieces::<App>(pieces)
    }

    /// Reads the part from a text. The root element may bear any prefix
    /// that the text binds to the extended properties vocabulary, and so
    /// may each property; what else stands in the root element is passed
    /// over. A property whose element is empty is present and holds the
    /// empty text.
    pub fn from_str(text: &str) -> (r: Result<App, XmlError>)
        ensures
            result_view(r) == value_of_text::<App>(text@),
    {
        from_str::<App>(text)
    }
}

} // verus!
