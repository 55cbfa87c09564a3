use docx_rust::app::App;
use docx_rust::codec::token::Piece;
use docx_rust::error::XmlError;
use docx_rust::schema::{SCHEMAS_EXTENDED, SCHEMA_DOC_PROPS_V_TYPES, SCHEMA_XML};

fn blank() -> App {
    App {
        template: None,
        total_time: None,
        pages: None,
        words: None,
        characters: None,
        application: None,
        doc_security: None,
        lines: None,
        paragraphs: None,
        scale_crop: None,
        company: None,
        links_up_to_date: None,
        characters_with_spaces: None,
        shared_doc: None,
        hyperlinks_changed: None,
        app_version: None,
    }
}

const OLD_APP: &str = "<?xml version=\"1.0\" encoding=\"utf-8\" standalone=\"yes\"?><ap:Properties xmlns=\"http://schemas.openxmlformats.org/officeDocument/2006/extended-properties\" xmlns:vt=\"http://schemas.openxmlformats.org/officeDocument/2006/docPropsVTypes\" xmlns:ap=\"http://schemas.openxmlformats.org/officeDocument/2006/extended-properties\"><ap:Template>Normal.dotm</ap:Template><ap:Application>Microsoft Word for the web</ap:Application><ap:DocSecurity>0</ap:DocSecurity><ap:ScaleCrop>false</ap:ScaleCrop><ap:Company /><ap:SharedDoc>false</ap:SharedDoc><ap:HyperlinksChanged>false</ap:HyperlinksChanged><ap:AppVersion>16.0000</ap:AppVersion><ap:LinksUpToDate>false</ap:LinksUpToDate></ap:Properties>";

#[test]
fn read_old_app() {
    let old_app_version = "<?xml version=\"1.0\" encoding=\"utf-8\" standalone=\"yes\"?><ap:Properties xmlns=\"http://schemas.openxmlformats.org/officeDocument/2006/extended-properties\" xmlns:vt=\"http://schemas.openxmlformats.org/officeDocument/2006/docPropsVTypes\" xmlns:ap=\"http://schemas.openxmlformats.org/officeDocument/2006/extended-properties\"><ap:Template>Normal.dotm</ap:Template><ap:Application>Microsoft Word for the web</ap:Application><ap:DocSecurity>0</ap:DocSecurity><ap:ScaleCrop>false</ap:ScaleCrop><ap:Company /><ap:SharedDoc>false</ap:SharedDoc><ap:HyperlinksChanged>false</ap:HyperlinksChanged><ap:AppVersion>16.0000</ap:AppVersion><ap:LinksUpToDate>false</ap:LinksUpToDate></ap:Properties>";
    App::from_str(&old_app_version).expect("should exist");
}

#[test]
fn old_app_fields_are_read_under_the_alias() {
    let app = App::from_str(OLD_APP).expect("should exist");
    let mut expected = blank();
    expected.template = Some("Normal.dotm".to_string());
    expected.application = Some("Microsoft Word for the web".to_string());
    expected.doc_security = Some("0".to_string());
    expected.scale_crop = Some("false".to_string());
    expected.company = Some(String::new());
    expected.shared_doc = Some("false".to_string());
    expected.hyperlinks_changed = Some("false".to_string());
    expected.app_version = Some("16.0000".to_string());
    expected.links_up_to_date = Some("false".to_string());
    assert_eq!(app, expected);
}

#[test]
fn empty_company_element_is_present_and_empty() {
    let app = App::from_str(OLD_APP).unwrap();
    assert_eq!(app.company, Some(String::new()));
    assert_eq!(app.pages, None);
}

#[test]
fn app_without_fields_is_an_empty_element_tag() {
    let expected = format!(
        "{}<Properties xmlns=\"{}\" xmlns:vt=\"{}\"/>",
        SCHEMA_XML, SCHEMAS_EXTENDED, SCHEMA_DOC_PROPS_V_TYPES
    );
    assert_eq!(blank().to_string(), expected);
    assert!(blank().is_vacant());
}

#[test]
fn default_app_writes_every_property_in_order() {
    let expected = format!(
        "{}<Properties xmlns=\"{}\" xmlns:vt=\"{}\"><Template>Normal.dotm</Template><TotalTime>1</TotalTime><Pages>1</Pages><Words>0</Words><Characters>0</Characters><Application>docx-rs</Application><DocSecurity>0</DocSecurity><Lines>0</Lines><Paragraphs>1</Paragraphs><ScaleCrop>false</ScaleCrop><Company>MS</Company><LinksUpToDate>false</LinksUpToDate><CharactersWithSpaces>25</CharactersWithSpaces><SharedDoc>false</SharedDoc><HyperlinksChanged>false</HyperlinksChanged><AppVersion>12.0000</AppVersion></Properties>",
        SCHEMA_XML, SCHEMAS_EXTENDED, SCHEMA_DOC_PROPS_V_TYPES
    );
    let text = App::default().to_string();
    assert_eq!(text, expected);
    assert_eq!(text.matches("</").count(), 17);
    assert!(!App::default().is_vacant());
}

#[test]
fn default_app_values() {
    let app = App::default();
    assert_eq!(app.template.as_deref(), Some("Normal.dotm"));
    assert_eq!(app.total_time.as_deref(), Some("1"));
    assert_eq!(app.pages.as_deref(), Some("1"));
    assert_eq!(app.words.as_deref(), Some("0"));
    assert_eq!(app.characters.as_deref(), Some("0"));
    assert_eq!(app.application.as_deref(), Some("docx-rs"));
    assert_eq!(app.doc_security.as_deref(), Some("0"));
    assert_eq!(app.lines.as_deref(), Some("0"));
    assert_eq!(app.paragraphs.as_deref(), Some("1"));
    assert_eq!(app.scale_crop.as_deref(), Some("false"));
    assert_eq!(app.company.as_deref(), Some("MS"));
    assert_eq!(app.links_up_to_date.as_deref(), Some("false"));
    assert_eq!(app.characters_with_spaces.as_deref(), Some("25"));
    assert_eq!(app.shared_doc.as_deref(), Some("false"));
    assert_eq!(app.hyperlinks_changed.as_deref(), Some("false"));
    assert_eq!(app.app_version.as_deref(), Some("12.0000"));
}

#[test]
fn one_present_field_keeps_the_root_open() {
    let mut app = blank();
    app.company = Some(String::new());
    let expected = format!(
        "{}<Properties xmlns=\"{}\" xmlns:vt=\"{}\"><Company></Company></Properties>",
        SCHEMA_XML, SCHEMAS_EXTENDED, SCHEMA_DOC_PROPS_V_TYPES
    );
    assert_eq!(app.to_string(), expected);
    assert_eq!(App::from_str(&expected), Ok(app));
}

#[test]
fn app_round_trip() {
    let app = App::default();
    assert_eq!(App::from_str(&app.to_string()), Ok(app));
    assert_eq!(App::from_str(&blank().to_string()), Ok(blank()));
}

#[test]
fn app_round_trip_with_markup_characters() {
    let mut app = blank();
    app.company = Some("Smith & Sons <\"R'D\">".to_string());
    app.template = Some("a;b&amp;c".to_string());
    let text = app.to_string();
    assert!(text.contains("<Company>Smith &amp; Sons &lt;&quot;R&apos;D&quot;&gt;</Company>"));
    assert!(text.contains("<Template>a;b&amp;amp;c</Template>"));
    assert_eq!(App::from_str(&text), Ok(app));
}

#[test]
fn app_to_writer_appends() {
    let mut out = String::from("before");
    blank().to_writer(&mut out);
    assert_eq!(out, format!("before{}", blank().to_string()));
}

#[test]
fn app_passes_over_what_it_does_not_know() {
    let text = format!(
        "<Properties xmlns=\"{}\" other=\"1\"><!-- note --><Pages>3</Pages><Unknown><Pages>9</Pages></Unknown><vt:Pages xmlns:vt=\"x\">4</vt:Pages></Properties>",
        SCHEMAS_EXTENDED
    );
    let mut expected = blank();
    expected.pages = Some("3".to_string());
    assert_eq!(App::from_str(&text), Ok(expected));
}

#[test]
fn app_takes_the_first_of_two_elements() {
    let text = format!(
        "<Properties xmlns=\"{}\"><Pages>3</Pages><Pages>4</Pages></Properties>",
        SCHEMAS_EXTENDED
    );
    assert_eq!(App::from_str(&text).unwrap().pages, Some("3".to_string()));
}

#[test]
fn app_root_outside_the_namespace_is_refused() {
    assert_eq!(
        App::from_str("<Properties><Pages>3</Pages></Properties>"),
        Err(XmlError::MissingElement)
    );
    let text = format!("<ap:Properties xmlns=\"{}\"/>", SCHEMAS_EXTENDED);
    assert_eq!(App::from_str(&text), Err(XmlError::MissingElement));
    let text = format!("<Settings xmlns=\"{}\"/>", SCHEMAS_EXTENDED);
    assert_eq!(App::from_str(&text), Err(XmlError::MissingElement));
}

#[test]
fn app_property_outside_the_namespace_is_absent() {
    let text = format!(
        "<ap:Properties xmlns:ap=\"{}\"><Pages>3</Pages><ap:Words>7</ap:Words></ap:Properties>",
        SCHEMAS_EXTENDED
    );
    let mut expected = blank();
    expected.words = Some("7".to_string());
    assert_eq!(App::from_str(&text), Ok(expected));
}

#[test]
fn app_from_pieces() {
    let pieces = vec![
        Piece::Other,
        Piece::Start("Properties".to_string()),
        Piece::Attribute("xmlns".to_string(), SCHEMAS_EXTENDED.to_string()),
        Piece::Open,
        Piece::Start("Lines".to_string()),
        Piece::Open,
        Piece::Text("4".to_string()),
        Piece::Text("2".to_string()),
        Piece::Close("Lines".to_string()),
        Piece::Close("Properties".to_string()),
    ];
    let mut expected = blank();
    expected.lines = Some("42".to_string());
    assert_eq!(App::from_pieces(&pieces), Ok(expected));
}

#[test]
fn app_syntax_errors() {
    assert_eq!(App::from_str(""), Err(XmlError::UnexpectedEof));
    let text = format!("<Properties xmlns=\"{}\"><Pages>3</Pages>", SCHEMAS_EXTENDED);
    assert_eq!(App::from_str(&text), Err(XmlError::UnexpectedEof));
    let text = format!("<Properties xmlns=\"{}\"><Pages>3</Words></Properties>", SCHEMAS_EXTENDED);
    assert_eq!(App::from_str(&text), Err(XmlError::TagMismatch));
    let text = format!("<Properties xmlns=\"{}\"><Pages>&bogus;</Pages></Properties>", SCHEMAS_EXTENDED);
    assert_eq!(App::from_str(&text), Err(XmlError::Malformed));
    assert_eq!(App::from_str("<Properties xmlns=\"a\" <"), Err(XmlError::Malformed));
}

#[test]
fn written_app_reads_back() {
    let app = App::default();
    assert!(docx_rust::codec::part::reads_back(&app, &app.to_string()));
    assert!(docx_rust::codec::part::reads_back(&blank(), &blank().to_string()));
    assert!(!docx_rust::codec::part::reads_back(&blank(), &app.to_string()));
    assert!(!docx_rust::codec::part::reads_back(&blank(), OLD_APP));
}
