use docx_rust::codec::part::{from_str, reads_back, to_string};
use docx_rust::document::{
    Body, BodyContent, CarriageReturn, Document, GridColumn, Paragraph, Run, RunContent, Tab,
    Table, TableCell, TableGrid, TableRow, Text,
};
use docx_rust::error::XmlError;
use docx_rust::formatting::{
    CharacterProperty, ParagraphProperty, TableCellProperty, TableProperty, TableRowProperty,
};
use docx_rust::schema::{
    SCHEMA_MAIN, SCHEMA_RELATIONSHIPS_DOCUMENT, SCHEMA_WORDML_14, SCHEMA_WP, SCHEMA_XML,
};

fn wrapped(body: &str) -> String {
    format!(
        r#"{}<w:document xmlns:w="{}" xmlns:w14="{}" xmlns:wp="{}" xmlns:r="{}">{}</w:document>"#,
        SCHEMA_XML, SCHEMA_MAIN, SCHEMA_WORDML_14, SCHEMA_WP, SCHEMA_RELATIONSHIPS_DOCUMENT, body
    )
}

#[test]
fn default_document_is_the_fixed_text() {
    let expected = format!(
        r#"{}<w:document xmlns:w="{}" xmlns:w14="{}" xmlns:wp="{}" xmlns:r="{}"><w:body/></w:document>"#,
        SCHEMA_XML, SCHEMA_MAIN, SCHEMA_WORDML_14, SCHEMA_WP, SCHEMA_RELATIONSHIPS_DOCUMENT
    );
    assert_eq!(Document::default().to_string(), expected);
    assert_eq!(
        expected,
        "<?xml version=\"1.0\" encoding=\"UTF-8\" standalone=\"yes\"?><w:document xmlns:w=\"http://schemas.openxmlformats.org/wordprocessingml/2006/main\" xmlns:w14=\"http://schemas.microsoft.com/office/word/2010/wordml\" xmlns:wp=\"http://schemas.openxmlformats.org/drawingml/2006/wordprocessingDrawing\" xmlns:r=\"http://schemas.openxmlformats.org/officeDocument/2006/relationships\"><w:body/></w:document>"
    );
}

#[test]
fn default_document_round_trip() {
    let text = Document::default().to_string();
    assert_eq!(Document::from_str(&text), Ok(Document::default()));
}

#[test]
fn table_in_a_default_document() {
    let table = Table::default().push_row(
        TableRow::default()
            .push_cell(Paragraph::default())
            .push_cell(TableCell::paragraph(Paragraph::default())),
    );
    let mut document = Document::default();
    document.push(table);
    let text = document.to_string();
    assert_eq!(
        text,
        wrapped("<w:body><w:tbl><w:tr><w:tc><w:p/></w:tc><w:tc><w:p/></w:tc></w:tr></w:tbl></w:body>")
    );
    assert_eq!(text.matches("<w:tbl>").count(), 1);
    assert_eq!(text.matches("<w:tr>").count(), 1);
    assert_eq!(text.matches("<w:tc>").count(), 2);
    assert_eq!(Document::from_str(&text), Ok(document));
}

#[test]
fn table_with_properties() {
    let table = Table::default().property(TableProperty::default()).push_row(
        TableRow::default()
            .property(TableRowProperty::default())
            .push_cell(Paragraph::default())
            .push_cell(
                TableCell::paragraph(Paragraph::default()).property(TableCellProperty::default()),
            ),
    );
    let mut document = Document::default();
    document.push(table);
    let text = document.to_string();
    assert_eq!(
        text,
        wrapped("<w:body><w:tbl><w:tblPr/><w:tr><w:trPr/><w:tc><w:p/></w:tc><w:tc><w:tcPr/><w:p/></w:tc></w:tr></w:tbl></w:body>")
    );
    assert_eq!(Document::from_str(&text), Ok(document));
}

#[test]
fn property_setter_replaces() {
    let cell = TableCell::default()
        .property(TableCellProperty::default())
        .property(TableCellProperty::default());
    assert_eq!(cell.property, Some(TableCellProperty));
    assert_eq!(to_string(&cell), "<w:tc><w:tcPr/></w:tc>");
    let table = Table::default()
        .grid(TableGrid::default().push_column(1))
        .grid(TableGrid::default().push_column(2));
    assert_eq!(table.grid, Some(TableGrid { columns: vec![GridColumn { width: 2 }] }));
}

#[test]
fn push_preserves_order() {
    let mut document = Document::default();
    document
        .push(Paragraph::default().push_text("one"))
        .push(Table::default())
        .push(Paragraph::default().push_text("two"));
    assert_eq!(
        document.body.content,
        vec![
            BodyContent::Paragraph(Paragraph::default().push_text("one")),
            BodyContent::Table(Table::default()),
            BodyContent::Paragraph(Paragraph::default().push_text("two")),
        ]
    );
    let text = document.to_string();
    assert_eq!(
        text,
        wrapped("<w:body><w:p><w:r><w:t>one</w:t></w:r></w:p><w:tbl/><w:p><w:r><w:t>two</w:t></w:r></w:p></w:body>")
    );
    assert_eq!(Document::from_str(&text), Ok(document));
}

#[test]
fn push_takes_body_content_itself() {
    let mut document = Document::default();
    document.push(BodyContent::Table(Table::default()));
    assert_eq!(document.body.content, vec![BodyContent::Table(Table::default())]);
}

#[test]
fn body_push_preserves_order() {
    let mut body = Body::default();
    body.push(Table::default()).push(Paragraph::default());
    assert_eq!(
        body.content,
        vec![BodyContent::Table(Table::default()), BodyContent::Paragraph(Paragraph::default())]
    );
    assert_eq!(to_string(&body), "<w:body><w:tbl/><w:p/></w:body>");
    assert_eq!(to_string(&Body::default()), "<w:body/>");
}

#[test]
fn rows_and_cells_keep_their_order() {
    let row = |texts: &[&str]| {
        let mut row = TableRow::default();
        for text in texts {
            row = row.push_cell(Paragraph::default().push_text(text));
        }
        row
    };
    let table = Table::default().push_row(row(&["a", "b", "c"])).push_row(row(&["d"])).push_row(row(&[]));
    let text = to_string(&table);
    assert_eq!(
        text,
        "<w:tbl><w:tr><w:tc><w:p><w:r><w:t>a</w:t></w:r></w:p></w:tc><w:tc><w:p><w:r><w:t>b</w:t></w:r></w:p></w:tc><w:tc><w:p><w:r><w:t>c</w:t></w:r></w:p></w:tc></w:tr><w:tr><w:tc><w:p><w:r><w:t>d</w:t></w:r></w:p></w:tc></w:tr><w:tr/></w:tbl>"
    );
    let back: Table = from_str(&text).unwrap();
    assert_eq!(back, table);
    assert_eq!(back.rows.len(), 3);
    assert_eq!(back.rows[0].cells.len(), 3);
}

#[test]
fn grid_columns() {
    let table = Table::default()
        .grid(TableGrid::default().push_column(1200).push_column(-5))
        .push_row(TableRow::default());
    let text = to_string(&table);
    assert_eq!(
        text,
        "<w:tbl><w:tblGrid><w:gridCol w:w=\"1200\"></w:gridCol><w:gridCol w:w=\"-5\"></w:gridCol></w:tblGrid><w:tr/></w:tbl>"
    );
    assert_eq!(from_str::<Table>(&text), Ok(table));
    assert_eq!(
        from_str::<TableGrid>("<w:tblGrid><w:gridCol w:w=\"7\"/></w:tblGrid>"),
        Ok(TableGrid { columns: vec![GridColumn { width: 7 }] })
    );
}

#[test]
fn grid_column_errors() {
    assert_eq!(from_str::<GridColumn>("<w:gridCol/>"), Err(XmlError::MissingAttribute));
    assert_eq!(from_str::<GridColumn>("<w:gridCol w:w=\"wide\"/>"), Err(XmlError::InvalidValue));
    assert_eq!(
        from_str::<TableGrid>("<w:tblGrid><w:gridCol w:w=\"1\"/><w:gridCol/></w:tblGrid>"),
        Err(XmlError::MissingAttribute)
    );
}

#[test]
fn tab_and_carriage_return() {
    assert_eq!(to_string(&Tab), "<w:tab/>");
    assert_eq!(to_string(&CarriageReturn), "<w:cr/>");
    assert_eq!(from_str::<Tab>("<w:tab/>"), Ok(Tab));
    assert_eq!(from_str::<Tab>("<w:tab></w:tab>"), Ok(Tab));
    assert_eq!(from_str::<Tab>("<w:tab w:val=\"left\"><w:x/></w:tab>"), Ok(Tab));
    assert_eq!(from_str::<CarriageReturn>("<w:cr/>"), Ok(CarriageReturn));
    assert_eq!(from_str::<CarriageReturn>("<w:tab/>"), Err(XmlError::MissingElement));
    assert_eq!(from_str::<Tab>("<w:cr/>"), Err(XmlError::MissingElement));
}

#[test]
fn run_content_in_order() {
    let run = Run::default()
        .push(RunContent::Text(Text::new("a < b")))
        .push(RunContent::Tab(Tab))
        .push(RunContent::CarriageReturn(CarriageReturn))
        .push(RunContent::Text(Text::new("")));
    let text = to_string(&run);
    assert_eq!(text, "<w:r><w:t>a &lt; b</w:t><w:tab/><w:cr/><w:t></w:t></w:r>");
    assert_eq!(from_str::<Run>(&text), Ok(run));
    assert_eq!(to_string(&Run::default()), "<w:r/>");
    assert_eq!(
        Run::text("x"),
        Run { property: None, content: vec![RunContent::Text(Text { text: "x".to_string() })] }
    );
}

#[test]
fn text_is_never_an_empty_element_tag() {
    assert_eq!(to_string(&Text::new("")), "<w:t></w:t>");
    assert_eq!(from_str::<Text>("<w:t/>"), Ok(Text::new("")));
    assert_eq!(from_str::<Text>("<w:t>a<![CDATA[<b>]]>&amp;c</w:t>"), Ok(Text::new("a<b>&c")));
}

#[test]
fn unknown_siblings_are_passed_over() {
    let text = wrapped(
        "<w:body><w:sectPr><w:p/></w:sectPr><w:p><w:proofErr/><w:r><w:lastRenderedPageBreak/><w:t>x</w:t></w:r><w:bookmarkEnd w:id=\"0\"/></w:p></w:body>",
    );
    let mut expected = Document::default();
    expected.push(Paragraph::default().push_text("x"));
    assert_eq!(Document::from_str(&text), Ok(expected));
    let text = wrapped("<w:body><w:p><w:r><w:rPr><w:b/></w:rPr><w:t>x</w:t></w:r></w:p></w:body>");
    let mut expected = Document::default();
    expected.push(
        Paragraph::default().push(Run::text("x").property(CharacterProperty::default())),
    );
    assert_eq!(Document::from_str(&text), Ok(expected));
}

#[test]
fn whitespace_between_elements_is_passed_over() {
    let text = "<w:body>\n  <w:p>\n    <w:r><w:t> x </w:t></w:r>\n  </w:p>\n</w:body>";
    let mut expected = Body::default();
    expected.push(Paragraph::default().push_text(" x "));
    assert_eq!(from_str::<Body>(text), Ok(expected));
}

#[test]
fn document_errors() {
    assert_eq!(Document::from_str("<w:document/>"), Err(XmlError::MissingElement));
    assert_eq!(Document::from_str("<w:body/>"), Err(XmlError::MissingElement));
    assert_eq!(
        Document::from_str("<w:document><w:body></w:document></w:body>"),
        Err(XmlError::TagMismatch)
    );
    assert_eq!(Document::from_str("<w:document><w:body>"), Err(XmlError::UnexpectedEof));
    assert_eq!(Document::from_str("<w:document><w:body/></w:document><w:document/>"), Err(XmlError::Malformed));
    assert_eq!(
        Document::from_str("<w:document><w:body><w:tbl><w:tblGrid><w:gridCol w:w=\"x\"/></w:tblGrid></w:tbl></w:body></w:document>"),
        Err(XmlError::InvalidValue)
    );
}

#[test]
fn document_to_writer_appends() {
    let mut out = String::from("x");
    Document::default().to_writer(&mut out);
    assert_eq!(out, format!("x{}", Document::default().to_string()));
}

#[test]
fn paragraph_and_run_properties() {
    let paragraph = Paragraph::default()
        .property(ParagraphProperty::default())
        .push(Run::text("x").property(CharacterProperty::default()))
        .push(Run::default().property(CharacterProperty::default()));
    let text = to_string(&paragraph);
    assert_eq!(text, "<w:p><w:pPr/><w:r><w:rPr/><w:t>x</w:t></w:r><w:r><w:rPr/></w:r></w:p>");
    assert_eq!(from_str::<Paragraph>(&text), Ok(paragraph));
    assert_eq!(to_string(&Paragraph::default()), "<w:p/>");
    assert_eq!(
        to_string(&Paragraph::default().property(ParagraphProperty::default())),
        "<w:p><w:pPr/></w:p>"
    );
    assert_eq!(
        from_str::<Paragraph>("<w:p><w:r/><w:pPr/></w:p>"),
        Ok(Paragraph::default().property(ParagraphProperty::default()).push(Run::default()))
    );
}

#[test]
fn written_text_reads_back() {
    let mut document = Document::default();
    document
        .push(Paragraph::default().push_text("a & b").push(Run::default().push(RunContent::Tab(Tab))))
        .push(
            Table::default()
                .property(TableProperty::default())
                .grid(TableGrid::default().push_column(10))
                .push_row(TableRow::default().push_cell(Paragraph::default().push_text("<c>"))),
        );
    let text = document.to_string();
    assert!(reads_back(&document, &text));
    assert!(reads_back(&Document::default(), &Document::default().to_string()));
    assert!(!reads_back(&Document::default(), &text));
    assert!(!reads_back(&document, ""));
    assert!(reads_back(&Tab, "<!-- a --><w:tab/>"));
    assert!(!reads_back(&Tab, "<w:tab></w:tab>"));
    assert!(!reads_back(&Tab, "<w:tab/><!-- a -->"));
    assert!(reads_back(&Text::new("a\"b"), "<w:t>a&quot;b</w:t>"));
    assert!(reads_back(&Text::new("a\"b"), "<w:t>a\"b</w:t>"));
}
