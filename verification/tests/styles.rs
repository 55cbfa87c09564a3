use docx_rust::codec::part::{from_str, reads_back, to_string};
use docx_rust::error::XmlError;
use docx_rust::formatting::{CharacterProperty, ParagraphProperty};
use docx_rust::schema::{SCHEMA_MAIN, SCHEMA_XML};
use docx_rust::styles::{LatentStyle, LatentStyles, Style, StyleName, StyleType, Styles};

#[test]
fn latent_style_without_attributes() {
    let style = LatentStyle::default();
    assert_eq!(style.name, None);
    assert_eq!(style.locked, None);
    assert_eq!(style.priority, None);
    assert_eq!(style.semi_hidden, None);
    assert_eq!(style.unhiden_when_used, None);
    assert_eq!(style.q_format, None);
    assert_eq!(to_string(&style), "<w:lsdException/>");
    assert_eq!(from_str::<LatentStyle>("<w:lsdException/>"), Ok(style));
}

#[test]
fn latent_style_with_every_attribute() {
    let style = LatentStyle {
        name: Some("Normal \"1\"".to_string()),
        locked: Some(false),
        priority: Some(-99),
        semi_hidden: Some(true),
        unhiden_when_used: Some(false),
        q_format: Some(true),
    };
    let text = to_string(&style);
    assert_eq!(
        text,
        "<w:lsdException w:name=\"Normal &quot;1&quot;\" w:locked=\"false\" w:uiPriority=\"-99\" w:semiHidden=\"true\" w:unhideWhenUsed=\"false\" w:qFormat=\"true\"></w:lsdException>"
    );
    assert_eq!(from_str::<LatentStyle>(&text), Ok(style));
}

#[test]
fn latent_style_with_one_attribute_is_not_an_empty_element_tag() {
    let style = LatentStyle { priority: Some(9), ..LatentStyle::default() };
    assert_eq!(to_string(&style), "<w:lsdException w:uiPriority=\"9\"></w:lsdException>");
}

#[test]
fn latent_style_reads_attributes_in_any_order() {
    let text = "<w:lsdException w:qFormat=\"1\" w:other=\"x\" w:uiPriority=\"+10\" w:name=\"heading 1\" w:locked=\"off\"/>";
    assert_eq!(
        from_str::<LatentStyle>(text),
        Ok(LatentStyle {
            name: Some("heading 1".to_string()),
            locked: Some(false),
            priority: Some(10),
            semi_hidden: None,
            unhiden_when_used: None,
            q_format: Some(true),
        })
    );
}

#[test]
fn latent_style_invalid_values() {
    assert_eq!(
        from_str::<LatentStyle>("<w:lsdException w:locked=\"maybe\"/>"),
        Err(XmlError::InvalidValue)
    );
    assert_eq!(
        from_str::<LatentStyle>("<w:lsdException w:uiPriority=\"1.5\"/>"),
        Err(XmlError::InvalidValue)
    );
    assert_eq!(
        from_str::<LatentStyle>("<w:lsdException w:uiPriority=\"99999999999999999999999\"/>"),
        Err(XmlError::InvalidValue)
    );
    assert_eq!(from_str::<LatentStyle>("<w:style/>"), Err(XmlError::MissingElement));
}

#[test]
fn latent_style_reads_back() {
    let style = LatentStyle {
        name: Some("a<b".to_string()),
        locked: Some(true),
        priority: Some(isize::MIN),
        semi_hidden: None,
        unhiden_when_used: None,
        q_format: Some(false),
    };
    assert!(reads_back(&style, &to_string(&style)));
    assert!(reads_back(&LatentStyle::default(), "<w:lsdException/>"));
}

#[test]
fn style_with_name_and_properties() {
    let style = Style::new(StyleType::Paragraph, "style_id")
        .name("Style Name")
        .paragraph(ParagraphProperty::default())
        .character(CharacterProperty::default());
    assert_eq!(style.ty, StyleType::Paragraph);
    assert_eq!(style.style_id, "style_id");
    assert_eq!(style.name, Some(StyleName { value: "Style Name".to_string() }));
    let text = to_string(&style);
    assert_eq!(
        text,
        "<w:style w:type=\"paragraph\" w:styleId=\"style_id\"><w:name w:val=\"Style Name\"></w:name><w:pPr/><w:rPr/></w:style>"
    );
    assert_eq!(from_str::<Style>(&text), Ok(style.clone()));
    assert!(reads_back(&style, &text));
}

#[test]
fn style_without_optional_fields() {
    let style = Style::new(StyleType::Numbering, "n");
    let text = to_string(&style);
    assert_eq!(text, "<w:style w:type=\"numbering\" w:styleId=\"n\"></w:style>");
    assert_eq!(from_str::<Style>(&text), Ok(style));
    assert_eq!(
        from_str::<Style>("<w:style w:styleId=\"c\" w:type=\"character\"><w:rPr/><w:name w:val=\"C\"/></w:style>"),
        Ok(Style::new(StyleType::Character, "c").name("C").character(CharacterProperty::default()))
    );
}

#[test]
fn style_setters_replace() {
    let style = Style::new(StyleType::Table, "t").name("first").name("second");
    assert_eq!(style.name, Some(StyleName::new("second")));
}

#[test]
fn style_type_tokens() {
    for (ty, token) in [
        (StyleType::Paragraph, "paragraph"),
        (StyleType::Character, "character"),
        (StyleType::Table, "table"),
        (StyleType::Numbering, "numbering"),
    ] {
        assert_eq!(ty.token(), token);
        assert_eq!(StyleType::from_token(token), Some(ty));
    }
    assert_eq!(StyleType::from_token("Paragraph"), None);
    assert_eq!(StyleType::from_token(""), None);
}

#[test]
fn style_errors() {
    assert_eq!(from_str::<Style>("<w:style w:styleId=\"a\"/>"), Err(XmlError::MissingAttribute));
    assert_eq!(from_str::<Style>("<w:style w:type=\"table\"/>"), Err(XmlError::MissingAttribute));
    assert_eq!(
        from_str::<Style>("<w:style w:type=\"list\" w:styleId=\"a\"/>"),
        Err(XmlError::InvalidValue)
    );
    assert_eq!(
        from_str::<Style>("<w:style w:type=\"table\" w:styleId=\"a\"><w:name/></w:style>"),
        Err(XmlError::MissingAttribute)
    );
    assert_eq!(from_str::<Style>("<w:lsdException/>"), Err(XmlError::MissingElement));
}

#[test]
fn styles_part_without_styles() {
    let expected = format!("{}<w:styles xmlns:w=\"{}\"/>", SCHEMA_XML, SCHEMA_MAIN);
    assert_eq!(Styles::default().to_string(), expected);
    assert_eq!(Styles::from_str(&expected), Ok(Styles::default()));
}

#[test]
fn styles_part_with_styles_in_order() {
    let styles = Styles::default()
        .latent_styles(
            LatentStyles::default()
                .push(LatentStyle { name: Some("Normal".to_string()), ..LatentStyle::default() })
                .push(LatentStyle::default()),
        )
        .push(Style::new(StyleType::Paragraph, "a").name("A"))
        .push(Style::new(StyleType::Character, "b"));
    let text = styles.to_string();
    assert_eq!(
        text,
        format!(
            "{}<w:styles xmlns:w=\"{}\"><w:latentStyles><w:lsdException w:name=\"Normal\"></w:lsdException><w:lsdException/></w:latentStyles><w:style w:type=\"paragraph\" w:styleId=\"a\"><w:name w:val=\"A\"></w:name></w:style><w:style w:type=\"character\" w:styleId=\"b\"></w:style></w:styles>",
            SCHEMA_XML, SCHEMA_MAIN
        )
    );
    assert_eq!(Styles::from_str(&text), Ok(styles.clone()));
    assert!(reads_back(&styles, &text));
    let mut out = String::from("-");
    styles.to_writer(&mut out);
    assert_eq!(out, format!("-{}", text));
}

#[test]
fn styles_part_setters_and_errors() {
    let styles = Styles::default()
        .latent_styles(LatentStyles::default().push(LatentStyle::default()))
        .latent_styles(LatentStyles::default());
    assert_eq!(styles.latent_styles, Some(LatentStyles::default()));
    assert_eq!(to_string(&styles), format!("<w:styles xmlns:w=\"{}\"><w:latentStyles/></w:styles>", SCHEMA_MAIN));
    assert_eq!(to_string(&LatentStyles::default()), "<w:latentStyles/>");
    assert_eq!(
        Styles::from_str("<w:styles><w:docDefaults/><w:style w:type=\"table\" w:styleId=\"t\"/></w:styles>"),
        Ok(Styles::default().push(Style::new(StyleType::Table, "t")))
    );
    assert_eq!(
        Styles::from_str("<w:styles><w:style w:styleId=\"t\"/></w:styles>"),
        Err(XmlError::MissingAttribute)
    );
    assert_eq!(
        Styles::from_str("<w:styles><w:latentStyles><w:lsdException w:qFormat=\"x\"/></w:latentStyles></w:styles>"),
        Err(XmlError::InvalidValue)
    );
    assert_eq!(Styles::from_str("<w:style/>"), Err(XmlError::MissingElement));
}
