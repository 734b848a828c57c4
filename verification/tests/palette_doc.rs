use color_sampler::palette::{encode_colors, parse_colors, schema_ref_str, Color, ColorsJson};
use color_sampler::ApiError;

#[test]
fn test_palette_roundtrip() {
    let doc = ColorsJson {
        schema: None,
        colors: vec![Color { hex_color: "#FF0000".to_string(), name: Some("Red".to_string()) }],
    };
    let text = encode_colors(&doc).unwrap();
    let back = parse_colors(&text).unwrap();
    assert_eq!(back.colors.len(), 1);
    assert_eq!(back.colors[0].hex_color, "#FF0000");
    assert_eq!(back.colors[0].name.as_deref(), Some("Red"));
    assert_eq!(back.schema.as_deref(), Some("./colors.schema.json"));
}

#[test]
fn test_schema_reference_forced_on_write() {
    // Whatever schema value the document carries, the rendered text holds the
    // fixed reference.
    let colors = vec![Color { hex_color: "#00FF00".to_string(), name: None }];
    let with_junk = ColorsJson {
        schema: Some("somewhere/else.json".to_string()),
        colors: colors.clone(),
    };
    let without = ColorsJson { schema: None, colors };
    let a = encode_colors(&with_junk).unwrap();
    let b = encode_colors(&without).unwrap();
    assert_eq!(a, b);
    assert!(a.contains(schema_ref_str()));
    assert!(!a.contains("somewhere/else.json"));
}

#[test]
fn test_exact_document_text() {
    let doc = ColorsJson {
        schema: None,
        colors: vec![
            Color { hex_color: "#FF0000".to_string(), name: Some("Red".to_string()) },
            Color { hex_color: "#112233".to_string(), name: None },
        ],
    };
    let text = encode_colors(&doc).unwrap();
    assert_eq!(
        text,
        "{\"$schema\":\"./colors.schema.json\",\"colors\":[\
         {\"hex_color\":\"#FF0000\",\"name\":\"Red\"},\
         {\"hex_color\":\"#112233\"}]}"
    );
}

#[test]
fn test_name_omitted_when_absent() {
    let doc = ColorsJson {
        schema: None,
        colors: vec![Color { hex_color: "#0000FF".to_string(), name: None }],
    };
    let text = encode_colors(&doc).unwrap();
    assert_eq!(
        text,
        "{\"$schema\":\"./colors.schema.json\",\"colors\":[{\"hex_color\":\"#0000FF\"}]}"
    );
    assert!(!text.contains("name"));
    assert!(!text.contains("null"));
}

#[test]
fn test_empty_palette_roundtrip() {
    let doc = ColorsJson { schema: None, colors: vec![] };
    let text = encode_colors(&doc).unwrap();
    assert_eq!(text, "{\"$schema\":\"./colors.schema.json\",\"colors\":[]}");
    let back = parse_colors(&text).unwrap();
    assert!(back.colors.is_empty());
}

#[test]
fn test_many_entries_roundtrip() {
    let mut colors = Vec::new();
    for i in 0..25 {
        let name = if i % 2 == 0 { Some(format!("color {}", i)) } else { None };
        colors.push(Color { hex_color: format!("#0000{:02X}", i), name });
    }
    let doc = ColorsJson { schema: Some("ignored".to_string()), colors };
    let text = encode_colors(&doc).unwrap();
    let back = parse_colors(&text).unwrap();
    assert_eq!(back.colors.len(), 25);
    for i in 0..25 {
        assert_eq!(back.colors[i].hex_color, format!("#0000{:02X}", i));
        if i % 2 == 0 {
            assert_eq!(back.colors[i].name.as_deref().unwrap(), format!("color {}", i));
        } else {
            assert!(back.colors[i].name.is_none());
        }
    }
}

#[test]
fn test_parse_rejects_malformed_text() {
    assert!(matches!(parse_colors(""), Err(ApiError::Document(_))));
    assert!(matches!(parse_colors("not a document"), Err(ApiError::Document(_))));
    // A reordered document, or one with a foreign schema reference, is not in
    // the format this store writes.
    assert!(matches!(
        parse_colors("{\"colors\":[],\"$schema\":\"./colors.schema.json\"}"),
        Err(ApiError::Document(_))
    ));
    assert!(matches!(
        parse_colors("{\"$schema\":\"elsewhere.json\",\"colors\":[]}"),
        Err(ApiError::Document(_))
    ));
}

#[test]
fn test_parse_accepts_whitespace() {
    let doc = parse_colors(
        "{ \"$schema\": \"./colors.schema.json\",\n  \"colors\": [\n    { \"hex_color\": \"#FF0000\", \"name\": \"Red Ish\" }\n  ]\n}",
    )
    .unwrap();
    assert_eq!(doc.colors.len(), 1);
    assert_eq!(doc.colors[0].hex_color, "#FF0000");
    // Whitespace inside a quoted string is kept, not stripped.
    assert_eq!(doc.colors[0].name.as_deref(), Some("Red Ish"));
    assert_eq!(doc.schema.as_deref(), Some("./colors.schema.json"));
}

#[test]
fn test_parse_accepts_absent_schema() {
    let doc = parse_colors("{\"colors\":[{\"hex_color\":\"#123456\"}]}").unwrap();
    assert!(doc.schema.is_none());
    assert_eq!(doc.colors.len(), 1);
    assert_eq!(doc.colors[0].hex_color, "#123456");
    let empty = parse_colors("{ \"colors\": [] }").unwrap();
    assert!(empty.schema.is_none());
    assert!(empty.colors.is_empty());
}

#[test]
fn test_parse_accepts_canonical_text() {
    let text = "{\"$schema\":\"./colors.schema.json\",\"colors\":[\
                {\"hex_color\":\"#FF0000\",\"name\":\"Red\"},\
                {\"hex_color\":\"#ABCDEF\"}]}";
    let doc = parse_colors(text).unwrap();
    assert_eq!(doc.colors.len(), 2);
    assert_eq!(doc.colors[0].hex_color, "#FF0000");
    assert_eq!(doc.colors[0].name.as_deref(), Some("Red"));
    assert_eq!(doc.colors[1].hex_color, "#ABCDEF");
    assert!(doc.colors[1].name.is_none());
    // What was parsed renders back to the very text that was read.
    assert_eq!(encode_colors(&doc).unwrap(), text);
}

#[test]
fn test_encode_rejects_quote_in_string() {
    // The format has no escapes, so a quote-carrying string is refused
    // rather than rendered into malformed text.
    let doc = ColorsJson {
        schema: None,
        colors: vec![Color { hex_color: "#FF0000".to_string(), name: Some("a\"b".to_string()) }],
    };
    assert!(matches!(encode_colors(&doc), Err(ApiError::Document(_))));
    let doc2 = ColorsJson {
        schema: None,
        colors: vec![Color { hex_color: "\"".to_string(), name: None }],
    };
    assert!(matches!(encode_colors(&doc2), Err(ApiError::Document(_))));
}
