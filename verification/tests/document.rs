use colophon::document::{whole_file_format, Document};
use colophon::meta::{parse_value, Value};
use fig::EmbedType;

fn parse(path: &str, text: &str) -> Document {
    Document::parse(path, text).unwrap()
}

#[test]
fn parses_yaml_frontmatter_and_body() {
    let text = "---\ntitle: Root\ncontents:\n- a.md\n---\n# Body\n\nhello\n";
    let doc = parse("index.md", text);
    assert_eq!(doc.meta.get("title").and_then(Value::as_str), Some("Root"));
    assert_eq!(doc.body, "# Body\n\nhello\n");
    assert_eq!(doc.embed, Some(EmbedType::FrontmatterYaml));
    assert!(doc.has_meta());
}

#[test]
fn parses_fig_fenced_frontmatter() {
    let text = "```fig\ntitle = colophon\ncontents = [docs/design.md]\n```\n# Body\n";
    let doc = parse("README.md", text);
    assert_eq!(doc.meta.get("title").and_then(Value::as_str), Some("colophon"));
    assert_eq!(doc.body, "# Body\n");
    assert_eq!(doc.embed, Some(EmbedType::FrontmatterFig));
    assert!(doc.has_meta());
}

#[test]
fn parses_json_frontmatter() {
    let text = ";;;\n{\"title\": \"Root\"}\n;;;\nbody\n";
    let doc = parse("note.md", text);
    assert_eq!(doc.meta.get("title").and_then(Value::as_str), Some("Root"));
    assert_eq!(doc.embed, Some(EmbedType::FrontmatterJson));
}

#[test]
fn parses_yaml_endmatter() {
    let text = "# Body first\n```endmatter\ntitle: Tail\n```\n";
    let doc = parse("note.md", text);
    assert_eq!(doc.meta.get("title").and_then(Value::as_str), Some("Tail"));
    assert_eq!(doc.body, "# Body first\n");
    assert_eq!(doc.embed, Some(EmbedType::EndmatterYaml));
}

#[test]
fn no_frontmatter_is_all_body() {
    let doc = parse("note.md", "# Just a note\n");
    assert!(doc.meta.is_null());
    assert_eq!(doc.body, "# Just a note\n");
    assert_eq!(doc.embed, None);
    assert!(!doc.has_meta());
    assert_eq!(doc.path(), "note.md");
}

#[test]
fn unterminated_fence_is_not_frontmatter() {
    let text = "---\ntitle: oops\nno closing fence\n";
    let doc = parse("x.md", text);
    assert!(doc.meta.is_null());
    assert_eq!(doc.body, text);
    assert_eq!(doc.embed, None);
}

#[test]
fn crlf_fences_are_handled() {
    let text = "---\r\ntitle: Root\r\n---\r\nbody\r\n";
    let doc = parse("x.md", text);
    assert_eq!(doc.embed, Some(EmbedType::FrontmatterYaml));
    assert_eq!(doc.body, "body\r\n");
    assert_eq!(doc.meta.get("title").and_then(Value::as_str), Some("Root"));
}

#[test]
fn a_metadata_parse_error_is_returned() {
    let r = Document::parse("x.md", "---\ntitle: [unclosed\n---\nbody\n");
    assert!(r.is_err());
    // No block: nothing is parsed as metadata.
    let r = Document::parse("x.md", "plain\n");
    assert!(r.is_ok());
}

#[test]
fn config_extensions_pick_a_whole_file_format() {
    assert_eq!(whole_file_format("registry.yaml"), Some(fig::Format::Yaml));
    assert_eq!(whole_file_format("dir/registry.yml"), Some(fig::Format::Yaml));
    assert_eq!(whole_file_format("a.b/registry.json"), Some(fig::Format::Json));
    assert_eq!(whole_file_format("registry.toml"), Some(fig::Format::Toml));
    assert_eq!(whole_file_format("registry.figl"), Some(fig::Format::Fig));
    assert_eq!(whole_file_format("registry.md"), None);
    assert_eq!(whole_file_format(".yaml"), None);
    assert_eq!(whole_file_format("yaml"), None);
    assert_eq!(whole_file_format("conf.d/readme"), None);
}

#[test]
fn a_bare_dash_fence_opens_yaml_frontmatter() {
    assert_eq!(fig::detect("---\n"), Some(EmbedType::FrontmatterYaml));
}

#[test]
fn metadata_values_keep_their_kinds() {
    let v = parse_value("a: 1\nb: true\nc: text\nd: ~\ne: [x, y]\nf: 1.5\n", fig::Format::Yaml).unwrap();
    assert!(matches!(v.get("a"), Some(Value::Int(1))));
    assert!(matches!(v.get("b"), Some(Value::Bool(true))));
    assert_eq!(v.get("c").and_then(Value::as_str), Some("text"));
    assert!(matches!(v.get("d"), Some(Value::Null)));
    match v.get("e") {
        Some(Value::Sequence(items)) => assert_eq!(items.len(), 2),
        other => panic!("not a sequence: {other:?}"),
    }
    match v.get("f") {
        Some(Value::Float(t)) => assert_eq!(t, "1.5"),
        other => panic!("not a float: {other:?}"),
    }
}

#[test]
fn an_unsigned_integer_past_i64_is_kept_as_its_text() {
    let v = parse_value("{\"n\": 18446744073709551615}", fig::Format::Json).unwrap();
    match v.get("n") {
        Some(Value::Float(t)) => assert_eq!(t, "18446744073709551615"),
        Some(Value::Int(_)) => panic!("read as a signed integer"),
        other => panic!("unexpected: {other:?}"),
    }
}

#[test]
fn an_empty_document_is_null_and_a_repeated_key_keeps_its_last_value() {
    assert!(matches!(parse_value("", fig::Format::Yaml), Ok(Value::Null)));
    let v = parse_value("{\"a\": 1, \"b\": 2, \"a\": 3}", fig::Format::Json).unwrap();
    assert!(matches!(v.get("a"), Some(Value::Int(3))));
    match &v {
        Value::Mapping(m) => {
            let keys: Vec<&str> = m.iter().iter().map(|e| e.0.as_str()).collect();
            assert_eq!(keys, vec!["a", "b"]);
        }
        other => panic!("not a mapping: {other:?}"),
    }
}
