use colophon::edit::{key_path, set_in_text, unset_in_text, EditError};
use colophon::embed::KeySegment;

fn s(v: &str) -> fig::Value {
    fig::Value::Str(v.to_string())
}

#[test]
fn set_preserves_comments_and_format() {
    let text = "---\n# keep me\ntitle: Old\n---\nbody\n";
    let out = set_in_text(text, "title", s("New")).unwrap();
    assert_eq!(out, "---\n# keep me\ntitle: New\n---\nbody\n");
}

#[test]
fn set_in_a_fig_block_stays_fig() {
    let text = "```fig\ntitle = colophon\n```\nbody\n";
    let out = set_in_text(text, "title", s("renamed")).unwrap();
    assert!(out.starts_with("```fig\n"), "fence preserved: {out}");
    assert!(out.contains("title = renamed"), "fig dialect preserved: {out}");
    assert!(out.ends_with("```\nbody\n"));
}

#[test]
fn set_creates_a_block_when_none_exists() {
    let out = set_in_text("just a body\n", "title", s("T")).unwrap();
    assert!(out.starts_with("---\ntitle: T\n---\n"), "{out}");
    assert!(out.ends_with("just a body\n"));
}

#[test]
fn unset_removes_only_the_named_key() {
    let text = "---\ntitle: T\ndraft: true\n---\nbody\n";
    let out = unset_in_text(text, "draft").unwrap();
    assert_eq!(out, "---\ntitle: T\n---\nbody\n");
    assert!(unset_in_text("no meta\n", "x").is_err());
}

#[test]
fn unset_without_a_block_says_so() {
    assert!(matches!(unset_in_text("no meta\n", "x"), Err(EditError::NoMetadataBlock)));
    assert!(matches!(unset_in_text("---\ntitle: T\n---\n", "missing"), Err(EditError::Fig(_))));
}

#[test]
fn dotted_paths_mix_keys_and_indices() {
    let text = "---\ncontents:\n- a.md\n- b.md\n---\n";
    let out = set_in_text(text, "contents.1", s("c.md")).unwrap();
    assert!(out.contains("- a.md\n- c.md"), "{out}");
}

#[test]
fn key_path_splits_on_dots() {
    assert_eq!(
        key_path("a.b.0.c"),
        vec![
            KeySegment::Key("a".into()),
            KeySegment::Key("b".into()),
            KeySegment::Index(0),
            KeySegment::Key("c".into())
        ]
    );
    assert_eq!(key_path(""), vec![KeySegment::Key("".into())]);
    assert_eq!(key_path("a."), vec![KeySegment::Key("a".into()), KeySegment::Key("".into())]);
    assert_eq!(key_path("+7.007"), vec![KeySegment::Index(7), KeySegment::Index(7)]);
    assert_eq!(key_path("-1.1a.+"), vec![KeySegment::Key("-1".into()), KeySegment::Key("1a".into()), KeySegment::Key("+".into())]);
    assert_eq!(key_path("99999999999999999999999"), vec![KeySegment::Key("99999999999999999999999".into())]);
    assert_eq!(key_path("18446744073709551615"), vec![KeySegment::Index(usize::MAX)]);
}
