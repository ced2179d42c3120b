use colophon::config::{
    diagnose, registration_from_str, registration_str, spec_ahead, ConfigIssueKind, RelationStyleConfig, WorkspaceConfig, SPEC_VERSION,
};
use colophon::identity::Registration;
use colophon::meta::{Mapping, Value};
use colophon::vocab::{
    Addressing, ContentFormat, EmbedStyle, Fixity, IdStorage, MetadataFormat, Notation, PathStyle,
};

/// A config surface as a `Value::Mapping` from `(key, value)` pairs, values
/// inferred as bools where they parse.
fn config_doc(pairs: &[(&str, &str)]) -> Value {
    let mut map = Mapping::new();
    for (k, v) in pairs {
        let value = match *v {
            "true" => Value::Bool(true),
            "false" => Value::Bool(false),
            other => Value::String(other.into()),
        };
        map.insert((*k).into(), value);
    }
    Value::Mapping(map)
}

/// A config value with a top-level `references` block and a `relations` block
/// of per-relation overrides.
fn config_doc_nested(references: &[(&str, &str)], relations: &[(&str, &[(&str, &str)])]) -> Value {
    let mut top = Mapping::new();
    let mut refs = Mapping::new();
    for (k, v) in references {
        refs.insert((*k).into(), Value::String((*v).into()));
    }
    top.insert("references".into(), Value::Mapping(refs));
    let mut rels = Mapping::new();
    for (name, axes) in relations {
        let mut spec = Mapping::new();
        for (k, v) in *axes {
            spec.insert((*k).into(), Value::String((*v).into()));
        }
        rels.insert((*name).into(), Value::Mapping(spec));
    }
    top.insert("relations".into(), Value::Mapping(rels));
    Value::Mapping(top)
}

#[test]
fn presets_encode_the_two_styles() {
    assert_eq!(WorkspaceConfig::paths_only().identity, Registration::off());
    assert_eq!(WorkspaceConfig::paths_only().reference_target, Addressing::Path);
    assert!(WorkspaceConfig::stable_ids().identity.on_link);
    assert_eq!(WorkspaceConfig::stable_ids().reference_target, Addressing::Id);
}

#[test]
fn round_trips_through_a_nested_mapping() {
    let config = WorkspaceConfig {
        identity: Registration::eager(),
        notation: Notation::Bare,
        path_style: PathStyle::Canonical,
        reference_target: Addressing::Id,
        reference_label: true,
        relation_styles: vec![
            (
                "contents".to_string(),
                RelationStyleConfig {
                    notation: Some(Notation::Wikilink),
                    path_style: None,
                    target: Some(Addressing::Alias),
                    label: None,
                },
            ),
            (
                "part_of".to_string(),
                RelationStyleConfig {
                    notation: Some(Notation::Markdown),
                    path_style: Some(PathStyle::Relative),
                    target: Some(Addressing::Id),
                    label: Some(false),
                },
            ),
        ],
        id_storage: IdStorage::Frontmatter,
        default_embed_format: MetadataFormat::Yaml,
        embed_style: EmbedStyle::CodeBlock,
        content_format: ContentFormat::Djot,
        recycle_bin: false,
        fixity: Fixity::Full,
        updated: "modified".to_string(),
    };
    let back = WorkspaceConfig::from_meta(&Value::Mapping(config.to_mapping()));
    assert_eq!(back, config);
}

#[test]
fn relation_overrides_read_over_no_overrides() {
    let mut cfg = WorkspaceConfig::default();
    cfg.apply(&config_doc_nested(
        &[("target", "id")],
        &[
            ("contents", &[("notation", "wikilink"), ("target", "alias")]),
            ("part_of", &[("target", "id")]),
        ],
    ));
    assert_eq!(cfg.reference_target, Addressing::Id);
    assert_eq!(cfg.relation_styles.len(), 2);
    assert_eq!(cfg.relation_styles[0].0, "contents");
    assert_eq!(
        cfg.relation_styles[0].1,
        RelationStyleConfig {
            notation: Some(Notation::Wikilink),
            path_style: None,
            target: Some(Addressing::Alias),
            label: None
        }
    );
    assert_eq!(cfg.relation_styles[1].0, "part_of");
    assert_eq!(cfg.relation_styles[1].1.target, Some(Addressing::Id));
    assert_eq!(cfg.relation_styles[1].1.notation, None);
}

#[test]
fn relation_overrides_stay_sorted_by_name() {
    let mut cfg = WorkspaceConfig::default();
    cfg.apply(&config_doc_nested(&[], &[("zeta", &[("label", "x")]), ("alpha", &[("target", "path")])]));
    let names: Vec<&str> = cfg.relation_styles.iter().map(|(n, _)| n.as_str()).collect();
    assert_eq!(names, vec!["alpha", "zeta"]);
    // A second apply updates an existing override in place.
    cfg.apply(&config_doc_nested(&[], &[("zeta", &[("notation", "bare")])]));
    assert_eq!(cfg.relation_styles.len(), 2);
    assert_eq!(cfg.relation_styles[1].1.notation, Some(Notation::Bare));
}

#[test]
fn reference_axes_orthogonalize_notation_and_resolution() {
    let mut cfg = WorkspaceConfig::default();
    let mut refs = Mapping::new();
    refs.insert("notation".into(), Value::String("bare".into()));
    refs.insert("path_style".into(), Value::String("canonical".into()));
    let mut top = Mapping::new();
    top.insert("references".into(), Value::Mapping(refs));
    cfg.apply(&Value::Mapping(top));
    assert_eq!(cfg.notation, Notation::Bare);
    assert_eq!(cfg.path_style, PathStyle::Canonical);
}

#[test]
fn apply_overlays_only_present_keys_so_the_config_document_wins() {
    let mut config = WorkspaceConfig::default();
    config.apply(&config_doc(&[("content_format", "djot")]));
    assert_eq!(config.content_format, ContentFormat::Djot);
    assert_eq!(config.identity, Registration::lazy(), "identity untouched");
    config.apply(&config_doc(&[("identity", "none")]));
    assert_eq!(config.identity, Registration::off());
    assert_eq!(config.content_format, ContentFormat::Djot);
}

#[test]
fn apply_keeps_a_value_that_does_not_parse() {
    let mut config = WorkspaceConfig::default();
    config.apply(&config_doc(&[("fixity", "alll"), ("recycle_bin", "maybe")]));
    assert_eq!(config, WorkspaceConfig::default());
}

#[test]
fn diagnose_is_silent_on_a_clean_config_and_on_user_fields() {
    let doc = config_doc(&[
        ("title", "colophon config"),
        ("part_of", "index.md"),
        ("id", "abc123"),
        ("spec", "1"),
        ("identity", "lazy"),
        ("fixity", "all"),
        ("recycle_bin", "false"),
        ("content_format", "djot"),
        ("id_storage", "both"),
        ("author", "someone"),
    ]);
    assert!(diagnose(&doc).is_empty(), "flagged: {:?}", diagnose(&doc));
}

#[test]
fn diagnose_flags_a_misspelled_top_level_key_with_a_suggestion() {
    let issues = diagnose(&config_doc(&[("recyle_bin", "false")]));
    assert_eq!(issues.len(), 1);
    assert_eq!(
        issues[0].kind,
        ConfigIssueKind::UnknownKey {
            suggestion: "recycle_bin".into()
        }
    );
}

#[test]
fn diagnose_flags_bad_values_and_typos_inside_nested_blocks() {
    let mut refs = Mapping::new();
    refs.insert("notaton".into(), Value::String("markdown".into()));
    refs.insert("target".into(), Value::String("pointer".into()));
    let mut top = Mapping::new();
    top.insert("references".into(), Value::Mapping(refs));
    let issues = diagnose(&Value::Mapping(top));
    assert!(
        issues.iter().any(|i| i.key == "references.notaton"
            && matches!(&i.kind, ConfigIssueKind::UnknownKey { suggestion } if suggestion == "references.notation")),
        "{issues:?}"
    );
    assert!(
        issues.iter().any(|i| i.key == "references.target"
            && matches!(&i.kind, ConfigIssueKind::InvalidValue { value, .. } if value == "pointer")),
        "{issues:?}"
    );
}

#[test]
fn diagnose_flags_an_unrecognized_value_on_a_real_key() {
    let issues = diagnose(&config_doc(&[("fixity", "alll")]));
    assert_eq!(issues.len(), 1);
    match &issues[0].kind {
        ConfigIssueKind::InvalidValue { value, expected } => {
            assert_eq!(value, "alll");
            assert!(expected.contains(&"all".to_string()), "{expected:?}");
        }
        other => panic!("expected InvalidValue, got {other:?}"),
    }
}

#[test]
fn diagnose_flags_a_block_that_is_not_a_mapping() {
    let issues = diagnose(&config_doc(&[("metadata", "yaml")]));
    assert_eq!(issues.len(), 1);
    assert_eq!(issues[0].key, "metadata");
    match &issues[0].kind {
        ConfigIssueKind::InvalidValue { value, expected } => {
            assert_eq!(value, "yaml");
            assert_eq!(expected, &vec!["a block of keys".to_string()]);
        }
        other => panic!("expected InvalidValue, got {other:?}"),
    }
}

#[test]
fn diagnose_summarizes_non_string_values() {
    let mut m = Mapping::new();
    m.insert("content_format".into(), Value::Int(-42));
    m.insert("recycle_bin".into(), Value::String("yes".into()));
    let issues = diagnose(&Value::Mapping(m));
    assert_eq!(issues.len(), 2);
    assert!(matches!(&issues[0].kind, ConfigIssueKind::InvalidValue { value, .. } if value == "-42"));
    assert!(matches!(&issues[1].kind, ConfigIssueKind::InvalidValue { value, expected } if value == "yes" && expected == &vec!["true".to_string(), "false".to_string()]));
}

#[test]
fn diagnose_ignores_a_non_mapping_surface() {
    assert!(diagnose(&Value::Null).is_empty());
    assert!(diagnose(&Value::String("x".into())).is_empty());
}

#[test]
fn spec_ahead_fires_only_for_a_newer_spec() {
    assert_eq!(spec_ahead(&config_doc(&[("identity", "lazy")])), None, "absent spec");
    let at = {
        let mut m = Mapping::new();
        m.insert("spec".into(), Value::Int(SPEC_VERSION));
        Value::Mapping(m)
    };
    assert_eq!(spec_ahead(&at), None, "current spec is fine");
    let ahead = {
        let mut m = Mapping::new();
        m.insert("spec".into(), Value::Int(SPEC_VERSION + 1));
        Value::Mapping(m)
    };
    assert_eq!(spec_ahead(&ahead), Some(SPEC_VERSION + 1));
}

#[test]
fn serialized_defaults_and_presets_all_pass_diagnosis() {
    for config in [WorkspaceConfig::default(), WorkspaceConfig::paths_only(), WorkspaceConfig::stable_ids()] {
        let serialized = Value::Mapping(config.to_mapping());
        assert!(diagnose(&serialized).is_empty(), "flagged itself: {:?}", diagnose(&serialized));
    }
}

#[test]
fn serialized_config_reads_back_as_itself() {
    for config in [WorkspaceConfig::default(), WorkspaceConfig::paths_only(), WorkspaceConfig::stable_ids()] {
        let back = WorkspaceConfig::from_meta(&Value::Mapping(config.to_mapping()));
        assert_eq!(back, config);
    }
}

#[test]
fn to_mapping_writes_keys_in_order() {
    let m = WorkspaceConfig::default().to_mapping();
    let keys: Vec<&str> = m.iter().iter().map(|(k, _)| k.as_str()).collect();
    assert_eq!(
        keys,
        vec![
            "spec",
            "content_format",
            "metadata",
            "references",
            "id_storage",
            "updated",
            "identity",
            "fixity",
            "recycle_bin"
        ]
    );
    assert_eq!(m.get("identity").and_then(|v| v.as_str()), Some("lazy"));
    assert_eq!(m.get("fixity").and_then(|v| v.as_str()), Some("attachments"));
    assert_eq!(m.get("id_storage").and_then(|v| v.as_str()), Some("both"));
}

#[test]
fn registration_spellings_read_back() {
    assert_eq!(registration_str(Registration::off()), "none");
    assert_eq!(registration_str(Registration::eager()), "eager");
    assert_eq!(registration_from_str("off"), Some(Registration::off()));
    assert_eq!(registration_from_str("lazy"), Some(Registration::lazy()));
    assert_eq!(registration_from_str("sometimes"), None);
}

#[test]
fn a_custom_trigger_set_is_named_after_its_nearest_preset() {
    let create_only = Registration { on_create: true, on_link: false, on_publish: false };
    assert_eq!(registration_str(create_only), "none");
    let link_only = Registration { on_create: false, on_link: true, on_publish: false };
    assert_eq!(registration_str(link_only), "lazy");
    let create_and_publish = Registration { on_create: true, on_link: false, on_publish: true };
    assert_eq!(registration_str(create_and_publish), "eager");
    assert_eq!(registration_str(Registration::lazy()), "lazy");
}
