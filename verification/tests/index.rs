use colophon::identity::Id;
use colophon::index::{FileIndex, InMemoryIndex, IndexStore, NoIndex, RegistryError};

fn parse(path: &str, text: &str) -> Result<FileIndex, RegistryError> {
    FileIndex::parse(path, text)
}

#[test]
fn registers_and_resolves_both_directions() {
    let mut ix = InMemoryIndex::new();
    let id = Id("ajp7eq".into());
    ix.register(&id, "notes/a.md");
    assert_eq!(ix.resolve(&id), Some("notes/a.md".to_string()));
    assert_eq!(ix.id_for_path("notes/a.md"), Some(id.clone()));
    assert_eq!(ix.len(), 1);
}

#[test]
fn move_updates_path_and_clears_stale_reverse() {
    let mut ix = InMemoryIndex::new();
    let id = Id("ajp7eq".into());
    ix.register(&id, "a.md");
    ix.set_path(&id, "moved/a.md");
    assert_eq!(ix.resolve(&id), Some("moved/a.md".to_string()));
    assert_eq!(ix.id_for_path("a.md"), None);
    assert_eq!(ix.id_for_path("moved/a.md"), Some(id));
}

#[test]
fn unregister_removes_both_directions() {
    let mut ix = InMemoryIndex::new();
    let id = Id("x".into());
    ix.register(&id, "a.md");
    ix.unregister(&id);
    assert!(ix.is_empty());
    assert_eq!(ix.id_for_path("a.md"), None);
}

#[test]
fn in_memory_index_forgets_an_unregistered_id() {
    let mut ix = InMemoryIndex::new();
    let id = Id("x".into());
    ix.register(&id, "a.md");
    ix.unregister(&id);
    assert!(!ix.is_known(&id));
    let mut none = NoIndex;
    none.register(&id, "a.md");
    assert_eq!(none.resolve(&id), None);
    assert!(!none.is_known(&id));
}

#[test]
fn file_index_round_trips_sorted_with_tombstones() {
    let mut ix = FileIndex::new(fig::Format::Yaml);
    ix.register(&Id("zzzzzzz".into()), "z.md");
    ix.register(&Id("bcdfghj".into()), "notes/a.md");
    ix.register(&Id("mmmmmmm".into()), "gone.md");
    ix.unregister(&Id("mmmmmmm".into()));

    let text = ix.render().unwrap();
    let b = text.find("bcdfghj").unwrap();
    let m = text.find("mmmmmmm").unwrap();
    let z = text.find("zzzzzzz").unwrap();
    assert!(b < m && m < z, "{text}");
    assert!(text.contains("mmmmmmm: null"), "{text}");

    let back = parse("registry.yaml", &text).unwrap();
    assert_eq!(back.resolve(&Id("bcdfghj".into())), Some("notes/a.md".to_string()));
    assert_eq!(back.resolve(&Id("mmmmmmm".into())), None);
    assert!(back.is_known(&Id("mmmmmmm".into())), "tombstone survives the round-trip");
    assert!(back.is_tombstoned(&Id("mmmmmmm".into())));
    assert!(!back.is_dirty());
}

#[test]
fn registry_host_keeps_its_self_description_and_comments() {
    let host = "# who am I? see title
title: ID registry
part_of: index.md
registry:
  bcdfghj: a.md
";
    let mut ix = parse("registry.yaml", host).unwrap();
    ix.register(&Id("zzzzzzz".into()), "z.md");
    let out = ix.render().unwrap();
    assert!(out.contains("# who am I? see title"), "{out}");
    assert!(out.contains("title: ID registry"), "{out}");
    assert!(out.contains("part_of: index.md"), "{out}");
    assert!(out.contains("bcdfghj: a.md"), "{out}");
    assert!(out.contains("zzzzzzz: z.md"), "{out}");
}

#[test]
fn registry_can_live_in_markdown_frontmatter() {
    let host = "---
title: Registry
part_of: index.md
registry:
  bcdfghj: a.md
---
# About this file

The workspace's ID registry lives in my frontmatter.
";
    let mut ix = parse("registry.md", host).unwrap();
    assert_eq!(ix.resolve(&Id("bcdfghj".into())), Some("a.md".to_string()));
    ix.set_path(&Id("bcdfghj".into()), "moved/a.md");
    let out = ix.render().unwrap();
    assert!(out.starts_with("---
title: Registry"), "fences kept: {out}");
    assert!(out.contains("bcdfghj: moved/a.md"), "{out}");
    assert!(out.ends_with("The workspace's ID registry lives in my frontmatter.\n"), "body kept: {out}");

    let back = parse("registry.md", &out).unwrap();
    assert_eq!(back.resolve(&Id("bcdfghj".into())), Some("moved/a.md".to_string()));
}

#[test]
fn tombstoned_ids_are_never_free_for_reminting() {
    let mut ix = FileIndex::new(fig::Format::Yaml);
    let id = Id("bcdfghj".into());
    ix.register(&id, "a.md");
    ix.unregister(&id);
    assert_eq!(ix.resolve(&id), None, "does not resolve");
    assert!(ix.is_known(&id), "but is still known — never reminted");
}

#[test]
fn dirty_tracks_mutations() {
    let mut ix = FileIndex::new(fig::Format::Yaml);
    assert!(!ix.is_dirty());
    ix.register(&Id("x".into()), "a.md");
    assert!(ix.is_dirty());
    ix.mark_clean();
    assert!(!ix.is_dirty());
}

#[test]
fn empty_text_is_an_empty_registry() {
    let ix = parse("registry.yaml", "").unwrap();
    assert!(ix.is_empty());
}

#[test]
fn a_bad_registry_entry_is_an_error() {
    let host = "registry:\n  aaaa: a.md\n  bbbb: 7\n";
    match parse("registry.yaml", host) {
        Err(RegistryError::BadEntry(id)) => assert_eq!(id, "bbbb"),
        other => panic!("expected a bad entry, got {other:?}"),
    }
}

#[test]
fn an_unchanged_registry_renders_its_host_as_is() {
    let host = "title: R\nregistry:\n  bbbb: b.md\n  aaaa: null\n";
    let mut ix = parse("registry.yaml", host).unwrap();
    assert_eq!(ix.render().unwrap(), host);
    assert!(ix.is_tombstoned(&Id("aaaa".into())));
    assert_eq!(ix.len(), 1);
}

#[test]
fn iter_lists_live_records_sorted() {
    let mut ix = FileIndex::new(fig::Format::Yaml);
    ix.register(&Id("b".into()), "b.md");
    ix.register(&Id("a".into()), "a.md");
    ix.register(&Id("c".into()), "c.md");
    ix.unregister(&Id("c".into()));
    let recs: Vec<(String, String)> = ix.iter().into_iter().map(|(i, p)| (i.0, p)).collect();
    assert_eq!(recs, vec![("a".to_string(), "a.md".to_string()), ("b".to_string(), "b.md".to_string())]);
}

#[test]
fn pending_lists_only_changed_records() {
    let host = "registry:\n  aaaa: a.md\n  bbbb: b.md\n";
    let mut ix = parse("registry.yaml", host).unwrap();
    ix.set_path(&Id("bbbb".into()), "moved/b.md");
    ix.unregister(&Id("aaaa".into()));
    ix.register(&Id("cccc".into()), "c.md");
    let cur = ix.record_set();
    let pending: Vec<(String, Option<String>)> = ix.pending(&cur).into_iter().map(|(i, v)| (i.0, v)).collect();
    assert_eq!(
        pending,
        vec![
            ("aaaa".to_string(), None),
            ("bbbb".to_string(), Some("moved/b.md".to_string())),
            ("cccc".to_string(), Some("c.md".to_string()))
        ]
    );
}

#[test]
fn a_prose_host_without_metadata_starts_an_empty_registry() {
    let mut ix = parse("notes.md", "# Just prose\n").unwrap();
    assert!(ix.is_empty());
    ix.register(&Id("aaaa".into()), "a.md");
    let out = ix.render().unwrap();
    assert!(out.contains("aaaa"), "{out}");
    assert!(out.contains("# Just prose"), "{out}");
    let back = parse("notes.md", &out).unwrap();
    assert_eq!(back.resolve(&Id("aaaa".into())), Some("a.md".to_string()));
}

#[test]
fn a_second_render_without_changes_returns_the_same_text() {
    let mut ix = FileIndex::new(fig::Format::Yaml);
    ix.register(&Id("aaaa".into()), "a.md");
    let first = ix.render().unwrap();
    let second = ix.render().unwrap();
    assert_eq!(first, second);
    ix.register(&Id("bbbb".into()), "b.md");
    let third = ix.render().unwrap();
    assert!(third.contains("aaaa: a.md") && third.contains("bbbb: b.md"), "{third}");
}

#[test]
fn a_host_that_is_no_mapping_cannot_take_a_registry() {
    let mut ix = parse("registry.yaml", "- a\n- b\n").unwrap();
    assert!(ix.is_empty());
    ix.register(&Id("aaaa".into()), "a.md");
    assert!(matches!(ix.render(), Err(RegistryError::HostNotMapping)));
}

#[test]
fn a_host_fig_cannot_parse_is_an_error() {
    assert!(matches!(parse("registry.json", "{\"registry\": "), Err(RegistryError::Fig(_))));
}

#[test]
fn a_retired_id_registered_again_is_live_and_no_longer_tombstoned() {
    let mut ix = FileIndex::new(fig::Format::Yaml);
    let id = Id("bcdfghj".into());
    ix.register(&id, "a.md");
    ix.unregister(&id);
    assert!(ix.is_tombstoned(&id));
    ix.register(&id, "b.md");
    assert_eq!(ix.resolve(&id), Some("b.md".to_string()));
    assert!(!ix.is_tombstoned(&id));
    assert!(ix.is_known(&id));
}
