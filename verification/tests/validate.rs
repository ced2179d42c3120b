use colophon::identity::Id;
use colophon::index::{FileIndex, IndexStore};
use colophon::relation::{Relation, RelationSet};
use colophon::validate::{
    eq_ignore_ascii_case, findings, inverse_links, name_match, points_back, resolve_forward, ForwardTarget, CensusEntry, Finding,
    LinkSite, NameMatch, Resolution, Walk,
};
use colophon::meta::{parse_value, Value};

fn entry(source: &str, site: LinkSite, target: &str, resolution: Resolution) -> CensusEntry {
    CensusEntry { source: source.into(), site, target_text: target.into(), resolution }
}

#[test]
fn resolved_path_covers_path_case_and_id_forms() {
    assert_eq!(Resolution::Path("a.md".into()).resolved_path(), Some(&"a.md".to_string()));
    assert_eq!(
        Resolution::CaseMismatch { got: "d.md".into(), actual: "D.md".into() }.resolved_path(),
        Some(&"d.md".to_string())
    );
    assert_eq!(Resolution::Id { id: Id("x".into()), to: "x.md".into() }.resolved_path(), Some(&"x.md".to_string()));
    assert_eq!(Resolution::Broken.resolved_path(), None);
    assert_eq!(Resolution::DanglingId { id: Id("x".into()), tombstoned: true }.resolved_path(), None);
    assert_eq!(Resolution::MalformedId.resolved_path(), None);
    assert_eq!(Resolution::External.resolved_path(), None);
}

#[test]
fn each_unresolved_entry_becomes_its_finding() {
    let e = entry("index.md", LinkSite::Relation("contents".into()), "gone.md", Resolution::Broken);
    assert_eq!(
        e.finding(),
        Some(Finding::BrokenLink { doc: "index.md".into(), site: LinkSite::Relation("contents".into()), target: "gone.md".into() })
    );
    let e = entry(
        "index.md",
        LinkSite::Body(3..12),
        "docs/design.md",
        Resolution::CaseMismatch { got: "docs/design.md".into(), actual: "DESIGN.md".into() },
    );
    assert_eq!(
        e.finding(),
        Some(Finding::CaseMismatch {
            doc: "index.md".into(),
            site: LinkSite::Body(3..12),
            target: "docs/design.md".into(),
            actual: "DESIGN.md".into()
        })
    );
    let e = entry("a.md", LinkSite::Body(0..4), "colophon:zz", Resolution::MalformedId);
    assert!(matches!(e.finding(), Some(Finding::MalformedId { .. })));
    let e = entry("a.md", LinkSite::Body(0..4), "colophon:ab", Resolution::DanglingId { id: Id("ab".into()), tombstoned: false });
    assert!(matches!(e.finding(), Some(Finding::DanglingId { tombstoned: false, .. })));
    for ok in [Resolution::Path("a.md".into()), Resolution::External, Resolution::Id { id: Id("a".into()), to: "a.md".into() }] {
        assert_eq!(entry("a.md", LinkSite::Body(0..1), "t", ok).finding(), None);
    }
}

#[test]
fn findings_put_structural_ones_first() {
    let census = vec![
        entry("index.md", LinkSite::Relation("contents".into()), "a.md", Resolution::Path("a.md".into())),
        entry("index.md", LinkSite::Body(0..9), "gone.md", Resolution::Broken),
    ];
    let structural = vec![Finding::Unreadable { doc: "x.md".into(), error: "bad yaml".into() }];
    let all = findings(&census, structural);
    assert_eq!(all.len(), 2);
    assert!(matches!(&all[0], Finding::Unreadable { .. }));
    assert!(matches!(&all[1], Finding::BrokenLink { target, site: LinkSite::Body(_), .. } if target == "gone.md"));
}

#[test]
fn messages_name_the_document_site_and_target() {
    let f = Finding::BrokenLink { doc: "index.md".into(), site: LinkSite::Relation("contents".into()), target: "gone.md".into() };
    assert_eq!(f.message(), "index.md: broken contents link: gone.md");
    let f = Finding::CaseMismatch {
        doc: "index.md".into(),
        site: LinkSite::Body(0..3),
        target: "docs/design.md".into(),
        actual: "DESIGN.md".into(),
    };
    assert_eq!(f.message(), "index.md: case mismatch in body link: docs/design.md is DESIGN.md on disk");
    let f = Finding::DuplicateContainment { doc: "a.md".into(), target: "b.md".into() };
    assert_eq!(f.message(), "a.md: b.md is already contained elsewhere (cycle or second parent)");
    let f = Finding::MissingInverse { doc: "index.md".into(), child: "b.md".into(), inverse: "part_of".into() };
    assert_eq!(f.message(), "index.md: child b.md does not declare part_of back to it");
    let f = Finding::Unreadable { doc: "x.md".into(), error: "boom".into() };
    assert_eq!(f.message(), "x.md: unreadable: boom");
    let f = Finding::MalformedId { doc: "a.md".into(), site: LinkSite::Relation("links".into()), target: "colophon:zz".into() };
    assert_eq!(f.message(), "a.md: malformed ID in links link: colophon:zz (bad shape or check character)");
    let f = Finding::DanglingId { doc: "a.md".into(), site: LinkSite::Body(0..1), id: Id("ab".into()), tombstoned: true };
    assert_eq!(f.message(), "a.md: dangling body ID: colophon:ab (document was deleted)");
    let f = Finding::DanglingId { doc: "a.md".into(), site: LinkSite::Body(0..1), id: Id("ab".into()), tombstoned: false };
    assert_eq!(f.message(), "a.md: dangling body ID: colophon:ab (never issued in this registry)");
}

#[test]
fn exact_names_win_over_case_only_matches() {
    let listing = vec!["DESIGN.md".to_string(), "design.md".to_string(), "Design.md".to_string()];
    assert_eq!(name_match(&listing, "design.md"), NameMatch::Exact);
    let listing = vec!["DESIGN.md".to_string(), "other.md".to_string(), "Design.md".to_string()];
    assert_eq!(name_match(&listing, "design.md"), NameMatch::CaseOnly("Design.md".into()));
    assert_eq!(name_match(&listing, "gone.md"), NameMatch::Missing);
    assert_eq!(name_match(&[], "a.md"), NameMatch::Missing);
}

#[test]
fn case_folding_is_ascii_only() {
    assert!(eq_ignore_ascii_case("ReadMe.MD", "readme.md"));
    assert!(!eq_ignore_ascii_case("Ä.md", "ä.md"));
    assert!(!eq_ignore_ascii_case("a.md", "a.mdx"));
}

/// The diaryx walk over: index.md contains a.md and b.md; a.md contains b.md
/// again (a second parent); b.md has no part_of.
#[test]
fn the_walk_finds_second_parents_and_missing_inverses() {
    let set = RelationSet::diaryx();
    let mut walk = Walk::start(&set, "index.md");
    assert_eq!(walk.next(), Some("index.md".to_string()));
    // index.md: contents -> a.md, b.md
    let ask = walk.edge("index.md".into(), "contents".into(), "a.md".into(), Resolution::Path("a.md".into()));
    assert_eq!(ask, Some(("a.md".to_string(), "part_of".to_string())));
    walk.inverse_checked("index.md".into(), "a.md".into(), "part_of".into(), true);
    let ask = walk.edge("index.md".into(), "contents".into(), "b.md".into(), Resolution::Path("b.md".into()));
    assert_eq!(ask, Some(("b.md".to_string(), "part_of".to_string())));
    walk.inverse_checked("index.md".into(), "b.md".into(), "part_of".into(), false);
    // The queue is a stack: b.md comes next.
    assert_eq!(walk.next(), Some("b.md".to_string()));
    assert_eq!(walk.next(), Some("a.md".to_string()));
    // a.md: part_of -> index.md is no tree edge; contents -> b.md is a second parent.
    assert_eq!(walk.edge("a.md".into(), "part_of".into(), "index.md".into(), Resolution::Path("index.md".into())), None);
    assert_eq!(walk.edge("a.md".into(), "contents".into(), "b.md".into(), Resolution::Path("b.md".into())), None);
    walk.body_link("a.md".into(), 10..19, "gone.md".into(), Resolution::Broken);
    assert_eq!(walk.next(), None);
    let (census, structural) = walk.finish();
    assert_eq!(census.len(), 5);
    assert_eq!(structural.len(), 2);
    assert!(matches!(&structural[0], Finding::MissingInverse { child, .. } if child == "b.md"));
    assert!(matches!(&structural[1], Finding::DuplicateContainment { doc, target } if doc == "a.md" && target == "b.md"));
}

#[test]
fn the_walk_never_visits_a_document_twice() {
    let set = RelationSet::new().with(Relation::many("part")).spanning("part");
    let mut walk = Walk::start(&set, "root.md");
    assert_eq!(walk.next(), Some("root.md".to_string()));
    // A spanning edge back to the root is a cycle, not a descent.
    assert_eq!(walk.edge("root.md".into(), "part".into(), "root.md".into(), Resolution::Path("root.md".into())), None);
    // No inverse configured: a fresh child is queued without a question.
    assert_eq!(walk.edge("root.md".into(), "part".into(), "c.md".into(), Resolution::Path("c.md".into())), None);
    assert_eq!(walk.next(), Some("c.md".to_string()));
    assert_eq!(walk.next(), None);
    let all = walk.into_findings();
    assert_eq!(all.len(), 1);
    assert!(matches!(&all[0], Finding::DuplicateContainment { .. }));
}

#[test]
fn unresolved_spanning_targets_are_not_descended() {
    let set = RelationSet::diaryx();
    let mut walk = Walk::start(&set, "index.md");
    walk.next();
    assert_eq!(walk.edge("index.md".into(), "contents".into(), "gone.md".into(), Resolution::Broken), None);
    walk.unreadable("x.md".into(), "no such file".into());
    assert_eq!(walk.next(), None);
    let all = walk.into_findings();
    assert_eq!(all.len(), 2);
    assert!(matches!(&all[0], Finding::Unreadable { .. }));
    assert!(matches!(&all[1], Finding::BrokenLink { .. }));
}

#[test]
fn forward_links_resolve_by_kind() {
    let mut ix = FileIndex::new(fig::Format::Yaml);
    ix.register(&Id("live".into()), "notes/a.md");
    ix.register(&Id("gone".into()), "b.md");
    ix.unregister(&Id("gone".into()));
    assert_eq!(resolve_forward(&ix, ForwardTarget::External), Resolution::External);
    assert_eq!(
        resolve_forward(&ix, ForwardTarget::Id { id: Id("live".into()), well_formed: false }),
        Resolution::MalformedId
    );
    assert_eq!(
        resolve_forward(&ix, ForwardTarget::Id { id: Id("live".into()), well_formed: true }),
        Resolution::Id { id: Id("live".into()), to: "notes/a.md".into() }
    );
    assert_eq!(
        resolve_forward(&ix, ForwardTarget::Id { id: Id("gone".into()), well_formed: true }),
        Resolution::DanglingId { id: Id("gone".into()), tombstoned: true }
    );
    assert_eq!(
        resolve_forward(&ix, ForwardTarget::Id { id: Id("never".into()), well_formed: true }),
        Resolution::DanglingId { id: Id("never".into()), tombstoned: false }
    );
    assert_eq!(
        resolve_forward(&ix, ForwardTarget::Path { resolved: "a.md".into(), on_disk: NameMatch::Exact }),
        Resolution::Path("a.md".into())
    );
    assert_eq!(
        resolve_forward(
            &ix,
            ForwardTarget::Path { resolved: "docs/design.md".into(), on_disk: NameMatch::CaseOnly("DESIGN.md".into()) }
        ),
        Resolution::CaseMismatch { got: "docs/design.md".into(), actual: "DESIGN.md".into() }
    );
    assert_eq!(
        resolve_forward(&ix, ForwardTarget::Path { resolved: "x.md".into(), on_disk: NameMatch::Missing }),
        Resolution::Broken
    );
    assert!(ix.is_known(&Id("gone".into())));
}

#[test]
fn an_inverse_is_checked_only_on_a_child_with_metadata() {
    assert!(inverse_links(&Value::Null, "part_of").is_none());
    let meta = parse_value("part_of: ../index.md\ntitle: A\n", fig::Format::Yaml).unwrap();
    assert_eq!(inverse_links(&meta, "part_of"), Some(vec!["../index.md".to_string()]));
    assert_eq!(inverse_links(&meta, "missing"), Some(Vec::new()));
}

#[test]
fn a_child_points_back_when_one_back_link_reaches_the_parent() {
    let resolved = vec![None, Some("other.md".to_string()), Some("index.md".to_string())];
    assert!(points_back(&resolved, "index.md"));
    assert!(!points_back(&resolved, "parent.md"));
    assert!(!points_back(&[], "index.md"));
}
