use colophon::identity::{IdentityPolicy, Minter};
use colophon::index::{InMemoryIndex, IndexStore};
use colophon::relation::RelationSet;
use colophon::workspace::Workspace;

// A stand-in filesystem: the seam is exercised without a real backend.
#[derive(Clone)]
struct DummyFs;

#[test]
fn paths_only_by_default() {
    let ws = Workspace::builder(DummyFs).root("vault").build();
    assert_eq!(ws.root(), "vault");
    assert_eq!(ws.relations().spanning_relation(), Some("contents"));
    assert!(!ws.identity().registration().is_active());
}

#[test]
fn identity_opts_in_via_one_builder_line() {
    let ws = Workspace::builder(DummyFs)
        .root("vault")
        .identity(Minter::lazy())
        .index(InMemoryIndex::new())
        .build();
    assert!(ws.identity().registration().on_link);
    assert!(ws.index().is_empty());
}

#[test]
fn builder_defaults_to_the_current_directory_and_takes_a_vocabulary() {
    let ws = Workspace::builder(DummyFs).build();
    assert_eq!(ws.root(), ".");
    let ws = Workspace::builder(DummyFs).relations(RelationSet::new().spanning("part")).build();
    assert_eq!(ws.relations().spanning_relation(), Some("part"));
    assert!(ws.relations().relations().is_empty());
    let _fs: &DummyFs = ws.fs();
    assert!(ws.index().resolve(&colophon::identity::Id("x".into())).is_none());
}
