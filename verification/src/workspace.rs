//! The workspace handle: where the filesystem, relation vocabulary, identity
//! policy, and index store are composed.
//!
//! The type parameters encode the "identity is a bolt-on" design: a
//! `Workspace<FS>` defaults to [`NoIdentity`] + [`NoIndex`], paths only, with
//! the identity machinery compiled out. Opting in is one builder line that
//! flips a type parameter.
use vstd::prelude::*;
use crate::identity::NoIdentity;
use crate::index::NoIndex;
use crate::relation::RelationSet;

verus! {

/// A composed workspace: a filesystem, a relation vocabulary, an identity
/// policy, and an index store.
#[derive(Debug, Clone)]
pub struct Workspace<FS, Id = NoIdentity, Ix = NoIndex> {
    fs: FS,
    root: String,
    relations: RelationSet,
    identity: Id,
    index: Ix,
}

/// Builder for [`Workspace`]. Setting an identity policy or index store
/// returns a builder with a new type parameter, so the composed workspace
/// carries exactly the layers requested, and none it does not.
#[derive(Debug, Clone)]
pub struct WorkspaceBuilder<FS, Id, Ix> {
    fs: FS,
    root: String,
    relations: RelationSet,
    identity: Id,
    index: Ix,
}

impl<FS> Workspace<FS, NoIdentity, NoIndex> {
    /// Start building a paths-only workspace over `fs`. Defaults: root `"."`,
    /// the [`RelationSet::diaryx`] vocabulary, identity off.
    pub fn builder(fs: FS) -> (b: WorkspaceBuilder<FS, NoIdentity, NoIndex>)
        ensures
            b.spec_fs() == fs,
            b.spec_root() == "."@,
            b.spec_relations().relations_view() == RelationSet::diaryx_view(),
            b.spec_relations().spanning_view() == Some("contents"@),
    {
        WorkspaceBuilder {
            fs,
            root: String::from_str("."),
            relations: RelationSet::diaryx(),
            identity: NoIdentity,
            index: NoIndex,
        }
    }
}

impl<FS, Id, Ix> Workspace<FS, Id, Ix> {
    /// The filesystem.
    pub closed spec fn spec_fs(&self) -> FS {
        self.fs
    }

    /// The workspace root.
    pub closed spec fn spec_root(&self) -> Seq<char> {
        self.root@
    }

    /// The relation vocabulary.
    pub closed spec fn spec_relations(&self) -> RelationSet {
        self.relations
    }

    /// The identity policy.
    pub closed spec fn spec_identity(&self) -> Id {
        self.identity
    }

    /// The index store.
    pub closed spec fn spec_index(&self) -> Ix {
        self.index
    }

    /// The workspace root.
    pub fn root(&self) -> (r: &str)
        ensures
            r@ == self.spec_root(),
    {
        self.root.as_str()
    }

    /// The configured relation vocabulary.
    pub fn relations(&self) -> (r: &RelationSet)
        ensures
            *r == self.spec_relations(),
    {
        &self.relations
    }

    /// The identity policy.
    pub fn identity(&self) -> (r: &Id)
        ensures
            *r == self.spec_identity(),
    {
        &self.identity
    }

    /// The index store.
    pub fn index(&self) -> (r: &Ix)
        ensures
            *r == self.spec_index(),
    {
        &self.index
    }

    /// The underlying filesystem.
    pub fn fs(&self) -> (r: &FS)
        ensures
            *r == self.spec_fs(),
    {
        &self.fs
    }
}

impl<FS, Id, Ix> WorkspaceBuilder<FS, Id, Ix> {
    /// The filesystem.
    pub closed spec fn spec_fs(&self) -> FS {
        self.fs
    }

    /// The root set so far.
    pub closed spec fn spec_root(&self) -> Seq<char> {
        self.root@
    }

    /// The relation vocabulary set so far.
    pub closed spec fn spec_relations(&self) -> RelationSet {
        self.relations
    }

    /// The identity policy set so far.
    pub closed spec fn spec_identity(&self) -> Id {
        self.identity
    }

    /// The index store set so far.
    pub closed spec fn spec_index(&self) -> Ix {
        self.index
    }

    /// Set the workspace root.
    pub fn root(self, root: &str) -> (b: Self)
        ensures
            (b.spec_root(), b.spec_relations()) == settings_after(
                self.spec_root(),
                self.spec_relations(),
                seq![BuilderStep::Root(root@)],
            ),
            b.spec_root() == root@,
            b.spec_fs() == self.spec_fs(),
            b.spec_relations() == self.spec_relations(),
            b.spec_identity() == self.spec_identity(),
            b.spec_index() == self.spec_index(),
    {
        let ghost r0 = self.spec_root();
        let ghost rs0 = self.spec_relations();
        let mut b = self;
        b.root = String::from_str(root);
        proof {
            assert(settings_after(r0, rs0, Seq::<BuilderStep>::empty()) == (r0, rs0));
            let st = seq![BuilderStep::Root(root@)];
            assert(st.drop_last() =~= Seq::<BuilderStep>::empty());
            assert(st.last() == BuilderStep::Root(root@));
        }
        b
    }

    /// Set the relation vocabulary.
    pub fn relations(self, relations: RelationSet) -> (b: Self)
        ensures
            (b.spec_root(), b.spec_relations()) == settings_after(
                self.spec_root(),
                self.spec_relations(),
                seq![BuilderStep::Relations(relations)],
            ),
            b.spec_relations() == relations,
            b.spec_root() == self.spec_root(),
            b.spec_fs() == self.spec_fs(),
            b.spec_identity() == self.spec_identity(),
            b.spec_index() == self.spec_index(),
    {
        let ghost rel = relations;
        let ghost r0 = self.spec_root();
        let ghost rs0 = self.spec_relations();
        let mut b = self;
        b.relations = relations;
        proof {
            assert(settings_after(r0, rs0, Seq::<BuilderStep>::empty()) == (r0, rs0));
            let st = seq![BuilderStep::Relations(rel)];
            assert(st.drop_last() =~= Seq::<BuilderStep>::empty());
            assert(st.last() == BuilderStep::Relations(rel));
        }
        b
    }

    /// Attach an identity policy, turning identity on.
    pub fn identity<Id2>(self, identity: Id2) -> (b: WorkspaceBuilder<FS, Id2, Ix>)
        ensures
            b.spec_identity() == identity,
            b.spec_root() == self.spec_root(),
            b.spec_fs() == self.spec_fs(),
            b.spec_relations() == self.spec_relations(),
            b.spec_index() == self.spec_index(),
    {
        WorkspaceBuilder {
            fs: self.fs,
            root: self.root,
            relations: self.relations,
            identity,
            index: self.index,
        }
    }

    /// Attach an index store (where IDs are persisted).
    pub fn index<Ix2>(self, index: Ix2) -> (b: WorkspaceBuilder<FS, Id, Ix2>)
        ensures
            b.spec_index() == index,
            b.spec_root() == self.spec_root(),
            b.spec_fs() == self.spec_fs(),
            b.spec_relations() == self.spec_relations(),
            b.spec_identity() == self.spec_identity(),
    {
        WorkspaceBuilder {
            fs: self.fs,
            root: self.root,
            relations: self.relations,
            identity: self.identity,
            index,
        }
    }

    /// Finish building.
    pub fn build(self) -> (w: Workspace<FS, Id, Ix>)
        ensures
            w.spec_fs() == self.spec_fs(),
            w.spec_root() == self.spec_root(),
            w.spec_relations() == self.spec_relations(),
            w.spec_identity() == self.spec_identity(),
            w.spec_index() == self.spec_index(),
    {
        Workspace {
            fs: self.fs,
            root: self.root,
            relations: self.relations,
            identity: self.identity,
            index: self.index,
        }
    }
}

/// One setting made on a builder that keeps its layer types: a root or a
/// relation vocabulary.
pub enum BuilderStep {
    /// `.root(root)`.
    Root(Seq<char>),
    /// `.relations(relations)`.
    Relations(RelationSet),
}

/// The root and the vocabulary after each of `steps`, in order.
pub open spec fn settings_after(root: Seq<char>, relations: RelationSet, steps: Seq<BuilderStep>) -> (Seq<char>, RelationSet)
    decreases steps.len(),
{
    if steps.len() == 0 {
        (root, relations)
    } else {
        let (r, rs) = settings_after(root, relations, steps.drop_last());
        match steps.last() {
            BuilderStep::Root(x) => (x, rs),
            BuilderStep::Relations(x) => (r, x),
        }
    }
}

/// The root after a chain of settings is the last one set, or the starting
/// root when none was.
proof fn lemma_last_root(root: Seq<char>, relations: RelationSet, steps: Seq<BuilderStep>, j: int)
    requires
        -1 <= j < steps.len(),
        j >= 0 ==> steps[j] is Root,
        forall|k: int| j < k < steps.len() ==> !(#[trigger] steps[k] is Root),
    ensures
        settings_after(root, relations, steps).0 == (if j >= 0 { steps[j]->Root_0 } else { root }),
    decreases steps.len(),
{
    if steps.len() > 0 && j < steps.len() - 1 {
        let p = steps.drop_last();
        assert forall|k: int| j < k < p.len() implies !(#[trigger] p[k] is Root) by {
            assert(p[k] == steps[k]);
        }
        assert(!(steps[steps.len() - 1] is Root));
        if j >= 0 {
            assert(p[j] == steps[j]);
        }
        lemma_last_root(root, relations, p, j);
    }
}

/// The vocabulary after a chain of settings is the last one set, or the
/// starting one when none was.
proof fn lemma_last_relations(root: Seq<char>, relations: RelationSet, steps: Seq<BuilderStep>, j: int)
    requires
        -1 <= j < steps.len(),
        j >= 0 ==> steps[j] is Relations,
        forall|k: int| j < k < steps.len() ==> !(#[trigger] steps[k] is Relations),
    ensures
        settings_after(root, relations, steps).1 == (if j >= 0 { steps[j]->Relations_0 } else { relations }),
    decreases steps.len(),
{
    if steps.len() > 0 && j < steps.len() - 1 {
        let p = steps.drop_last();
        assert forall|k: int| j < k < p.len() implies !(#[trigger] p[k] is Relations) by {
            assert(p[k] == steps[k]);
        }
        assert(!(steps[steps.len() - 1] is Relations));
        if j >= 0 {
            assert(p[j] == steps[j]);
        }
        lemma_last_relations(root, relations, p, j);
    }
}

/// The last setting wins: over any chain of `.root(..)` and `.relations(..)`
/// calls, the root is the one set last (the starting root when none was set),
/// and likewise the vocabulary; a setting of one part never touches the other.
/// `last_root` and `last_relations` are the positions of the last setting of
/// each part, `-1` for none.
pub proof fn law_last_setting_wins(
    root: Seq<char>,
    relations: RelationSet,
    steps: Seq<BuilderStep>,
    last_root: int,
    last_relations: int,
)
    requires
        -1 <= last_root < steps.len(),
        last_root >= 0 ==> steps[last_root] is Root,
        forall|k: int| last_root < k < steps.len() ==> !(#[trigger] steps[k] is Root),
        -1 <= last_relations < steps.len(),
        last_relations >= 0 ==> steps[last_relations] is Relations,
        forall|k: int| last_relations < k < steps.len() ==> !(#[trigger] steps[k] is Relations),
    ensures
        settings_after(root, relations, steps).0 == (if last_root >= 0 { steps[last_root]->Root_0 } else { root }),
        settings_after(root, relations, steps).1 == (if last_relations >= 0 {
            steps[last_relations]->Relations_0
        } else {
            relations
        }),
{
    lemma_last_root(root, relations, steps, last_root);
    lemma_last_relations(root, relations, steps, last_relations);
}

} // verus!
