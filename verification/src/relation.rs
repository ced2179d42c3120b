//! Relations: the configurable vocabulary of links declared in metadata.
//!
//! The mechanism is fixed (links live in embedded metadata; one relation is
//! the canonical tree; the rest overlay it) but the vocabulary is not. A
//! [`RelationSet`] names which fields are links, their cardinality, their
//! inverse, and which single relation is **spanning**.
use vstd::prelude::*;
use crate::meta::Value;

verus! {

/// How many targets a relation field may hold.
#[derive(Debug, Clone, Copy, PartialEq, Eq, Structural)]
pub enum Cardinality {
    /// At most one target (e.g. a single-parent `part_of`).
    One,
    /// Any number of targets (e.g. `contents`, `links`).
    Many,
}

/// A single named relation: the frontmatter key it reads, its inverse (if the
/// pair is maintained bidirectionally), and its cardinality.
#[derive(Debug, Clone)]
pub struct Relation {
    /// The frontmatter key this relation reads (e.g. `"contents"`).
    pub name: String,
    /// The inverse relation's name, if any (e.g. `contents` and `part_of`).
    pub inverse: Option<String>,
    /// How many targets the field may hold.
    pub cardinality: Cardinality,
}

/// A relation with its names as character sequences.
pub struct RelationView {
    pub name: Seq<char>,
    pub inverse: Option<Seq<char>>,
    pub cardinality: Cardinality,
}

impl Relation {
    /// The relation with its names as character sequences.
    pub open spec fn view(&self) -> RelationView {
        RelationView {
            name: self.name@,
            inverse: match self.inverse {
                Some(s) => Some(s@),
                None => None,
            },
            cardinality: self.cardinality,
        }
    }

    /// A single-valued relation (cardinality [`Cardinality::One`]).
    pub fn one(name: &str) -> (r: Self)
        ensures
            r.view() == (RelationView { name: name@, inverse: None, cardinality: Cardinality::One }),
    {
        Relation { name: String::from_str(name), inverse: None, cardinality: Cardinality::One }
    }

    /// A multi-valued relation (cardinality [`Cardinality::Many`]).
    pub fn many(name: &str) -> (r: Self)
        ensures
            r.view() == (RelationView { name: name@, inverse: None, cardinality: Cardinality::Many }),
    {
        Relation { name: String::from_str(name), inverse: None, cardinality: Cardinality::Many }
    }

    /// Declare this relation's inverse (builder-style).
    pub fn inverse(self, name: &str) -> (r: Self)
        ensures
            r.view() == (RelationView { inverse: Some(name@), ..self.view() }),
    {
        let mut r = self;
        r.inverse = Some(String::from_str(name));
        r
    }
}

/// A link found in a document's metadata: which relation declared it and the
/// raw (unresolved) target string.
#[derive(Debug, Clone, PartialEq, Eq)]
pub struct Edge {
    /// The relation (frontmatter key) that declared this link.
    pub relation: String,
    /// The raw target string exactly as written in the metadata.
    pub target: String,
}

impl Edge {
    /// The edge as a (relation, target) pair of character sequences.
    pub open spec fn view(&self) -> (Seq<char>, Seq<char>) {
        (self.relation@, self.target@)
    }
}

/// The configured set of relations for a workspace, and which one is spanning.
///
/// The **spanning** relation is the single-parent containment tree that gives
/// the workspace its self-describing discovery spine. All other relations may
/// be many-to-many overlays.
#[derive(Debug, Clone)]
pub struct RelationSet {
    relations: Vec<Relation>,
    spanning: Option<String>,
}

/// The edges one relation named `name` contributes for the field value `v`.
pub open spec fn relation_edges(name: Seq<char>, targets: Seq<Seq<char>>) -> Seq<(Seq<char>, Seq<char>)> {
    targets.map_values(|t: Seq<char>| (name, t))
}

/// The edges the first relations of `rels` declare in `meta`, in relation
/// order and, within a relation, in field order.
pub open spec fn edges_spec(rels: Seq<RelationView>, meta: Value) -> Seq<(Seq<char>, Seq<char>)>
    decreases rels.len(),
{
    if rels.len() == 0 {
        Seq::empty()
    } else {
        let rest = edges_spec(rels.drop_last(), meta);
        match meta.spec_get(rels.last().name) {
            Some(v) => rest + relation_edges(rels.last().name, v.spec_link_strings()),
            None => rest,
        }
    }
}

impl RelationSet {
    /// The relations, in declaration order.
    pub closed spec fn relations_view(&self) -> Seq<RelationView> {
        self.relations@.map_values(|r: Relation| r.view())
    }

    /// The spanning relation's name, if one is set.
    pub closed spec fn spanning_view(&self) -> Option<Seq<char>> {
        match self.spanning {
            Some(s) => Some(s@),
            None => None,
        }
    }

    /// An empty relation set.
    pub fn new() -> (r: Self)
        ensures
            r.relations_view() == Seq::<RelationView>::empty(),
            r.spanning_view() is None,
    {
        let r = RelationSet { relations: Vec::new(), spanning: None };
        proof {
            assert(r.relations_view() =~= Seq::<RelationView>::empty());
        }
        r
    }

    /// Add a relation (builder-style).
    pub fn with(self, relation: Relation) -> (r: Self)
        ensures
            r.relations_view() == self.relations_view().push(relation.view()),
            r.spanning_view() == self.spanning_view(),
    {
        let mut r = self;
        let ghost before = r.relations@;
        r.relations.push(relation);
        proof {
            assert(r.relations@ == before.push(relation));
            assert(r.relations_view() =~= self.relations_view().push(relation.view()));
        }
        r
    }

    /// Mark the named relation as the spanning (canonical tree) relation.
    pub fn spanning(self, name: &str) -> (r: Self)
        ensures
            r.relations_view() == self.relations_view(),
            r.spanning_view() == Some(name@),
    {
        let mut r = self;
        r.spanning = Some(String::from_str(name));
        r
    }

    /// The relations of the diaryx vocabulary, in declaration order.
    pub open spec fn diaryx_view() -> Seq<RelationView> {
        seq![
            RelationView { name: "contents"@, inverse: Some("part_of"@), cardinality: Cardinality::Many },
            RelationView { name: "part_of"@, inverse: Some("contents"@), cardinality: Cardinality::One },
            RelationView { name: "links"@, inverse: Some("link_of"@), cardinality: Cardinality::Many },
            RelationView { name: "link_of"@, inverse: Some("links"@), cardinality: Cardinality::Many },
        ]
    }

    /// The diaryx vocabulary: `contents`/`part_of` containment (spanning) plus
    /// `links`/`link_of` arbitrary cross-references.
    pub fn diaryx() -> (r: Self)
        ensures
            r.relations_view() == Self::diaryx_view(),
            r.spanning_view() == Some("contents"@),
    {
        let r = Self::new()
            .with(Relation::many("contents").inverse("part_of"))
            .with(Relation::one("part_of").inverse("contents"))
            .with(Relation::many("links").inverse("link_of"))
            .with(Relation::many("link_of").inverse("links"))
            .spanning("contents");
        proof {
            assert(r.relations_view() =~= Self::diaryx_view());
        }
        r
    }

    /// The configured relations.
    pub fn relations(&self) -> (r: &[Relation])
        ensures
            r@.map_values(|x: Relation| x.view()) == self.relations_view(),
    {
        self.relations.as_slice()
    }

    /// The name of the spanning relation, if one is configured.
    pub fn spanning_relation(&self) -> (r: Option<&str>)
        ensures
            r matches Some(s) ==> self.spanning_view() == Some(s@),
            r is None ==> self.spanning_view() is None,
    {
        match &self.spanning {
            Some(s) => Some(s.as_str()),
            None => None,
        }
    }

    /// Extract every link declared by a document's metadata, tagged by
    /// relation: for each relation in order, the targets its field declares.
    pub fn edges(&self, meta: &Value) -> (r: Vec<Edge>)
        ensures
            r@.map_values(|e: Edge| e.view()) == edges_spec(self.relations_view(), *meta),
    {
        let ghost rels = self.relations_view();
        let mut edges: Vec<Edge> = Vec::new();
        let mut i: usize = 0;
        while i < self.relations.len()
            invariant
                rels == self.relations_view(),
                rels == self.relations@.map_values(|r: Relation| r.view()),
                i <= self.relations@.len(),
                edges@.map_values(|e: Edge| e.view()) == edges_spec(rels.take(i as int), *meta),
            decreases self.relations@.len() - i,
        {
            let relation = &self.relations[i];
            proof {
                assert(rels.take(i + 1).drop_last() =~= rels.take(i as int));
                assert(rels.take(i + 1).last() == relation.view());
            }
            match meta.get(relation.name.as_str()) {
                Some(value) => {
                    let targets = value.link_strings();
                    let ghost base = edges@.map_values(|e: Edge| e.view());
                    let ghost tv = targets@.map_values(|s: String| s@);
                    let mut j: usize = 0;
                    while j < targets.len()
                        invariant
                            j <= targets@.len(),
                            tv == targets@.map_values(|s: String| s@),
                            edges@.map_values(|e: Edge| e.view()) == base + relation_edges(
                                relation.name@,
                                tv.take(j as int),
                            ),
                        decreases targets@.len() - j,
                    {
                        let ghost prev = edges@;
                        edges.push(Edge { relation: relation.name.clone(), target: targets[j].clone() });
                        proof {
                            assert(edges@ == prev.push(edges@.last()));
                            assert(tv.take(j + 1) =~= tv.take(j as int).push(tv[j as int]));
                            assert(edges@.map_values(|e: Edge| e.view()) =~= prev.map_values(
                                |e: Edge| e.view(),
                            ).push(edges@.last().view()));
                            assert(relation_edges(relation.name@, tv.take(j + 1)) =~= relation_edges(
                                relation.name@,
                                tv.take(j as int),
                            ).push((relation.name@, tv[j as int])));
                        }
                        j = j + 1;
                    }
                    proof {
                        assert(tv.take(targets@.len() as int) =~= tv);
                    }
                },
                None => {},
            }
            i = i + 1;
        }
        proof {
            assert(rels.take(self.relations@.len() as int) =~= rels);
        }
        edges
    }

    /// The raw targets of the spanning relation: this node's children in the
    /// canonical tree. Empty if no spanning relation is configured or the field
    /// is absent.
    pub fn children(&self, meta: &Value) -> (r: Vec<String>)
        ensures
            r@.map_values(|s: String| s@) == (match self.spanning_view() {
                Some(name) => field_targets(*meta, name),
                None => Seq::empty(),
            }),
    {
        match &self.spanning {
            Some(name) => match meta.get(name.as_str()) {
                Some(value) => value.link_strings(),
                None => {
                    let out: Vec<String> = Vec::new();
                    proof {
                        assert(out@.map_values(|s: String| s@) =~= Seq::<Seq<char>>::empty());
                    }
                    out
                },
            },
            None => {
                let out: Vec<String> = Vec::new();
                proof {
                    assert(out@.map_values(|s: String| s@) =~= Seq::<Seq<char>>::empty());
                }
                out
            },
        }
    }
}

impl Default for RelationSet {
    /// An empty relation set.
    fn default() -> (r: Self)
        ensures
            r.relations_view() == Seq::<RelationView>::empty(),
            r.spanning_view() is None,
    {
        Self::new()
    }
}


/// The targets of the edges in `edges` tagged with relation `name`, in order.
pub open spec fn targets_tagged(edges: Seq<(Seq<char>, Seq<char>)>, name: Seq<char>) -> Seq<Seq<char>>
    decreases edges.len(),
{
    if edges.len() == 0 {
        Seq::empty()
    } else {
        let rest = targets_tagged(edges.drop_last(), name);
        if edges.last().0 == name {
            rest.push(edges.last().1)
        } else {
            rest
        }
    }
}

/// How many relations of `rels` are named `name`.
pub open spec fn count_named(rels: Seq<RelationView>, name: Seq<char>) -> nat
    decreases rels.len(),
{
    if rels.len() == 0 {
        0
    } else {
        count_named(rels.drop_last(), name) + if rels.last().name == name { 1nat } else { 0nat }
    }
}

/// The targets a document's field `name` declares.
pub open spec fn field_targets(meta: Value, name: Seq<char>) -> Seq<Seq<char>> {
    match meta.spec_get(name) {
        Some(v) => v.spec_link_strings(),
        None => Seq::empty(),
    }
}

/// Tagged targets distribute over concatenation.
proof fn lemma_targets_tagged_add(a: Seq<(Seq<char>, Seq<char>)>, b: Seq<(Seq<char>, Seq<char>)>, name: Seq<char>)
    ensures
        targets_tagged(a + b, name) == targets_tagged(a, name) + targets_tagged(b, name),
    decreases b.len(),
{
    if b.len() == 0 {
        assert(a + b =~= a);
        assert(targets_tagged(a, name) + targets_tagged(b, name) =~= targets_tagged(a, name));
    } else {
        assert((a + b).drop_last() =~= a + b.drop_last());
        assert((a + b).last() == b.last());
        lemma_targets_tagged_add(a, b.drop_last(), name);
        if b.last().0 == name {
            assert(targets_tagged(a, name) + targets_tagged(b.drop_last(), name).push(b.last().1) =~= (targets_tagged(
                a,
                name,
            ) + targets_tagged(b.drop_last(), name)).push(b.last().1));
        }
    }
}

/// The edges one relation contributes carry its targets under its own name
/// and nothing under any other.
proof fn lemma_targets_of_relation(rel: Seq<char>, targets: Seq<Seq<char>>, name: Seq<char>)
    ensures
        targets_tagged(relation_edges(rel, targets), name) == (if rel == name { targets } else { Seq::empty() }),
    decreases targets.len(),
{
    if targets.len() > 0 {
        lemma_targets_of_relation(rel, targets.drop_last(), name);
        assert(relation_edges(rel, targets).drop_last() =~= relation_edges(rel, targets.drop_last()));
        if rel == name {
            assert(targets.drop_last().push(targets.last()) =~= targets);
        }
    } else {
        assert(relation_edges(rel, targets) =~= Seq::empty());
    }
}

/// The edges tagged `name` carry no target when no relation is named `name`,
/// and exactly the field's targets when one relation is.
proof fn lemma_tagged_edges(rels: Seq<RelationView>, name: Seq<char>, meta: Value)
    requires
        count_named(rels, name) <= 1,
    ensures
        count_named(rels, name) == 0 ==> targets_tagged(edges_spec(rels, meta), name) == Seq::<Seq<char>>::empty(),
        count_named(rels, name) == 1 ==> targets_tagged(edges_spec(rels, meta), name) == field_targets(meta, name),
    decreases rels.len(),
{
    if rels.len() > 0 {
        let last = rels.last();
        lemma_tagged_edges(rels.drop_last(), name, meta);
        let rest = edges_spec(rels.drop_last(), meta);
        match meta.spec_get(last.name) {
            Some(v) => {
                lemma_targets_tagged_add(rest, relation_edges(last.name, v.spec_link_strings()), name);
                lemma_targets_of_relation(last.name, v.spec_link_strings(), name);
                assert(Seq::<Seq<char>>::empty() + field_targets(meta, name) =~= field_targets(meta, name));
                assert(targets_tagged(rest, name) + Seq::<Seq<char>>::empty() =~= targets_tagged(rest, name));
            },
            None => {
                assert(last.name == name ==> field_targets(meta, name) == Seq::<Seq<char>>::empty());
            },
        }
    } else {
        assert(targets_tagged(edges_spec(rels, meta), name) =~= Seq::<Seq<char>>::empty());
    }
}

/// The children of a node are its spanning edges: when the spanning relation
/// is declared once in the set, the targets `children` returns are exactly the
/// targets of the edges `edges` tags with the spanning relation, in order.
pub proof fn law_children_are_spanning_edges(set: RelationSet, meta: Value)
    requires
        set.spanning_view() is Some,
        count_named(set.relations_view(), set.spanning_view()->0) == 1,
    ensures
        targets_tagged(edges_spec(set.relations_view(), meta), set.spanning_view()->0) == field_targets(
            meta,
            set.spanning_view()->0,
        ),
{
    lemma_tagged_edges(set.relations_view(), set.spanning_view()->0, meta);
}

} // verus!
