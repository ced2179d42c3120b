//! Validation: integrity findings over the workspace graph, from a root.
//!
//! Underneath sits the **census**: one traversal that yields every forward link
//! reachable from the root (frontmatter relation edges and body `[[...]]`
//! wikilinks alike), each tagged with where it is written ([`LinkSite`]) and
//! how it resolves ([`Resolution`]). The findings are a view over it: each
//! forward link that fails to resolve becomes a [`Finding`], joined with the
//! structural findings the walk raises from its own state (an unreadable
//! document, duplicate containment, a missing inverse).
//!
//! The walk itself is a [`Walk`]: the decisions of the spanning-tree traversal
//! (which document comes next, when a spanning target is a second parent, when
//! the inverse must be checked) as a state machine, driven by a caller that
//! reads the documents and resolves their links.
use vstd::prelude::*;
use std::ops::Range;
use crate::identity::Id;
use crate::index::IndexStore;
use crate::relation::{Relation, RelationSet, RelationView};
use crate::strings::{str_eq, concat_str};
use crate::meta::Value;

verus! {

/// Where in a document a forward link is written: a frontmatter relation
/// field or a body wikilink.
#[derive(Debug, PartialEq, Eq)]
pub enum LinkSite {
    /// A frontmatter relation field, by name (e.g. `contents`, `links`).
    Relation(String),
    /// A `[[...]]` wikilink in the body, at this byte span.
    Body(Range<usize>),
}

impl LinkSite {
    /// How a report names the site: the relation's name, or `body`.
    pub open spec fn label_spec(&self) -> Seq<char> {
        match self {
            LinkSite::Relation(name) => name@,
            LinkSite::Body(_) => "body"@,
        }
    }

    /// How a report names the site: the relation's name, or `body`.
    pub fn label(&self) -> (r: String)
        ensures
            r@ == self.label_spec(),
    {
        match self {
            LinkSite::Relation(name) => name.clone(),
            LinkSite::Body(_) => String::from_str("body"),
        }
    }

    /// A copy of this site.
    pub fn duplicate(&self) -> (r: LinkSite)
        ensures
            r == *self,
    {
        match self {
            LinkSite::Relation(name) => LinkSite::Relation(name.clone()),
            LinkSite::Body(span) => LinkSite::Body(Range { start: span.start, end: span.end }),
        }
    }
}

/// How a forward link resolves against the workspace. Path and id forms stay
/// distinct on purpose: the registry owns id resolution (location-independent,
/// stable across moves), while a path is checked against the on-disk name.
#[derive(Debug, Clone, PartialEq, Eq)]
pub enum Resolution {
    /// A path target that resolves to an existing file (exact name).
    Path(String),
    /// A path target that only matches case-insensitively; `got` is the target
    /// as resolved, `actual` the exact on-disk name.
    CaseMismatch { got: String, actual: String },
    /// A path target with nothing on disk.
    Broken,
    /// A `colophon:<id>` target the registry resolves to the live path `to`.
    Id { id: Id, to: String },
    /// A well-formed `colophon:<id>` target with no live registry entry;
    /// `tombstoned` separates "deleted" from "never issued here".
    DanglingId { id: Id, tombstoned: bool },
    /// A `colophon:<id>` target failing its check character: a typo.
    MalformedId,
    /// A URL or mail address: off-workspace, never resolved or rewritten.
    External,
}

impl Resolution {
    /// The workspace path this link reaches, if it resolves to one.
    pub open spec fn resolved_path_spec(&self) -> Option<Seq<char>> {
        match self {
            Resolution::Path(p) => Some(p@),
            Resolution::CaseMismatch { got, .. } => Some(got@),
            Resolution::Id { to, .. } => Some(to@),
            _ => None,
        }
    }

    /// The workspace path this link reaches, if it resolves to one (by path or
    /// through the registry): what the spanning walk descends into and what a
    /// backlink map keys on. `None` for broken, dangling, malformed, external.
    pub fn resolved_path(&self) -> (r: Option<&String>)
        ensures
            r matches Some(p) ==> self.resolved_path_spec() == Some(p@),
            r is None ==> self.resolved_path_spec() is None,
    {
        match self {
            Resolution::Path(p) => Some(p),
            Resolution::CaseMismatch { got, .. } => Some(got),
            Resolution::Id { to, .. } => Some(to),
            _ => None,
        }
    }
}

/// One forward link as found in a document: where it is written and how it
/// resolves. The unit of the census.
#[derive(Debug, PartialEq, Eq)]
pub struct CensusEntry {
    /// The document that declares the link (workspace-relative).
    pub source: String,
    /// Where in `source` the link is written.
    pub site: LinkSite,
    /// The target exactly as written.
    pub target_text: String,
    /// How the target resolves.
    pub resolution: Resolution,
}

/// One integrity finding. `doc` is always the document that *declares* the
/// problem (workspace-relative); `site` is where in it the offending link sits.
#[derive(Debug, PartialEq, Eq)]
pub enum Finding {
    /// `target` (written at `site`) resolves to nothing on disk.
    BrokenLink { doc: String, site: LinkSite, target: String },
    /// `target` only resolves case-insensitively; the exact on-disk name is
    /// `actual`. Portable workspaces need the exact name.
    CaseMismatch { doc: String, site: LinkSite, target: String, actual: String },
    /// A spanning target that was already reached: a containment cycle or a
    /// second parent, either of which breaks the single-parent spanning tree.
    DuplicateContainment { doc: String, target: String },
    /// A spanning child whose inverse field does not link back to `doc`.
    MissingInverse { doc: String, child: String, inverse: String },
    /// A document that exists but could not be read or parsed.
    Unreadable { doc: String, error: String },
    /// A `colophon:<id>` reference whose ID fails the shape/check-character
    /// test: almost certainly a typo, caught before it dangles silently.
    MalformedId { doc: String, site: LinkSite, target: String },
    /// A well-formed `colophon:<id>` reference with no live registry entry.
    /// `tombstoned` distinguishes "that document was deleted" from "this ID was
    /// never issued here".
    DanglingId { doc: String, site: LinkSite, id: Id, tombstoned: bool },
}

/// The kind of a finding, with the strings that identify it as character
/// sequences (a site by its label).
pub enum FindingView {
    BrokenLink { doc: Seq<char>, site: Seq<char>, target: Seq<char> },
    CaseMismatch { doc: Seq<char>, site: Seq<char>, target: Seq<char>, actual: Seq<char> },
    DuplicateContainment { doc: Seq<char>, target: Seq<char> },
    MissingInverse { doc: Seq<char>, child: Seq<char>, inverse: Seq<char> },
    Unreadable { doc: Seq<char>, error: Seq<char> },
    MalformedId { doc: Seq<char>, site: Seq<char>, target: Seq<char> },
    DanglingId { doc: Seq<char>, site: Seq<char>, id: Seq<char>, tombstoned: bool },
}

impl Finding {
    /// Where in the declaring document the offending link sits, for the
    /// findings about one link.
    pub open spec fn site_spec(&self) -> Option<LinkSite> {
        match self {
            Finding::BrokenLink { site, .. } => Some(*site),
            Finding::CaseMismatch { site, .. } => Some(*site),
            Finding::MalformedId { site, .. } => Some(*site),
            Finding::DanglingId { site, .. } => Some(*site),
            _ => None,
        }
    }

    /// The finding with its strings as character sequences.
    pub open spec fn view(&self) -> FindingView {
        match self {
            Finding::BrokenLink { doc, site, target } => FindingView::BrokenLink {
                doc: doc@,
                site: site.label_spec(),
                target: target@,
            },
            Finding::CaseMismatch { doc, site, target, actual } => FindingView::CaseMismatch {
                doc: doc@,
                site: site.label_spec(),
                target: target@,
                actual: actual@,
            },
            Finding::DuplicateContainment { doc, target } => FindingView::DuplicateContainment {
                doc: doc@,
                target: target@,
            },
            Finding::MissingInverse { doc, child, inverse } => FindingView::MissingInverse {
                doc: doc@,
                child: child@,
                inverse: inverse@,
            },
            Finding::Unreadable { doc, error } => FindingView::Unreadable { doc: doc@, error: error@ },
            Finding::MalformedId { doc, site, target } => FindingView::MalformedId {
                doc: doc@,
                site: site.label_spec(),
                target: target@,
            },
            Finding::DanglingId { doc, site, id, tombstoned } => FindingView::DanglingId {
                doc: doc@,
                site: site.label_spec(),
                id: id@,
                tombstoned: *tombstoned,
            },
        }
    }

    /// The one-line report of a finding.
    pub open spec fn message_spec(&self) -> Seq<char> {
        match self.view() {
            FindingView::BrokenLink { doc, site, target } => doc + ": broken "@ + site + " link: "@ + target,
            FindingView::CaseMismatch { doc, site, target, actual } => doc + ": case mismatch in "@ + site
                + " link: "@ + target + " is "@ + actual + " on disk"@,
            FindingView::DuplicateContainment { doc, target } => doc + ": "@ + target
                + " is already contained elsewhere (cycle or second parent)"@,
            FindingView::MissingInverse { doc, child, inverse } => doc + ": child "@ + child
                + " does not declare "@ + inverse + " back to it"@,
            FindingView::Unreadable { doc, error } => doc + ": unreadable: "@ + error,
            FindingView::MalformedId { doc, site, target } => doc + ": malformed ID in "@ + site
                + " link: "@ + target + " (bad shape or check character)"@,
            FindingView::DanglingId { doc, site, id, tombstoned } => doc + ": dangling "@ + site
                + " ID: colophon:"@ + id + " ("@ + (if tombstoned {
                "document was deleted"@
            } else {
                "never issued in this registry"@
            }) + ")"@,
        }
    }

    /// The one-line report of a finding, naming the declaring document, the
    /// site and the offending target.
    pub fn message(&self) -> (r: String)
        ensures
            r@ == self.message_spec(),
    {
        proof {
            reveal_with_fuel(joined, 10);
        }
        match self {
            Finding::BrokenLink { doc, site, target } => {
                let s = site.label();
                join(&[doc.as_str(), ": broken ", s.as_str(), " link: ", target.as_str()])
            },
            Finding::CaseMismatch { doc, site, target, actual } => {
                let s = site.label();
                join(
                    &[
                        doc.as_str(),
                        ": case mismatch in ",
                        s.as_str(),
                        " link: ",
                        target.as_str(),
                        " is ",
                        actual.as_str(),
                        " on disk",
                    ],
                )
            },
            Finding::DuplicateContainment { doc, target } => {
                join(
                    &[
                        doc.as_str(),
                        ": ",
                        target.as_str(),
                        " is already contained elsewhere (cycle or second parent)",
                    ],
                )
            },
            Finding::MissingInverse { doc, child, inverse } => {
                join(
                    &[doc.as_str(), ": child ", child.as_str(), " does not declare ", inverse.as_str(), " back to it"],
                )
            },
            Finding::Unreadable { doc, error } => {
                join(&[doc.as_str(), ": unreadable: ", error.as_str()])
            },
            Finding::MalformedId { doc, site, target } => {
                let s = site.label();
                join(
                    &[
                        doc.as_str(),
                        ": malformed ID in ",
                        s.as_str(),
                        " link: ",
                        target.as_str(),
                        " (bad shape or check character)",
                    ],
                )
            },
            Finding::DanglingId { doc, site, id, tombstoned } => {
                let s = site.label();
                let why = if *tombstoned {
                    "document was deleted"
                } else {
                    "never issued in this registry"
                };
                join(&[doc.as_str(), ": dangling ", s.as_str(), " ID: colophon:", id.as_str(), " (", why, ")"])
            },
        }
    }
}

/// The pieces of `parts` joined end to end.
pub open spec fn joined(parts: Seq<&str>) -> Seq<char>
    decreases parts.len(),
{
    if parts.len() == 0 {
        Seq::empty()
    } else {
        joined(parts.drop_last()) + parts.last()@
    }
}

/// The pieces of `parts` joined end to end.
fn join(parts: &[&str]) -> (r: String)
    ensures
        r@ == joined(parts@),
{
    let mut r = String::new();
    let mut i: usize = 0;
    while i < parts.len()
        invariant
            i <= parts@.len(),
            r@ == joined(parts@.take(i as int)),
        decreases parts@.len() - i,
    {
        proof {
            assert(parts@.take(i + 1).drop_last() =~= parts@.take(i as int));
        }
        r.append(parts[i]);
        i = i + 1;
    }
    proof {
        assert(parts@.take(parts@.len() as int) =~= parts@);
    }
    r
}

impl CensusEntry {
    /// The finding this entry represents, if its target failed to resolve
    /// cleanly.
    pub open spec fn finding_spec(&self) -> Option<FindingView> {
        let doc = self.source@;
        let site = self.site.label_spec();
        let target = self.target_text@;
        match self.resolution {
            Resolution::CaseMismatch { actual, .. } => Some(
                FindingView::CaseMismatch { doc, site, target, actual: actual@ },
            ),
            Resolution::Broken => Some(FindingView::BrokenLink { doc, site, target }),
            Resolution::MalformedId => Some(FindingView::MalformedId { doc, site, target }),
            Resolution::DanglingId { id, tombstoned } => Some(
                FindingView::DanglingId { doc, site, id: id@, tombstoned },
            ),
            _ => None,
        }
    }

    /// The integrity finding this entry represents when its target failed to
    /// resolve cleanly; `None` for a link that resolves (or is external).
    pub fn finding(&self) -> (r: Option<Finding>)
        ensures
            r matches Some(f) ==> self.finding_spec() == Some(f.view()) && f.site_spec() == Some(self.site),
            r is None ==> self.finding_spec() is None,
    {
        let doc = self.source.clone();
        let site = self.site.duplicate();
        let target = self.target_text.clone();
        match &self.resolution {
            Resolution::CaseMismatch { actual, .. } => {
                Some(Finding::CaseMismatch { doc, site, target, actual: actual.clone() })
            },
            Resolution::Broken => Some(Finding::BrokenLink { doc, site, target }),
            Resolution::MalformedId => Some(Finding::MalformedId { doc, site, target }),
            Resolution::DanglingId { id, tombstoned } => {
                Some(Finding::DanglingId { doc, site, id: id.clone_id(), tombstoned: *tombstoned })
            },
            _ => None,
        }
    }
}

/// Every census entry whose link fails to resolve cleanly is reported, and
/// in the same way whatever kind of link it is (a frontmatter relation edge
/// or a body wikilink): a case mismatch, a broken link, a malformed ID and a
/// dangling ID each give their finding, carrying the entry's document, its
/// site's name (the relation, or `body`) and its target as written; a link
/// that resolves to a path or a live ID, or points off the workspace, gives
/// none.
pub proof fn law_unresolved_links_are_reported(e: CensusEntry)
    ensures
        e.resolution matches Resolution::CaseMismatch { actual, .. } ==> e.finding_spec() == Some(
            FindingView::CaseMismatch { doc: e.source@, site: e.site.label_spec(), target: e.target_text@, actual: actual@ },
        ),
        e.resolution is Broken ==> e.finding_spec() == Some(
            FindingView::BrokenLink { doc: e.source@, site: e.site.label_spec(), target: e.target_text@ },
        ),
        e.resolution is MalformedId ==> e.finding_spec() == Some(
            FindingView::MalformedId { doc: e.source@, site: e.site.label_spec(), target: e.target_text@ },
        ),
        e.resolution matches Resolution::DanglingId { id, tombstoned } ==> e.finding_spec() == Some(
            FindingView::DanglingId { doc: e.source@, site: e.site.label_spec(), id: id@, tombstoned },
        ),
        (e.resolution is Path || e.resolution is Id || e.resolution is External) ==> e.finding_spec() is None,
        e.site matches LinkSite::Relation(name) ==> e.site.label_spec() == name@,
        e.site is Body ==> e.site.label_spec() == "body"@,
{
}

/// The findings of the first `n` census entries, in census order.
pub open spec fn census_findings(census: Seq<CensusEntry>, n: int) -> Seq<FindingView>
    decreases n,
{
    if n <= 0 {
        Seq::empty()
    } else {
        let rest = census_findings(census, n - 1);
        match census[n - 1].finding_spec() {
            Some(f) => rest.push(f),
            None => rest,
        }
    }
}

/// The findings of a walk: the structural findings the traversal raised,
/// then one finding per census entry whose link failed to resolve cleanly,
/// in census order.
pub fn findings(census: &[CensusEntry], structural: Vec<Finding>) -> (r: Vec<Finding>)
    ensures
        r@.map_values(|f: Finding| f.view()) == structural@.map_values(|f: Finding| f.view())
            + census_findings(census@, census@.len() as int),
{
    let mut out = structural;
    let ghost base = out@.map_values(|f: Finding| f.view());
    let mut i: usize = 0;
    while i < census.len()
        invariant
            i <= census@.len(),
            out@.map_values(|f: Finding| f.view()) == base + census_findings(census@, i as int),
        decreases census@.len() - i,
    {
        match census[i].finding() {
            Some(f) => {
                let ghost prev = out@;
                out.push(f);
                proof {
                    assert(out@.map_values(|f: Finding| f.view()) =~= prev.map_values(|f: Finding| f.view()).push(
                        f.view(),
                    ));
                }
            },
            None => {},
        }
        i = i + 1;
    }
    out
}


// ── The spanning-tree walk ──────────────────────────────────────────────────

/// Whether `s` holds `x`.
pub open spec fn holds(s: Seq<Seq<char>>, x: Seq<char>) -> bool {
    exists|i: int| 0 <= i < s.len() && s[i] == x
}

/// The inverse declared by the first relation named `name`, if any.
pub open spec fn inverse_of(rels: Seq<RelationView>, name: Seq<char>) -> Option<Seq<char>>
    decreases rels.len(),
{
    if rels.len() == 0 {
        None
    } else if rels[0].name == name {
        rels[0].inverse
    } else {
        inverse_of(rels.drop_first(), name)
    }
}

/// Popping the queue until a path not yet visited comes up: the queue left,
/// and that path (or `None` once the queue runs dry).
pub open spec fn pop_unvisited(queue: Seq<Seq<char>>, visited: Seq<Seq<char>>) -> (Seq<Seq<char>>, Option<Seq<char>>)
    decreases queue.len(),
{
    if queue.len() == 0 {
        (queue, None)
    } else if holds(visited, queue.last()) {
        pop_unvisited(queue.drop_last(), visited)
    } else {
        (queue.drop_last(), Some(queue.last()))
    }
}

/// No path occurs twice in `s`.
pub open spec fn distinct(s: Seq<Seq<char>>) -> bool {
    forall|i: int, j: int| 0 <= i < j < s.len() ==> s[i] != s[j]
}

/// Whether `s` holds `x`.
fn contains_str(s: &Vec<String>, x: &str) -> (r: bool)
    ensures
        r == holds(s@.map_values(|p: String| p@), x@),
{
    let ghost v = s@.map_values(|p: String| p@);
    let mut i: usize = 0;
    while i < s.len()
        invariant
            v == s@.map_values(|p: String| p@),
            i <= s@.len(),
            forall|j: int| 0 <= j < i ==> v[j] != x@,
        decreases s@.len() - i,
    {
        if str_eq(s[i].as_str(), x) {
            proof {
                assert(v[i as int] == x@);
            }
            return true;
        }
        i = i + 1;
    }
    false
}

/// A finding the traversal raises from its own state: an unreadable
/// document, a second parent, or a missing inverse.
pub open spec fn is_structural(f: FindingView) -> bool {
    f is Unreadable || f is DuplicateContainment || f is MissingInverse
}

/// The links a child declares back through `inverse`, when it can be checked:
/// `None` for a child with no metadata mapping (nothing to check), else the
/// link targets under `inverse` (none when the key is absent).
pub fn inverse_links(child_meta: &Value, inverse: &str) -> (r: Option<Vec<String>>)
    ensures
        r is None <==> !(child_meta is Mapping),
        r matches Some(v) ==> v@.map_values(|s: String| s@) == (match child_meta.spec_get(inverse@) {
            Some(x) => x.spec_link_strings(),
            None => Seq::<Seq<char>>::empty(),
        }),
{
    if child_meta.as_mapping().is_none() {
        return None;
    }
    match child_meta.get(inverse) {
        Some(x) => Some(x.link_strings()),
        None => {
            let v: Vec<String> = Vec::new();
            proof {
                assert(v@.map_values(|s: String| s@) =~= Seq::<Seq<char>>::empty());
            }
            Some(v)
        },
    }
}

/// Whether a child links back to `parent`: one of its back-links, as
/// resolved, reaches `parent`.
pub fn points_back(resolved: &[Option<String>], parent: &str) -> (r: bool)
    ensures
        r == exists|i: int| 0 <= i < resolved@.len() && (#[trigger] resolved@[i] matches Some(p) && p@ == parent@),
{
    let mut i: usize = 0;
    while i < resolved.len()
        invariant
            i <= resolved@.len(),
            forall|j: int| 0 <= j < i ==> !(#[trigger] resolved@[j] matches Some(p) && p@ == parent@),
        decreases resolved@.len() - i,
    {
        match &resolved[i] {
            Some(p) => {
                if str_eq(p.as_str(), parent) {
                    return true;
                }
            },
            None => {},
        }
        i = i + 1;
    }
    false
}

/// The traversal state of a validation walk over the spanning tree: the census
/// gathered so far, the structural findings raised, the documents visited, the
/// queue of documents still to visit, and the spanning relation with its
/// inverse. The caller reads each document [`next`](Walk::next) hands out and
/// reports its links; the walk decides what is a second parent, what must be
/// checked for an inverse, and what to descend into.
pub struct Walk {
    census: Vec<CensusEntry>,
    structural: Vec<Finding>,
    visited: Vec<String>,
    queue: Vec<String>,
    spanning: Option<String>,
    inverse: Option<String>,
}

impl Walk {
    /// The census gathered so far.
    pub closed spec fn census_view(&self) -> Seq<CensusEntry> {
        self.census@
    }

    /// The structural findings raised so far.
    pub closed spec fn structural_view(&self) -> Seq<FindingView> {
        self.structural@.map_values(|f: Finding| f.view())
    }

    /// The documents visited so far, in visiting order.
    pub closed spec fn visited_view(&self) -> Seq<Seq<char>> {
        self.visited@.map_values(|p: String| p@)
    }

    /// The documents queued for a visit (the last is visited first).
    pub closed spec fn queue_view(&self) -> Seq<Seq<char>> {
        self.queue@.map_values(|p: String| p@)
    }

    /// The spanning relation's name, if one is configured.
    pub closed spec fn spanning_view(&self) -> Option<Seq<char>> {
        match self.spanning {
            Some(s) => Some(s@),
            None => None,
        }
    }

    /// The spanning relation's inverse, if it declares one.
    pub closed spec fn inverse_view(&self) -> Option<Seq<char>> {
        match self.inverse {
            Some(s) => Some(s@),
            None => None,
        }
    }

    /// The walk's invariant: no document is visited twice, and every
    /// structural finding is one the traversal itself raises.
    pub open spec fn wf(&self) -> bool {
        &&& distinct(self.visited_view())
        &&& forall|i: int| 0 <= i < self.structural_view().len() ==> is_structural(#[trigger] self.structural_view()[i])
    }

    /// A walk from `start` over `relations`: nothing visited, `start` queued.
    pub fn start(relations: &RelationSet, start: &str) -> (w: Walk)
        ensures
            w.wf(),
            w.census_view() == Seq::<CensusEntry>::empty(),
            w.structural_view() == Seq::<FindingView>::empty(),
            w.visited_view() == Seq::<Seq<char>>::empty(),
            w.queue_view() == seq![start@],
            w.spanning_view() == relations.spanning_view(),
            w.inverse_view() == (match relations.spanning_view() {
                Some(name) => inverse_of(relations.relations_view(), name),
                None => None,
            }),
    {
        let spanning: Option<String> = match relations.spanning_relation() {
            Some(s) => Some(String::from_str(s)),
            None => None,
        };
        let mut inverse: Option<String> = None;
        match relations.spanning_relation() {
            Some(name) => {
                let rels = relations.relations();
                let ghost rv = rels@.map_values(|x: Relation| x.view());
                let mut i: usize = 0;
                let mut found = false;
                proof {
                    assert(rv.skip(0) =~= rv);
                }
                while i < rels.len() && !found
                    invariant
                        rv == rels@.map_values(|x: Relation| x.view()),
                        rv == relations.relations_view(),
                        i <= rels@.len(),
                        !found ==> inverse_of(rv.skip(i as int), name@) == inverse_of(rv, name@),
                        !found ==> inverse is None,
                        found ==> (match inverse {
                            Some(s) => Some(s@),
                            None => None,
                        }) == inverse_of(rv, name@),
                    decreases rels@.len() - i,
                {
                    proof {
                        assert(rv.skip(i as int)[0] == rv[i as int]);
                        assert(rv.skip(i as int).drop_first() =~= rv.skip(i + 1));
                    }
                    if str_eq(rels[i].name.as_str(), name) {
                        inverse = match &rels[i].inverse {
                            Some(inv) => Some(inv.clone()),
                            None => None,
                        };
                        found = true;
                        i = rels.len();
                    } else {
                        i = i + 1;
                    }
                }
                proof {
                    if !found {
                        assert(rv.skip(i as int).len() == 0);
                    }
                }
            },
            None => {},
        }
        let mut queue: Vec<String> = Vec::new();
        queue.push(String::from_str(start));
        let w = Walk { census: Vec::new(), structural: Vec::new(), visited: Vec::new(), queue, spanning, inverse };
        proof {
            assert(w.structural_view() =~= Seq::<FindingView>::empty());
            assert(w.visited_view() =~= Seq::<Seq<char>>::empty());
            assert(w.queue_view() =~= seq![start@]);
        }
        w
    }

    /// The next document to visit: queued documents already visited are
    /// dropped; the first one not yet visited (from the back of the queue) is
    /// marked visited and handed out. `None` once the queue is exhausted.
    pub fn next(&mut self) -> (r: Option<String>)
        requires
            old(self).wf(),
        ensures
            final(self).wf(),
            (final(self).queue_view(), match r {
                Some(p) => Some(p@),
                None => None,
            }) == pop_unvisited(old(self).queue_view(), old(self).visited_view()),
            r matches Some(p) ==> !holds(old(self).visited_view(), p@)
                && final(self).visited_view() == old(self).visited_view().push(p@),
            r is None ==> final(self).visited_view() == old(self).visited_view(),
            final(self).census_view() == old(self).census_view(),
            final(self).structural_view() == old(self).structural_view(),
            final(self).spanning_view() == old(self).spanning_view(),
            final(self).inverse_view() == old(self).inverse_view(),
    {
        loop
            invariant
                self.wf(),
                self.visited_view() == old(self).visited_view(),
                pop_unvisited(self.queue_view(), self.visited_view()) == pop_unvisited(
                    old(self).queue_view(),
                    old(self).visited_view(),
                ),
                self.census_view() == old(self).census_view(),
                self.structural_view() == old(self).structural_view(),
                self.spanning_view() == old(self).spanning_view(),
                self.inverse_view() == old(self).inverse_view(),
            decreases self.queue@.len(),
        {
            let ghost q = self.queue@;
            match self.queue.pop() {
                Some(path) => {
                    proof {
                        assert(self.queue@ == q.drop_last());
                        let qv = q.map_values(|p: String| p@);
                        assert(qv.drop_last() =~= self.queue_view());
                        assert(qv.last() == path@);
                    }
                    if !contains_str(&self.visited, path.as_str()) {
                        let ghost before = self.visited@;
                        self.visited.push(path.clone());
                        proof {
                            assert(self.visited_view() =~= before.map_values(|p: String| p@).push(path@));
                            assert forall|i: int, j: int| 0 <= i < j < self.visited_view().len() implies
                                self.visited_view()[i] != self.visited_view()[j] by {
                                if j == self.visited_view().len() - 1 {
                                    assert(self.visited_view()[i] == before.map_values(|p: String| p@)[i]);
                                }
                            }
                        }
                        return Some(path);
                    }
                },
                None => {
                    proof {
                        assert(q.len() == 0);
                        assert(self.queue_view() =~= Seq::<Seq<char>>::empty());
                    }
                    return None;
                },
            }
        }
    }

    /// A document that exists but could not be read or parsed.
    pub fn unreadable(&mut self, doc: String, error: String)
        ensures
            old(self).wf() ==> final(self).wf(),
            final(self).structural_view() == old(self).structural_view().push(
                FindingView::Unreadable { doc: doc@, error: error@ },
            ),
            final(self).census_view() == old(self).census_view(),
            final(self).visited_view() == old(self).visited_view(),
            final(self).queue_view() == old(self).queue_view(),
            final(self).spanning_view() == old(self).spanning_view(),
            final(self).inverse_view() == old(self).inverse_view(),
    {
        let ghost before = self.structural@;
        self.structural.push(Finding::Unreadable { doc, error });
        proof {
            assert(self.structural_view() =~= before.map_values(|f: Finding| f.view()).push(
                FindingView::Unreadable { doc: doc@, error: error@ },
            ));
        }
        proof {
            if old(self).wf() {
                assert forall|i: int| 0 <= i < self.structural_view().len() implies is_structural(#[trigger] self.structural_view()[i]) by {
                    if i < old(self).structural_view().len() {
                        assert(self.structural_view()[i] == old(self).structural_view()[i]);
                        assert(is_structural(old(self).structural_view()[i]));
                    }
                }
                assert(self.visited_view() =~= old(self).visited_view());
            }
        }
    }

    /// A frontmatter relation edge of `source`, its target as parsed
    /// (`target`) and how it resolved. Every edge joins the census. An edge of
    /// the spanning relation that reaches a workspace path is also a tree edge:
    /// a path already visited or queued is a second parent (duplicate
    /// containment); any other is queued for a visit, and when the spanning
    /// relation has an inverse the walk returns `(child, inverse)`, asking the
    /// caller whether the child links back (see [`Walk::inverse_checked`]).
    pub fn edge(&mut self, source: String, relation: String, target: String, resolution: Resolution) -> (r: Option<(String, String)>)
        ensures
            old(self).wf() ==> final(self).wf(),
            final(self).census_view() == old(self).census_view().push(
                CensusEntry { source, site: LinkSite::Relation(relation), target_text: target, resolution },
            ),
            final(self).visited_view() == old(self).visited_view(),
            final(self).spanning_view() == old(self).spanning_view(),
            final(self).inverse_view() == old(self).inverse_view(),
            ({
                let tree_edge = old(self).spanning_view() == Some(relation@) && resolution.resolved_path_spec() is Some;
                let p = resolution.resolved_path_spec()->0;
                let second_parent = holds(old(self).visited_view(), p) || holds(old(self).queue_view(), p);
                &&& (tree_edge && second_parent) ==> {
                    &&& final(self).structural_view() == old(self).structural_view().push(
                        FindingView::DuplicateContainment { doc: source@, target: target@ },
                    )
                    &&& final(self).queue_view() == old(self).queue_view()
                    &&& r is None
                }
                &&& (tree_edge && !second_parent) ==> {
                    &&& final(self).structural_view() == old(self).structural_view()
                    &&& final(self).queue_view() == old(self).queue_view().push(p)
                    &&& (match r {
                        Some((child, inv)) => Some((child@, inv@)),
                        None => None,
                    }) == (match old(self).inverse_view() {
                        Some(inv) => Some((p, inv)),
                        None => None,
                    })
                }
                &&& !tree_edge ==> {
                    &&& final(self).structural_view() == old(self).structural_view()
                    &&& final(self).queue_view() == old(self).queue_view()
                    &&& r is None
                }
            }),
    {
        let is_spanning = match &self.spanning {
            Some(name) => str_eq(name.as_str(), relation.as_str()),
            None => false,
        };
        let mut ask: Option<(String, String)> = None;
        if is_spanning {
            match resolution.resolved_path() {
                Some(resolved) => {
                    if contains_str(&self.visited, resolved.as_str()) || contains_str(&self.queue, resolved.as_str()) {
                        let ghost before = self.structural@;
                        self.structural.push(Finding::DuplicateContainment { doc: source.clone(), target: target.clone() });
                        proof {
                            assert(self.structural_view() =~= before.map_values(|f: Finding| f.view()).push(
                                FindingView::DuplicateContainment { doc: source@, target: target@ },
                            ));
                        }
                    } else {
                        ask = match &self.inverse {
                            Some(inv) => Some((resolved.clone(), inv.clone())),
                            None => None,
                        };
                        let ghost before = self.queue@;
                        self.queue.push(resolved.clone());
                        proof {
                            assert(self.queue_view() =~= before.map_values(|p: String| p@).push(resolved@));
                        }
                    }
                },
                None => {},
            }
        }
        self.census.push(CensusEntry { source, site: LinkSite::Relation(relation), target_text: target, resolution });
        proof {
            if old(self).wf() {
                assert forall|i: int| 0 <= i < self.structural_view().len() implies is_structural(#[trigger] self.structural_view()[i]) by {
                    if i < old(self).structural_view().len() {
                        assert(self.structural_view()[i] == old(self).structural_view()[i]);
                        assert(is_structural(old(self).structural_view()[i]));
                    }
                }
                assert(self.visited_view() =~= old(self).visited_view());
            }
        }
        ask
    }

    /// The answer to an inverse check [`Walk::edge`] asked for: a child that
    /// does not link back to `doc` through `inverse` is a missing inverse.
    pub fn inverse_checked(&mut self, doc: String, child: String, inverse: String, points_back: bool)
        ensures
            old(self).wf() ==> final(self).wf(),
            final(self).structural_view() == (if points_back {
                old(self).structural_view()
            } else {
                old(self).structural_view().push(
                    FindingView::MissingInverse { doc: doc@, child: child@, inverse: inverse@ },
                )
            }),
            final(self).census_view() == old(self).census_view(),
            final(self).visited_view() == old(self).visited_view(),
            final(self).queue_view() == old(self).queue_view(),
            final(self).spanning_view() == old(self).spanning_view(),
            final(self).inverse_view() == old(self).inverse_view(),
    {
        if !points_back {
            let ghost before = self.structural@;
            self.structural.push(Finding::MissingInverse { doc, child, inverse });
            proof {
                assert(self.structural_view() =~= before.map_values(|f: Finding| f.view()).push(
                    FindingView::MissingInverse { doc: doc@, child: child@, inverse: inverse@ },
                ));
            }
        }
        proof {
            if old(self).wf() {
                assert forall|i: int| 0 <= i < self.structural_view().len() implies is_structural(#[trigger] self.structural_view()[i]) by {
                    if i < old(self).structural_view().len() {
                        assert(self.structural_view()[i] == old(self).structural_view()[i]);
                        assert(is_structural(old(self).structural_view()[i]));
                    }
                }
                assert(self.visited_view() =~= old(self).visited_view());
            }
        }
    }

    /// A body `[[...]]` wikilink of `source` at `span`: an overlay reference,
    /// censused but never spanning.
    pub fn body_link(&mut self, source: String, span: Range<usize>, target: String, resolution: Resolution)
        ensures
            old(self).wf() ==> final(self).wf(),
            final(self).census_view() == old(self).census_view().push(
                CensusEntry { source, site: LinkSite::Body(span), target_text: target, resolution },
            ),
            final(self).structural_view() == old(self).structural_view(),
            final(self).visited_view() == old(self).visited_view(),
            final(self).queue_view() == old(self).queue_view(),
            final(self).spanning_view() == old(self).spanning_view(),
            final(self).inverse_view() == old(self).inverse_view(),
    {
        self.census.push(CensusEntry { source, site: LinkSite::Body(span), target_text: target, resolution });
        proof {
            if old(self).wf() {
                assert forall|i: int| 0 <= i < self.structural_view().len() implies is_structural(#[trigger] self.structural_view()[i]) by {
                    if i < old(self).structural_view().len() {
                        assert(self.structural_view()[i] == old(self).structural_view()[i]);
                        assert(is_structural(old(self).structural_view()[i]));
                    }
                }
                assert(self.visited_view() =~= old(self).visited_view());
            }
        }
    }

    /// The census and the structural findings gathered.
    pub fn finish(self) -> (r: (Vec<CensusEntry>, Vec<Finding>))
        ensures
            r.0@ == self.census_view(),
            r.1@.map_values(|f: Finding| f.view()) == self.structural_view(),
    {
        (self.census, self.structural)
    }

    /// The findings view of the walk: the structural findings, then one per
    /// census entry that failed to resolve cleanly.
    pub fn into_findings(self) -> (r: Vec<Finding>)
        ensures
            r@.map_values(|f: Finding| f.view()) == self.structural_view() + census_findings(
                self.census_view(),
                self.census_view().len() as int,
            ),
            self.wf() ==> forall|i: int| 0 <= i < self.structural_view().len() ==> is_structural(#[trigger] r@[i].view()),
    {
        let ghost sv = self.structural_view();
        let ghost cf = census_findings(self.census_view(), self.census_view().len() as int);
        let ghost w = self.wf();
        let (census, structural) = self.finish();
        let r = findings(census.as_slice(), structural);
        proof {
            if w {
                let rv = r@.map_values(|f: Finding| f.view());
                assert(rv == sv + cf);
                assert forall|i: int| 0 <= i < sv.len() implies is_structural(#[trigger] r@[i].view()) by {
                    assert(rv.len() == r@.len());
                    assert((sv + cf)[i] == sv[i]);
                    assert(rv[i] == r@[i].view());
                    assert(is_structural(sv[i]));
                }
            }
        }
        r
    }
}


/// A walk ends: it never hands out a document twice, so over a workspace whose
/// documents all lie in the finite set `docs`, a walk has visited at most as
/// many documents as `docs` holds. Each [`Walk::next`] that hands one out adds
/// it to the visited list, so it can do so at most `docs.len()` times.
pub proof fn law_walk_visits_each_document_once(w: Walk, docs: Set<Seq<char>>)
    requires
        w.wf(),
        docs.finite(),
        forall|i: int| 0 <= i < w.visited_view().len() ==> docs.contains(#[trigger] w.visited_view()[i]),
    ensures
        w.visited_view().no_duplicates(),
        w.visited_view().len() <= docs.len(),
{
    let s = w.visited_view();
    assert forall|i: int, j: int| 0 <= i < s.len() && 0 <= j < s.len() && i != j implies s[i] != s[j] by {
        if i < j {
            assert(s[i] != s[j]);
        } else {
            assert(s[j] != s[i]);
        }
    }
    s.unique_seq_to_set();
    assert(s.to_set().subset_of(docs));
    vstd::set_lib::lemma_len_subset(s.to_set(), docs);
}


// ── Exact-name matching ─────────────────────────────────────────────────────

/// How a path's final component matches its directory's listing.
#[derive(Debug, PartialEq, Eq)]
pub enum NameMatch {
    /// An entry carries exactly the name.
    Exact,
    /// No entry carries the name exactly, but this one does up to ASCII case:
    /// the portability hazard.
    CaseOnly(String),
    /// Nothing matches.
    Missing,
}

/// `c` with an ASCII upper-case letter lowered.
pub open spec fn ascii_lower(c: char) -> char {
    if 'A' <= c && c <= 'Z' {
        ((c as u32) + 32) as char
    } else {
        c
    }
}

/// `a` and `b` are equal up to ASCII case.
pub open spec fn eq_ignore_ascii_case_spec(a: Seq<char>, b: Seq<char>) -> bool {
    &&& a.len() == b.len()
    &&& forall|i: int| 0 <= i < a.len() ==> ascii_lower(#[trigger] a[i]) == ascii_lower(b[i])
}

/// The last of the first `n` entries equal to `name` up to ASCII case.
pub open spec fn last_case_match(entries: Seq<Seq<char>>, name: Seq<char>, n: int) -> Option<Seq<char>>
    decreases n,
{
    if n <= 0 {
        None
    } else if eq_ignore_ascii_case_spec(entries[n - 1], name) {
        Some(entries[n - 1])
    } else {
        last_case_match(entries, name, n - 1)
    }
}

/// Whether `a` and `b` are equal up to ASCII case.
pub fn eq_ignore_ascii_case(a: &str, b: &str) -> (r: bool)
    ensures
        r == eq_ignore_ascii_case_spec(a@, b@),
{
    let av = crate::textdist::chars_of(a);
    let bv = crate::textdist::chars_of(b);
    if av.len() != bv.len() {
        return false;
    }
    let mut i: usize = 0;
    while i < av.len()
        invariant
            av@ == a@,
            bv@ == b@,
            av@.len() == bv@.len(),
            i <= av@.len(),
            forall|j: int| 0 <= j < i ==> ascii_lower(#[trigger] a@[j]) == ascii_lower(b@[j]),
        decreases av@.len() - i,
    {
        let x = lower_ascii(av[i]);
        let y = lower_ascii(bv[i]);
        if x != y {
            return false;
        }
        i = i + 1;
    }
    true
}

/// `c` with an ASCII upper-case letter lowered.
fn lower_ascii(c: char) -> (r: char)
    ensures
        r == ascii_lower(c),
{
    if 'A' <= c && c <= 'Z' {
        let code: u32 = c as u32;
        proof {
            assert(65 <= code <= 90);
        }
        let lowered: u8 = (code + 32) as u8;
        lowered as char
    } else {
        c
    }
}

/// How `name` matches the directory listing `entries`: exactly when some
/// entry carries it verbatim; otherwise case-only, with the last entry that
/// carries it up to ASCII case; otherwise not at all.
pub fn name_match(entries: &[String], name: &str) -> (r: NameMatch)
    ensures
        ({
            let names = entries@.map_values(|e: String| e@);
            &&& holds(names, name@) ==> r is Exact
            &&& !holds(names, name@) ==> match last_case_match(names, name@, names.len() as int) {
                Some(actual) => r matches NameMatch::CaseOnly(a) && a@ == actual,
                None => r is Missing,
            }
        }),
{
    let ghost names = entries@.map_values(|e: String| e@);
    let mut case_only: Option<String> = None;
    let mut i: usize = 0;
    while i < entries.len()
        invariant
            names == entries@.map_values(|e: String| e@),
            i <= entries@.len(),
            forall|j: int| 0 <= j < i ==> names[j] != name@,
            (match case_only {
                Some(s) => Some(s@),
                None => None,
            }) == last_case_match(names, name@, i as int),
        decreases entries@.len() - i,
    {
        if str_eq(entries[i].as_str(), name) {
            proof {
                assert(names[i as int] == name@);
            }
            return NameMatch::Exact;
        }
        if eq_ignore_ascii_case(entries[i].as_str(), name) {
            case_only = Some(entries[i].clone());
        }
        i = i + 1;
    }
    match case_only {
        Some(actual) => NameMatch::CaseOnly(actual),
        None => NameMatch::Missing,
    }
}


// ── Resolving one forward link ──────────────────────────────────────────────

/// What a forward link's target is, as read from its text and (for a path)
/// checked against the directory listing.
pub enum ForwardTarget {
    /// A URL or mail address.
    External,
    /// A `colophon:<id>` target; `well_formed` tells whether the ID passes its
    /// shape and check-character test.
    Id { id: Id, well_formed: bool },
    /// A path target as resolved against the declaring document, and how its
    /// final component matches its directory's listing.
    Path { resolved: String, on_disk: NameMatch },
}

/// How a forward link resolves. A path target is judged by the on-disk name;
/// a `colophon:<id>` target resolves through the registry and stays an id-form
/// resolution, so a caller can tell a location-independent link (never
/// rewritten by a move) from a path (which is). A well-formed ID the registry
/// does not resolve is dangling, tombstoned when the registry still knows it.
pub fn resolve_forward<Ix: IndexStore>(index: &Ix, target: ForwardTarget) -> (r: Resolution)
    requires
        index.wf(),
    ensures
        match target {
            ForwardTarget::External => r is External,
            ForwardTarget::Id { id, well_formed } => if !well_formed {
                r is MalformedId
            } else {
                match index.resolves(id@) {
                    Some(p) => r matches Resolution::Id { id: i, to } && i@ == id@ && to@ == p,
                    None => r matches Resolution::DanglingId { id: i, tombstoned } && i@ == id@ && tombstoned
                        == index.knows(id@),
                }
            },
            ForwardTarget::Path { resolved, on_disk } => match on_disk {
                NameMatch::Exact => r == Resolution::Path(resolved),
                NameMatch::CaseOnly(actual) => r == (Resolution::CaseMismatch { got: resolved, actual }),
                NameMatch::Missing => r is Broken,
            },
        },
{
    match target {
        ForwardTarget::External => Resolution::External,
        ForwardTarget::Id { id, well_formed } => {
            if !well_formed {
                return Resolution::MalformedId;
            }
            match index.resolve(&id) {
                Some(path) => Resolution::Id { id, to: path },
                None => {
                    let tombstoned = index.is_known(&id);
                    Resolution::DanglingId { id, tombstoned }
                },
            }
        },
        ForwardTarget::Path { resolved, on_disk } => match on_disk {
            NameMatch::Exact => Resolution::Path(resolved),
            NameMatch::CaseOnly(actual) => Resolution::CaseMismatch { got: resolved, actual },
            NameMatch::Missing => Resolution::Broken,
        },
    }
}

} // verus!
