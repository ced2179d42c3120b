//! Index: where stable IDs live.
//!
//! The [`IndexStore`] is the id↔path registry. Keeping it behind a trait is
//! deliberate: a sidecar file, an in-memory map, or a sync-backed store are all
//! valid homes.
//!
//! ## Tombstones: IDs are forever
//!
//! Deleting a document leaves a *tombstone* in a [`FileIndex`]: the ID stops
//! resolving but is never forgotten, so it can never be reminted to mean
//! something else.
use vstd::prelude::*;
use crate::identity::Id;
use crate::strings::{str_eq, str_lt, chars_lt, lemma_chars_lt_trichotomy, lemma_chars_lt_transitive};
use crate::strmap::{StrMap, map_of, keys_distinct, has_key, lemma_map_of_lookup, lemma_map_of_len};
use crate::records::{RecordSet, RecordView, records_map, opt_view, lemma_records_map, lemma_records_canonical, records_sorted};
use crate::document::{Document, MetaCarrier, whole_file_format, whole_file_format_spec};
use crate::meta::{Mapping, Value, entry_keys_distinct, parse_value, read_meta};
use crate::embed::{
    KeySegment, detect, split, inner_format, inner_format_of, yaml_frontmatter, yaml_frontmatter_kind, parse_document, document_value,
    value_is_null, value_into_entries, str_value, null_value, fig_str_value, map_value, serialize, editor_open, editor_set,
    editor_source, embed_open_or_init, embed_set, embed_render, SegmentView, EditStep, EmbedState, EditorState, path_view,
    fig_is_null, fig_entries, fig_map_value, document_parse_failure, document_tree, serialized, embed_set_failure,
    editor_set_failure, editor_open_failure, editor_text, embed_init_failure, embed_rendered,
};
use fig::Value as FigValue;

verus! {

/// Somewhere IDs are persisted and queried. Paths are workspace-relative strings.
pub trait IndexStore {
    /// The store's internal consistency.
    spec fn wf(&self) -> bool;

    /// Record that `id` names the document at `path`.
    fn register(&mut self, id: &Id, path: &str)
        requires
            old(self).wf(),
        ensures
            final(self).wf(),
    ;

    /// The path the store resolves `id` to, if any.
    spec fn resolves(&self, id: Seq<char>) -> Option<Seq<char>>;

    /// Resolve an ID to its current path. `None` for unknown *and* tombstoned
    /// IDs; use [`is_known`](IndexStore::is_known) to tell them apart.
    fn resolve(&self, id: &Id) -> (r: Option<String>)
        requires
            self.wf(),
        ensures
            opt_view(r) == self.resolves(id@),
    ;

    /// The ID currently assigned to `path`, if any.
    fn id_for_path(&self, path: &str) -> Option<Id>
        requires
            self.wf(),
    ;

    /// Update the path an ID points at (e.g. after a move/rename).
    fn set_path(&mut self, id: &Id, new_path: &str)
        requires
            old(self).wf(),
        ensures
            final(self).wf(),
    ;

    /// Retire an ID (e.g. after a delete). A store with tombstones keeps the
    /// ID on record so it is never reissued; a plain store may forget it.
    fn unregister(&mut self, id: &Id)
        requires
            old(self).wf(),
        ensures
            final(self).wf(),
    ;

    /// Whether the store has ever issued `id`: live, or retired but kept on
    /// record. A live ID is always known.
    spec fn knows(&self, id: Seq<char>) -> bool;

    /// Whether `id` has *ever* been issued, live or tombstoned. This is the
    /// mint-with-rejection predicate: a fresh ID must be `!is_known`.
    fn is_known(&self, id: &Id) -> (r: bool)
        requires
            self.wf(),
        ensures
            r == self.knows(id@),
            self.resolves(id@) is Some ==> r,
    ;
}

/// No index: identity-off workspaces. Registers nothing, resolves nothing.
#[derive(Debug, Clone, Copy, Default)]
pub struct NoIndex;

impl IndexStore for NoIndex {
    open spec fn wf(&self) -> bool {
        true
    }

    open spec fn resolves(&self, id: Seq<char>) -> Option<Seq<char>> {
        None
    }

    open spec fn knows(&self, id: Seq<char>) -> bool {
        false
    }

    fn is_known(&self, id: &Id) -> (r: bool) {
        self.resolve(id).is_some()
    }

    fn register(&mut self, _id: &Id, _path: &str) {
    }

    fn resolve(&self, _id: &Id) -> (r: Option<String>)
        ensures
            r is None,
    {
        None
    }

    fn id_for_path(&self, _path: &str) -> (r: Option<Id>)
        ensures
            r is None,
    {
        None
    }

    fn set_path(&mut self, _id: &Id, _new_path: &str) {
    }

    fn unregister(&mut self, _id: &Id) {
    }
}

/// The contents of an id↔path registry: the forward map (id → path) and the
/// reverse map (path → id), each keyed by the characters of its key.
pub struct IndexView {
    pub forward: Map<Seq<char>, Seq<char>>,
    pub reverse: Map<Seq<char>, Seq<char>>,
}

/// The registry after `register(id, path)`: both directions record the pair.
pub open spec fn register_view(v: IndexView, id: Seq<char>, path: Seq<char>) -> IndexView {
    IndexView { forward: v.forward.insert(id, path), reverse: v.reverse.insert(path, id) }
}

/// The registry after `set_path(id, new_path)`: the id points at the new path,
/// the reverse entry of its old path (if it had one) is dropped, and the new
/// path points back at the id.
pub open spec fn set_path_view(v: IndexView, id: Seq<char>, new_path: Seq<char>) -> IndexView {
    let cleared = if v.forward.dom().contains(id) {
        v.reverse.remove(v.forward[id])
    } else {
        v.reverse
    };
    IndexView { forward: v.forward.insert(id, new_path), reverse: cleared.insert(new_path, id) }
}

/// The registry after `unregister(id)`: the id and its current path's reverse
/// entry are both gone (an unknown id changes nothing).
pub open spec fn unregister_view(v: IndexView, id: Seq<char>) -> IndexView {
    if v.forward.dom().contains(id) {
        IndexView { forward: v.forward.remove(id), reverse: v.reverse.remove(v.forward[id]) }
    } else {
        v
    }
}

/// A simple in-memory registry, for tests and ephemeral workspaces. No
/// tombstones: an unregistered ID is forgotten entirely.
#[derive(Debug, Clone)]
pub struct InMemoryIndex {
    forward: StrMap,
    reverse: StrMap,
}

impl InMemoryIndex {
    /// The registry's contents.
    pub closed spec fn view(&self) -> IndexView {
        IndexView { forward: self.forward.view(), reverse: self.reverse.view() }
    }

    /// Both maps keep their keys distinct.
    pub closed spec fn spec_wf(&self) -> bool {
        self.forward.wf() && self.reverse.wf()
    }

    /// An empty registry.
    pub fn new() -> (ix: Self)
        ensures
            ix.spec_wf(),
            ix.view().forward == Map::<Seq<char>, Seq<char>>::empty(),
            ix.view().reverse == Map::<Seq<char>, Seq<char>>::empty(),
    {
        InMemoryIndex { forward: StrMap::new(), reverse: StrMap::new() }
    }

    /// The number of registered IDs.
    pub fn len(&self) -> (n: usize)
        requires
            self.spec_wf(),
        ensures
            n == self.view().forward.dom().len(),
            self.view().forward.dom().finite(),
    {
        self.forward.len()
    }

    /// Whether the registry is empty.
    pub fn is_empty(&self) -> (r: bool)
        requires
            self.spec_wf(),
        ensures
            r == (self.view().forward.dom().len() == 0),
            self.view().forward.dom().finite(),
    {
        self.forward.len() == 0
    }

    /// The live records, sorted by ID: one `(id, path)` pair per registered ID.
    fn records(&self) -> (r: Vec<(String, String)>)
        requires
            self.spec_wf(),
        ensures
            map_of(r@) == self.view().forward,
            keys_distinct(r@),
            forall|i: int, j: int| 0 <= i < j < r@.len() ==> chars_lt(r@[i].0@, r@[j].0@),
    {
        let entries = self.forward.entry_list();
        let mut out: Vec<(String, String)> = Vec::new();
        let mut i: usize = 0;
        while i < entries.len()
            invariant
                i <= entries@.len(),
                keys_distinct(entries@),
                map_of(entries@) == self.view().forward,
                map_of(out@) == map_of(entries@.take(i as int)),
                keys_distinct(out@),
                forall|a: int, b: int| 0 <= a < b < out@.len() ==> chars_lt(out@[a].0@, out@[b].0@),
            decreases entries@.len() - i,
        {
            let key = entries[i].0.clone();
            let val = entries[i].1.clone();
            let ghost before = out@;
            proof {
                lemma_map_of_lookup(entries@.take(i as int), key@);
                lemma_map_of_lookup(before, key@);
                if has_key(entries@.take(i as int), key@) {
                    let j = choose|j: int| 0 <= j < i && entries@.take(i as int)[j].0@ == key@;
                    assert(entries@[j].0@ == entries@[i as int].0@);
                }
            }
            let mut p: usize = 0;
            while p < out.len() && str_lt(out[p].0.as_str(), key.as_str())
                invariant
                    out@ == before,
                    p <= out@.len(),
                    forall|a: int| 0 <= a < p ==> chars_lt(#[trigger] out@[a].0@, key@),
                decreases out@.len() - p,
            {
                p = p + 1;
            }
            proof {
                if p < out@.len() {
                    lemma_chars_lt_trichotomy(out@[p as int].0@, key@);
                    assert(out@[p as int].0@ != key@);
                    assert(chars_lt(key@, out@[p as int].0@));
                }
            }
            out.insert(p, (key, val));
            proof {
                let s1 = out@;
                assert(s1 =~= before.insert(p as int, s1[p as int]));
                assert forall|a: int, b: int| 0 <= a < b < s1.len() implies chars_lt(
                    s1[a].0@,
                    s1[b].0@,
                ) by {
                    if a < p && b == p {
                    } else if a < p && b > p {
                        assert(s1[b] == before[b - 1]);
                        if b - 1 == p as int {
                        } else {
                            lemma_chars_lt_transitive(s1[a].0@, before[p as int].0@, before[b - 1].0@);
                        }
                        lemma_chars_lt_transitive(s1[a].0@, key@, before[p as int].0@);
                        if b - 1 > p {
                            lemma_chars_lt_transitive(s1[a].0@, before[p as int].0@, before[b - 1].0@);
                        }
                    } else if a == p && b > p {
                        assert(s1[b] == before[b - 1]);
                        if b - 1 > p {
                            lemma_chars_lt_transitive(key@, before[p as int].0@, before[b - 1].0@);
                        }
                    } else if b < p {
                        assert(s1[a] == before[a]);
                        assert(s1[b] == before[b]);
                    } else {
                        assert(s1[a] == before[a - 1]);
                        assert(s1[b] == before[b - 1]);
                    }
                }
                assert forall|a: int, b: int| 0 <= a < b < s1.len() implies s1[a].0@ != s1[b].0@ by {
                    lemma_chars_lt_trichotomy(s1[a].0@, s1[b].0@);
                }
                let t1 = entries@.take(i + 1);
                assert(t1.drop_last() =~= entries@.take(i as int));
                let target = map_of(t1);
                assert forall|q: Seq<char>| #[trigger] map_of(s1).dom().contains(q)
                    == target.dom().contains(q) && (map_of(s1).dom().contains(q)
                    ==> map_of(s1)[q] == target[q]) by {
                    lemma_map_of_lookup(s1, q);
                    lemma_map_of_lookup(before, q);
                    if has_key(before, q) {
                        let j = choose|j: int| 0 <= j < before.len() && before[j].0@ == q;
                        let j1 = if j < p { j } else { j + 1 };
                        assert(s1[j1] == before[j]);
                    }
                    if has_key(s1, q) {
                        let j = choose|j: int| 0 <= j < s1.len() && s1[j].0@ == q;
                        if j != p {
                            let j0 = if j < p { j } else { j - 1 };
                            assert(s1[j] == before[j0]);
                        }
                    }
                    assert(s1[p as int].0@ == key@);
                }
                assert(map_of(s1) =~= target);
            }
            i = i + 1;
        }
        proof {
            assert(entries@.take(entries@.len() as int) =~= entries@);
        }
        out
    }
}

impl StrMap {
    /// A copy of the entries, in insertion order.
    pub fn entry_list(&self) -> (r: Vec<(String, String)>)
        requires
            self.wf(),
        ensures
            map_of(r@) == self.view(),
            keys_distinct(r@),
    {
        self.entries_clone()
    }
}

impl IndexStore for InMemoryIndex {
    open spec fn wf(&self) -> bool {
        self.spec_wf()
    }

    open spec fn resolves(&self, id: Seq<char>) -> Option<Seq<char>> {
        if self.view().forward.dom().contains(id) {
            Some(self.view().forward[id])
        } else {
            None
        }
    }

    /// No tombstones: an ID is known exactly while it resolves.
    open spec fn knows(&self, id: Seq<char>) -> bool {
        self.view().forward.dom().contains(id)
    }

    fn is_known(&self, id: &Id) -> (r: bool) {
        self.resolve(id).is_some()
    }

    fn register(&mut self, id: &Id, path: &str)
        ensures
            final(self).view() == register_view(old(self).view(), id@, path@),
    {
        self.forward.insert(id.as_str(), path);
        self.reverse.insert(path, id.as_str());
    }

    fn resolve(&self, id: &Id) -> (r: Option<String>)
        ensures
            r matches Some(p) ==> self.view().forward.dom().contains(id@) && p@ == self.view().forward[id@],
            r is None ==> !self.view().forward.dom().contains(id@),
    {
        self.forward.get(id.as_str())
    }

    fn id_for_path(&self, path: &str) -> (r: Option<Id>)
        ensures
            r matches Some(i) ==> self.view().reverse.dom().contains(path@) && i@ == self.view().reverse[path@],
            r is None ==> !self.view().reverse.dom().contains(path@),
    {
        match self.reverse.get(path) {
            Some(s) => Some(Id(s)),
            None => None,
        }
    }

    fn set_path(&mut self, id: &Id, new_path: &str)
        ensures
            final(self).view() == set_path_view(old(self).view(), id@, new_path@),
    {
        let previous = self.forward.remove(id.as_str());
        self.forward.insert(id.as_str(), new_path);
        if let Some(prev_path) = previous {
            self.reverse.remove(prev_path.as_str());
        }
        self.reverse.insert(new_path, id.as_str());
        proof {
            assert(self.view().forward =~= set_path_view(old(self).view(), id@, new_path@).forward);
        }
    }

    fn unregister(&mut self, id: &Id)
        ensures
            final(self).view() == unregister_view(old(self).view(), id@),
    {
        if let Some(path) = self.forward.remove(id.as_str()) {
            self.reverse.remove(path.as_str());
        } else {
            proof {
                assert(self.view().forward =~= old(self).view().forward);
            }
        }
    }
}

/// The contents of a [`FileIndex`]: the live registry, the retired IDs, and
/// whether anything changed since it was last persisted.
pub struct FileIndexView {
    pub live: IndexView,
    pub tombstones: Set<Seq<char>>,
    pub dirty: bool,
}

/// Whether `id` has ever been issued in this registry: live or tombstoned.
pub open spec fn known_in(v: FileIndexView, id: Seq<char>) -> bool {
    v.live.forward.dom().contains(id) || v.tombstones.contains(id)
}

/// Whether one of the first `n` ids of `s` is `k`.
pub open spec fn ids_hold(s: Seq<Id>, n: int, k: Seq<char>) -> bool {
    exists|j: int| 0 <= j < n && s[j]@ == k
}

/// No id is both live and retired: a tombstoned id is known but no longer
/// resolves.
pub open spec fn retired_apart(v: FileIndexView) -> bool {
    forall|k: Seq<char>| #[trigger] v.tombstones.contains(k) ==> !v.live.forward.dom().contains(k)
}

/// A [`FileIndex`] after `register(id, path)`: a retired id that is registered
/// again is live once more, so its tombstone goes.
pub open spec fn file_register_view(v: FileIndexView, id: Seq<char>, path: Seq<char>) -> FileIndexView {
    FileIndexView { live: register_view(v.live, id, path), tombstones: v.tombstones.remove(id), dirty: true }
}

/// A [`FileIndex`] after `set_path(id, new_path)`: the id resolves again, so
/// any tombstone of it goes.
pub open spec fn file_set_path_view(v: FileIndexView, id: Seq<char>, new_path: Seq<char>) -> FileIndexView {
    FileIndexView { live: set_path_view(v.live, id, new_path), tombstones: v.tombstones.remove(id), dirty: true }
}

/// A [`FileIndex`] after `unregister(id)`: the id is retired to a tombstone.
pub open spec fn file_unregister_view(v: FileIndexView, id: Seq<char>) -> FileIndexView {
    FileIndexView { live: unregister_view(v.live, id), tombstones: v.tombstones.insert(id), dirty: true }
}

/// The persistent registry: live records plus tombstones (IDs retired by a
/// delete, which stay on record: known, never resolving, until the same ID is
/// registered again), living under the `registry` key of a workspace document.
///
/// The host document is either a bare config file whose whole content is
/// metadata, or a prose document whose fenced block carries the records
/// ([`MetaCarrier`]). Writes splice only the `registry` records back, so the
/// host's other keys, its comments, its body and its fence style survive.
/// The records are written sorted by ID; a live record is `id: path`, a
/// tombstone is `id: null`. The type is text in ([`FileIndex::parse`]), text
/// out ([`FileIndex::render`]); the caller owns the I/O and can consult
/// [`is_dirty`](FileIndex::is_dirty) to skip no-op writes.
#[derive(Debug, Clone)]
pub struct FileIndex {
    live: InMemoryIndex,
    tombstones: Vec<Id>,
    /// The host document's full current text.
    host_text: String,
    /// Where in the host the metadata lives.
    carrier: MetaCarrier,
    /// The records as currently written in `host_text`: `render` writes only
    /// what differs from these.
    persisted: RecordSet,
    /// Whether `host_text` already has a `registry` key. When it does not, the
    /// first render writes the whole record mapping at once.
    has_registry_key: bool,
    dirty: bool,
}

/// The records a registry holds: every live ID with its path, every other
/// tombstoned ID with nothing.
pub open spec fn records_of(v: FileIndexView) -> Map<Seq<char>, Option<Seq<char>>> {
    Map::new(
        |k: Seq<char>| v.live.forward.dom().contains(k) || v.tombstones.contains(k),
        |k: Seq<char>| if v.live.forward.dom().contains(k) { Some(v.live.forward[k]) } else { None },
    )
}

/// Why a registry could not be read or written.
#[derive(Debug)]
pub enum RegistryError {
    /// The entry for this ID is neither a path nor null (a tombstone).
    BadEntry(String),
    /// The host's metadata is not a mapping, so no `registry` key can be added.
    HostNotMapping,
    /// fig failed to parse or edit the host.
    Fig(fig::Error),
}

/// Whether a registry entry's value is a record: a path or null.
pub open spec fn entry_is_record(v: Value) -> bool {
    v is Null || v is String
}

/// The position of the first of the first `n` entries that is no record.
pub open spec fn first_bad_entry(entries: Seq<(String, Value)>, n: int) -> Option<int>
    decreases n,
{
    if n <= 0 {
        None
    } else {
        match first_bad_entry(entries, n - 1) {
            Some(i) => Some(i),
            None => if entry_is_record(entries[n - 1].1) {
                None
            } else {
                Some(n - 1)
            },
        }
    }
}

/// The live registry the first `n` entries describe: each path entry registered.
pub open spec fn read_live(entries: Seq<(String, Value)>, n: int) -> IndexView
    decreases n,
{
    if n <= 0 {
        IndexView { forward: Map::empty(), reverse: Map::empty() }
    } else {
        let v = read_live(entries, n - 1);
        match entries[n - 1].1 {
            Value::String(p) => register_view(v, entries[n - 1].0@, p@),
            _ => v,
        }
    }
}

/// The tombstones the first `n` entries describe: each null entry.
pub open spec fn read_tombstones(entries: Seq<(String, Value)>, n: int) -> Set<Seq<char>>
    decreases n,
{
    if n <= 0 {
        Set::empty()
    } else {
        let t = read_tombstones(entries, n - 1);
        if entries[n - 1].1 is Null {
            t.insert(entries[n - 1].0@)
        } else {
            t
        }
    }
}

/// The records the first `n` entries write: a path entry its path, a null
/// entry nothing.
pub open spec fn read_written(entries: Seq<(String, Value)>, n: int) -> Map<Seq<char>, Option<Seq<char>>>
    decreases n,
{
    if n <= 0 {
        Map::empty()
    } else {
        let w = read_written(entries, n - 1);
        match entries[n - 1].1 {
            Value::Null => w.insert(entries[n - 1].0@, None),
            Value::String(p) => w.insert(entries[n - 1].0@, Some(p@)),
            _ => w,
        }
    }
}

/// Every id the first `n` entries register or retire is the key of one of them.
pub proof fn lemma_read_keys(entries: Seq<(String, Value)>, n: int, k: Seq<char>)
    requires
        0 <= n <= entries.len(),
        read_live(entries, n).forward.dom().contains(k) || read_tombstones(entries, n).contains(k),
    ensures
        exists|j: int| 0 <= j < n && entries[j].0@ == k,
    decreases n,
{
    if n > 0 && entries[n - 1].0@ != k {
        lemma_read_keys(entries, n - 1, k);
    }
}

/// Once an entry is bad, the first bad entry stays where it is.
pub proof fn lemma_first_bad_stays(entries: Seq<(String, Value)>, m: int, n: int)
    requires
        0 <= m <= n,
        first_bad_entry(entries, m) is Some,
    ensures
        first_bad_entry(entries, n) == first_bad_entry(entries, m),
    decreases n - m,
{
    if m < n {
        lemma_first_bad_stays(entries, m, n - 1);
    }
}

/// `r` is the registry read out of a host whose metadata is `meta`, whose
/// text is `host` and whose metadata lives in `carrier`.
pub open spec fn read_from(meta: Value, host: Seq<char>, carrier: MetaCarrier, r: Result<FileIndex, RegistryError>) -> bool {
    let registry = meta.spec_get("registry"@);
    let entries = match registry {
        Some(Value::Mapping(m)) => m.entries(),
        _ => Seq::empty(),
    };
    match first_bad_entry(entries, entries.len() as int) {
        Some(i) => r matches Err(RegistryError::BadEntry(id)) && id@ == entries[i].0@,
        None => r matches Ok(ix) && {
            &&& ix.spec_wf()
            &&& ix.view() == (FileIndexView {
                live: read_live(entries, entries.len() as int),
                tombstones: read_tombstones(entries, entries.len() as int),
                dirty: false,
            })
            &&& records_map(ix.persisted_view()) == read_written(entries, entries.len() as int)
            &&& ix.host_view() == host
            &&& ix.carrier_view() == carrier
            &&& ix.has_registry_key_view() == registry is Some
        },
    }
}

/// `r` is the registry read with one outcome `res` of the metadata parser.
pub open spec fn parsed_from(res: Result<Value, fig::Error>, host: Seq<char>, carrier: MetaCarrier, r: Result<FileIndex, RegistryError>) -> bool {
    match res {
        Ok(meta) => read_from(meta, host, carrier, r),
        Err(e) => r matches Err(RegistryError::Fig(x)) && x == e,
    }
}

impl FileIndex {
    /// The registry's contents.
    pub closed spec fn view(&self) -> FileIndexView {
        FileIndexView {
            live: self.live.view(),
            tombstones: Set::new(|k: Seq<char>| exists|i: int| 0 <= i < self.tombstones@.len() && #[trigger] self.tombstones@[i]@ == k),
            dirty: self.dirty,
        }
    }

    /// The host document's current text.
    pub closed spec fn host_view(&self) -> Seq<char> {
        self.host_text@
    }

    /// Where in the host the metadata lives.
    pub closed spec fn carrier_view(&self) -> MetaCarrier {
        self.carrier
    }

    /// The records as currently written in the host, in ID order.
    pub closed spec fn persisted_view(&self) -> Seq<RecordView> {
        self.persisted.view()
    }

    /// Whether the host already has a `registry` key.
    pub closed spec fn has_registry_key_view(&self) -> bool {
        self.has_registry_key
    }

    /// The host text a write of the registry gives, through fig: a host
    /// without a `registry` key gets every record (a bare config host as a
    /// re-serialized mapping, a fenced one through the region editor); a host
    /// that has one gets only the records that differ from what it holds,
    /// upserted in place.
    pub open spec fn written_text(&self) -> Result<Seq<char>, RegistryError> {
        let recs = records_seq(self.view());
        if !self.has_registry_key_view() {
            match self.carrier_view() {
                MetaCarrier::WholeFile(format) => whole_file_rendering(self.host_view(), format, recs),
                MetaCarrier::Fenced(_) => upsert_rendering(self.host_view(), self.carrier_view(), recs),
            }
        } else {
            upsert_rendering(
                self.host_view(),
                self.carrier_view(),
                Self::changed(recs, records_map(self.persisted_view())),
            )
        }
    }

    /// The live registry is well formed and the written records sorted.
    pub closed spec fn spec_wf(&self) -> bool {
        self.live.spec_wf() && self.persisted.wf() && retired_apart(self.view())
    }

    /// An empty, clean registry hosted by an (empty) bare config document in
    /// `format`.
    pub fn new(format: fig::Format) -> (ix: Self)
        ensures
            ix.spec_wf(),
            ix.view().live.forward == Map::<Seq<char>, Seq<char>>::empty(),
            ix.view().live.reverse == Map::<Seq<char>, Seq<char>>::empty(),
            ix.view().tombstones == Set::<Seq<char>>::empty(),
            !ix.view().dirty,
            ix.host_view() == Seq::<char>::empty(),
            ix.carrier_view() == MetaCarrier::WholeFile(format),
            ix.persisted_view() == Seq::<RecordView>::empty(),
            !ix.has_registry_key_view(),
    {
        let ix = FileIndex {
            live: InMemoryIndex::new(),
            tombstones: Vec::new(),
            host_text: String::new(),
            carrier: MetaCarrier::WholeFile(format),
            persisted: RecordSet::new(),
            has_registry_key: false,
            dirty: false,
        };
        assert(ix.view().tombstones =~= Set::<Seq<char>>::empty());
        ix
    }

    /// Every record the registry holds, sorted by ID: each live ID with its
    /// path, each other tombstoned ID with nothing.
    pub fn record_set(&self) -> (r: RecordSet)
        requires
            self.spec_wf(),
        ensures
            r.wf(),
            records_map(r.view()) == records_of(self.view()),
    {
        let ghost tombs = self.view().tombstones;
        let mut cur = RecordSet::new();
        let mut i: usize = 0;
        while i < self.tombstones.len()
            invariant
                cur.wf(),
                i <= self.tombstones@.len(),
                records_map(cur.view()) == Map::new(
                    |k: Seq<char>| exists|j: int| 0 <= j < i && #[trigger] self.tombstones@[j]@ == k,
                    |k: Seq<char>| None::<Seq<char>>,
                ),
            decreases self.tombstones@.len() - i,
        {
            let ghost before = records_map(cur.view());
            cur.upsert(&self.tombstones[i], None);
            proof {
                assert(records_map(cur.view()) =~= Map::new(
                    |k: Seq<char>| exists|j: int| 0 <= j < i + 1 && #[trigger] self.tombstones@[j]@ == k,
                    |k: Seq<char>| None::<Seq<char>>,
                )) by {
                    assert forall|k: Seq<char>| (exists|j: int| 0 <= j < i + 1 && #[trigger] self.tombstones@[j]@ == k)
                        <==> (before.dom().contains(k) || k == self.tombstones@[i as int]@) by {
                        if exists|j: int| 0 <= j < i + 1 && #[trigger] self.tombstones@[j]@ == k {
                            let j = choose|j: int| 0 <= j < i + 1 && #[trigger] self.tombstones@[j]@ == k;
                            if j < i {
                                assert(before.dom().contains(k));
                            }
                        }
                    }
                }
            }
            i = i + 1;
        }
        let live = self.live.records();
        let mut j: usize = 0;
        while j < live.len()
            invariant
                cur.wf(),
                keys_distinct(live@),
                map_of(live@) == self.view().live.forward,
                j <= live@.len(),
                tombs == self.view().tombstones,
                records_map(cur.view()) == Map::new(
                    |k: Seq<char>| tombs.contains(k) || map_of(live@.take(j as int)).dom().contains(k),
                    |k: Seq<char>| if map_of(live@.take(j as int)).dom().contains(k) {
                        Some(map_of(live@.take(j as int))[k])
                    } else {
                        None
                    },
                ),
            decreases live@.len() - j,
        {
            proof {
                assert(live@.take(j + 1).drop_last() =~= live@.take(j as int));
                assert(live@.take(j + 1).last() == live@[j as int]);
            }
            let id = Id(live[j].0.clone());
            let path = live[j].1.clone();
            cur.upsert(&id, Some(path));
            proof {
                let m0 = map_of(live@.take(j as int));
                let m1 = map_of(live@.take(j + 1));
                assert(m1 == m0.insert(live@[j as int].0@, live@[j as int].1@));
                assert(records_map(cur.view()) =~= Map::new(
                    |k: Seq<char>| tombs.contains(k) || m1.dom().contains(k),
                    |k: Seq<char>| if m1.dom().contains(k) { Some(m1[k]) } else { None },
                ));
            }
            j = j + 1;
        }
        proof {
            assert(live@.take(live@.len() as int) =~= live@);
            assert(self.view().tombstones =~= Set::new(
                |k: Seq<char>| exists|j: int| 0 <= j < self.tombstones@.len() && #[trigger] self.tombstones@[j]@ == k,
            ));
            assert(records_map(cur.view()) =~= records_of(self.view()));
        }
        cur
    }

    /// The records of `cur` that `written` does not already hold with the
    /// same value, in `cur`'s order.
    pub open spec fn changed(cur: Seq<RecordView>, written: Map<Seq<char>, Option<Seq<char>>>) -> Seq<RecordView>
        decreases cur.len(),
    {
        if cur.len() == 0 {
            Seq::empty()
        } else {
            let rest = Self::changed(cur.drop_last(), written);
            let r = cur.last();
            if written.dom().contains(r.0) && written[r.0] == r.1 {
                rest
            } else {
                rest.push(r)
            }
        }
    }

    /// The records of `cur` the host does not already hold as they are: what
    /// a steady-state render writes, in ID order.
    pub fn pending(&self, cur: &RecordSet) -> (r: Vec<(Id, Option<String>)>)
        requires
            self.spec_wf(),
        ensures
            r@.map_values(|e: (Id, Option<String>)| (e.0@, opt_view(e.1))) == Self::changed(
                cur.view(),
                records_map(self.persisted_view()),
            ),
    {
        let recs = cur.as_slice();
        let ghost cv = cur.view();
        let ghost pm = records_map(self.persisted_view());
        let mut out: Vec<(Id, Option<String>)> = Vec::new();
        let mut i: usize = 0;
        while i < recs.len()
            invariant
                self.spec_wf(),
                pm == records_map(self.persisted_view()),
                cv == recs@.map_values(|e: (Id, Option<String>)| (e.0@, opt_view(e.1))),
                i <= recs@.len(),
                out@.map_values(|e: (Id, Option<String>)| (e.0@, opt_view(e.1))) == Self::changed(cv.take(i as int), pm),
            decreases recs@.len() - i,
        {
            let id = &recs[i].0;
            let value = &recs[i].1;
            proof {
                assert(cv.take(i + 1).drop_last() =~= cv.take(i as int));
                assert(cv.take(i + 1).last() == cv[i as int]);
                assert(cv[i as int] == (id@, opt_view(*value)));
            }
            let same = match self.persisted.get(id) {
                Some(Some(p)) => match value {
                    Some(v) => str_eq(p.as_str(), v.as_str()),
                    None => false,
                },
                Some(None) => value.is_none(),
                None => false,
            };
            if !same {
                let copy = match value {
                    Some(v) => Some(v.clone()),
                    None => None,
                };
                let ghost before = out@;
                out.push((id.clone_id(), copy));
                proof {
                    assert(out@.map_values(|e: (Id, Option<String>)| (e.0@, opt_view(e.1))) =~= before.map_values(
                        |e: (Id, Option<String>)| (e.0@, opt_view(e.1)),
                    ).push(cv[i as int]));
                }
            }
            i = i + 1;
        }
        proof {
            assert(cv.take(recs@.len() as int) =~= cv);
        }
        out
    }

    /// The registry held by a host whose metadata is `meta`: every entry
    /// under the `registry` key is a record (a path is live, null a
    /// tombstone); any other value is an error. A host without a `registry`
    /// mapping holds an empty registry, and the rest of its metadata is left
    /// alone.
    pub fn from_meta(meta: &Value, host: &str, carrier: MetaCarrier) -> (r: Result<FileIndex, RegistryError>)
        ensures
            read_from(*meta, host@, carrier, r),
    {
        let registry = meta.get("registry");
        let mut index = FileIndex {
            live: InMemoryIndex::new(),
            tombstones: Vec::new(),
            host_text: String::from_str(host),
            carrier,
            persisted: RecordSet::new(),
            has_registry_key: registry.is_some(),
            dirty: false,
        };
        let ghost entries = match meta.spec_get("registry"@) {
            Some(Value::Mapping(m)) => m.entries(),
            _ => Seq::empty(),
        };
        let empty: Vec<(String, Value)> = Vec::new();
        let slice: &[(String, Value)] = match registry {
            Some(Value::Mapping(m)) => m.iter(),
            _ => empty.as_slice(),
        };
        proof {
            assert(slice@ == entries);
            assert(index.view().tombstones =~= Set::<Seq<char>>::empty());
        }
        let mut i: usize = 0;
        while i < slice.len()
            invariant
                slice@ == entries,
                entries == (match meta.spec_get("registry"@) {
                    Some(Value::Mapping(m)) => m.entries(),
                    _ => Seq::empty(),
                }),
                i <= entries.len(),
                entry_keys_distinct(entries),
                first_bad_entry(entries, i as int) is None,
                index.spec_wf(),
                index.view() == (FileIndexView {
                    live: read_live(entries, i as int),
                    tombstones: read_tombstones(entries, i as int),
                    dirty: false,
                }),
                records_map(index.persisted_view()) == read_written(entries, i as int),
                index.host_view() == host@,
                index.carrier_view() == carrier,
                index.has_registry_key_view() == meta.spec_get("registry"@) is Some,
            decreases entries.len() - i,
        {
            let key = &slice[i].0;
            let id = Id(key.clone());
            proof {
                if read_live(entries, i as int).forward.dom().contains(key@) || read_tombstones(entries, i as int).contains(key@) {
                    lemma_read_keys(entries, i as int, key@);
                }
            }
            match &slice[i].1 {
                Value::Null => {
                    proof {
                        assert(!index.view().live.forward.dom().contains(key@)) by {
                            if index.view().live.forward.dom().contains(key@) {
                                let j = choose|j: int| 0 <= j < i && entries[j].0@ == key@;
                                assert(entries[j].0@ != entries[i as int].0@);
                            }
                        }
                    }
                    index.persisted.upsert(&id, None);
                    let ghost before = index.view().tombstones;
                    let ghost ts0 = index.tombstones@;
                    if !index.is_tombstoned(&id) {
                        index.tombstones.push(id);
                    }
                    proof {
                        let ts = index.tombstones@;
                        assert(index.view().tombstones =~= before.insert(key@)) by {
                            assert forall|k: Seq<char>| index.view().tombstones.contains(k) implies before.insert(key@).contains(k) by {
                                let j = choose|j: int| 0 <= j < ts.len() && #[trigger] ts[j]@ == k;
                                if j < ts0.len() {
                                    assert(ts0[j] == ts[j]);
                                }
                            }
                            assert forall|k: Seq<char>| before.insert(key@).contains(k) implies index.view().tombstones.contains(k) by {
                                if before.contains(k) {
                                    let j = choose|j: int| 0 <= j < ts0.len() && #[trigger] ts0[j]@ == k;
                                    assert(ts[j] == ts0[j]);
                                } else {
                                    assert(ts[ts.len() - 1]@ == k);
                                }
                            }
                        }
                    }
                },
                Value::String(path) => {
                    let ghost v0 = index.view();
                    proof {
                        assert(!v0.tombstones.contains(key@)) by {
                            if v0.tombstones.contains(key@) {
                                let j = choose|j: int| 0 <= j < i && entries[j].0@ == key@;
                                assert(entries[j].0@ != entries[i as int].0@);
                            }
                        }
                    }
                    index.persisted.upsert(&id, Some(path.clone()));
                    index.live.register(&id, path.as_str());
                    proof {
                        let v = index.view();
                        assert forall|k: Seq<char>| #[trigger] v.tombstones.contains(k) implies !v.live.forward.dom().contains(k) by {
                            assert(v0.tombstones.contains(k));
                        }
                    }
                },
                _ => {
                    proof {
                        assert(first_bad_entry(entries, i + 1) == Some(i as int));
                        lemma_first_bad_stays(entries, i + 1, entries.len() as int);
                    }
                    return Err(RegistryError::BadEntry(key.clone()));
                },
            }
            i = i + 1;
        }
        Ok(index)
    }

    /// Parse the registry out of its host document. `path` picks the carrier:
    /// a config extension means the whole text is metadata (read by
    /// [`parse_value`] in that format); anything else is searched for an
    /// embedded block (its content read in the block's format), and a
    /// host with none gets fresh YAML frontmatter on its first write. The
    /// records are read from the metadata's `registry` key (see
    /// [`FileIndex::from_meta`]).
    pub fn parse(path: &str, text: &str) -> (r: Result<FileIndex, RegistryError>)
        ensures
            whole_file_format_spec(path@) matches Some(f) ==> exists|res: Result<Value, fig::Error>|
                #![trigger read_meta(text@, f, res)]
                read_meta(text@, f, res) && parsed_from(res, text@, MetaCarrier::WholeFile(f), r),
            whole_file_format_spec(path@) is None ==> (Document::block_of(text@) matches Some(b) ==> exists|res: Result<Value, fig::Error>|
                #![trigger read_meta(b.1, inner_format_of(b.0), res)]
                read_meta(b.1, inner_format_of(b.0), res) && parsed_from(res, text@, MetaCarrier::Fenced(b.0), r)),
            whole_file_format_spec(path@) is None ==> (Document::block_of(text@) is None ==> read_from(
                Value::Null,
                text@,
                MetaCarrier::Fenced(yaml_frontmatter_kind()),
                r,
            )),
    {
        match whole_file_format(path) {
            Some(format) => {
                let res = parse_value(text, format);
                let ghost res_g = res;
                let r = match res {
                    Ok(meta) => Self::from_meta(&meta, text, MetaCarrier::WholeFile(format)),
                    Err(e) => Err(RegistryError::Fig(e)),
                };
                proof {
                    assert(read_meta(text@, format, res_g));
                    assert(parsed_from(res_g, text@, MetaCarrier::WholeFile(format), r));
                }
                r
            },
            None => {
                let block = match detect(text) {
                    Some(kind) => match split(text, kind) {
                        Some((content, _body)) => Some((kind, content)),
                        None => None,
                    },
                    None => None,
                };
                match block {
                    Some((kind, content)) => {
                        let format = inner_format(kind);
                        let res = parse_value(content, format);
                        let ghost res_g = res;
                        let r = match res {
                            Ok(meta) => Self::from_meta(&meta, text, MetaCarrier::Fenced(kind)),
                            Err(e) => Err(RegistryError::Fig(e)),
                        };
                        proof {
                            let b = Document::block_of(text@)->0;
                            assert(b.0 == kind && b.1 == content@);
                            assert(read_meta(b.1, inner_format_of(b.0), res_g));
                            assert(parsed_from(res_g, text@, MetaCarrier::Fenced(b.0), r));
                        }
                        r
                    },
                    None => {
                        let kind = yaml_frontmatter();
                        let meta = Value::Null;
                        let r = Self::from_meta(&meta, text, MetaCarrier::Fenced(kind));
                        proof {
                            assert(read_from(Value::Null, text@, MetaCarrier::Fenced(kind), r));
                        }
                        r
                    },
                }
            },
        }
    }

    /// Render the host document with the current records applied to its
    /// `registry` key, and remember them as written. When nothing changed the
    /// host text comes back as it is. The first write into a host without a
    /// `registry` key writes the whole record mapping at once: a bare config
    /// host is re-serialized with the mapping added (one record per line), a
    /// fenced host gets one upsert per record. Afterwards each write upserts
    /// only the records that changed ([`FileIndex::pending`]), so everything
    /// else in the host (other keys, comments, body, fences, existing record
    /// lines) is untouched. Records never reorder; new ones land in ID order.
    /// On an error nothing is remembered.
    pub fn render(&mut self) -> (r: Result<String, RegistryError>)
        requires
            old(self).spec_wf(),
        ensures
            final(self).spec_wf(),
            final(self).view() == old(self).view(),
            final(self).carrier_view() == old(self).carrier_view(),
            r matches Err(e) ==> (e is Fig || e is HostNotMapping),
            records_map(old(self).persisted_view()) == records_of(old(self).view()) ==> {
                &&& r matches Ok(t) && t@ == old(self).host_view()
                &&& final(self).host_view() == old(self).host_view()
                &&& final(self).persisted_view() == old(self).persisted_view()
                &&& final(self).has_registry_key_view() == old(self).has_registry_key_view()
            },
            r is Ok ==> records_map(final(self).persisted_view()) == records_of(final(self).view()),
            records_map(old(self).persisted_view()) != records_of(old(self).view()) ==> text_result(r)
                == old(self).written_text(),
            records_map(old(self).persisted_view()) != records_of(old(self).view()) ==> match r {
                Ok(t) => {
                    &&& final(self).host_view() == t@
                    &&& records_map(final(self).persisted_view()) == records_of(old(self).view())
                    &&& final(self).has_registry_key_view()
                },
                Err(_) => {
                    &&& final(self).host_view() == old(self).host_view()
                    &&& final(self).persisted_view() == old(self).persisted_view()
                    &&& final(self).has_registry_key_view() == old(self).has_registry_key_view()
                },
            },
    {
        let cur = self.record_set();
        if cur.same_as(&self.persisted) {
            return Ok(self.host_text.clone());
        }
        proof {
            if records_map(self.persisted_view()) == records_of(self.view()) {
                lemma_records_canonical(cur.view(), self.persisted_view());
            }
            let chosen = records_seq(self.view());
            assert(records_sorted(chosen) && records_map(chosen) == records_of(self.view()));
            lemma_records_canonical(chosen, cur.view());
        }
        let rendered = if !self.has_registry_key {
            match self.carrier {
                MetaCarrier::WholeFile(format) => whole_file_registry(self.host_text.as_str(), format, &cur),
                MetaCarrier::Fenced(_) => upsert_records(self.host_text.as_str(), self.carrier, cur.as_slice()),
            }
        } else {
            let pending = self.pending(&cur);
            upsert_records(self.host_text.as_str(), self.carrier, pending.as_slice())
        };
        match rendered {
            Ok(text) => {
                self.host_text = text.clone();
                self.persisted = cur;
                self.has_registry_key = true;
                Ok(text)
            },
            Err(e) => Err(e),
        }
    }

    /// Whether the registry changed since it was created or last marked clean
    /// (i.e. needs a write).
    pub fn is_dirty(&self) -> (r: bool)
        ensures
            r == self.view().dirty,
    {
        self.dirty
    }

    /// Mark the registry as persisted.
    pub fn mark_clean(&mut self)
        ensures
            final(self).view() == (FileIndexView { dirty: false, ..old(self).view() }),
            final(self).spec_wf() == old(self).spec_wf(),
            final(self).host_view() == old(self).host_view(),
            final(self).persisted_view() == old(self).persisted_view(),
            final(self).has_registry_key_view() == old(self).has_registry_key_view(),
    {
        self.dirty = false;
        proof {
            assert(self.view().tombstones == old(self).view().tombstones);
            assert(self.view().live == old(self).view().live);
        }
    }

    /// The number of live (resolving) IDs.
    pub fn len(&self) -> (n: usize)
        requires
            self.spec_wf(),
        ensures
            n == self.view().live.forward.dom().len(),
            self.view().live.forward.dom().finite(),
    {
        self.live.len()
    }

    /// Whether the registry has no live IDs.
    pub fn is_empty(&self) -> (r: bool)
        requires
            self.spec_wf(),
        ensures
            r == (self.view().live.forward.dom().len() == 0),
            self.view().live.forward.dom().finite(),
    {
        self.live.is_empty()
    }

    /// Forget any tombstone of `id`.
    fn drop_tombstone(&mut self, id: &Id)
        ensures
            final(self).view() == (FileIndexView { tombstones: old(self).view().tombstones.remove(id@), ..old(self).view() }),
            final(self).live == old(self).live,
            final(self).host_view() == old(self).host_view(),
            final(self).carrier_view() == old(self).carrier_view(),
            final(self).persisted_view() == old(self).persisted_view(),
            final(self).has_registry_key_view() == old(self).has_registry_key_view(),
    {
        let mut kept: Vec<Id> = Vec::new();
        let mut i: usize = 0;
        let ghost ts = self.tombstones@;
        while i < self.tombstones.len()
            invariant
                self.tombstones@ == ts,
                i <= ts.len(),
                forall|k: Seq<char>| #[trigger] ids_hold(kept@, kept@.len() as int, k) <==> (k != id@ && ids_hold(ts, i as int, k)),
            decreases ts.len() - i,
        {
            let ghost before = kept@;
            if !str_eq(self.tombstones[i].as_str(), id.as_str()) {
                kept.push(self.tombstones[i].clone_id());
            }
            proof {
                assert forall|k: Seq<char>| #[trigger] ids_hold(kept@, kept@.len() as int, k) <==> (k != id@ && ids_hold(ts, i + 1, k)) by {
                    if ids_hold(kept@, kept@.len() as int, k) {
                        let j = choose|j: int| 0 <= j < kept@.len() && kept@[j]@ == k;
                        if j < before.len() {
                            assert(before[j] == kept@[j]);
                            assert(ids_hold(before, before.len() as int, k));
                        }
                    }
                    if k != id@ && ids_hold(ts, i + 1, k) {
                        let j = choose|j: int| 0 <= j < i + 1 && ts[j]@ == k;
                        if j < i {
                            assert(ids_hold(ts, i as int, k));
                            assert(ids_hold(before, before.len() as int, k));
                            let m = choose|m: int| 0 <= m < before.len() && before[m]@ == k;
                            assert(kept@[m] == before[m]);
                        } else {
                            assert(kept@[before.len() as int]@ == k);
                        }
                    }
                    if k != id@ && ids_hold(ts, i as int, k) {
                        let j = choose|j: int| 0 <= j < i && ts[j]@ == k;
                        assert(ids_hold(ts, i + 1, k));
                    }
                    if ids_hold(before, before.len() as int, k) {
                        let j = choose|j: int| 0 <= j < before.len() && before[j]@ == k;
                        assert(kept@[j] == before[j]);
                    }
                }
            }
            i = i + 1;
        }
        let ghost kv = kept@;
        self.tombstones = kept;
        proof {
            assert forall|k: Seq<char>| self.view().tombstones.contains(k) <==> old(self).view().tombstones.remove(id@).contains(k) by {
                if self.view().tombstones.contains(k) {
                    let j = choose|j: int| 0 <= j < self.tombstones@.len() && #[trigger] self.tombstones@[j]@ == k;
                    assert(kv[j]@ == k);
                    assert(ids_hold(kv, kv.len() as int, k));
                    assert(ids_hold(ts, ts.len() as int, k));
                    let m = choose|m: int| 0 <= m < ts.len() && ts[m]@ == k;
                    assert(old(self).tombstones@[m]@ == k);
                }
                if old(self).view().tombstones.remove(id@).contains(k) {
                    let m = choose|m: int| 0 <= m < ts.len() && #[trigger] ts[m]@ == k;
                    assert(ids_hold(ts, ts.len() as int, k));
                    assert(ids_hold(kv, kv.len() as int, k));
                    let j = choose|j: int| 0 <= j < kv.len() && kv[j]@ == k;
                    assert(self.tombstones@[j]@ == k);
                }
            }
            assert(self.view().tombstones =~= old(self).view().tombstones.remove(id@));
        }
    }

    /// Whether `id` is retired: known but no longer resolving.
    pub fn is_tombstoned(&self, id: &Id) -> (r: bool)
        ensures
            r == self.view().tombstones.contains(id@),
            self.spec_wf() ==> (r <==> known_in(self.view(), id@) && !self.view().live.forward.dom().contains(id@)),
    {
        let mut i: usize = 0;
        while i < self.tombstones.len()
            invariant
                i <= self.tombstones@.len(),
                forall|j: int| 0 <= j < i ==> self.tombstones@[j]@ != id@,
            decreases self.tombstones@.len() - i,
        {
            if str_eq(self.tombstones[i].as_str(), id.as_str()) {
                assert(self.view().tombstones.contains(id@));
                return true;
            }
            i = i + 1;
        }
        false
    }

    /// The live records as `(id, path)`, sorted by ID.
    pub fn iter(&self) -> (r: Vec<(Id, String)>)
        requires
            self.spec_wf(),
        ensures
            r@.len() == self.view().live.forward.dom().len(),
            forall|i: int| 0 <= i < r@.len() ==> {
                &&& self.view().live.forward.dom().contains(#[trigger] r@[i].0@)
                &&& self.view().live.forward[r@[i].0@] == r@[i].1@
            },
            forall|i: int, j: int| 0 <= i < j < r@.len() ==> chars_lt(r@[i].0@, r@[j].0@),
    {
        let recs = self.live.records();
        proof {
            lemma_map_of_len(recs@);
        }
        let mut out: Vec<(Id, String)> = Vec::new();
        let mut i: usize = 0;
        while i < recs.len()
            invariant
                i <= recs@.len(),
                out@.len() == i,
                forall|j: int| 0 <= j < i ==> (#[trigger] out@[j]).0@ == recs@[j].0@ && out@[j].1@ == recs@[j].1@,
            decreases recs@.len() - i,
        {
            out.push((Id(recs[i].0.clone()), recs[i].1.clone()));
            i = i + 1;
        }
        proof {
            assert forall|k: int| 0 <= k < out@.len() implies {
                &&& self.view().live.forward.dom().contains(#[trigger] out@[k].0@)
                &&& self.view().live.forward[out@[k].0@] == out@[k].1@
            } by {
                lemma_map_of_lookup(recs@, recs@[k].0@);
            }
        }
        out
    }
}

impl IndexStore for FileIndex {
    open spec fn wf(&self) -> bool {
        self.spec_wf()
    }

    open spec fn resolves(&self, id: Seq<char>) -> Option<Seq<char>> {
        if self.view().live.forward.dom().contains(id) {
            Some(self.view().live.forward[id])
        } else {
            None
        }
    }

    open spec fn knows(&self, id: Seq<char>) -> bool {
        known_in(self.view(), id)
    }

    fn register(&mut self, id: &Id, path: &str)
        ensures
            final(self).view() == file_register_view(old(self).view(), id@, path@),
            final(self).host_view() == old(self).host_view(),
            final(self).carrier_view() == old(self).carrier_view(),
            final(self).persisted_view() == old(self).persisted_view(),
            final(self).has_registry_key_view() == old(self).has_registry_key_view(),
    {
        self.live.register(id, path);
        self.drop_tombstone(id);
        self.dirty = true;
        proof {
            let v = self.view();
            assert forall|k: Seq<char>| #[trigger] v.tombstones.contains(k) implies !v.live.forward.dom().contains(k) by {
                assert(old(self).view().tombstones.contains(k));
            }
        }
    }

    fn resolve(&self, id: &Id) -> (r: Option<String>)
        ensures
            r matches Some(p) ==> self.view().live.forward.dom().contains(id@) && p@ == self.view().live.forward[id@],
            r is None ==> !self.view().live.forward.dom().contains(id@),
    {
        self.live.resolve(id)
    }

    fn id_for_path(&self, path: &str) -> (r: Option<Id>)
        ensures
            r matches Some(i) ==> self.view().live.reverse.dom().contains(path@) && i@ == self.view().live.reverse[path@],
            r is None ==> !self.view().live.reverse.dom().contains(path@),
    {
        self.live.id_for_path(path)
    }

    fn set_path(&mut self, id: &Id, new_path: &str)
        ensures
            final(self).view() == file_set_path_view(old(self).view(), id@, new_path@),
            final(self).host_view() == old(self).host_view(),
            final(self).carrier_view() == old(self).carrier_view(),
            final(self).persisted_view() == old(self).persisted_view(),
            final(self).has_registry_key_view() == old(self).has_registry_key_view(),
    {
        self.live.set_path(id, new_path);
        self.drop_tombstone(id);
        self.dirty = true;
        proof {
            let v = self.view();
            assert forall|k: Seq<char>| #[trigger] v.tombstones.contains(k) implies !v.live.forward.dom().contains(k) by {
                assert(old(self).view().tombstones.contains(k));
            }
        }
    }

    /// Retire to a tombstone: the ID stops resolving but stays known forever.
    fn unregister(&mut self, id: &Id)
        ensures
            final(self).view() == file_unregister_view(old(self).view(), id@),
            final(self).host_view() == old(self).host_view(),
            final(self).carrier_view() == old(self).carrier_view(),
            final(self).persisted_view() == old(self).persisted_view(),
            final(self).has_registry_key_view() == old(self).has_registry_key_view(),
    {
        self.live.unregister(id);
        let ghost before = self.view().tombstones;
        if !self.is_tombstoned(id) {
            self.tombstones.push(id.clone_id());
        }
        self.dirty = true;
        proof {
            assert forall|k: Seq<char>| #[trigger] before.insert(id@).contains(k) implies !self.view().live.forward.dom().contains(k) by {
                if k != id@ {
                    assert(old(self).view().tombstones.contains(k));
                }
            }
            assert(self.view().tombstones =~= before.insert(id@)) by {
                assert forall|k: Seq<char>| self.view().tombstones.contains(k) implies before.insert(id@).contains(k) by {
                    let i = choose|i: int| 0 <= i < self.tombstones@.len() && self.tombstones@[i]@ == k;
                    if i < old(self).tombstones@.len() {
                        assert(old(self).tombstones@[i] == self.tombstones@[i]);
                    }
                }
                assert forall|k: Seq<char>| before.insert(id@).contains(k) implies self.view().tombstones.contains(k) by {
                    if before.contains(k) {
                        let i = choose|i: int| 0 <= i < old(self).tombstones@.len() && old(self).tombstones@[i]@ == k;
                        assert(self.tombstones@[i] == old(self).tombstones@[i]);
                    } else {
                        let n = self.tombstones@.len() - 1;
                        assert(self.tombstones@[n]@ == k);
                    }
                }
            }
        }
    }

    fn is_known(&self, id: &Id) -> (r: bool)
        ensures
            r == known_in(self.view(), id@),
    {
        self.live.resolve(id).is_some() || self.is_tombstoned(id)
    }
}

/// The metadata path of a record: `registry.<id>`.
pub open spec fn record_path_view(id: Seq<char>) -> Seq<SegmentView> {
    seq![SegmentView::Key("registry"@), SegmentView::Key(id)]
}

/// fig's null value tree.
pub open spec fn null_tree() -> FigValue {
    choose|t: FigValue| fig_is_null(t)
}

/// The value tree a record is written as: its path, or null for a tombstone.
pub open spec fn record_tree(value: Option<Seq<char>>) -> FigValue {
    match value {
        Some(p) => fig_str_value(p),
        None => null_tree(),
    }
}

/// The `registry` mapping's entries for records, in their order.
pub open spec fn registry_entries(records: Seq<RecordView>) -> Seq<(FigValue, FigValue)> {
    records.map_values(|rec: RecordView| (fig_str_value(rec.0), record_tree(rec.1)))
}

/// What writing the whole `registry` mapping into a bare config host gives:
/// fig parses the host; a null document is an empty mapping and anything but
/// a mapping cannot take the key; the mapping with `registry` appended is
/// serialized. The first step that fails gives its error.
pub open spec fn whole_file_rendering(host: Seq<char>, format: fig::Format, records: Seq<RecordView>) -> Result<Seq<char>, RegistryError> {
    match document_parse_failure(host, format) {
        Some(e) => Err(RegistryError::Fig(e)),
        None => match document_tree(host, format) {
            Err(e) => Err(RegistryError::Fig(e)),
            Ok(top) => {
                let entries = if fig_is_null(top) {
                    Some(Seq::<(FigValue, FigValue)>::empty())
                } else {
                    fig_entries(top)
                };
                match entries {
                    None => Err(RegistryError::HostNotMapping),
                    Some(es) => {
                        let tree = fig_map_value(es.push((fig_str_value("registry"@), fig_map_value(registry_entries(records)))));
                        match serialized(tree, format) {
                            Ok(t) => Ok(t),
                            Err(e) => Err(RegistryError::Fig(e)),
                        }
                    },
                }
            },
        },
    }
}

/// An embedded-region editor in `state` after upserting each record under
/// `registry.<id>`, in order; the first upsert fig refuses gives its error.
pub open spec fn embed_upserts(state: EmbedState, records: Seq<RecordView>) -> Result<EmbedState, fig::Error>
    decreases records.len(),
{
    if records.len() == 0 {
        Ok(state)
    } else {
        match embed_upserts(state, records.drop_last()) {
            Err(e) => Err(e),
            Ok(st) => {
                let path = record_path_view(records.last().0);
                let tree = record_tree(records.last().1);
                match embed_set_failure(st, path, tree) {
                    Some(e) => Err(e),
                    None => Ok(EmbedState { edits: st.edits.push(EditStep::Upsert(path, tree)), ..st }),
                }
            },
        }
    }
}

/// A whole-document editor in `state` after upserting each record under
/// `registry.<id>`, in order; the first upsert fig refuses gives its error.
pub open spec fn editor_upserts(state: EditorState, records: Seq<RecordView>) -> Result<EditorState, fig::Error>
    decreases records.len(),
{
    if records.len() == 0 {
        Ok(state)
    } else {
        match editor_upserts(state, records.drop_last()) {
            Err(e) => Err(e),
            Ok(st) => {
                let path = record_path_view(records.last().0);
                let tree = record_tree(records.last().1);
                match editor_set_failure(st, path, tree) {
                    Some(e) => Err(e),
                    None => Ok(EditorState { edits: st.edits.push(EditStep::Upsert(path, tree)), ..st }),
                }
            },
        }
    }
}

/// What upserting records into a host through fig's comment-preserving
/// editor for its carrier gives: the editor is opened (a fenced region is
/// created when missing), each record upserted in order, and the host
/// rendered. The first step that fails gives its error.
pub open spec fn upsert_rendering(host: Seq<char>, carrier: MetaCarrier, records: Seq<RecordView>) -> Result<Seq<char>, RegistryError> {
    match carrier {
        MetaCarrier::WholeFile(format) => match editor_open_failure(host, format) {
            Some(e) => Err(RegistryError::Fig(e)),
            None => match editor_upserts(EditorState { text: host, format, edits: Seq::empty() }, records) {
                Err(e) => Err(RegistryError::Fig(e)),
                Ok(st) => match editor_text(st) {
                    Ok(t) => Ok(t),
                    Err(e) => Err(RegistryError::Fig(e)),
                },
            },
        },
        MetaCarrier::Fenced(kind) => match embed_init_failure(host, kind) {
            Some(e) => Err(RegistryError::Fig(e)),
            None => match embed_upserts(EmbedState { host, kind, init: true, edits: Seq::empty() }, records) {
                Err(e) => Err(RegistryError::Fig(e)),
                Ok(st) => match embed_rendered(st) {
                    Ok(t) => Ok(t),
                    Err(e) => Err(RegistryError::Fig(e)),
                },
            },
        },
    }
}

/// A failed upsert chain stays failed with the same error however many
/// records follow.
proof fn lemma_embed_upserts_fail(state: EmbedState, records: Seq<RecordView>, n: int, e: fig::Error)
    requires
        0 <= n <= records.len(),
        embed_upserts(state, records.take(n)) == Err::<EmbedState, fig::Error>(e),
    ensures
        embed_upserts(state, records) == Err::<EmbedState, fig::Error>(e),
    decreases records.len() - n,
{
    if n < records.len() {
        assert(records.take(n + 1).drop_last() =~= records.take(n));
        lemma_embed_upserts_fail(state, records, n + 1, e);
    } else {
        assert(records.take(n) =~= records);
    }
}

/// A failed upsert chain stays failed with the same error however many
/// records follow.
proof fn lemma_editor_upserts_fail(state: EditorState, records: Seq<RecordView>, n: int, e: fig::Error)
    requires
        0 <= n <= records.len(),
        editor_upserts(state, records.take(n)) == Err::<EditorState, fig::Error>(e),
    ensures
        editor_upserts(state, records) == Err::<EditorState, fig::Error>(e),
    decreases records.len() - n,
{
    if n < records.len() {
        assert(records.take(n + 1).drop_last() =~= records.take(n));
        lemma_editor_upserts_fail(state, records, n + 1, e);
    } else {
        assert(records.take(n) =~= records);
    }
}

/// The record list of a registry, in ID order.
pub open spec fn records_seq(v: FileIndexView) -> Seq<RecordView> {
    choose|s: Seq<RecordView>| records_sorted(s) && records_map(s) == records_of(v)
}

/// A result with its text as a character sequence.
pub open spec fn text_result(r: Result<String, RegistryError>) -> Result<Seq<char>, RegistryError> {
    match r {
        Ok(t) => Ok(t@),
        Err(e) => Err(e),
    }
}

/// The metadata path of one record: `registry.<id>`.
fn record_path(id: &Id) -> (r: Vec<KeySegment>)
    ensures
        path_view(r@) == record_path_view(id@),
{
    let mut r: Vec<KeySegment> = Vec::new();
    r.push(KeySegment::Key(String::from_str("registry")));
    r.push(KeySegment::Key(id.0.clone()));
    proof {
        assert(path_view(r@) =~= record_path_view(id@));
    }
    r
}

/// The value tree of one record: its path, or null for a tombstone.
fn record_value(value: &Option<String>) -> (r: FigValue)
    ensures
        r == record_tree(opt_view(*value)),
{
    match value {
        Some(p) => str_value(p.clone()),
        None => {
            let t = null_value();
            proof {
                assert(fig_is_null(t));
                let c = null_tree();
                assert(fig_is_null(c));
            }
            t
        },
    }
}

/// A bare config host re-serialized with a `registry` mapping of every record
/// (in ID order) added after its other keys. An empty host is an empty
/// mapping; a host whose metadata is not a mapping cannot take the key.
fn whole_file_registry(host: &str, format: fig::Format, records: &RecordSet) -> (r: Result<String, RegistryError>)
    ensures
        r matches Err(e) ==> (e is Fig || e is HostNotMapping),
        text_result(r) == whole_file_rendering(host@, format, records.view()),
{
    let doc = match parse_document(host, format) {
        Ok(d) => d,
        Err(e) => return Err(RegistryError::Fig(e)),
    };
    let top = match document_value(&doc) {
        Ok(v) => v,
        Err(e) => return Err(RegistryError::Fig(e)),
    };
    let ghost top_g = top;
    let mut entries: Vec<(FigValue, FigValue)> = if value_is_null(&top) {
        Vec::new()
    } else {
        match value_into_entries(top) {
            Some(e) => e,
            None => return Err(RegistryError::HostNotMapping),
        }
    };
    proof {
        if fig_is_null(top_g) {
            assert(entries@ =~= Seq::<(FigValue, FigValue)>::empty());
        }
    }
    let recs = records.as_slice();
    let ghost rv = records.view();
    let mut registry: Vec<(FigValue, FigValue)> = Vec::new();
    let mut i: usize = 0;
    while i < recs.len()
        invariant
            rv == recs@.map_values(|e: (Id, Option<String>)| (e.0@, opt_view(e.1))),
            i <= recs@.len(),
            registry@ == registry_entries(rv.take(i as int)),
        decreases recs@.len() - i,
    {
        let key = str_value(recs[i].0.0.clone());
        let value = record_value(&recs[i].1);
        registry.push((key, value));
        proof {
            assert(rv[i as int] == (recs@[i as int].0@, opt_view(recs@[i as int].1)));
            assert(registry_entries(rv.take(i + 1)) =~= registry_entries(rv.take(i as int)).push(
                (fig_str_value(rv[i as int].0), record_tree(rv[i as int].1)),
            ));
        }
        i = i + 1;
    }
    proof {
        assert(rv.take(recs@.len() as int) =~= rv);
    }
    let registry_tree = map_value(registry);
    entries.push((str_value(String::from_str("registry")), registry_tree));
    let tree = map_value(entries);
    match serialize(&tree, format) {
        Ok(text) => Ok(text),
        Err(e) => Err(RegistryError::Fig(e)),
    }
}

/// The host with each of `records` upserted under `registry.<id>` through
/// fig's comment-preserving editor for the carrier, in order.
fn upsert_records(host: &str, carrier: MetaCarrier, records: &[(Id, Option<String>)]) -> (r: Result<String, RegistryError>)
    ensures
        r matches Err(e) ==> e is Fig,
        text_result(r) == upsert_rendering(
            host@,
            carrier,
            records@.map_values(|e: (Id, Option<String>)| (e.0@, opt_view(e.1))),
        ),
{
    let ghost rv = records@.map_values(|e: (Id, Option<String>)| (e.0@, opt_view(e.1)));
    match carrier {
        MetaCarrier::WholeFile(format) => {
            let mut editor = match editor_open(host, format) {
                Ok(e) => e,
                Err(e) => return Err(RegistryError::Fig(e)),
            };
            let ghost start = editor.state();
            let mut i: usize = 0;
            while i < records.len()
                invariant
                    rv == records@.map_values(|e: (Id, Option<String>)| (e.0@, opt_view(e.1))),
                    i <= records@.len(),
                    editor_upserts(start, rv.take(i as int)) == Ok::<EditorState, fig::Error>(editor.state()),
                    start == (EditorState { text: host@, format, edits: Seq::empty() }),
                    editor_open_failure(host@, format) is None,
                    carrier == MetaCarrier::WholeFile(format),
                decreases records@.len() - i,
            {
                let path = record_path(&records[i].0);
                let value = record_value(&records[i].1);
                proof {
                    assert(rv.take(i + 1).drop_last() =~= rv.take(i as int));
                    assert(rv.take(i + 1).last() == rv[i as int]);
                    assert(rv[i as int] == (records@[i as int].0@, opt_view(records@[i as int].1)));
                }
                let ghost before = editor.state();
                let ghost tree = value;
                let ghost pv = path_view(path@);
                match editor_set(&mut editor, path.as_slice(), value) {
                    Ok(()) => {},
                    Err(e) => {
                        proof {
                            assert(pv == record_path_view(rv.take(i + 1).last().0));
                            assert(tree == record_tree(rv.take(i + 1).last().1));
                            lemma_editor_upserts_fail(start, rv, i + 1, e);
                        }
                        return Err(RegistryError::Fig(e));
                    },
                }
                i = i + 1;
            }
            proof {
                assert(rv.take(records@.len() as int) =~= rv);
            }
            match editor_source(&editor) {
                Ok(text) => Ok(text),
                Err(e) => Err(RegistryError::Fig(e)),
            }
        },
        MetaCarrier::Fenced(kind) => {
            let mut embed = match embed_open_or_init(host, kind) {
                Ok(e) => e,
                Err(e) => return Err(RegistryError::Fig(e)),
            };
            let ghost start = embed.state();
            let mut i: usize = 0;
            while i < records.len()
                invariant
                    rv == records@.map_values(|e: (Id, Option<String>)| (e.0@, opt_view(e.1))),
                    i <= records@.len(),
                    embed_upserts(start, rv.take(i as int)) == Ok::<EmbedState, fig::Error>(embed.state()),
                    start == (EmbedState { host: host@, kind, init: true, edits: Seq::empty() }),
                    embed_init_failure(host@, kind) is None,
                    carrier == MetaCarrier::Fenced(kind),
                decreases records@.len() - i,
            {
                let path = record_path(&records[i].0);
                let value = record_value(&records[i].1);
                proof {
                    assert(rv.take(i + 1).drop_last() =~= rv.take(i as int));
                    assert(rv.take(i + 1).last() == rv[i as int]);
                    assert(rv[i as int] == (records@[i as int].0@, opt_view(records@[i as int].1)));
                }
                let ghost before = embed.state();
                let ghost tree = value;
                let ghost pv = path_view(path@);
                match embed_set(&mut embed, path.as_slice(), value) {
                    Ok(()) => {},
                    Err(e) => {
                        proof {
                            assert(pv == record_path_view(rv.take(i + 1).last().0));
                            assert(tree == record_tree(rv.take(i + 1).last().1));
                            lemma_embed_upserts_fail(start, rv, i + 1, e);
                        }
                        return Err(RegistryError::Fig(e));
                    },
                }
                i = i + 1;
            }
            proof {
                assert(rv.take(records@.len() as int) =~= rv);
            }
            match embed_render(&mut embed) {
                Ok(text) => Ok(text),
                Err(e) => Err(RegistryError::Fig(e)),
            }
        },
    }
}

/// A registered id resolves to the path it was registered with, and that path
/// maps back to it.
pub proof fn law_register_then_lookup(v: IndexView, id: Seq<char>, path: Seq<char>)
    ensures
        register_view(v, id, path).forward.dom().contains(id),
        register_view(v, id, path).forward[id] == path,
        register_view(v, id, path).reverse.dom().contains(path),
        register_view(v, id, path).reverse[path] == id,
{
}

/// A move points the id at its new path, the new path back at the id, and
/// clears the stale reverse entry of the old path.
pub proof fn law_move_clears_stale_reverse(
    v: IndexView,
    id: Seq<char>,
    old_path: Seq<char>,
    new_path: Seq<char>,
)
    requires
        v.forward.dom().contains(id),
        v.forward[id] == old_path,
        old_path != new_path,
    ensures
        set_path_view(v, id, new_path).forward[id] == new_path,
        set_path_view(v, id, new_path).reverse.dom().contains(new_path),
        set_path_view(v, id, new_path).reverse[new_path] == id,
        !set_path_view(v, id, new_path).reverse.dom().contains(old_path),
{
}

/// Unregistering a live id removes both directions: the id no longer resolves
/// and its path no longer maps to an id.
pub proof fn law_unregister_removes_both(v: IndexView, id: Seq<char>)
    requires
        v.forward.dom().contains(id),
    ensures
        !unregister_view(v, id).forward.dom().contains(id),
        !unregister_view(v, id).reverse.dom().contains(v.forward[id]),
{
}

/// IDs are forever: once an id is known to a [`FileIndex`] (live or
/// tombstoned), no registry operation makes it unknown, so it is never free to
/// be reminted.
pub proof fn law_known_ids_stay_known(
    v: FileIndexView,
    id: Seq<char>,
    other: Seq<char>,
    path: Seq<char>,
)
    requires
        known_in(v, id),
    ensures
        known_in(file_register_view(v, other, path), id),
        known_in(file_set_path_view(v, other, path), id),
        known_in(file_unregister_view(v, other), id),
        known_in(FileIndexView { dirty: false, ..v }, id),
{
    if v.live.forward.dom().contains(id) && v.live.forward.dom().contains(other) && other == id {
        assert(file_unregister_view(v, other).tombstones.contains(id));
    }
}

/// Unregistering retires an id to a tombstone: it stops resolving, yet stays
/// known, and the registry is marked as needing a write.
pub proof fn law_unregister_tombstones(v: FileIndexView, id: Seq<char>)
    ensures
        !file_unregister_view(v, id).live.forward.dom().contains(id),
        file_unregister_view(v, id).tombstones.contains(id),
        known_in(file_unregister_view(v, id), id),
        file_unregister_view(v, id).dirty,
{
}

/// One change made to a [`FileIndex`], as its view sees it.
pub enum RegistryStep {
    /// `register(id, path)`.
    Register(Seq<char>, Seq<char>),
    /// `set_path(id, new_path)`.
    SetPath(Seq<char>, Seq<char>),
    /// `unregister(id)`.
    Unregister(Seq<char>),
    /// `mark_clean()`.
    MarkClean,
    /// `render()`, which leaves the records as they are.
    Render,
}

/// A registry's view after one step.
pub open spec fn after_step(v: FileIndexView, step: RegistryStep) -> FileIndexView {
    match step {
        RegistryStep::Register(id, path) => file_register_view(v, id, path),
        RegistryStep::SetPath(id, path) => file_set_path_view(v, id, path),
        RegistryStep::Unregister(id) => file_unregister_view(v, id),
        RegistryStep::MarkClean => FileIndexView { dirty: false, ..v },
        RegistryStep::Render => v,
    }
}

/// A registry's view after each of `steps`, in order.
pub open spec fn after_steps(v: FileIndexView, steps: Seq<RegistryStep>) -> FileIndexView
    decreases steps.len(),
{
    if steps.len() == 0 {
        v
    } else {
        after_step(after_steps(v, steps.drop_last()), steps.last())
    }
}

/// Whether a step gives `id` a path.
pub open spec fn gives_path(step: RegistryStep, id: Seq<char>) -> bool {
    match step {
        RegistryStep::Register(k, _) => k == id,
        RegistryStep::SetPath(k, _) => k == id,
        _ => false,
    }
}

/// IDs are forever, over any run of registry operations: an id known to the
/// registry (live or retired) stays known, so it is never free to be reminted;
/// and a retired id stays retired, and an id that does not resolve keeps not
/// resolving, until a step registers it or sets its path.
pub proof fn law_ids_are_forever(v: FileIndexView, steps: Seq<RegistryStep>, id: Seq<char>)
    ensures
        known_in(v, id) ==> known_in(after_steps(v, steps), id),
        v.tombstones.contains(id) && (forall|j: int| 0 <= j < steps.len() ==> !gives_path(#[trigger] steps[j], id))
            ==> after_steps(v, steps).tombstones.contains(id),
        !v.live.forward.dom().contains(id) && (forall|j: int| 0 <= j < steps.len() ==> !gives_path(#[trigger] steps[j], id))
            ==> !after_steps(v, steps).live.forward.dom().contains(id),
    decreases steps.len(),
{
    if steps.len() > 0 {
        let prev = steps.drop_last();
        law_ids_are_forever(v, prev, id);
        let w = after_steps(v, prev);
        if known_in(v, id) {
            law_known_ids_stay_known(w, id, Seq::empty(), Seq::empty());
            match steps.last() {
                RegistryStep::Register(k, p) => law_known_ids_stay_known(w, id, k, p),
                RegistryStep::SetPath(k, p) => law_known_ids_stay_known(w, id, k, p),
                RegistryStep::Unregister(k) => law_known_ids_stay_known(w, id, k, Seq::empty()),
                _ => {},
            }
        }
        if !v.live.forward.dom().contains(id) && (forall|j: int| 0 <= j < steps.len() ==> !gives_path(#[trigger] steps[j], id)) {
            assert forall|j: int| 0 <= j < prev.len() implies !gives_path(#[trigger] prev[j], id) by {
                assert(prev[j] == steps[j]);
            }
            assert(!gives_path(steps[steps.len() - 1], id));
        }
    }
}

/// The live part of a record map: each ID with a path, mapped to it.
pub open spec fn live_records(m: Map<Seq<char>, Option<Seq<char>>>) -> Map<Seq<char>, Seq<char>> {
    Map::new(|k: Seq<char>| m.dom().contains(k) && m[k] is Some, |k: Seq<char>| m[k]->0)
}

/// The retired part of a record map: each ID with no path.
pub open spec fn retired_records(m: Map<Seq<char>, Option<Seq<char>>>) -> Set<Seq<char>> {
    Set::new(|k: Seq<char>| m.dom().contains(k) && m[k] is None)
}

/// `entries` are the `registry` entries a write of `records` produces: one per
/// record, in order; a live ID maps to its path, a retired one to null.
pub open spec fn entries_written_as(entries: Seq<(String, Value)>, records: Seq<RecordView>) -> bool {
    &&& entries.len() == records.len()
    &&& forall|i: int| 0 <= i < records.len() ==> {
        &&& (#[trigger] entries[i]).0@ == records[i].0
        &&& match records[i].1 {
            Some(p) => entries[i].1 matches Value::String(q) && q@ == p,
            None => entries[i].1 is Null,
        }
    }
}

/// Reading the first `n` written entries gives back the first `n` records.
proof fn lemma_read_written_prefix(entries: Seq<(String, Value)>, records: Seq<RecordView>, n: int)
    requires
        records_sorted(records),
        entries_written_as(entries, records),
        0 <= n <= records.len(),
    ensures
        first_bad_entry(entries, n) is None,
        read_written(entries, n) == records_map(records.take(n)),
        read_live(entries, n).forward == live_records(records_map(records.take(n))),
        read_tombstones(entries, n) == retired_records(records_map(records.take(n))),
    decreases n,
{
    if n > 0 {
        lemma_read_written_prefix(entries, records, n - 1);
        let prev = records.take(n - 1);
        let k = records[n - 1].0;
        assert(records.take(n).drop_last() =~= prev);
        assert(records.take(n).last() == records[n - 1]);
        assert(records_sorted(prev));
        lemma_records_map(prev);
        assert(!records_map(prev).dom().contains(k)) by {
            if records_map(prev).dom().contains(k) {
                let i = choose|i: int| 0 <= i < prev.len() && prev[i].0 == k;
                assert(prev[i] == records[i]);
                assert(chars_lt(records[i].0, records[n - 1].0));
                lemma_chars_lt_trichotomy(k, k);
            }
        }
        let m = records_map(prev);
        assert(entries[n - 1].0@ == k);
        match records[n - 1].1 {
            Some(p) => {
                assert(live_records(m.insert(k, Some(p))) =~= live_records(m).insert(k, p));
                assert(retired_records(m.insert(k, Some(p))) =~= retired_records(m));
            },
            None => {
                assert(live_records(m.insert(k, None)) =~= live_records(m));
                assert(retired_records(m.insert(k, None)) =~= retired_records(m).insert(k));
            },
        }
    }
}

/// The reverse map the first `n` entries build: each path a path entry names
/// maps back to the ID of one of the entries naming it, and no other path is
/// in it.
proof fn lemma_read_reverse(entries: Seq<(String, Value)>, n: int)
    requires
        0 <= n <= entries.len(),
    ensures
        forall|p: Seq<char>| #[trigger] read_live(entries, n).reverse.dom().contains(p) ==> exists|j: int|
            0 <= j < n && (entries[j].1 matches Value::String(q) && q@ == p) && entries[j].0@ == read_live(entries, n).reverse[p],
        forall|j: int| 0 <= j < n && (#[trigger] entries[j].1 matches Value::String(q))
            ==> read_live(entries, n).reverse.dom().contains(entries[j].1->String_0@),
    decreases n,
{
    if n > 0 {
        lemma_read_reverse(entries, n - 1);
        let v = read_live(entries, n - 1);
        let w = read_live(entries, n);
        assert forall|p: Seq<char>| #[trigger] w.reverse.dom().contains(p) implies exists|j: int|
            0 <= j < n && (entries[j].1 matches Value::String(q) && q@ == p) && entries[j].0@ == w.reverse[p] by {
            match entries[n - 1].1 {
                Value::String(q) => {
                    if q@ != p {
                        assert(v.reverse.dom().contains(p));
                        let j = choose|j: int|
                            0 <= j < n - 1 && (entries[j].1 matches Value::String(q) && q@ == p) && entries[j].0@ == v.reverse[p];
                        assert(w.reverse[p] == v.reverse[p]);
                    } else {
                        assert(w.reverse[p] == entries[n - 1].0@);
                    }
                },
                _ => {
                    assert(w == v);
                    let j = choose|j: int|
                        0 <= j < n - 1 && (entries[j].1 matches Value::String(q) && q@ == p) && entries[j].0@ == v.reverse[p];
                },
            }
        }
        assert forall|j: int| 0 <= j < n && (#[trigger] entries[j].1 matches Value::String(q))
            implies w.reverse.dom().contains(entries[j].1->String_0@) by {
            if j < n - 1 {
                assert(v.reverse.dom().contains(entries[j].1->String_0@));
            }
        }
    }
}

/// What a read gives back of a write: a registry whose records are written
/// under `registry` (one entry per record in ID order, a path for a live ID
/// and null for a retired one) reads back as the same registry, clean: every
/// live ID resolves to the same path, the same IDs are retired, the records
/// it remembers as written are exactly its own, and each live path maps back
/// to an ID registered at it (to that ID itself when no other ID shares the
/// path), while no other path maps back at all.
pub proof fn law_registry_read_back(
    written: FileIndex,
    records: Seq<RecordView>,
    meta: Value,
    host: Seq<char>,
    carrier: MetaCarrier,
    r: Result<FileIndex, RegistryError>,
)
    requires
        written.spec_wf(),
        records_sorted(records),
        records_map(records) == records_of(written.view()),
        meta.spec_get("registry"@) matches Some(Value::Mapping(m)) && entries_written_as(m.entries(), records),
        read_from(meta, host, carrier, r),
    ensures
        r matches Ok(ix) && {
            &&& ix.view().live.forward == written.view().live.forward
            &&& ix.view().tombstones == written.view().tombstones
            &&& !ix.view().dirty
            &&& records_map(ix.persisted_view()) == records_of(written.view())
            &&& ix.has_registry_key_view()
            &&& forall|p: Seq<char>| #[trigger] ix.view().live.reverse.dom().contains(p) ==> {
                let id = ix.view().live.reverse[p];
                written.view().live.forward.dom().contains(id) && written.view().live.forward[id] == p
            }
            &&& forall|id: Seq<char>| #[trigger] written.view().live.forward.dom().contains(id) ==> {
                let p = written.view().live.forward[id];
                &&& ix.view().live.reverse.dom().contains(p)
                &&& (forall|other: Seq<char>| written.view().live.forward.dom().contains(other)
                    && #[trigger] written.view().live.forward[other] == p ==> other == id) ==> ix.view().live.reverse[p] == id
            }
        },
{
    let v = written.view();
    let entries = meta.spec_get("registry"@)->0->Mapping_0.entries();
    let n = entries.len() as int;
    lemma_read_written_prefix(entries, records, n);
    assert(records.take(n) =~= records);
    assert(live_records(records_of(v)) =~= v.live.forward);
    assert(retired_records(records_of(v)) =~= v.tombstones);
    lemma_read_reverse(entries, n);
    lemma_records_map(records);
    let w = read_live(entries, n);
    assert forall|p: Seq<char>| #[trigger] w.reverse.dom().contains(p) implies
        v.live.forward.dom().contains(w.reverse[p]) && v.live.forward[w.reverse[p]] == p by {
        let j = choose|j: int| 0 <= j < n && (entries[j].1 matches Value::String(q) && q@ == p) && entries[j].0@ == w.reverse[p];
        assert(entries[j].0@ == records[j].0);
        assert(records[j].1 == Some(p));
        assert(records_map(records)[records[j].0] == records[j].1);
        assert(records_map(records).dom().contains(records[j].0));
    }
    assert forall|id: Seq<char>| #[trigger] v.live.forward.dom().contains(id) implies {
        let p = v.live.forward[id];
        &&& w.reverse.dom().contains(p)
        &&& (forall|other: Seq<char>| v.live.forward.dom().contains(other)
            && #[trigger] v.live.forward[other] == p ==> other == id) ==> w.reverse[p] == id
    } by {
        let p = v.live.forward[id];
        assert(records_map(records).dom().contains(id));
        let j = choose|j: int| 0 <= j < records.len() && records[j].0 == id;
        assert(records_map(records)[records[j].0] == records[j].1);
        assert(records[j].1 == Some(p));
        assert(entries[j].1 matches Value::String(q) && q@ == p);
        assert(w.reverse.dom().contains(entries[j].1->String_0@));
        let other = w.reverse[p];
        assert(v.live.forward.dom().contains(other) && v.live.forward[other] == p);
    }
}

} // verus!
