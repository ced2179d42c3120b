//! Workspace configuration: the typed policy a workspace reads from its config
//! document (or its root's `colophon:` frontmatter block).
//!
//! The vocabulary is one namespace of keys with two homes: nested under
//! `colophon:` in the root's frontmatter, or at the top level of the dedicated
//! config document. [`apply`](WorkspaceConfig::apply) reads either shape; unset
//! keys keep their value, and layering root block then config document gives the
//! precedence *config document > root `colophon:` block > default*.
use vstd::prelude::*;
use crate::identity::Registration;
use crate::meta::{Value, Mapping, key_index, lookup, lemma_key_index, entry_keys_distinct};
use crate::strings::{str_eq, str_lt, chars_lt, lemma_chars_lt_trichotomy, lemma_chars_lt_transitive, int_decimal, int_to_string, concat_str};
use crate::textdist::{nearest, nearest_spec};
use crate::vocab::{Addressing, ContentFormat, EmbedStyle, Fixity, IdStorage, MetadataFormat, Notation, PathStyle};

verus! {

/// The config-vocabulary version stamped as `spec` and recognized on read.
pub const SPEC_VERSION: i64 = 1;

/// The root-frontmatter key under which workspace policy is nested.
pub const ROOT_CONFIG_KEY: &'static str = "colophon";

/// A per-relation reference-style override, as declared in a config's
/// `relations` block. Each axis is optional and inherits the workspace default
/// when absent.
#[derive(Debug, Clone, Copy, PartialEq, Eq, Structural)]
pub struct RelationStyleConfig {
    /// The notation override (`markdown` / `wikilink` / `bare`).
    pub notation: Option<Notation>,
    /// The path-resolution override (`root` / `relative` / `canonical`).
    pub path_style: Option<PathStyle>,
    /// The addressing override (`path` / `id` / `alias`).
    pub target: Option<Addressing>,
    /// The `id`-wikilink label override.
    pub label: Option<bool>,
}

/// The override with no axis set.
pub open spec fn empty_override() -> RelationStyleConfig {
    RelationStyleConfig { notation: None, path_style: None, target: None, label: None }
}

impl Default for RelationStyleConfig {
    /// No axis overridden.
    fn default() -> (r: Self)
        ensures
            r == empty_override(),
    {
        RelationStyleConfig { notation: None, path_style: None, target: None, label: None }
    }
}

/// The `identity` spelling of a registration trigger set: `none` (also
/// accepted as `off`), `lazy`, or `eager`.
pub open spec fn registration_parse(s: Seq<char>) -> Option<Registration> {
    if s == "none"@ || s == "off"@ {
        Some(Registration::off())
    } else if s == "lazy"@ {
        Some(Registration::lazy())
    } else if s == "eager"@ {
        Some(Registration::eager())
    } else {
        None
    }
}

/// How many of the three triggers `a` and `b` set differently.
pub open spec fn trigger_distance(a: Registration, b: Registration) -> nat {
    (if a.on_create != b.on_create { 1nat } else { 0nat }) + (if a.on_link != b.on_link { 1nat } else { 0nat })
        + (if a.on_publish != b.on_publish { 1nat } else { 0nat })
}

/// The `identity` spelling written for a registration: the name of the preset
/// it differs from in the fewest triggers (each preset its own name), `lazy`
/// on a tie. (`none` and `eager` differ in all three triggers, so they never
/// tie with each other.)
pub open spec fn registration_spelling(r: Registration) -> Seq<char> {
    let d_none = trigger_distance(r, Registration::off());
    let d_lazy = trigger_distance(r, Registration::lazy());
    let d_eager = trigger_distance(r, Registration::eager());
    if d_lazy <= d_none && d_lazy <= d_eager {
        "lazy"@
    } else if d_none <= d_eager {
        "none"@
    } else {
        "eager"@
    }
}

/// Parse the `identity` config value into a registration trigger set. `none`
/// is the canonical spelling for "identity off", and `off` is accepted as a
/// synonym.
pub fn registration_from_str(value: &str) -> (r: Option<Registration>)
    ensures
        r == registration_parse(value@),
{
    if str_eq(value, "none") || str_eq(value, "off") {
        Some(Registration::off())
    } else if str_eq(value, "lazy") {
        Some(Registration::lazy())
    } else if str_eq(value, "eager") {
        Some(Registration::eager())
    } else {
        None
    }
}

/// The `identity` config spelling for a registration trigger set. A custom
/// combination (not one of the three presets) is reported as its nearest
/// name: the preset it differs from in the fewest triggers, `lazy` on a tie.
pub fn registration_str(registration: Registration) -> (r: &'static str)
    ensures
        r@ == registration_spelling(registration),
{
    let d_none = differing_triggers(registration, Registration::off());
    let d_lazy = differing_triggers(registration, Registration::lazy());
    let d_eager = differing_triggers(registration, Registration::eager());
    if d_lazy <= d_none && d_lazy <= d_eager {
        "lazy"
    } else if d_none <= d_eager {
        "none"
    } else {
        "eager"
    }
}

/// How many of the three triggers `a` and `b` set differently.
fn differing_triggers(a: Registration, b: Registration) -> (n: u8)
    ensures
        n == trigger_distance(a, b),
{
    let mut n: u8 = 0;
    if a.on_create != b.on_create {
        n = n + 1;
    }
    if a.on_link != b.on_link {
        n = n + 1;
    }
    if a.on_publish != b.on_publish {
        n = n + 1;
    }
    n
}

/// Parse a `metadata.format` config value (`yaml`/`yml`/`json`/`toml`/`fig`).
pub fn metadata_format_from_str(value: &str) -> (r: Option<MetadataFormat>)
    ensures
        r == MetadataFormat::parse_spelling(value@),
{
    MetadataFormat::from_config_str(value)
}

/// The `metadata.format` config spelling of a metadata format.
pub fn metadata_format_str(format: MetadataFormat) -> (r: &'static str)
    ensures
        r@ == format.spelling(),
{
    format.as_config_str()
}

/// The workspace-wide policy a config declares.
#[derive(Debug, Clone, PartialEq, Eq)]
pub struct WorkspaceConfig {
    /// When a document earns a stable ID: the identity registration triggers.
    pub identity: Registration,
    /// The default reference notation.
    pub notation: Notation,
    /// The default path resolution for path targets.
    pub path_style: PathStyle,
    /// The default reference addressing.
    pub reference_target: Addressing,
    /// Whether an id/alias reference carries a `|Title` label.
    pub reference_label: bool,
    /// Per-relation reference-style overrides, keyed by relation name and kept
    /// sorted by name.
    pub relation_styles: Vec<(String, RelationStyleConfig)>,
    /// Where a document's stable ID is persisted.
    pub id_storage: IdStorage,
    /// The metadata language new documents get when they inherit no parent block.
    pub default_embed_format: MetadataFormat,
    /// How that metadata is embedded.
    pub embed_style: EmbedStyle,
    /// The body-prose grammar the workspace is authored in.
    pub content_format: ContentFormat,
    /// Whether a `delete` moves the document to the recycle bin.
    pub recycle_bin: bool,
    /// How far content-checksum (fixity) coverage extends.
    pub fixity: Fixity,
    /// The frontmatter field stamped with the time of a content change; empty
    /// disables it.
    pub updated: String,
}

/// The contents of a [`WorkspaceConfig`], with strings as character sequences.
pub struct ConfigView {
    pub identity: Registration,
    pub notation: Notation,
    pub path_style: PathStyle,
    pub reference_target: Addressing,
    pub reference_label: bool,
    pub relation_styles: Seq<(Seq<char>, RelationStyleConfig)>,
    pub id_storage: IdStorage,
    pub default_embed_format: MetadataFormat,
    pub embed_style: EmbedStyle,
    pub content_format: ContentFormat,
    pub recycle_bin: bool,
    pub fixity: Fixity,
    pub updated: Seq<char>,
}

/// Relation names in strictly increasing order (hence distinct).
pub open spec fn styles_sorted(s: Seq<(Seq<char>, RelationStyleConfig)>) -> bool {
    forall|i: int, j: int| 0 <= i < j < s.len() ==> chars_lt(s[i].0, s[j].0)
}

/// The standalone default: markdown-root path links, lazy identity, path
/// addressing, YAML delimited frontmatter, recycle bin on, attachment fixity.
pub open spec fn default_view() -> ConfigView {
    ConfigView {
        identity: Registration::lazy(),
        notation: Notation::Markdown,
        path_style: PathStyle::Root,
        reference_target: Addressing::Path,
        reference_label: false,
        relation_styles: Seq::empty(),
        id_storage: IdStorage::Frontmatter,
        default_embed_format: MetadataFormat::Yaml,
        embed_style: EmbedStyle::Delimited,
        content_format: ContentFormat::Markdown,
        recycle_bin: true,
        fixity: Fixity::Payloads,
        updated: Seq::empty(),
    }
}

// ── How `apply` reads a config surface ──────────────────────────────────────

/// The value under `k` in `meta`, or `Null` when absent (or `meta` is no mapping).
pub open spec fn block(meta: Value, k: Seq<char>) -> Value {
    match meta.spec_get(k) {
        Some(v) => v,
        None => Value::Null,
    }
}

/// The string scalar under `k` in `meta`.
pub open spec fn str_at(meta: Value, k: Seq<char>) -> Option<Seq<char>> {
    match meta.spec_get(k) {
        Some(v) => v.spec_as_str(),
        None => None,
    }
}

/// The boolean scalar under `k` in `meta`.
pub open spec fn bool_at(meta: Value, k: Seq<char>) -> Option<bool> {
    match meta.spec_get(k) {
        Some(v) => v.spec_as_bool(),
        None => None,
    }
}

/// The content format `meta` spells under `k`, if it is present and parses.
pub open spec fn content_format_at(meta: Value, k: Seq<char>) -> Option<ContentFormat> {
    match str_at(meta, k) {
        Some(s) => ContentFormat::parse_spelling(s),
        None => None,
    }
}

/// The metadata format `meta` spells under `k`, if it is present and parses.
pub open spec fn metadata_format_at(meta: Value, k: Seq<char>) -> Option<MetadataFormat> {
    match str_at(meta, k) {
        Some(s) => MetadataFormat::parse_spelling(s),
        None => None,
    }
}

/// The embed style `meta` spells under `k`, if it is present and parses.
pub open spec fn embed_style_at(meta: Value, k: Seq<char>) -> Option<EmbedStyle> {
    match str_at(meta, k) {
        Some(s) => EmbedStyle::parse_spelling(s),
        None => None,
    }
}

/// The notation `meta` spells under `k`, if it is present and parses.
pub open spec fn notation_at(meta: Value, k: Seq<char>) -> Option<Notation> {
    match str_at(meta, k) {
        Some(s) => Notation::parse_spelling(s),
        None => None,
    }
}

/// The path style `meta` spells under `k`, if it is present and parses.
pub open spec fn path_style_at(meta: Value, k: Seq<char>) -> Option<PathStyle> {
    match str_at(meta, k) {
        Some(s) => PathStyle::parse_spelling(s),
        None => None,
    }
}

/// The addressing `meta` spells under `k`, if it is present and parses.
pub open spec fn addressing_at(meta: Value, k: Seq<char>) -> Option<Addressing> {
    match str_at(meta, k) {
        Some(s) => Addressing::parse_spelling(s),
        None => None,
    }
}

/// The id storage `meta` spells under `k`, if it is present and parses.
pub open spec fn id_storage_at(meta: Value, k: Seq<char>) -> Option<IdStorage> {
    match str_at(meta, k) {
        Some(s) => IdStorage::parse_spelling(s),
        None => None,
    }
}

/// The fixity `meta` spells under `k`, if it is present and parses.
pub open spec fn fixity_at(meta: Value, k: Seq<char>) -> Option<Fixity> {
    match str_at(meta, k) {
        Some(s) => Fixity::parse_spelling(s),
        None => None,
    }
}

/// The registration `meta` spells under `k`, if it is present and parses.
pub open spec fn registration_at(meta: Value, k: Seq<char>) -> Option<Registration> {
    match str_at(meta, k) {
        Some(s) => registration_parse(s),
        None => None,
    }
}

/// `cur` overlaid by `o`: a present value wins, an absent one keeps `cur`.
pub open spec fn overlay<T>(cur: T, o: Option<T>) -> T {
    match o {
        Some(v) => v,
        None => cur,
    }
}

/// An optional axis overlaid by a parsed value: a parsed value is set, a
/// missing or unparseable one keeps the current setting.
pub open spec fn overlay_opt<T>(cur: Option<T>, o: Option<T>) -> Option<T> {
    match o {
        Some(v) => Some(v),
        None => cur,
    }
}

/// A relation override after reading one `relations.<name>` block.
pub open spec fn override_spec(o: RelationStyleConfig, spec: Value) -> RelationStyleConfig {
    RelationStyleConfig {
        notation: overlay_opt(o.notation, notation_at(spec, "notation"@)),
        path_style: overlay_opt(o.path_style, path_style_at(spec, "path_style"@)),
        target: overlay_opt(o.target, addressing_at(spec, "target"@)),
        label: overlay_opt(o.label, bool_at(spec, "label"@)),
    }
}

/// The first position in `s` whose relation name is `name`.
pub open spec fn style_index(s: Seq<(Seq<char>, RelationStyleConfig)>, name: Seq<char>) -> Option<int>
    decreases s.len(),
{
    if s.len() == 0 {
        None
    } else if s[0].0 == name {
        Some(0)
    } else {
        match style_index(s.drop_first(), name) {
            Some(i) => Some(i + 1),
            None => None,
        }
    }
}

/// The first position in `s` whose name does not sort before `name`: where a
/// new relation `name` is inserted to keep the names in order.
pub open spec fn insert_pos(s: Seq<(Seq<char>, RelationStyleConfig)>, name: Seq<char>) -> int
    decreases s.len(),
{
    if s.len() == 0 {
        0
    } else if chars_lt(s[0].0, name) {
        1 + insert_pos(s.drop_first(), name)
    } else {
        0
    }
}

/// The overrides after reading the block for relation `name`: an existing
/// override is updated in place; a new relation starts from no overrides and
/// is inserted in name order.
pub open spec fn upsert_style(
    s: Seq<(Seq<char>, RelationStyleConfig)>,
    name: Seq<char>,
    spec: Value,
) -> Seq<(Seq<char>, RelationStyleConfig)> {
    match style_index(s, name) {
        Some(i) => s.update(i, (name, override_spec(s[i].1, spec))),
        None => s.insert(insert_pos(s, name), (name, override_spec(empty_override(), spec))),
    }
}

/// The overrides after reading the first `n` entries of a `relations` block.
pub open spec fn fold_relations(
    s: Seq<(Seq<char>, RelationStyleConfig)>,
    entries: Seq<(String, Value)>,
    n: int,
) -> Seq<(Seq<char>, RelationStyleConfig)>
    decreases n,
{
    if n <= 0 {
        s
    } else {
        upsert_style(fold_relations(s, entries, n - 1), entries[n - 1].0@, entries[n - 1].1)
    }
}

/// The overrides after reading `meta`'s `relations` block (if it is a mapping).
pub open spec fn apply_relations(s: Seq<(Seq<char>, RelationStyleConfig)>, meta: Value) -> Seq<
    (Seq<char>, RelationStyleConfig),
> {
    match meta.spec_get("relations"@) {
        Some(Value::Mapping(m)) => fold_relations(s, m.entries(), m.entries().len() as int),
        _ => s,
    }
}

/// The config after overlaying the recognized keys present in `meta`. Each
/// axis takes the value its key spells when that key is present and parses;
/// otherwise it keeps its current value.
pub open spec fn apply_spec(c: ConfigView, meta: Value) -> ConfigView {
    let md = block(meta, "metadata"@);
    let rf = block(meta, "references"@);
    ConfigView {
        content_format: overlay(c.content_format, content_format_at(meta, "content_format"@)),
        default_embed_format: overlay(c.default_embed_format, metadata_format_at(md, "format"@)),
        embed_style: overlay(c.embed_style, embed_style_at(md, "embed"@)),
        notation: overlay(c.notation, notation_at(rf, "notation"@)),
        path_style: overlay(c.path_style, path_style_at(rf, "path_style"@)),
        reference_target: overlay(c.reference_target, addressing_at(rf, "target"@)),
        reference_label: overlay(c.reference_label, bool_at(rf, "label"@)),
        relation_styles: apply_relations(c.relation_styles, meta),
        id_storage: overlay(c.id_storage, id_storage_at(meta, "id_storage"@)),
        updated: overlay(c.updated, str_at(meta, "updated"@)),
        identity: overlay(c.identity, registration_at(meta, "identity"@)),
        fixity: overlay(c.fixity, fixity_at(meta, "fixity"@)),
        recycle_bin: overlay(c.recycle_bin, bool_at(meta, "recycle_bin"@)),
    }
}

/// The string scalar under `key` in `meta`, if there is one.
fn str_value<'a>(meta: &'a Value, key: &str) -> (r: Option<&'a str>)
    ensures
        r matches Some(s) ==> str_at(*meta, key@) == Some(s@),
        r is None ==> str_at(*meta, key@) is None,
{
    match meta.get(key) {
        Some(v) => v.as_str(),
        None => None,
    }
}

/// The boolean scalar under `key` in `meta`, if there is one.
fn bool_value(meta: &Value, key: &str) -> (r: Option<bool>)
    ensures
        r == bool_at(*meta, key@),
{
    match meta.get(key) {
        Some(v) => v.as_bool(),
        None => None,
    }
}

/// `content_format_at`, computed.
fn parsed_content_format(meta: &Value, key: &str) -> (r: Option<ContentFormat>)
    ensures
        r == content_format_at(*meta, key@),
{
    match str_value(meta, key) {
        Some(s) => ContentFormat::from_config_str(s),
        None => None,
    }
}

/// `metadata_format_at`, computed.
fn parsed_metadata_format(meta: &Value, key: &str) -> (r: Option<MetadataFormat>)
    ensures
        r == metadata_format_at(*meta, key@),
{
    match str_value(meta, key) {
        Some(s) => MetadataFormat::from_config_str(s),
        None => None,
    }
}

/// `embed_style_at`, computed.
fn parsed_embed_style(meta: &Value, key: &str) -> (r: Option<EmbedStyle>)
    ensures
        r == embed_style_at(*meta, key@),
{
    match str_value(meta, key) {
        Some(s) => EmbedStyle::from_config_str(s),
        None => None,
    }
}

/// `notation_at`, computed.
fn parsed_notation(meta: &Value, key: &str) -> (r: Option<Notation>)
    ensures
        r == notation_at(*meta, key@),
{
    match str_value(meta, key) {
        Some(s) => Notation::from_config_str(s),
        None => None,
    }
}

/// `path_style_at`, computed.
fn parsed_path_style(meta: &Value, key: &str) -> (r: Option<PathStyle>)
    ensures
        r == path_style_at(*meta, key@),
{
    match str_value(meta, key) {
        Some(s) => PathStyle::from_config_str(s),
        None => None,
    }
}

/// `addressing_at`, computed.
fn parsed_addressing(meta: &Value, key: &str) -> (r: Option<Addressing>)
    ensures
        r == addressing_at(*meta, key@),
{
    match str_value(meta, key) {
        Some(s) => Addressing::from_config_str(s),
        None => None,
    }
}

/// `id_storage_at`, computed.
fn parsed_id_storage(meta: &Value, key: &str) -> (r: Option<IdStorage>)
    ensures
        r == id_storage_at(*meta, key@),
{
    match str_value(meta, key) {
        Some(s) => IdStorage::from_config_str(s),
        None => None,
    }
}

/// `fixity_at`, computed.
fn parsed_fixity(meta: &Value, key: &str) -> (r: Option<Fixity>)
    ensures
        r == fixity_at(*meta, key@),
{
    match str_value(meta, key) {
        Some(s) => Fixity::from_config_str(s),
        None => None,
    }
}

/// `registration_at`, computed.
fn parsed_registration(meta: &Value, key: &str) -> (r: Option<Registration>)
    ensures
        r == registration_at(*meta, key@),
{
    match str_value(meta, key) {
        Some(s) => registration_from_str(s),
        None => None,
    }
}

/// `override_spec`, computed: read one `relations.<name>` block over `o`.
fn read_override(o: RelationStyleConfig, spec: &Value) -> (r: RelationStyleConfig)
    ensures
        r == override_spec(o, *spec),
{
    let mut r = o;
    if let Some(v) = parsed_notation(spec, "notation") {
        r.notation = Some(v);
    }
    if let Some(v) = parsed_path_style(spec, "path_style") {
        r.path_style = Some(v);
    }
    if let Some(v) = parsed_addressing(spec, "target") {
        r.target = Some(v);
    }
    if let Some(v) = bool_value(spec, "label") {
        r.label = Some(v);
    }
    r
}

/// A sorted key sequence stays sorted when a key is inserted where every key
/// before it is smaller and the key after it (if any) is larger.
pub proof fn lemma_sorted_insert(s: Seq<(Seq<char>, RelationStyleConfig)>, p: int, e: (Seq<char>, RelationStyleConfig))
    requires
        styles_sorted(s),
        0 <= p <= s.len(),
        forall|a: int| 0 <= a < p ==> chars_lt(#[trigger] s[a].0, e.0),
        p < s.len() ==> chars_lt(e.0, s[p].0),
    ensures
        styles_sorted(s.insert(p, e)),
{
    let t = s.insert(p, e);
    assert forall|a: int, b: int| 0 <= a < b < t.len() implies chars_lt(t[a].0, t[b].0) by {
        if b < p {
            assert(t[a] == s[a] && t[b] == s[b]);
        } else if a > p {
            assert(t[a] == s[a - 1] && t[b] == s[b - 1]);
        } else if a == p {
            assert(t[b] == s[b - 1]);
            if b - 1 > p {
                lemma_chars_lt_transitive(e.0, s[p].0, s[b - 1].0);
            }
        } else if b == p {
            assert(t[a] == s[a]);
        } else {
            assert(t[a] == s[a] && t[b] == s[b - 1]);
            lemma_chars_lt_transitive(s[a].0, e.0, s[p].0);
            if b - 1 > p {
                lemma_chars_lt_transitive(s[a].0, s[p].0, s[b - 1].0);
            }
        }
    }
}

/// `style_index` finds the first matching position.
pub proof fn lemma_style_index(s: Seq<(Seq<char>, RelationStyleConfig)>, name: Seq<char>)
    ensures
        style_index(s, name) matches Some(i) ==> 0 <= i < s.len() && s[i].0 == name && forall|j: int|
            0 <= j < i ==> s[j].0 != name,
        style_index(s, name) is None ==> forall|j: int| 0 <= j < s.len() ==> s[j].0 != name,
    decreases s.len(),
{
    if s.len() > 0 {
        lemma_style_index(s.drop_first(), name);
        assert forall|j: int| 1 <= j < s.len() implies s[j] == s.drop_first()[j - 1] by {}
    }
}

/// `insert_pos` lies within the sequence, every name before it sorts before
/// `name`, and the name at it (if any) does not.
pub proof fn lemma_insert_pos(s: Seq<(Seq<char>, RelationStyleConfig)>, name: Seq<char>)
    ensures
        0 <= insert_pos(s, name) <= s.len(),
        forall|a: int| 0 <= a < insert_pos(s, name) ==> chars_lt(#[trigger] s[a].0, name),
        insert_pos(s, name) < s.len() ==> !chars_lt(s[insert_pos(s, name)].0, name),
    decreases s.len(),
{
    if s.len() > 0 {
        lemma_insert_pos(s.drop_first(), name);
        assert forall|j: int| 1 <= j < s.len() implies s[j] == s.drop_first()[j - 1] by {}
    }
}

/// The override stored for relation `name`, if any.
pub open spec fn style_of(s: Seq<(Seq<char>, RelationStyleConfig)>, name: Seq<char>) -> Option<RelationStyleConfig> {
    match style_index(s, name) {
        Some(i) => Some(s[i].1),
        None => None,
    }
}

/// `style_index` is the first position holding `name`, and `None` exactly
/// when no position does.
proof fn lemma_style_index_at(s: Seq<(Seq<char>, RelationStyleConfig)>, name: Seq<char>, i: int)
    requires
        0 <= i < s.len(),
        s[i].0 == name,
        forall|j: int| 0 <= j < i ==> s[j].0 != name,
    ensures
        style_index(s, name) == Some(i),
    decreases s.len(),
{
    if i > 0 {
        assert forall|j: int| 0 <= j < i - 1 implies s.drop_first()[j].0 != name by {
            assert(s.drop_first()[j] == s[j + 1]);
        }
        lemma_style_index_at(s.drop_first(), name, i - 1);
    }
}

/// `style_index` is `None` when no position holds `name`.
proof fn lemma_style_index_none(s: Seq<(Seq<char>, RelationStyleConfig)>, name: Seq<char>)
    requires
        forall|j: int| 0 <= j < s.len() ==> s[j].0 != name,
    ensures
        style_index(s, name) is None,
    decreases s.len(),
{
    if s.len() > 0 {
        assert forall|j: int| 0 <= j < s.len() - 1 implies s.drop_first()[j].0 != name by {
            assert(s.drop_first()[j] == s[j + 1]);
        }
        lemma_style_index_none(s.drop_first(), name);
    }
}

/// Reading the block of relation `name` sets its override: the one it had
/// (none, when it had none) overlaid by the block.
proof fn lemma_upsert_same(s: Seq<(Seq<char>, RelationStyleConfig)>, name: Seq<char>, spec: Value)
    ensures
        style_of(upsert_style(s, name, spec), name) == Some(override_spec(
            match style_of(s, name) {
                Some(o) => o,
                None => empty_override(),
            },
            spec,
        )),
{
    lemma_style_index(s, name);
    let t = upsert_style(s, name, spec);
    match style_index(s, name) {
        Some(i) => {
            assert forall|j: int| 0 <= j < i implies t[j].0 != name by {
                assert(t[j] == s[j]);
            }
            lemma_style_index_at(t, name, i);
        },
        None => {
            let p = insert_pos(s, name);
            lemma_insert_pos(s, name);
            assert forall|j: int| 0 <= j < p implies t[j].0 != name by {
                assert(t[j] == s[j]);
            }
            lemma_style_index_at(t, name, p);
        },
    }
}

/// Reading the block of another relation leaves `name`'s override alone.
proof fn lemma_upsert_other(s: Seq<(Seq<char>, RelationStyleConfig)>, other: Seq<char>, name: Seq<char>, spec: Value)
    requires
        other != name,
    ensures
        style_of(upsert_style(s, other, spec), name) == style_of(s, name),
{
    lemma_style_index(s, other);
    lemma_style_index(s, name);
    let t = upsert_style(s, other, spec);
    match style_index(s, other) {
        Some(i) => {
            assert(t.len() == s.len());
            assert forall|j: int| 0 <= j < t.len() implies t[j].0 == s[j].0 by {}
            match style_index(s, name) {
                Some(k) => {
                    assert forall|j: int| 0 <= j < k implies t[j].0 != name by {}
                    lemma_style_index_at(t, name, k);
                    assert(k != i);
                },
                None => {
                    lemma_style_index_none(t, name);
                },
            }
        },
        None => {
            let p = insert_pos(s, other);
            lemma_insert_pos(s, other);
            match style_index(s, name) {
                Some(k) => {
                    if k < p {
                        assert forall|j: int| 0 <= j < k implies t[j].0 != name by {
                            assert(t[j] == s[j]);
                        }
                        assert(t[k] == s[k]);
                        lemma_style_index_at(t, name, k);
                    } else {
                        assert forall|j: int| 0 <= j < k + 1 implies t[j].0 != name by {
                            if j < p {
                                assert(t[j] == s[j]);
                            } else if j > p {
                                assert(t[j] == s[j - 1]);
                            }
                        }
                        assert(t[k + 1] == s[k]);
                        lemma_style_index_at(t, name, k + 1);
                    }
                },
                None => {
                    assert forall|j: int| 0 <= j < t.len() implies t[j].0 != name by {
                        if j < p {
                            assert(t[j] == s[j]);
                        } else if j > p {
                            assert(t[j] == s[j - 1]);
                        }
                    }
                    lemma_style_index_none(t, name);
                },
            }
        },
    }
}

/// Over the first `n` entries of a `relations` block whose names are
/// distinct, the override of the `j`-th entry's relation is untouched before
/// that entry and overlaid by it from then on.
proof fn lemma_fold_relations_at(s: Seq<(Seq<char>, RelationStyleConfig)>, entries: Seq<(String, Value)>, j: int, n: int)
    requires
        0 <= j < entries.len(),
        0 <= n <= entries.len(),
        entry_keys_distinct(entries),
    ensures
        n <= j ==> style_of(fold_relations(s, entries, n), entries[j].0@) == style_of(s, entries[j].0@),
        n > j ==> style_of(fold_relations(s, entries, n), entries[j].0@) == Some(override_spec(
            match style_of(s, entries[j].0@) {
                Some(o) => o,
                None => empty_override(),
            },
            entries[j].1,
        )),
    decreases n,
{
    if n > 0 {
        lemma_fold_relations_at(s, entries, j, n - 1);
        let prev = fold_relations(s, entries, n - 1);
        if n - 1 == j {
            lemma_upsert_same(prev, entries[j].0@, entries[j].1);
        } else {
            assert(entries[n - 1].0@ != entries[j].0@);
            lemma_upsert_other(prev, entries[n - 1].0@, entries[j].0@, entries[n - 1].1);
        }
    }
}

/// A later surface overlays a relation's override axis by axis: reading a
/// `relations.<name>` block sets each axis the block spells a valid value
/// for, and every axis it leaves out, or spells unreadably, keeps what the
/// override already held (nothing, for a relation with no override yet).
/// Other relations' overrides are untouched.
pub proof fn law_relation_overrides_overlay(c: ConfigView, meta: Value, j: int, other: Seq<char>)
    requires
        meta.spec_get("relations"@) matches Some(Value::Mapping(rm)) && 0 <= j < rm.entries().len()
            && entry_keys_distinct(rm.entries()),
    ensures
        ({
            let rm = meta.spec_get("relations"@)->0->Mapping_0;
            let name = rm.entries()[j].0@;
            let block = rm.entries()[j].1;
            let after = style_of(apply_spec(c, meta).relation_styles, name);
            let before = style_of(c.relation_styles, name);
            &&& after is Some
            &&& after->0.notation == (match notation_at(block, "notation"@) {
                Some(x) => Some(x),
                None => match before { Some(o) => o.notation, None => None },
            })
            &&& after->0.path_style == (match path_style_at(block, "path_style"@) {
                Some(x) => Some(x),
                None => match before { Some(o) => o.path_style, None => None },
            })
            &&& after->0.target == (match addressing_at(block, "target"@) {
                Some(x) => Some(x),
                None => match before { Some(o) => o.target, None => None },
            })
            &&& after->0.label == (match bool_at(block, "label"@) {
                Some(x) => Some(x),
                None => match before { Some(o) => o.label, None => None },
            })
            &&& (forall|k: int| 0 <= k < rm.entries().len() ==> #[trigger] rm.entries()[k].0@ != other)
                ==> style_of(apply_spec(c, meta).relation_styles, other) == style_of(c.relation_styles, other)
        }),
{
    let rm = meta.spec_get("relations"@)->0->Mapping_0;
    let e = rm.entries();
    lemma_fold_relations_at(c.relation_styles, e, j, e.len() as int);
    if forall|k: int| 0 <= k < e.len() ==> #[trigger] e[k].0@ != other {
        lemma_fold_other(c.relation_styles, e, other, e.len() as int);
    }
}

/// Reading blocks of other relations only leaves `name`'s override alone.
proof fn lemma_fold_other(s: Seq<(Seq<char>, RelationStyleConfig)>, entries: Seq<(String, Value)>, name: Seq<char>, n: int)
    requires
        0 <= n <= entries.len(),
        forall|k: int| 0 <= k < entries.len() ==> #[trigger] entries[k].0@ != name,
    ensures
        style_of(fold_relations(s, entries, n), name) == style_of(s, name),
    decreases n,
{
    if n > 0 {
        lemma_fold_other(s, entries, name, n - 1);
        assert(entries[n - 1].0@ != name);
        lemma_upsert_other(fold_relations(s, entries, n - 1), entries[n - 1].0@, name, entries[n - 1].1);
    }
}

impl WorkspaceConfig {
    /// The config's contents.
    pub open spec fn view(&self) -> ConfigView {
        ConfigView {
            identity: self.identity,
            notation: self.notation,
            path_style: self.path_style,
            reference_target: self.reference_target,
            reference_label: self.reference_label,
            relation_styles: self.relation_styles@.map_values(|e: (String, RelationStyleConfig)| (e.0@, e.1)),
            id_storage: self.id_storage,
            default_embed_format: self.default_embed_format,
            embed_style: self.embed_style,
            content_format: self.content_format,
            recycle_bin: self.recycle_bin,
            fixity: self.fixity,
            updated: self.updated@,
        }
    }

    /// The per-relation overrides are kept in strictly increasing name order.
    pub open spec fn wf(&self) -> bool {
        styles_sorted(self.view().relation_styles)
    }

    /// Read one `relations.<name>` block into the overrides.
    fn upsert_relation(&mut self, name: &String, spec: &Value)
        requires
            old(self).wf(),
        ensures
            final(self).wf(),
            final(self).view() == (ConfigView {
                relation_styles: upsert_style(old(self).view().relation_styles, name@, *spec),
                ..old(self).view()
            }),
    {
        let ghost s0 = self.view().relation_styles;
        let mut i: usize = 0;
        proof {
            lemma_style_index(s0, name@);
            lemma_insert_pos(s0, name@);
        }
        while i < self.relation_styles.len()
            invariant
                self.view() == old(self).view(),
                s0 == self.view().relation_styles,
                styles_sorted(s0),
                i <= s0.len(),
                forall|j: int| 0 <= j < i ==> s0[j].0 != name@,
                style_index(s0, name@) matches Some(x) ==> i <= x && x < s0.len() && s0[x].0 == name@
                    && forall|j: int| 0 <= j < x ==> s0[j].0 != name@,
                style_index(s0, name@) is None ==> forall|j: int| 0 <= j < s0.len() ==> s0[j].0 != name@,
            decreases s0.len() - i,
        {
            proof {
                assert(s0[i as int].0 == self.relation_styles@[i as int].0@);
            }
            if str_eq(self.relation_styles[i].0.as_str(), name.as_str()) {
                let updated = read_override(self.relation_styles[i].1, spec);
                let key = name.clone();
                self.relation_styles.set(i, (key, updated));
                proof {
                    assert(style_index(s0, name@) == Some(i as int));
                    assert(self.view().relation_styles =~= s0.update(i as int, (name@, override_spec(s0[i as int].1, *spec))));
                    let s1 = self.view().relation_styles;
                    assert forall|a: int| 0 <= a < s1.len() implies #[trigger] s1[a].0 == s0[a].0 by {
                        if a == i {
                        }
                    }
                    assert forall|a: int, b: int| 0 <= a < b < s1.len()
                        implies chars_lt(s1[a].0, s1[b].0) by {
                        assert(s1[a].0 == s0[a].0);
                        assert(s1[b].0 == s0[b].0);
                    }
                }
                return;
            }
            i = i + 1;
        }
        let mut p: usize = 0;
        while p < self.relation_styles.len() && str_lt(self.relation_styles[p].0.as_str(), name.as_str())
            invariant
                self.view() == old(self).view(),
                s0 == self.view().relation_styles,
                styles_sorted(s0),
                p <= s0.len(),
                forall|a: int| 0 <= a < p ==> chars_lt(#[trigger] s0[a].0, name@),
                0 <= insert_pos(s0, name@) <= s0.len(),
                forall|a: int| 0 <= a < insert_pos(s0, name@) ==> chars_lt(#[trigger] s0[a].0, name@),
                insert_pos(s0, name@) < s0.len() ==> !chars_lt(s0[insert_pos(s0, name@)].0, name@),
                insert_pos(s0, name@) >= p,
            decreases s0.len() - p,
        {
            proof {
                assert(s0[p as int].0 == self.relation_styles@[p as int].0@);
            }
            p = p + 1;
        }
        proof {
            if p < s0.len() {
                assert(s0[p as int].0 == self.relation_styles@[p as int].0@);
            }
        }
        let fresh = read_override(RelationStyleConfig { notation: None, path_style: None, target: None, label: None }, spec);
        let key = name.clone();
        self.relation_styles.insert(p, (key, fresh));
        proof {
            assert(insert_pos(s0, name@) == p as int);
            let e = (name@, override_spec(empty_override(), *spec));
            assert(self.view().relation_styles =~= s0.insert(p as int, e));
            if p < s0.len() {
                lemma_chars_lt_trichotomy(s0[p as int].0, name@);
            }
            lemma_sorted_insert(s0, p as int, e);
        }
    }

    /// Overlay the recognized keys present in `meta` onto this config; absent
    /// keys keep their current value. `meta` is either a root's `colophon:` block
    /// or a config document's top-level mapping. Apply the root block first, then
    /// the config document, so the config document wins.
    pub fn apply(&mut self, meta: &Value)
        requires
            old(self).wf(),
        ensures
            final(self).wf(),
            final(self).view() == apply_spec(old(self).view(), *meta),
    {
        self.read_metadata_and_references(meta);
        self.read_relations(meta);
        self.read_scalars(meta);
    }

    /// Read the `metadata` and `references` blocks of `meta`.
    fn read_metadata_and_references(&mut self, meta: &Value)
        ensures
            final(self).view() == (ConfigView {
                default_embed_format: overlay(old(self).view().default_embed_format, metadata_format_at(block(*meta, "metadata"@), "format"@)),
                embed_style: overlay(old(self).view().embed_style, embed_style_at(block(*meta, "metadata"@), "embed"@)),
                notation: overlay(old(self).view().notation, notation_at(block(*meta, "references"@), "notation"@)),
                path_style: overlay(old(self).view().path_style, path_style_at(block(*meta, "references"@), "path_style"@)),
                reference_target: overlay(old(self).view().reference_target, addressing_at(block(*meta, "references"@), "target"@)),
                reference_label: overlay(old(self).view().reference_label, bool_at(block(*meta, "references"@), "label"@)),
                ..old(self).view()
            }),
    {
        let null = Value::Null;
        let md = match meta.get("metadata") {
            Some(v) => v,
            None => &null,
        };
        let rf = match meta.get("references") {
            Some(v) => v,
            None => &null,
        };
        let format = match parsed_metadata_format(md, "format") {
            Some(v) => v,
            None => self.default_embed_format,
        };
        let embed = match parsed_embed_style(md, "embed") {
            Some(v) => v,
            None => self.embed_style,
        };
        let notation = match parsed_notation(rf, "notation") {
            Some(v) => v,
            None => self.notation,
        };
        let path_style = match parsed_path_style(rf, "path_style") {
            Some(v) => v,
            None => self.path_style,
        };
        let target = match parsed_addressing(rf, "target") {
            Some(v) => v,
            None => self.reference_target,
        };
        let label = match bool_value(rf, "label") {
            Some(v) => v,
            None => self.reference_label,
        };
        self.default_embed_format = format;
        self.embed_style = embed;
        self.notation = notation;
        self.path_style = path_style;
        self.reference_target = target;
        self.reference_label = label;
    }

    /// Read the `relations` block of `meta` into the per-relation overrides.
    fn read_relations(&mut self, meta: &Value)
        requires
            old(self).wf(),
        ensures
            final(self).wf(),
            final(self).view() == (ConfigView {
                relation_styles: apply_relations(old(self).view().relation_styles, *meta),
                ..old(self).view()
            }),
    {
        if let Some(relations) = meta.get("relations") {
            if let Some(m) = relations.as_mapping() {
                let entries = m.iter();
                let mut i: usize = 0;
                let ghost mid = self.view();
                while i < entries.len()
                    invariant
                        self.wf(),
                        i <= entries@.len(),
                        entries@ == m.entries(),
                        self.view() == (ConfigView {
                            relation_styles: fold_relations(mid.relation_styles, entries@, i as int),
                            ..mid
                        }),
                    decreases entries@.len() - i,
                {
                    self.upsert_relation(&entries[i].0, &entries[i].1);
                    i = i + 1;
                }
            }
        }
    }

    /// Read the top-level scalar axes of `meta`.
    fn read_scalars(&mut self, meta: &Value)
        ensures
            final(self).view() == (ConfigView {
                content_format: overlay(old(self).view().content_format, content_format_at(*meta, "content_format"@)),
                id_storage: overlay(old(self).view().id_storage, id_storage_at(*meta, "id_storage"@)),
                updated: overlay(old(self).view().updated, str_at(*meta, "updated"@)),
                identity: overlay(old(self).view().identity, registration_at(*meta, "identity"@)),
                fixity: overlay(old(self).view().fixity, fixity_at(*meta, "fixity"@)),
                recycle_bin: overlay(old(self).view().recycle_bin, bool_at(*meta, "recycle_bin"@)),
                ..old(self).view()
            }),
    {
        let content_format = match parsed_content_format(meta, "content_format") {
            Some(v) => v,
            None => self.content_format,
        };
        let id_storage = match parsed_id_storage(meta, "id_storage") {
            Some(v) => v,
            None => self.id_storage,
        };
        let identity = match parsed_registration(meta, "identity") {
            Some(v) => v,
            None => self.identity,
        };
        let fixity = match parsed_fixity(meta, "fixity") {
            Some(v) => v,
            None => self.fixity,
        };
        let recycle_bin = match bool_value(meta, "recycle_bin") {
            Some(v) => v,
            None => self.recycle_bin,
        };
        if let Some(s) = str_value(meta, "updated") {
            self.updated = s.to_owned();
        }
        self.content_format = content_format;
        self.id_storage = id_storage;
        self.identity = identity;
        self.fixity = fixity;
        self.recycle_bin = recycle_bin;
    }
}


// ── Config linting ──────────────────────────────────────────────────────────

/// A key in a config surface that [`WorkspaceConfig::apply`] would silently
/// ignore, surfaced so a setting that never takes effect becomes visible.
#[derive(Debug, Clone, PartialEq, Eq)]
pub struct ConfigIssue {
    /// The offending key, dotted from the block root (`references.notation`).
    pub key: String,
    /// What is wrong with it.
    pub kind: ConfigIssueKind,
}

/// The two ways a config key goes unread. See [`ConfigIssue`].
#[derive(Debug, Clone, PartialEq, Eq)]
pub enum ConfigIssueKind {
    /// `key` is not a recognized axis but closely resembles `suggestion`: almost
    /// certainly a misspelling. An unrecognized key that resembles *no* axis at
    /// its level is deliberately not reported.
    UnknownKey { suggestion: String },
    /// `key` is a recognized axis but `value` is not a spelling colophon
    /// understands, so `apply` kept the current value. `expected` lists the
    /// accepted spellings.
    InvalidValue { value: String, expected: Vec<String> },
}

/// A config issue with strings as character sequences.
pub struct IssueView {
    pub key: Seq<char>,
    pub kind: IssueKindView,
}

/// The kind of a config issue, with strings as character sequences.
pub enum IssueKindView {
    UnknownKey { suggestion: Seq<char> },
    InvalidValue { value: Seq<char>, expected: Seq<Seq<char>> },
}

impl ConfigIssue {
    /// The issue as character sequences.
    pub open spec fn view(&self) -> IssueView {
        IssueView {
            key: self.key@,
            kind: match self.kind {
                ConfigIssueKind::UnknownKey { suggestion } => IssueKindView::UnknownKey { suggestion: suggestion@ },
                ConfigIssueKind::InvalidValue { value, expected } => IssueKindView::InvalidValue {
                    value: value@,
                    expected: expected@.map_values(|e: String| e@),
                },
            },
        }
    }
}

/// A list of issues as character sequences.
pub open spec fn issues_view(v: Seq<ConfigIssue>) -> Seq<IssueView> {
    v.map_values(|i: ConfigIssue| i.view())
}

/// Top-level config keys (block names, scalar axes and the `spec` marker).
pub open spec fn top_keys() -> Seq<Seq<char>> {
    seq!["spec"@, "content_format"@, "metadata"@, "references"@, "relations"@, "id_storage"@, "updated"@, "identity"@, "fixity"@, "recycle_bin"@]
}

/// Keys inside the `metadata:` block.
pub open spec fn metadata_keys() -> Seq<Seq<char>> {
    seq!["format"@, "embed"@]
}

/// Keys inside the `references:` block and each `relations.<name>` entry.
pub open spec fn reference_keys() -> Seq<Seq<char>> {
    seq!["notation"@, "path_style"@, "target"@, "label"@]
}

/// A short, human-readable rendering of a config value for a diagnostic.
pub open spec fn summary(v: Value) -> Seq<char> {
    match v {
        Value::String(s) => s@,
        Value::Bool(b) => if b { "true"@ } else { "false"@ },
        Value::Int(i) => int_decimal(i as int),
        Value::Float(t) => t@,
        _ => "(non-scalar)"@,
    }
}

/// The issue for `key` holding a value `apply` cannot read.
pub open spec fn invalid_issue(key: Seq<char>, v: Value, expected: Seq<Seq<char>>) -> Seq<IssueView> {
    seq![IssueView { key, kind: IssueKindView::InvalidValue { value: summary(v), expected } }]
}

/// No issue when the value parses; otherwise the invalid-value issue.
pub open spec fn check_axis(key: Seq<char>, v: Value, parses: bool, expected: Seq<Seq<char>>) -> Seq<IssueView> {
    if parses {
        Seq::empty()
    } else {
        invalid_issue(key, v, expected)
    }
}

/// The issue for an unrecognized key `key` under `prefix`: reported only when
/// it resembles one of `cands` (a likely typo).
pub open spec fn unknown_issue(prefix: Seq<char>, key: Seq<char>, cands: Seq<Seq<char>>) -> Seq<IssueView> {
    match nearest_spec(key, cands) {
        Some(sug) => seq![IssueView { key: prefix + key, kind: IssueKindView::UnknownKey { suggestion: prefix + sug } }],
        None => Seq::empty(),
    }
}

/// Whether `v` spells a content format.
pub open spec fn spells_content_format(v: Value) -> bool {
    match v.spec_as_str() { Some(s) => ContentFormat::parse_spelling(s) is Some, None => false }
}

/// Whether `v` spells an id storage mode.
pub open spec fn spells_id_storage(v: Value) -> bool {
    match v.spec_as_str() { Some(s) => IdStorage::parse_spelling(s) is Some, None => false }
}

/// Whether `v` spells a registration.
pub open spec fn spells_registration(v: Value) -> bool {
    match v.spec_as_str() { Some(s) => registration_parse(s) is Some, None => false }
}

/// Whether `v` spells a fixity tier.
pub open spec fn spells_fixity(v: Value) -> bool {
    match v.spec_as_str() { Some(s) => Fixity::parse_spelling(s) is Some, None => false }
}

/// Whether `v` spells a metadata format.
pub open spec fn spells_metadata_format(v: Value) -> bool {
    match v.spec_as_str() { Some(s) => MetadataFormat::parse_spelling(s) is Some, None => false }
}

/// Whether `v` spells an embed style.
pub open spec fn spells_embed_style(v: Value) -> bool {
    match v.spec_as_str() { Some(s) => EmbedStyle::parse_spelling(s) is Some, None => false }
}

/// Whether `v` spells a notation.
pub open spec fn spells_notation(v: Value) -> bool {
    match v.spec_as_str() { Some(s) => Notation::parse_spelling(s) is Some, None => false }
}

/// Whether `v` spells a path style.
pub open spec fn spells_path_style(v: Value) -> bool {
    match v.spec_as_str() { Some(s) => PathStyle::parse_spelling(s) is Some, None => false }
}

/// Whether `v` spells an addressing.
pub open spec fn spells_addressing(v: Value) -> bool {
    match v.spec_as_str() { Some(s) => Addressing::parse_spelling(s) is Some, None => false }
}

/// The accepted `true`/`false` spellings of a boolean axis.
pub open spec fn bool_spellings() -> Seq<Seq<char>> {
    seq!["true"@, "false"@]
}

/// The issues of one entry of a `references:`-shaped block under `prefix`.
pub open spec fn reference_entry_issues(prefix: Seq<char>, key: Seq<char>, v: Value) -> Seq<IssueView> {
    let dotted = prefix + "."@ + key;
    if key == "notation"@ {
        check_axis(dotted, v, spells_notation(v), seq!["markdown"@, "wikilink"@, "bare"@])
    } else if key == "path_style"@ {
        check_axis(dotted, v, spells_path_style(v), seq!["root"@, "relative"@, "canonical"@])
    } else if key == "target"@ {
        check_axis(dotted, v, spells_addressing(v), seq!["path"@, "id"@, "alias"@])
    } else if key == "label"@ {
        check_axis(dotted, v, v.spec_as_bool() is Some, bool_spellings())
    } else {
        unknown_issue(prefix + "."@, key, reference_keys())
    }
}

/// The issues of the first `n` entries of a `references:`-shaped block.
pub open spec fn reference_entries_issues(prefix: Seq<char>, entries: Seq<(String, Value)>, n: int) -> Seq<IssueView>
    decreases n,
{
    if n <= 0 {
        Seq::empty()
    } else {
        reference_entries_issues(prefix, entries, n - 1) + reference_entry_issues(prefix, entries[n - 1].0@, entries[n - 1].1)
    }
}

/// The issue for a block key whose value is not a mapping.
pub open spec fn block_shape_issues(key: Seq<char>, v: Value) -> Seq<IssueView> {
    invalid_issue(key, v, seq!["a block of keys"@])
}

/// The issues of a `references:`-shaped block under `prefix`.
pub open spec fn reference_block_issues(prefix: Seq<char>, v: Value) -> Seq<IssueView> {
    match v {
        Value::Mapping(m) => reference_entries_issues(prefix, m.entries(), m.entries().len() as int),
        _ => block_shape_issues(prefix, v),
    }
}

/// The `metadata.format` spellings recognized.
pub open spec fn embed_format_spellings_spec() -> Seq<Seq<char>> {
    seq!["yaml"@, "json"@, "toml"@, "fig"@]
}

/// The embed style spellings recognized.
pub open spec fn embed_style_spellings() -> Seq<Seq<char>> {
    seq!["delimited"@, "code_block"@, "html_script"@, "html_code"@, "separate"@]
}

/// The issues of one entry of the `metadata:` block.
pub open spec fn metadata_entry_issues(key: Seq<char>, v: Value) -> Seq<IssueView> {
    let dotted = "metadata."@ + key;
    if key == "format"@ {
        check_axis(dotted, v, spells_metadata_format(v), embed_format_spellings_spec())
    } else if key == "embed"@ {
        check_axis(dotted, v, spells_embed_style(v), embed_style_spellings())
    } else {
        unknown_issue("metadata."@, key, metadata_keys())
    }
}

/// The issues of the first `n` entries of the `metadata:` block.
pub open spec fn metadata_entries_issues(entries: Seq<(String, Value)>, n: int) -> Seq<IssueView>
    decreases n,
{
    if n <= 0 {
        Seq::empty()
    } else {
        metadata_entries_issues(entries, n - 1) + metadata_entry_issues(entries[n - 1].0@, entries[n - 1].1)
    }
}

/// The issues of the `metadata:` block.
pub open spec fn metadata_block_issues(v: Value) -> Seq<IssueView> {
    match v {
        Value::Mapping(m) => metadata_entries_issues(m.entries(), m.entries().len() as int),
        _ => block_shape_issues("metadata"@, v),
    }
}

/// The issues of the first `n` entries of the `relations:` block.
pub open spec fn relations_entries_issues(entries: Seq<(String, Value)>, n: int) -> Seq<IssueView>
    decreases n,
{
    if n <= 0 {
        Seq::empty()
    } else {
        relations_entries_issues(entries, n - 1) + reference_block_issues("relations."@ + entries[n - 1].0@, entries[n - 1].1)
    }
}

/// The issues of the `relations:` block.
pub open spec fn relations_block_issues(v: Value) -> Seq<IssueView> {
    match v {
        Value::Mapping(m) => relations_entries_issues(m.entries(), m.entries().len() as int),
        _ => block_shape_issues("relations"@, v),
    }
}

/// The issues of one top-level entry.
pub open spec fn top_entry_issues(key: Seq<char>, v: Value) -> Seq<IssueView> {
    if key == "spec"@ || key == "updated"@ {
        Seq::empty()
    } else if key == "content_format"@ {
        check_axis(key, v, spells_content_format(v), seq!["markdown"@, "djot"@, "html"@])
    } else if key == "id_storage"@ {
        check_axis(key, v, spells_id_storage(v), seq!["registry"@, "frontmatter"@, "both"@])
    } else if key == "identity"@ {
        check_axis(key, v, spells_registration(v), seq!["none"@, "lazy"@, "eager"@])
    } else if key == "fixity"@ {
        check_axis(key, v, spells_fixity(v), seq!["off"@, "attachments"@, "all"@])
    } else if key == "recycle_bin"@ {
        check_axis(key, v, v.spec_as_bool() is Some, bool_spellings())
    } else if key == "metadata"@ {
        metadata_block_issues(v)
    } else if key == "references"@ {
        reference_block_issues("references"@, v)
    } else if key == "relations"@ {
        relations_block_issues(v)
    } else {
        unknown_issue(Seq::empty(), key, top_keys())
    }
}

/// The issues of the first `n` top-level entries.
pub open spec fn top_entries_issues(entries: Seq<(String, Value)>, n: int) -> Seq<IssueView>
    decreases n,
{
    if n <= 0 {
        Seq::empty()
    } else {
        top_entries_issues(entries, n - 1) + top_entry_issues(entries[n - 1].0@, entries[n - 1].1)
    }
}

/// Every issue of a config surface, in the order of its entries: recognized
/// keys whose value does not parse, and unrecognized keys that closely resemble
/// a recognized one at their level. A non-mapping surface has none.
pub open spec fn diagnose_spec(meta: Value) -> Seq<IssueView> {
    match meta {
        Value::Mapping(m) => top_entries_issues(m.entries(), m.entries().len() as int),
        _ => Seq::empty(),
    }
}

/// If `meta` declares a `spec` newer than [`SPEC_VERSION`], the declared version.
pub open spec fn spec_ahead_spec(meta: Value) -> Option<i64> {
    match meta.spec_get("spec"@) {
        Some(Value::Int(v)) => if v > SPEC_VERSION { Some(v) } else { None },
        _ => None,
    }
}

/// If `meta` declares a `spec` newer than [`SPEC_VERSION`] (the version this
/// build understands), the declared version: the signal that settings a newer
/// colophon wrote may be silently ignored. `None` when `spec` is absent, not an
/// integer, or within range.
pub fn spec_ahead(meta: &Value) -> (r: Option<i64>)
    ensures
        r == spec_ahead_spec(*meta),
{
    match meta.get("spec") {
        Some(Value::Int(v)) => {
            if *v > SPEC_VERSION {
                Some(*v)
            } else {
                None
            }
        },
        _ => None,
    }
}

/// A short, human-readable rendering of a config value for a diagnostic message.
fn value_summary(value: &Value) -> (r: String)
    ensures
        r@ == summary(*value),
{
    match value {
        Value::String(s) => s.clone(),
        Value::Bool(b) => {
            if *b {
                String::from_str("true")
            } else {
                String::from_str("false")
            }
        },
        Value::Int(i) => int_to_string(*i),
        Value::Float(t) => t.clone(),
        _ => String::from_str("(non-scalar)"),
    }
}

/// Owned copies of `spellings`.
fn owned_list(spellings: &[&str]) -> (r: Vec<String>)
    ensures
        r@.map_values(|e: String| e@) == spellings@.map_values(|e: &str| e@),
{
    let mut out: Vec<String> = Vec::new();
    let mut i: usize = 0;
    while i < spellings.len()
        invariant
            i <= spellings@.len(),
            out@.map_values(|e: String| e@) == spellings@.take(i as int).map_values(|e: &str| e@),
        decreases spellings@.len() - i,
    {
        out.push(String::from_str(spellings[i]));
        proof {
            assert(spellings@.take(i + 1).map_values(|e: &str| e@) =~= spellings@.take(i as int).map_values(|e: &str| e@).push(spellings@[i as int]@));
            assert(out@.map_values(|e: String| e@) =~= spellings@.take(i as int).map_values(|e: &str| e@).push(spellings@[i as int]@));
        }
        i = i + 1;
    }
    proof {
        assert(spellings@.take(spellings@.len() as int) =~= spellings@);
    }
    out
}

/// Record an invalid value for `key` unless it parses.
fn check_value(issues: &mut Vec<ConfigIssue>, key: &str, value: &Value, parses: bool, expected: &[&str])
    ensures
        issues_view(final(issues)@) == issues_view(old(issues)@) + check_axis(key@, *value, parses, expected@.map_values(|e: &str| e@)),
{
    if !parses {
        let issue = ConfigIssue {
            key: String::from_str(key),
            kind: ConfigIssueKind::InvalidValue { value: value_summary(value), expected: owned_list(expected) },
        };
        issues.push(issue);
        proof {
            assert(issues_view(issues@) =~= issues_view(old(issues)@) + check_axis(key@, *value, parses, expected@.map_values(|e: &str| e@)));
        }
    } else {
        proof {
            assert(issues_view(issues@) =~= issues_view(old(issues)@) + check_axis(key@, *value, parses, expected@.map_values(|e: &str| e@)));
        }
    }
}

/// Record a likely typo: `key` under `prefix` resembling one of `candidates`.
fn check_unknown(issues: &mut Vec<ConfigIssue>, prefix: &str, key: &str, candidates: &[&str])
    ensures
        issues_view(final(issues)@) == issues_view(old(issues)@) + unknown_issue(prefix@, key@, candidates@.map_values(|e: &str| e@)),
{
    match nearest(key, candidates) {
        Some(sug) => {
            let issue = ConfigIssue {
                key: concat_str(prefix, key),
                kind: ConfigIssueKind::UnknownKey { suggestion: concat_str(prefix, sug.as_str()) },
            };
            issues.push(issue);
            proof {
                assert(issues_view(issues@) =~= issues_view(old(issues)@) + unknown_issue(prefix@, key@, candidates@.map_values(|e: &str| e@)));
            }
        },
        None => {
            proof {
                assert(issues_view(issues@) =~= issues_view(old(issues)@) + unknown_issue(prefix@, key@, candidates@.map_values(|e: &str| e@)));
            }
        },
    }
}

/// The views of a list of string slices.
pub open spec fn views(v: Seq<&str>) -> Seq<Seq<char>> {
    v.map_values(|e: &str| e@)
}

/// Diagnose one entry of a `references:`-shaped block under `prefix`.
fn diagnose_reference_entry(issues: &mut Vec<ConfigIssue>, prefix: &str, key: &str, v: &Value)
    ensures
        issues_view(final(issues)@) == issues_view(old(issues)@) + reference_entry_issues(prefix@, key@, *v),
{
    let dotted_prefix = concat_str(prefix, ".");
    let dotted = concat_str(dotted_prefix.as_str(), key);
    proof {
        assert(dotted@ == prefix@ + "."@ + key@);
    }
    if str_eq(key, "notation") {
        let parses = match v.as_str() {
            Some(s) => Notation::from_config_str(s).is_some(),
            None => false,
        };
        let expected = ["markdown", "wikilink", "bare"];
        proof {
            assert(views(expected@) =~= seq!["markdown"@, "wikilink"@, "bare"@]);
        }
        check_value(issues, dotted.as_str(), v, parses, &expected);
    } else if str_eq(key, "path_style") {
        let parses = match v.as_str() {
            Some(s) => PathStyle::from_config_str(s).is_some(),
            None => false,
        };
        let expected = ["root", "relative", "canonical"];
        proof {
            assert(views(expected@) =~= seq!["root"@, "relative"@, "canonical"@]);
        }
        check_value(issues, dotted.as_str(), v, parses, &expected);
    } else if str_eq(key, "target") {
        let parses = match v.as_str() {
            Some(s) => Addressing::from_config_str(s).is_some(),
            None => false,
        };
        let expected = ["path", "id", "alias"];
        proof {
            assert(views(expected@) =~= seq!["path"@, "id"@, "alias"@]);
        }
        check_value(issues, dotted.as_str(), v, parses, &expected);
    } else if str_eq(key, "label") {
        let expected = ["true", "false"];
        proof {
            assert(views(expected@) =~= bool_spellings());
        }
        check_value(issues, dotted.as_str(), v, v.as_bool().is_some(), &expected);
    } else {
        let cands = ["notation", "path_style", "target", "label"];
        proof {
            assert(views(cands@) =~= reference_keys());
        }
        check_unknown(issues, dotted_prefix.as_str(), key, &cands);
    }
}

/// Flag a block key whose value is not a mapping (e.g. `references: markdown`).
fn block_shape_issue(issues: &mut Vec<ConfigIssue>, key: &str, value: &Value)
    ensures
        issues_view(final(issues)@) == issues_view(old(issues)@) + block_shape_issues(key@, *value),
{
    let expected = ["a block of keys"];
    proof {
        assert(views(expected@) =~= seq!["a block of keys"@]);
    }
    check_value(issues, key, value, false, &expected);
}

/// Diagnose a `references:`-shaped block (the workspace default or a
/// `relations.<name>` entry), `prefix` dotting the reported keys.
fn diagnose_reference_block(issues: &mut Vec<ConfigIssue>, prefix: &str, value: &Value)
    ensures
        issues_view(final(issues)@) == issues_view(old(issues)@) + reference_block_issues(prefix@, *value),
{
    match value.as_mapping() {
        None => block_shape_issue(issues, prefix, value),
        Some(map) => {
            let entries = map.iter();
            let ghost start = issues_view(issues@);
            let mut i: usize = 0;
            while i < entries.len()
                invariant
                    i <= entries@.len(),
                    entries@ == map.entries(),
                    *value == Value::Mapping(*map),
                    issues_view(issues@) == start + reference_entries_issues(prefix@, entries@, i as int),
                decreases entries@.len() - i,
            {
                diagnose_reference_entry(issues, prefix, entries[i].0.as_str(), &entries[i].1);
                proof {
                    assert(start + reference_entries_issues(prefix@, entries@, i + 1) =~= start
                        + reference_entries_issues(prefix@, entries@, i as int) + reference_entry_issues(
                        prefix@,
                        entries@[i as int].0@,
                        entries@[i as int].1,
                    ));
                }
                i = i + 1;
            }
        },
    }
}

/// Diagnose one entry of the `metadata:` block.
fn diagnose_metadata_entry(issues: &mut Vec<ConfigIssue>, key: &str, v: &Value)
    ensures
        issues_view(final(issues)@) == issues_view(old(issues)@) + metadata_entry_issues(key@, *v),
{
    let dotted = concat_str("metadata.", key);
    if str_eq(key, "format") {
        let parses = match v.as_str() {
            Some(s) => MetadataFormat::from_config_str(s).is_some(),
            None => false,
        };
        let expected = embed_format_spellings();
        check_value(issues, dotted.as_str(), v, parses, &expected);
    } else if str_eq(key, "embed") {
        let parses = match v.as_str() {
            Some(s) => EmbedStyle::from_config_str(s).is_some(),
            None => false,
        };
        let expected = ["delimited", "code_block", "html_script", "html_code", "separate"];
        proof {
            assert(views(expected@) =~= embed_style_spellings());
        }
        check_value(issues, dotted.as_str(), v, parses, &expected);
    } else {
        let cands = ["format", "embed"];
        proof {
            assert(views(cands@) =~= metadata_keys());
        }
        check_unknown(issues, "metadata.", key, &cands);
    }
}

/// The `metadata.format` spellings recognized: every metadata language.
fn embed_format_spellings() -> (r: [&'static str; 4])
    ensures
        views(r@) == embed_format_spellings_spec(),
{
    let r = ["yaml", "json", "toml", "fig"];
    proof {
        assert(views(r@) =~= embed_format_spellings_spec());
    }
    r
}

/// Diagnose the `metadata:` block.
fn diagnose_metadata(issues: &mut Vec<ConfigIssue>, value: &Value)
    ensures
        issues_view(final(issues)@) == issues_view(old(issues)@) + metadata_block_issues(*value),
{
    match value.as_mapping() {
        None => block_shape_issue(issues, "metadata", value),
        Some(map) => {
            let entries = map.iter();
            let ghost start = issues_view(issues@);
            let mut i: usize = 0;
            while i < entries.len()
                invariant
                    i <= entries@.len(),
                    entries@ == map.entries(),
                    *value == Value::Mapping(*map),
                    issues_view(issues@) == start + metadata_entries_issues(entries@, i as int),
                decreases entries@.len() - i,
            {
                diagnose_metadata_entry(issues, entries[i].0.as_str(), &entries[i].1);
                proof {
                    assert(start + metadata_entries_issues(entries@, i + 1) =~= start
                        + metadata_entries_issues(entries@, i as int) + metadata_entry_issues(
                        entries@[i as int].0@,
                        entries@[i as int].1,
                    ));
                }
                i = i + 1;
            }
        },
    }
}

/// Diagnose the `relations:` block: a mapping of relation name to a
/// reference-shaped override.
fn diagnose_relations(issues: &mut Vec<ConfigIssue>, value: &Value)
    ensures
        issues_view(final(issues)@) == issues_view(old(issues)@) + relations_block_issues(*value),
{
    match value.as_mapping() {
        None => block_shape_issue(issues, "relations", value),
        Some(map) => {
            let entries = map.iter();
            let ghost start = issues_view(issues@);
            let mut i: usize = 0;
            while i < entries.len()
                invariant
                    i <= entries@.len(),
                    entries@ == map.entries(),
                    *value == Value::Mapping(*map),
                    issues_view(issues@) == start + relations_entries_issues(entries@, i as int),
                decreases entries@.len() - i,
            {
                let prefix = concat_str("relations.", entries[i].0.as_str());
                diagnose_reference_block(issues, prefix.as_str(), &entries[i].1);
                proof {
                    assert(start + relations_entries_issues(entries@, i + 1) =~= start
                        + relations_entries_issues(entries@, i as int) + reference_block_issues(
                        "relations."@ + entries@[i as int].0@,
                        entries@[i as int].1,
                    ));
                }
                i = i + 1;
            }
        },
    }
}

/// Diagnose one top-level entry.
fn diagnose_top_entry(issues: &mut Vec<ConfigIssue>, key: &str, value: &Value)
    ensures
        issues_view(final(issues)@) == issues_view(old(issues)@) + top_entry_issues(key@, *value),
{
    if str_eq(key, "spec") || str_eq(key, "updated") {
        proof {
            assert(issues_view(issues@) =~= issues_view(old(issues)@) + top_entry_issues(key@, *value));
        }
    } else if str_eq(key, "content_format") {
        let parses = match value.as_str() {
            Some(s) => ContentFormat::from_config_str(s).is_some(),
            None => false,
        };
        let expected = ["markdown", "djot", "html"];
        proof {
            assert(views(expected@) =~= seq!["markdown"@, "djot"@, "html"@]);
        }
        check_value(issues, key, value, parses, &expected);
    } else if str_eq(key, "id_storage") {
        let parses = match value.as_str() {
            Some(s) => IdStorage::from_config_str(s).is_some(),
            None => false,
        };
        let expected = ["registry", "frontmatter", "both"];
        proof {
            assert(views(expected@) =~= seq!["registry"@, "frontmatter"@, "both"@]);
        }
        check_value(issues, key, value, parses, &expected);
    } else if str_eq(key, "identity") {
        let parses = match value.as_str() {
            Some(s) => registration_from_str(s).is_some(),
            None => false,
        };
        let expected = ["none", "lazy", "eager"];
        proof {
            assert(views(expected@) =~= seq!["none"@, "lazy"@, "eager"@]);
        }
        check_value(issues, key, value, parses, &expected);
    } else if str_eq(key, "fixity") {
        let parses = match value.as_str() {
            Some(s) => Fixity::from_config_str(s).is_some(),
            None => false,
        };
        let expected = ["off", "attachments", "all"];
        proof {
            assert(views(expected@) =~= seq!["off"@, "attachments"@, "all"@]);
        }
        check_value(issues, key, value, parses, &expected);
    } else if str_eq(key, "recycle_bin") {
        let expected = ["true", "false"];
        proof {
            assert(views(expected@) =~= bool_spellings());
        }
        check_value(issues, key, value, value.as_bool().is_some(), &expected);
    } else if str_eq(key, "metadata") {
        diagnose_metadata(issues, value);
    } else if str_eq(key, "references") {
        diagnose_reference_block(issues, "references", value);
    } else if str_eq(key, "relations") {
        diagnose_relations(issues, value);
    } else {
        let cands = ["spec", "content_format", "metadata", "references", "relations", "id_storage", "updated", "identity", "fixity", "recycle_bin"];
        proof {
            assert(views(cands@) =~= top_keys());
            reveal_strlit("");
            assert(""@ =~= Seq::<char>::empty());
        }
        check_unknown(issues, "", key, &cands);
    }
}

/// Diagnose a config surface (a root's `colophon:` block or a config document's
/// top-level mapping): one [`ConfigIssue`] per key `apply` would silently
/// ignore. Recognized keys are checked for a value colophon can parse;
/// unrecognized keys are reported only when they closely resemble a real axis at
/// their level (a likely typo). Returns empty for a clean config.
pub fn diagnose(meta: &Value) -> (r: Vec<ConfigIssue>)
    ensures
        issues_view(r@) == diagnose_spec(*meta),
        meta matches Value::Mapping(m) ==> forall|i: int|
            0 <= i < m.entries().len() && scalar_axis(#[trigger] m.entries()[i].0@) ==> axis_flagged_iff_ignored(*m, i),
{
    let mut issues: Vec<ConfigIssue> = Vec::new();
    match meta.as_mapping() {
        None => {
            proof {
                assert(issues_view(issues@) =~= Seq::<IssueView>::empty());
            }
            issues
        },
        Some(map) => {
            let entries = map.iter();
            let mut i: usize = 0;
            proof {
                assert(issues_view(issues@) =~= top_entries_issues(entries@, 0));
                assert forall|j: int| 0 <= j < map.entries().len() && scalar_axis(#[trigger] map.entries()[j].0@)
                    implies axis_flagged_iff_ignored(*map, j) by {
                    law_diagnosis_matches_apply(*map, j);
                }
            }
            while i < entries.len()
                invariant
                    i <= entries@.len(),
                    entries@ == map.entries(),
                    *meta == Value::Mapping(*map),
                    issues_view(issues@) == top_entries_issues(entries@, i as int),
                decreases entries@.len() - i,
            {
                diagnose_top_entry(&mut issues, entries[i].0.as_str(), &entries[i].1);
                i = i + 1;
            }
            issues
        },
    }
}

// ── Serializing a config ────────────────────────────────────────────────────

/// The top-level config keys are pairwise distinct.
pub proof fn lemma_top_keys_distinct()
    ensures
        "spec"@ != "content_format"@,
        "spec"@ != "metadata"@,
        "spec"@ != "references"@,
        "spec"@ != "relations"@,
        "spec"@ != "id_storage"@,
        "spec"@ != "updated"@,
        "spec"@ != "identity"@,
        "spec"@ != "fixity"@,
        "spec"@ != "recycle_bin"@,
        "content_format"@ != "metadata"@,
        "content_format"@ != "references"@,
        "content_format"@ != "relations"@,
        "content_format"@ != "id_storage"@,
        "content_format"@ != "updated"@,
        "content_format"@ != "identity"@,
        "content_format"@ != "fixity"@,
        "content_format"@ != "recycle_bin"@,
        "metadata"@ != "references"@,
        "metadata"@ != "relations"@,
        "metadata"@ != "id_storage"@,
        "metadata"@ != "updated"@,
        "metadata"@ != "identity"@,
        "metadata"@ != "fixity"@,
        "metadata"@ != "recycle_bin"@,
        "references"@ != "relations"@,
        "references"@ != "id_storage"@,
        "references"@ != "updated"@,
        "references"@ != "identity"@,
        "references"@ != "fixity"@,
        "references"@ != "recycle_bin"@,
        "relations"@ != "id_storage"@,
        "relations"@ != "updated"@,
        "relations"@ != "identity"@,
        "relations"@ != "fixity"@,
        "relations"@ != "recycle_bin"@,
        "id_storage"@ != "updated"@,
        "id_storage"@ != "identity"@,
        "id_storage"@ != "fixity"@,
        "id_storage"@ != "recycle_bin"@,
        "updated"@ != "identity"@,
        "updated"@ != "fixity"@,
        "updated"@ != "recycle_bin"@,
        "identity"@ != "fixity"@,
        "identity"@ != "recycle_bin"@,
        "fixity"@ != "recycle_bin"@,
{
    reveal_strlit("spec");
    reveal_strlit("content_format");
    reveal_strlit("metadata");
    reveal_strlit("references");
    reveal_strlit("relations");
    reveal_strlit("id_storage");
    reveal_strlit("updated");
    reveal_strlit("identity");
    reveal_strlit("fixity");
    reveal_strlit("recycle_bin");
    assert("spec"@.len() != "content_format"@.len());
    assert("spec"@.len() != "metadata"@.len());
    assert("spec"@.len() != "references"@.len());
    assert("spec"@.len() != "relations"@.len());
    assert("spec"@.len() != "id_storage"@.len());
    assert("spec"@.len() != "updated"@.len());
    assert("spec"@.len() != "identity"@.len());
    assert("spec"@.len() != "fixity"@.len());
    assert("spec"@.len() != "recycle_bin"@.len());
    assert("content_format"@.len() != "metadata"@.len());
    assert("content_format"@.len() != "references"@.len());
    assert("content_format"@.len() != "relations"@.len());
    assert("content_format"@.len() != "id_storage"@.len());
    assert("content_format"@.len() != "updated"@.len());
    assert("content_format"@.len() != "identity"@.len());
    assert("content_format"@.len() != "fixity"@.len());
    assert("content_format"@.len() != "recycle_bin"@.len());
    assert("metadata"@.len() != "references"@.len());
    assert("metadata"@.len() != "relations"@.len());
    assert("metadata"@.len() != "id_storage"@.len());
    assert("metadata"@.len() != "updated"@.len());
    assert("metadata"@[0] != "identity"@[0]);
    assert("metadata"@.len() != "fixity"@.len());
    assert("metadata"@.len() != "recycle_bin"@.len());
    assert("references"@.len() != "relations"@.len());
    assert("references"@[0] != "id_storage"@[0]);
    assert("references"@.len() != "updated"@.len());
    assert("references"@.len() != "identity"@.len());
    assert("references"@.len() != "fixity"@.len());
    assert("references"@.len() != "recycle_bin"@.len());
    assert("relations"@.len() != "id_storage"@.len());
    assert("relations"@.len() != "updated"@.len());
    assert("relations"@.len() != "identity"@.len());
    assert("relations"@.len() != "fixity"@.len());
    assert("relations"@.len() != "recycle_bin"@.len());
    assert("id_storage"@.len() != "updated"@.len());
    assert("id_storage"@.len() != "identity"@.len());
    assert("id_storage"@.len() != "fixity"@.len());
    assert("id_storage"@.len() != "recycle_bin"@.len());
    assert("updated"@.len() != "identity"@.len());
    assert("updated"@.len() != "fixity"@.len());
    assert("updated"@.len() != "recycle_bin"@.len());
    assert("identity"@.len() != "fixity"@.len());
    assert("identity"@.len() != "recycle_bin"@.len());
    assert("fixity"@.len() != "recycle_bin"@.len());
}

/// The reference-block keys are pairwise distinct.
pub proof fn lemma_reference_keys_distinct()
    ensures
        "notation"@ != "path_style"@,
        "notation"@ != "target"@,
        "notation"@ != "label"@,
        "path_style"@ != "target"@,
        "path_style"@ != "label"@,
        "target"@ != "label"@,
{
    reveal_strlit("notation");
    reveal_strlit("path_style");
    reveal_strlit("target");
    reveal_strlit("label");
    assert("notation"@.len() != "path_style"@.len());
    assert("notation"@.len() != "target"@.len());
    assert("notation"@.len() != "label"@.len());
    assert("path_style"@.len() != "target"@.len());
    assert("path_style"@.len() != "label"@.len());
    assert("target"@.len() != "label"@.len());
}

/// The metadata-block keys are distinct.
pub proof fn lemma_metadata_keys_distinct()
    ensures
        "format"@ != "embed"@,
{
    reveal_strlit("format");
    reveal_strlit("embed");
    assert("format"@.len() != "embed"@.len());
}

/// A scalar a serialized config holds.
pub enum Scalar {
    Str(Seq<char>),
    Bool(bool),
    Int(int),
}

/// A node of a serialized config: a scalar, a flat block of scalars, or a
/// block of flat blocks (the `relations` block).
pub enum Node {
    Leaf(Scalar),
    Flat(Seq<(Seq<char>, Scalar)>),
    Nested(Seq<(Seq<char>, Seq<(Seq<char>, Scalar)>)>),
}

/// `v` is the scalar `s`.
pub open spec fn scalar_is(v: Value, s: Scalar) -> bool {
    match s {
        Scalar::Str(x) => v.spec_as_str() == Some(x),
        Scalar::Bool(b) => v.spec_as_bool() == Some(b),
        Scalar::Int(i) => v matches Value::Int(j) && j as int == i,
    }
}

/// `v` is a mapping holding exactly `fields`, in order.
pub open spec fn flat_is(v: Value, fields: Seq<(Seq<char>, Scalar)>) -> bool {
    &&& v matches Value::Mapping(m)
    &&& m.entries().len() == fields.len()
    &&& forall|i: int| 0 <= i < fields.len() ==> {
        &&& (#[trigger] m.entries()[i]).0@ == fields[i].0
        &&& scalar_is(m.entries()[i].1, fields[i].1)
    }
}

/// `v` is the node `n`.
pub open spec fn node_is(v: Value, n: Node) -> bool {
    match n {
        Node::Leaf(s) => scalar_is(v, s),
        Node::Flat(f) => flat_is(v, f),
        Node::Nested(blocks) => {
            &&& v matches Value::Mapping(m)
            &&& m.entries().len() == blocks.len()
            &&& forall|i: int| 0 <= i < blocks.len() ==> {
                &&& (#[trigger] m.entries()[i]).0@ == blocks[i].0
                &&& flat_is(m.entries()[i].1, blocks[i].1)
            }
        },
    }
}

/// `m` holds exactly the keyed nodes `t`, in order.
pub open spec fn tree_is(m: Mapping, t: Seq<(Seq<char>, Node)>) -> bool {
    &&& m.entries().len() == t.len()
    &&& forall|i: int| 0 <= i < t.len() ==> {
        &&& (#[trigger] m.entries()[i]).0@ == t[i].0
        &&& node_is(m.entries()[i].1, t[i].1)
    }
}

/// The fields a relation override serializes to: only its set axes, in the
/// order notation, path_style, target, label.
pub open spec fn override_fields(o: RelationStyleConfig) -> Seq<(Seq<char>, Scalar)> {
    let s1: Seq<(Seq<char>, Scalar)> = match o.notation {
        Some(n) => seq![("notation"@, Scalar::Str(n.spelling()))],
        None => Seq::empty(),
    };
    let s2 = match o.path_style {
        Some(p) => s1.push(("path_style"@, Scalar::Str(p.spelling()))),
        None => s1,
    };
    let s3 = match o.target {
        Some(t) => s2.push(("target"@, Scalar::Str(t.spelling()))),
        None => s2,
    };
    match o.label {
        Some(l) => s3.push(("label"@, Scalar::Bool(l))),
        None => s3,
    }
}

/// The serialized form of a config: `spec`, `content_format`, the `metadata`
/// and `references` blocks, the `relations` block when any relation has an
/// override, then `id_storage`, `updated`, `identity`, `fixity`, `recycle_bin`.
pub open spec fn config_tree(c: ConfigView) -> Seq<(Seq<char>, Node)> {
    let head = seq![
        ("spec"@, Node::Leaf(Scalar::Int(SPEC_VERSION as int))),
        ("content_format"@, Node::Leaf(Scalar::Str(c.content_format.spelling()))),
        ("metadata"@, Node::Flat(seq![
            ("format"@, Scalar::Str(c.default_embed_format.spelling())),
            ("embed"@, Scalar::Str(c.embed_style.spelling())),
        ])),
        ("references"@, Node::Flat(seq![
            ("notation"@, Scalar::Str(c.notation.spelling())),
            ("path_style"@, Scalar::Str(c.path_style.spelling())),
            ("target"@, Scalar::Str(c.reference_target.spelling())),
            ("label"@, Scalar::Bool(c.reference_label)),
        ])),
    ];
    let relations: Seq<(Seq<char>, Node)> = if c.relation_styles.len() == 0 {
        Seq::empty()
    } else {
        seq![("relations"@, Node::Nested(c.relation_styles.map_values(
            |e: (Seq<char>, RelationStyleConfig)| (e.0, override_fields(e.1)),
        )))]
    };
    let tail = seq![
        ("id_storage"@, Node::Leaf(Scalar::Str(c.id_storage.spelling()))),
        ("updated"@, Node::Leaf(Scalar::Str(c.updated))),
        ("identity"@, Node::Leaf(Scalar::Str(registration_spelling(c.identity)))),
        ("fixity"@, Node::Leaf(Scalar::Str(c.fixity.spelling()))),
        ("recycle_bin"@, Node::Leaf(Scalar::Bool(c.recycle_bin))),
    ];
    head + relations + tail
}

/// Insert an entry under a key the mapping does not hold yet: it is appended.
fn push_entry(m: &mut Mapping, key: &str, value: Value)
    requires
        forall|j: int| 0 <= j < old(m).entries().len() ==> old(m).entries()[j].0@ != key@,
    ensures
        final(m).entries().len() == old(m).entries().len() + 1,
        forall|j: int| 0 <= j < old(m).entries().len() ==> final(m).entries()[j] == old(m).entries()[j],
        final(m).entries().last().0@ == key@,
        final(m).entries().last().1 == value,
{
    proof {
        lemma_key_index(old(m).entries(), key@);
    }
    let k = String::from_str(key);
    m.insert(k, value);
}

/// A string value.
fn str_value_of(s: &str) -> (v: Value)
    ensures
        v.spec_as_str() == Some(s@),
{
    Value::String(String::from_str(s))
}

/// The mapping one relation override serializes to.
fn override_mapping(o: RelationStyleConfig) -> (v: Value)
    ensures
        flat_is(v, override_fields(o)),
{
    let mut spec = Mapping::new();
    proof {
        lemma_reference_keys_distinct();
    }
    if let Some(n) = o.notation {
        push_entry(&mut spec, "notation", str_value_of(n.as_config_str()));
    }
    if let Some(p) = o.path_style {
        push_entry(&mut spec, "path_style", str_value_of(p.as_config_str()));
    }
    if let Some(t) = o.target {
        push_entry(&mut spec, "target", str_value_of(t.as_config_str()));
    }
    if let Some(l) = o.label {
        push_entry(&mut spec, "label", Value::Bool(l));
    }
    Value::Mapping(spec)
}

impl Default for WorkspaceConfig {
    /// The standalone default: portable markdown-root path links, identity
    /// available lazily, and path addressing.
    fn default() -> (r: Self)
        ensures
            r.view() == default_view(),
            r.wf(),
    {
        let r = WorkspaceConfig {
            identity: Registration::lazy(),
            notation: Notation::Markdown,
            path_style: PathStyle::Root,
            reference_target: Addressing::Path,
            reference_label: false,
            relation_styles: Vec::new(),
            id_storage: IdStorage::Frontmatter,
            default_embed_format: MetadataFormat::Yaml,
            embed_style: EmbedStyle::Delimited,
            content_format: ContentFormat::Markdown,
            recycle_bin: true,
            fixity: Fixity::Payloads,
            updated: String::new(),
        };
        proof {
            assert(r.view().relation_styles =~= Seq::<(Seq<char>, RelationStyleConfig)>::empty());
            assert(r.view() == default_view());
        }
        r
    }
}

impl WorkspaceConfig {
    /// Diaryx-style: path links, no identity (nothing mints an ID, so the
    /// workspace is addressed purely by path).
    pub fn paths_only() -> (r: Self)
        ensures
            r.view() == (ConfigView { identity: Registration::off(), id_storage: IdStorage::Registry, ..default_view() }),
            r.wf(),
    {
        let mut r = Self::default();
        r.identity = Registration::off();
        r.id_storage = IdStorage::Registry;
        r
    }

    /// Obsidian-style: stable IDs minted lazily, and structural links authored
    /// by id, so a move rewrites nothing.
    pub fn stable_ids() -> (r: Self)
        ensures
            r.view() == (ConfigView {
                identity: Registration::lazy(),
                reference_target: Addressing::Id,
                id_storage: IdStorage::Registry,
                ..default_view()
            }),
            r.wf(),
    {
        let mut r = Self::default();
        r.identity = Registration::lazy();
        r.reference_target = Addressing::Id;
        r.id_storage = IdStorage::Registry;
        r
    }

    /// A fresh config with `meta`'s recognized keys applied over the defaults.
    pub fn from_meta(meta: &Value) -> (r: Self)
        ensures
            r.view() == apply_spec(default_view(), *meta),
            r.wf(),
    {
        let mut config = Self::default();
        config.apply(meta);
        config
    }

    /// The `relations` block: one override mapping per relation, in name order.
    fn relations_mapping(&self) -> (r: Mapping)
        requires
            self.wf(),
        ensures
            node_is(Value::Mapping(r), Node::Nested(self.view().relation_styles.map_values(
                |e: (Seq<char>, RelationStyleConfig)| (e.0, override_fields(e.1)),
            ))),
    {
        let ghost styles = self.view().relation_styles;
        let ghost blocks = styles.map_values(|e: (Seq<char>, RelationStyleConfig)| (e.0, override_fields(e.1)));
        let mut relations = Mapping::new();
        let mut i: usize = 0;
        while i < self.relation_styles.len()
            invariant
                styles == self.view().relation_styles,
                styles_sorted(styles),
                blocks == styles.map_values(|e: (Seq<char>, RelationStyleConfig)| (e.0, override_fields(e.1))),
                i <= styles.len(),
                relations.entries().len() == i,
                forall|j: int| 0 <= j < i ==> {
                    &&& (#[trigger] relations.entries()[j]).0@ == styles[j].0
                    &&& flat_is(relations.entries()[j].1, override_fields(styles[j].1))
                },
            decreases styles.len() - i,
        {
            let spec = override_mapping(self.relation_styles[i].1);
            proof {
                assert(styles[i as int].0 == self.relation_styles@[i as int].0@);
                assert forall|j: int| 0 <= j < relations.entries().len() implies relations.entries()[j].0@
                    != self.relation_styles@[i as int].0@ by {
                    lemma_chars_lt_trichotomy(styles[j].0, styles[i as int].0);
                }
            }
            push_entry(&mut relations, self.relation_styles[i].0.as_str(), spec);
            i = i + 1;
        }
        relations
    }

    /// This config as config-document metadata keys (the nested vocabulary).
    /// Emitted at the top level of the config document; the same mapping nests
    /// under `colophon:` in a root's frontmatter.
    pub fn to_mapping(&self) -> (m: Mapping)
        requires
            self.wf(),
        ensures
            tree_is(m, config_tree(self.view())),
    {
        proof {
            lemma_top_keys_distinct();
            lemma_metadata_keys_distinct();
            lemma_reference_keys_distinct();
        }
        let mut map = Mapping::new();
        push_entry(&mut map, "spec", Value::Int(SPEC_VERSION));
        push_entry(&mut map, "content_format", str_value_of(self.content_format.as_config_str()));

        let mut metadata = Mapping::new();
        push_entry(&mut metadata, "format", str_value_of(metadata_format_str(self.default_embed_format)));
        push_entry(&mut metadata, "embed", str_value_of(self.embed_style.as_config_str()));
        push_entry(&mut map, "metadata", Value::Mapping(metadata));

        let mut references = Mapping::new();
        push_entry(&mut references, "notation", str_value_of(self.notation.as_config_str()));
        push_entry(&mut references, "path_style", str_value_of(self.path_style.as_config_str()));
        push_entry(&mut references, "target", str_value_of(self.reference_target.as_config_str()));
        push_entry(&mut references, "label", Value::Bool(self.reference_label));
        push_entry(&mut map, "references", Value::Mapping(references));

        let ghost head_len = map.entries().len();
        if self.relation_styles.len() > 0 {
            let relations = self.relations_mapping();
            push_entry(&mut map, "relations", Value::Mapping(relations));
        }
        let ghost mid = map.entries();
        push_entry(&mut map, "id_storage", str_value_of(self.id_storage.as_config_str()));
        push_entry(&mut map, "updated", str_value_of(self.updated.as_str()));
        push_entry(&mut map, "identity", str_value_of(registration_str(self.identity)));
        push_entry(&mut map, "fixity", str_value_of(self.fixity.as_config_str()));
        push_entry(&mut map, "recycle_bin", Value::Bool(self.recycle_bin));
        proof {
            let t = config_tree(self.view());
            let e = map.entries();
            assert(e.len() == t.len());
            assert forall|i: int| 0 <= i < t.len() implies {
                &&& (#[trigger] e[i]).0@ == t[i].0
                &&& node_is(e[i].1, t[i].1)
            } by {
                if self.relation_styles@.len() > 0 && i == 4 {
                    assert(e[4] == mid[4]);
                }
            }
        }
        map
    }
}

// ── Laws ─────────────────────────────────────────────────────────────────────

/// A lookup finds the first entry carrying the key.
pub proof fn lemma_lookup_at(s: Seq<(String, Value)>, i: int, k: Seq<char>)
    requires
        0 <= i < s.len(),
        s[i].0@ == k,
        forall|j: int| 0 <= j < i ==> s[j].0@ != k,
    ensures
        lookup(s, k) == Some(s[i].1),
{
    lemma_key_index(s, k);
}

/// A lookup of a key no entry carries finds nothing.
pub proof fn lemma_lookup_none(s: Seq<(String, Value)>, k: Seq<char>)
    requires
        forall|j: int| 0 <= j < s.len() ==> s[j].0@ != k,
    ensures
        lookup(s, k) is None,
{
    lemma_key_index(s, k);
}

/// Every registration spelling reads back as some registration, and each of
/// the three presets reads back as itself.
pub proof fn lemma_registration_spelling(r: Registration)
    ensures
        registration_parse(registration_spelling(r)) is Some,
        (r == Registration::off() || r == Registration::lazy() || r == Registration::eager())
            ==> registration_parse(registration_spelling(r)) == Some(r),
{
    reveal_strlit("none");
    reveal_strlit("off");
    reveal_strlit("lazy");
    reveal_strlit("eager");
    assert("none"@[0] != "lazy"@[0]);
    assert("off"@.len() != "lazy"@.len());
    assert("off"@.len() != "none"@.len());
}

/// The `identity` spellings are the documented ones: `none` (also `off`),
/// `lazy` and `eager` read as the trigger sets of those presets, each preset
/// is written as its own word, and a custom trigger set is written as the
/// preset it differs from in the fewest triggers (`lazy` on a tie with it,
/// then `none`). With three triggers there are eight sets; each is listed.
pub proof fn law_identity_spellings()
    ensures
        registration_parse("none"@) == Some(Registration { on_create: false, on_link: false, on_publish: false }),
        registration_parse("off"@) == Some(Registration { on_create: false, on_link: false, on_publish: false }),
        registration_parse("lazy"@) == Some(Registration { on_create: false, on_link: true, on_publish: true }),
        registration_parse("eager"@) == Some(Registration { on_create: true, on_link: true, on_publish: true }),
        registration_spelling(Registration { on_create: false, on_link: false, on_publish: false }) == "none"@,
        registration_spelling(Registration { on_create: false, on_link: false, on_publish: true }) == "lazy"@,
        registration_spelling(Registration { on_create: false, on_link: true, on_publish: false }) == "lazy"@,
        registration_spelling(Registration { on_create: false, on_link: true, on_publish: true }) == "lazy"@,
        registration_spelling(Registration { on_create: true, on_link: false, on_publish: false }) == "none"@,
        registration_spelling(Registration { on_create: true, on_link: false, on_publish: true }) == "eager"@,
        registration_spelling(Registration { on_create: true, on_link: true, on_publish: false }) == "eager"@,
        registration_spelling(Registration { on_create: true, on_link: true, on_publish: true }) == "eager"@,
{
    reveal_strlit("none");
    reveal_strlit("off");
    reveal_strlit("lazy");
    reveal_strlit("eager");
    assert("none"@[0] != "lazy"@[0]);
    assert("off"@.len() != "lazy"@.len());
    assert("off"@.len() != "none"@.len());
    assert("none"@[0] != "off"@[0]);
    assert("eager"@.len() != "none"@.len());
    assert("eager"@.len() != "off"@.len());
    assert("eager"@.len() != "lazy"@.len());
}

/// The default config is the documented one, as `colophon config` prints it:
/// `content_format: markdown`, `metadata.format: yaml`, `metadata.embed:
/// delimited`, `references.notation: markdown`, `references.path_style: root`,
/// `references.target: path`, `references.label: false`, `id_storage: both`,
/// `updated: ''`, `identity: lazy`, `fixity: attachments`,
/// `recycle_bin: true`, and no per-relation overrides.
pub proof fn law_default_config()
    ensures
        default_view().content_format.spelling() == "markdown"@,
        default_view().default_embed_format.spelling() == "yaml"@,
        default_view().embed_style.spelling() == "delimited"@,
        default_view().notation.spelling() == "markdown"@,
        default_view().path_style.spelling() == "root"@,
        default_view().reference_target.spelling() == "path"@,
        default_view().reference_label == false,
        default_view().id_storage.spelling() == "both"@,
        default_view().updated == Seq::<char>::empty(),
        registration_spelling(default_view().identity) == "lazy"@,
        default_view().fixity.spelling() == "attachments"@,
        default_view().recycle_bin == true,
        default_view().relation_styles.len() == 0,
{
    law_identity_spellings();
}

/// Where each axis sits among an override's serialized fields: set axes appear
/// once, at the position after the set axes before them; unset axes not at all.
pub proof fn lemma_override_fields(o: RelationStyleConfig)
    ensures
        ({
            let f = override_fields(o);
            let pn: int = if o.notation is Some { 1int } else { 0int };
            let pp: int = pn + if o.path_style is Some { 1int } else { 0int };
            let pt: int = pp + if o.target is Some { 1int } else { 0int };
            let pl: int = pt + if o.label is Some { 1int } else { 0int };
            &&& f.len() == pl
            &&& o.notation matches Some(n) ==> f[0] == ("notation"@, Scalar::Str(n.spelling()))
            &&& o.path_style matches Some(x) ==> f[pn] == ("path_style"@, Scalar::Str(x.spelling()))
            &&& o.target matches Some(x) ==> f[pp] == ("target"@, Scalar::Str(x.spelling()))
            &&& o.label matches Some(x) ==> f[pt] == ("label"@, Scalar::Bool(x))
            &&& forall|i: int| 0 <= i < f.len() ==> {
                &&& (#[trigger] f[i]).0 == "notation"@ ==> i == 0 && o.notation is Some
                &&& f[i].0 == "path_style"@ ==> i == pn && o.path_style is Some
                &&& f[i].0 == "target"@ ==> i == pp && o.target is Some
                &&& f[i].0 == "label"@ ==> i == pt && o.label is Some
            }
        }),
{
    lemma_reference_keys_distinct();
}

/// A flat block's value under key `k` is the value of the field at `i` when
/// that is the first field keyed `k`.
pub proof fn lemma_flat_get(v: Value, f: Seq<(Seq<char>, Scalar)>, i: int, k: Seq<char>)
    requires
        flat_is(v, f),
        0 <= i < f.len(),
        f[i].0 == k,
        forall|j: int| 0 <= j < i ==> f[j].0 != k,
    ensures
        v.spec_get(k) == Some(v->Mapping_0.entries()[i].1),
        scalar_is(v->Mapping_0.entries()[i].1, f[i].1),
{
    let e = v->Mapping_0.entries();
    assert(e[i].0@ == f[i].0);
    assert forall|j: int| 0 <= j < i implies e[j].0@ != k by {
        assert(e[j].0@ == f[j].0);
    }
    lemma_lookup_at(e, i, k);
}

/// A flat block has no value under a key none of its fields carries.
pub proof fn lemma_flat_absent(v: Value, f: Seq<(Seq<char>, Scalar)>, k: Seq<char>)
    requires
        flat_is(v, f),
        forall|j: int| 0 <= j < f.len() ==> f[j].0 != k,
    ensures
        v.spec_get(k) is None,
{
    let e = v->Mapping_0.entries();
    assert forall|j: int| 0 <= j < e.len() implies e[j].0@ != k by {
        assert(e[j].0@ == f[j].0);
    }
    lemma_lookup_none(e, k);
}

/// Reading a serialized override over no overrides gives the override back.
pub proof fn lemma_override_round_trip(o: RelationStyleConfig, v: Value)
    requires
        flat_is(v, override_fields(o)),
    ensures
        override_spec(empty_override(), v) == o,
{
    lemma_override_fields(o);
    let f = override_fields(o);
    let pn: int = if o.notation is Some { 1int } else { 0int };
    let pp: int = pn + if o.path_style is Some { 1int } else { 0int };
    let pt: int = pp + if o.target is Some { 1int } else { 0int };
    match o.notation {
        Some(n) => {
            n.lemma_spelling_round_trip();
            lemma_flat_get(v, f, 0, "notation"@);
        },
        None => {
            assert forall|j: int| 0 <= j < f.len() implies f[j].0 != "notation"@ by {
                let _ = f[j];
            }
            lemma_flat_absent(v, f, "notation"@);
        },
    }
    match o.path_style {
        Some(x) => {
            x.lemma_spelling_round_trip();
            assert forall|j: int| 0 <= j < pn implies f[j].0 != "path_style"@ by {
                let _ = f[j];
            }
            lemma_flat_get(v, f, pn, "path_style"@);
        },
        None => {
            assert forall|j: int| 0 <= j < f.len() implies f[j].0 != "path_style"@ by {
                let _ = f[j];
            }
            lemma_flat_absent(v, f, "path_style"@);
        },
    }
    match o.target {
        Some(x) => {
            x.lemma_spelling_round_trip();
            assert forall|j: int| 0 <= j < pp implies f[j].0 != "target"@ by {
                let _ = f[j];
            }
            lemma_flat_get(v, f, pp, "target"@);
        },
        None => {
            assert forall|j: int| 0 <= j < f.len() implies f[j].0 != "target"@ by {
                let _ = f[j];
            }
            lemma_flat_absent(v, f, "target"@);
        },
    }
    match o.label {
        Some(x) => {
            assert forall|j: int| 0 <= j < pt implies f[j].0 != "label"@ by {
                let _ = f[j];
            }
            lemma_flat_get(v, f, pt, "label"@);
        },
        None => {
            assert forall|j: int| 0 <= j < f.len() implies f[j].0 != "label"@ by {
                let _ = f[j];
            }
            lemma_flat_absent(v, f, "label"@);
        },
    }
}

/// Reading a serialized `relations` block over no overrides rebuilds the
/// (sorted) overrides it was written from.
pub proof fn lemma_fold_rebuilds(
    styles: Seq<(Seq<char>, RelationStyleConfig)>,
    entries: Seq<(String, Value)>,
    n: int,
)
    requires
        styles_sorted(styles),
        entries.len() == styles.len(),
        forall|j: int| 0 <= j < styles.len() ==> {
            &&& (#[trigger] entries[j]).0@ == styles[j].0
            &&& flat_is(entries[j].1, override_fields(styles[j].1))
        },
        0 <= n <= styles.len(),
    ensures
        fold_relations(Seq::empty(), entries, n) == styles.take(n),
    decreases n,
{
    if n > 0 {
        lemma_fold_rebuilds(styles, entries, n - 1);
        let prev = styles.take(n - 1);
        let name = entries[n - 1].0@;
        assert(name == styles[n - 1].0);
        lemma_style_index(prev, name);
        assert forall|j: int| 0 <= j < prev.len() implies prev[j].0 != name by {
            lemma_chars_lt_trichotomy(styles[j].0, name);
        }
        lemma_insert_pos(prev, name);
        if insert_pos(prev, name) < prev.len() {
            let q = insert_pos(prev, name);
            assert(chars_lt(styles[q].0, name));
        }
        lemma_override_round_trip(styles[n - 1].1, entries[n - 1].1);
        assert(prev.insert(n - 1, (name, styles[n - 1].1)) =~= styles.take(n));
    }
}

/// In a mapping laid out as `t`, a key that no earlier node carries finds its node.
pub proof fn lemma_tree_lookup(m: Mapping, t: Seq<(Seq<char>, Node)>, i: int)
    requires
        tree_is(m, t),
        0 <= i < t.len(),
        forall|j: int| 0 <= j < i ==> t[j].0 != t[i].0,
    ensures
        Value::Mapping(m).spec_get(t[i].0) == Some(m.entries()[i].1),
        node_is(m.entries()[i].1, t[i].1),
{
    let e = m.entries();
    assert(e[i].0@ == t[i].0);
    assert forall|j: int| 0 <= j < i implies e[j].0@ != t[i].0 by {
        assert(e[j].0@ == t[j].0);
    }
    lemma_lookup_at(e, i, t[i].0);
}

/// Reading the `relations` block of a serialized config over no overrides
/// rebuilds the config's overrides.
pub proof fn lemma_relations_round_trip(c: ConfigView, m: Mapping)
    requires
        styles_sorted(c.relation_styles),
        tree_is(m, config_tree(c)),
    ensures
        apply_relations(Seq::empty(), Value::Mapping(m)) == c.relation_styles,
{
    lemma_top_keys_distinct();
    let e = m.entries();
    let t = config_tree(c);
    if c.relation_styles.len() == 0 {
        assert forall|j: int| 0 <= j < e.len() implies e[j].0@ != "relations"@ by {
            assert(e[j].0@ == t[j].0);
        }
        lemma_lookup_none(e, "relations"@);
        assert(c.relation_styles =~= Seq::<(Seq<char>, RelationStyleConfig)>::empty());
    } else {
        assert(t[4].0 == "relations"@);
        lemma_tree_lookup(m, t, 4);
        let rel = e[4].1;
        let rele = rel->Mapping_0.entries();
        let blocks = c.relation_styles.map_values(|x: (Seq<char>, RelationStyleConfig)| (x.0, override_fields(x.1)));
        assert(t[4].1 == Node::Nested(blocks));
        assert forall|j: int| 0 <= j < c.relation_styles.len() implies {
            &&& (#[trigger] rele[j]).0@ == c.relation_styles[j].0
            &&& flat_is(rele[j].1, override_fields(c.relation_styles[j].1))
        } by {
            assert(blocks[j] == (c.relation_styles[j].0, override_fields(c.relation_styles[j].1)));
        }
        lemma_fold_rebuilds(c.relation_styles, rele, c.relation_styles.len() as int);
        assert(c.relation_styles.take(c.relation_styles.len() as int) =~= c.relation_styles);
    }
}

/// Reading a serialized config's head (content format, `metadata` and
/// `references` blocks) over the defaults gives back those axes.
pub proof fn lemma_head_round_trip(c: ConfigView, m: Mapping)
    requires
        tree_is(m, config_tree(c)),
    ensures
        ({
            let r = apply_spec(default_view(), Value::Mapping(m));
            &&& r.content_format == c.content_format
            &&& r.default_embed_format == c.default_embed_format
            &&& r.embed_style == c.embed_style
            &&& r.notation == c.notation
            &&& r.path_style == c.path_style
            &&& r.reference_target == c.reference_target
            &&& r.reference_label == c.reference_label
        }),
{
    lemma_top_keys_distinct();
    lemma_metadata_keys_distinct();
    lemma_reference_keys_distinct();
    let e = m.entries();
    let t = config_tree(c);
    lemma_tree_lookup(m, t, 1);
    lemma_tree_lookup(m, t, 2);
    lemma_tree_lookup(m, t, 3);
    let mdf = seq![
        ("format"@, Scalar::Str(c.default_embed_format.spelling())),
        ("embed"@, Scalar::Str(c.embed_style.spelling())),
    ];
    let rff = seq![
        ("notation"@, Scalar::Str(c.notation.spelling())),
        ("path_style"@, Scalar::Str(c.path_style.spelling())),
        ("target"@, Scalar::Str(c.reference_target.spelling())),
        ("label"@, Scalar::Bool(c.reference_label)),
    ];
    assert(t[2].1 == Node::Flat(mdf));
    assert(t[3].1 == Node::Flat(rff));
    lemma_flat_get(e[2].1, mdf, 0, "format"@);
    lemma_flat_get(e[2].1, mdf, 1, "embed"@);
    lemma_flat_get(e[3].1, rff, 0, "notation"@);
    lemma_flat_get(e[3].1, rff, 1, "path_style"@);
    lemma_flat_get(e[3].1, rff, 2, "target"@);
    lemma_flat_get(e[3].1, rff, 3, "label"@);
    c.content_format.lemma_spelling_round_trip();
    c.default_embed_format.lemma_spelling_round_trip();
    c.embed_style.lemma_spelling_round_trip();
    c.notation.lemma_spelling_round_trip();
    c.path_style.lemma_spelling_round_trip();
    c.reference_target.lemma_spelling_round_trip();
}

/// Reading a serialized config's trailing scalars over the defaults gives
/// back those axes (identity when it is one of the named presets).
pub proof fn lemma_tail_round_trip(c: ConfigView, m: Mapping)
    requires
        c.identity == Registration::off() || c.identity == Registration::lazy() || c.identity == Registration::eager(),
        tree_is(m, config_tree(c)),
    ensures
        ({
            let r = apply_spec(default_view(), Value::Mapping(m));
            &&& r.id_storage == c.id_storage
            &&& r.updated == c.updated
            &&& r.identity == c.identity
            &&& r.fixity == c.fixity
            &&& r.recycle_bin == c.recycle_bin
        }),
{
    lemma_top_keys_distinct();
    let t = config_tree(c);
    let off: int = if c.relation_styles.len() == 0 { 0 } else { 1 };
    assert(t[4 + off].0 == "id_storage"@);
    assert(t[5 + off].0 == "updated"@);
    assert(t[6 + off].0 == "identity"@);
    assert(t[7 + off].0 == "fixity"@);
    assert(t[8 + off].0 == "recycle_bin"@);
    lemma_tree_lookup(m, t, 4 + off);
    lemma_tree_lookup(m, t, 5 + off);
    lemma_tree_lookup(m, t, 6 + off);
    lemma_tree_lookup(m, t, 7 + off);
    lemma_tree_lookup(m, t, 8 + off);
    c.id_storage.lemma_spelling_round_trip();
    c.fixity.lemma_spelling_round_trip();
    lemma_registration_spelling(c.identity);
}

/// Serializing then reading back is the identity: reading the mapping
/// `to_mapping` produces over the defaults gives back the config it came from.
/// Holds for every config whose identity triggers are one of the three named
/// presets (a custom combination is written as the name of its nearest preset).
pub proof fn law_config_round_trip(c: ConfigView, m: Mapping)
    requires
        styles_sorted(c.relation_styles),
        c.identity == Registration::off() || c.identity == Registration::lazy() || c.identity == Registration::eager(),
        tree_is(m, config_tree(c)),
    ensures
        apply_spec(default_view(), Value::Mapping(m)) == c,
{
    lemma_head_round_trip(c, m);
    lemma_tail_round_trip(c, m);
    lemma_relations_round_trip(c, m);
}


/// A field of a `references:`-shaped block that reads cleanly: one of the four
/// keys, holding a spelling (or boolean) that axis accepts.
pub open spec fn reference_field_ok(fd: (Seq<char>, Scalar)) -> bool {
    ||| fd.0 == "notation"@ && (fd.1 matches Scalar::Str(s) && Notation::parse_spelling(s) is Some)
    ||| fd.0 == "path_style"@ && (fd.1 matches Scalar::Str(s) && PathStyle::parse_spelling(s) is Some)
    ||| fd.0 == "target"@ && (fd.1 matches Scalar::Str(s) && Addressing::parse_spelling(s) is Some)
    ||| fd.0 == "label"@ && fd.1 is Bool
}

/// A `references:`-shaped block made of clean fields raises no issue.
pub proof fn lemma_reference_block_clean(prefix: Seq<char>, v: Value, f: Seq<(Seq<char>, Scalar)>, n: int)
    requires
        flat_is(v, f),
        forall|i: int| 0 <= i < f.len() ==> reference_field_ok(#[trigger] f[i]),
        0 <= n <= f.len(),
    ensures
        reference_entries_issues(prefix, v->Mapping_0.entries(), n) == Seq::<IssueView>::empty(),
    decreases n,
{
    if n > 0 {
        lemma_reference_block_clean(prefix, v, f, n - 1);
        let e = v->Mapping_0.entries();
        assert(e[n - 1].0@ == f[n - 1].0);
        assert(reference_field_ok(f[n - 1]));
        lemma_reference_keys_distinct();
        assert(reference_entry_issues(prefix, e[n - 1].0@, e[n - 1].1) =~= Seq::<IssueView>::empty());
        assert(reference_entries_issues(prefix, e, n) =~= Seq::<IssueView>::empty());
    }
}

/// Every field a relation override serializes to reads cleanly.
pub proof fn lemma_override_fields_ok(o: RelationStyleConfig)
    ensures
        forall|i: int| 0 <= i < override_fields(o).len() ==> reference_field_ok(#[trigger] override_fields(o)[i]),
{
    lemma_override_fields(o);
    let f = override_fields(o);
    if o.notation is Some {
        o.notation->0.lemma_spelling_round_trip();
    }
    if o.path_style is Some {
        o.path_style->0.lemma_spelling_round_trip();
    }
    if o.target is Some {
        o.target->0.lemma_spelling_round_trip();
    }
    assert forall|i: int| 0 <= i < f.len() implies reference_field_ok(#[trigger] f[i]) by {
        let pn: int = if o.notation is Some { 1int } else { 0int };
        let pp: int = pn + if o.path_style is Some { 1int } else { 0int };
        let pt: int = pp + if o.target is Some { 1int } else { 0int };
        if o.notation is Some && i == 0 {
        } else if o.path_style is Some && i == pn {
        } else if o.target is Some && i == pp {
        } else {
            assert(o.label is Some && i == pt);
        }
    }
}

/// A serialized `relations` block raises no issue.
pub proof fn lemma_relations_block_clean(
    styles: Seq<(Seq<char>, RelationStyleConfig)>,
    entries: Seq<(String, Value)>,
    n: int,
)
    requires
        entries.len() == styles.len(),
        forall|j: int| 0 <= j < styles.len() ==> {
            &&& (#[trigger] entries[j]).0@ == styles[j].0
            &&& flat_is(entries[j].1, override_fields(styles[j].1))
        },
        0 <= n <= styles.len(),
    ensures
        relations_entries_issues(entries, n) == Seq::<IssueView>::empty(),
    decreases n,
{
    if n > 0 {
        lemma_relations_block_clean(styles, entries, n - 1);
        let f = override_fields(styles[n - 1].1);
        let v = entries[n - 1].1;
        lemma_override_fields_ok(styles[n - 1].1);
        lemma_reference_block_clean("relations."@ + entries[n - 1].0@, v, f, f.len() as int);
        assert(relations_entries_issues(entries, n) =~= Seq::<IssueView>::empty());
    }
}

/// The top-level entry of a serialized config at position `i` raises no issue.
pub proof fn lemma_top_entry_clean(c: ConfigView, m: Mapping, i: int)
    requires
        tree_is(m, config_tree(c)),
        0 <= i < config_tree(c).len(),
    ensures
        top_entry_issues(m.entries()[i].0@, m.entries()[i].1) == Seq::<IssueView>::empty(),
{
    lemma_top_keys_distinct();
    lemma_metadata_keys_distinct();
    lemma_reference_keys_distinct();
    let e = m.entries();
    let t = config_tree(c);
    let off: int = if c.relation_styles.len() == 0 { 0 } else { 1 };
    assert(e[i].0@ == t[i].0);
    assert(node_is(e[i].1, t[i].1));
    if i == 1 {
        c.content_format.lemma_spelling_round_trip();
    } else if i == 2 {
        c.default_embed_format.lemma_spelling_round_trip();
        c.embed_style.lemma_spelling_round_trip();
        let md = e[2].1->Mapping_0.entries();
        assert(metadata_entry_issues(md[0].0@, md[0].1) =~= Seq::<IssueView>::empty());
        assert(metadata_entry_issues(md[1].0@, md[1].1) =~= Seq::<IssueView>::empty());
        assert(metadata_entries_issues(md, 0) =~= Seq::<IssueView>::empty());
        assert(metadata_entries_issues(md, 1) =~= Seq::<IssueView>::empty());
        assert(metadata_entries_issues(md, 2) =~= Seq::<IssueView>::empty());
    } else if i == 3 {
        let rff = seq![
            ("notation"@, Scalar::Str(c.notation.spelling())),
            ("path_style"@, Scalar::Str(c.path_style.spelling())),
            ("target"@, Scalar::Str(c.reference_target.spelling())),
            ("label"@, Scalar::Bool(c.reference_label)),
        ];
        assert(t[3].1 == Node::Flat(rff));
        c.notation.lemma_spelling_round_trip();
        c.path_style.lemma_spelling_round_trip();
        c.reference_target.lemma_spelling_round_trip();
        lemma_reference_block_clean("references"@, e[3].1, rff, 4);
    } else if off == 1 && i == 4 {
        let blocks = c.relation_styles.map_values(|x: (Seq<char>, RelationStyleConfig)| (x.0, override_fields(x.1)));
        assert(t[4].1 == Node::Nested(blocks));
        let rele = e[4].1->Mapping_0.entries();
        assert forall|j: int| 0 <= j < c.relation_styles.len() implies {
            &&& (#[trigger] rele[j]).0@ == c.relation_styles[j].0
            &&& flat_is(rele[j].1, override_fields(c.relation_styles[j].1))
        } by {
            assert(blocks[j] == (c.relation_styles[j].0, override_fields(c.relation_styles[j].1)));
        }
        lemma_relations_block_clean(c.relation_styles, rele, c.relation_styles.len() as int);
    } else if i == 4 + off {
        c.id_storage.lemma_spelling_round_trip();
    } else if i == 6 + off {
        lemma_registration_spelling(c.identity);
    } else if i == 7 + off {
        c.fixity.lemma_spelling_round_trip();
    }
}

/// A serialized config's top-level entries raise no issue.
pub proof fn lemma_top_entries_clean(c: ConfigView, m: Mapping, n: int)
    requires
        tree_is(m, config_tree(c)),
        0 <= n <= m.entries().len(),
    ensures
        top_entries_issues(m.entries(), n) == Seq::<IssueView>::empty(),
    decreases n,
{
    if n > 0 {
        lemma_top_entries_clean(c, m, n - 1);
        lemma_top_entry_clean(c, m, n - 1);
        assert(top_entries_issues(m.entries(), n) =~= Seq::<IssueView>::empty());
    }
}

/// A serialized config is clean: diagnosing the mapping `to_mapping` produces
/// raises no issue, and its `spec` is never ahead of this build.
pub proof fn law_serialized_config_is_clean(c: ConfigView, m: Mapping)
    requires
        tree_is(m, config_tree(c)),
    ensures
        diagnose_spec(Value::Mapping(m)) == Seq::<IssueView>::empty(),
        spec_ahead_spec(Value::Mapping(m)) is None,
{
    lemma_top_entries_clean(c, m, m.entries().len() as int);
    let t = config_tree(c);
    lemma_tree_lookup(m, t, 0);
}


/// Applying a surface that sets nothing changes nothing: a mapping with none
/// of the recognized keys (or any value that is no mapping) leaves every axis
/// as it was.
pub proof fn law_apply_without_keys_is_identity(c: ConfigView, meta: Value)
    requires
        forall|k: Seq<char>| #[trigger] meta.spec_get(k) is None,
    ensures
        apply_spec(c, meta) == c,
{
    assert(meta.spec_get("relations"@) is None);
}

/// The later surface wins: after applying a root block and then a config
/// document, every scalar axis the config document spells takes its value,
/// whatever the root block said; an axis it does not spell keeps what the
/// root block gave it.
pub proof fn law_later_apply_wins(c: ConfigView, root: Value, doc: Value)
    ensures
        ({
            let once = apply_spec(c, root);
            let twice = apply_spec(once, doc);
            &&& content_format_at(doc, "content_format"@) matches Some(v) ==> twice.content_format == v
            &&& content_format_at(doc, "content_format"@) is None ==> twice.content_format == once.content_format
            &&& id_storage_at(doc, "id_storage"@) matches Some(v) ==> twice.id_storage == v
            &&& id_storage_at(doc, "id_storage"@) is None ==> twice.id_storage == once.id_storage
            &&& registration_at(doc, "identity"@) matches Some(v) ==> twice.identity == v
            &&& registration_at(doc, "identity"@) is None ==> twice.identity == once.identity
            &&& fixity_at(doc, "fixity"@) matches Some(v) ==> twice.fixity == v
            &&& fixity_at(doc, "fixity"@) is None ==> twice.fixity == once.fixity
            &&& bool_at(doc, "recycle_bin"@) matches Some(v) ==> twice.recycle_bin == v
            &&& bool_at(doc, "recycle_bin"@) is None ==> twice.recycle_bin == once.recycle_bin
            &&& str_at(doc, "updated"@) matches Some(v) ==> twice.updated == v
            &&& str_at(doc, "updated"@) is None ==> twice.updated == once.updated
            &&& notation_at(block(doc, "references"@), "notation"@) matches Some(v) ==> twice.notation == v
            &&& notation_at(block(doc, "references"@), "notation"@) is None ==> twice.notation == once.notation
            &&& addressing_at(block(doc, "references"@), "target"@) matches Some(v) ==> twice.reference_target == v
            &&& addressing_at(block(doc, "references"@), "target"@) is None ==> twice.reference_target == once.reference_target
            &&& metadata_format_at(block(doc, "metadata"@), "format"@) matches Some(v) ==> twice.default_embed_format == v
            &&& metadata_format_at(block(doc, "metadata"@), "format"@) is None ==> twice.default_embed_format == once.default_embed_format
        }),
{
}


/// An axis check raises nothing exactly when the value parses.
proof fn lemma_check_axis_clean(key: Seq<char>, v: Value, parses: bool, expected: Seq<Seq<char>>)
    ensures
        (check_axis(key, v, parses, expected) == Seq::<IssueView>::empty()) <==> parses,
{
    if !parses {
        assert(check_axis(key, v, parses, expected).len() == 1);
    }
}

/// Diagnosis flags exactly what `apply` would ignore: for every recognized
/// top-level scalar axis, the entry under it draws an issue exactly when
/// `apply` cannot read its value (and so keeps the current setting).
pub proof fn law_diagnose_flags_what_apply_ignores(m: Mapping, i: int)
    requires
        0 <= i < m.entries().len(),
        forall|j: int| 0 <= j < i ==> m.entries()[j].0@ != m.entries()[i].0@,
    ensures
        ({
            let k = m.entries()[i].0@;
            let v = m.entries()[i].1;
            let meta = Value::Mapping(m);
            let clean = top_entry_issues(k, v) == Seq::<IssueView>::empty();
            &&& k == "content_format"@ ==> (clean <==> content_format_at(meta, k) is Some)
            &&& k == "id_storage"@ ==> (clean <==> id_storage_at(meta, k) is Some)
            &&& k == "identity"@ ==> (clean <==> registration_at(meta, k) is Some)
            &&& k == "fixity"@ ==> (clean <==> fixity_at(meta, k) is Some)
            &&& k == "recycle_bin"@ ==> (clean <==> bool_at(meta, k) is Some)
        }),
{
    lemma_top_keys_distinct();
    let e = m.entries();
    let k = e[i].0@;
    let v = e[i].1;
    lemma_lookup_at(e, i, k);
    lemma_check_axis_clean(k, v, spells_content_format(v), seq!["markdown"@, "djot"@, "html"@]);
    lemma_check_axis_clean(k, v, spells_id_storage(v), seq!["registry"@, "frontmatter"@, "both"@]);
    lemma_check_axis_clean(k, v, spells_registration(v), seq!["none"@, "lazy"@, "eager"@]);
    lemma_check_axis_clean(k, v, spells_fixity(v), seq!["off"@, "attachments"@, "all"@]);
    lemma_check_axis_clean(k, v, v.spec_as_bool() is Some, bool_spellings());
}

/// Whether `s` begins with `p`.
pub open spec fn starts_with(s: Seq<char>, p: Seq<char>) -> bool {
    p.len() <= s.len() && s.subrange(0, p.len() as int) == p
}

/// Every issue's key begins with `p`.
pub open spec fn keys_start_with(issues: Seq<IssueView>, p: Seq<char>) -> bool {
    forall|i: int| 0 <= i < issues.len() ==> starts_with(#[trigger] issues[i].key, p)
}

/// Whether some issue is keyed `k`.
pub open spec fn issue_keyed(issues: Seq<IssueView>, k: Seq<char>) -> bool {
    exists|i: int| 0 <= i < issues.len() && (#[trigger] issues[i]).key == k
}

/// The top-level scalar axes `apply` reads.
pub open spec fn scalar_axis(k: Seq<char>) -> bool {
    k == "content_format"@ || k == "id_storage"@ || k == "identity"@ || k == "fixity"@ || k == "recycle_bin"@
}

/// Keys starting with `p` keep doing so under concatenation of issue lists.
proof fn lemma_keys_start_concat(a: Seq<IssueView>, b: Seq<IssueView>, p: Seq<char>)
    requires
        keys_start_with(a, p),
        keys_start_with(b, p),
    ensures
        keys_start_with(a + b, p),
{
    assert forall|i: int| 0 <= i < (a + b).len() implies starts_with(#[trigger] (a + b)[i].key, p) by {
        if i < a.len() {
            assert((a + b)[i] == a[i]);
        } else {
            assert((a + b)[i] == b[i - a.len()]);
        }
    }
}

/// A key that begins with `p + q` begins with `p`.
proof fn lemma_starts_with_shorter(s: Seq<char>, p: Seq<char>, q: Seq<char>)
    requires
        starts_with(s, p + q),
    ensures
        starts_with(s, p),
{
    assert(s.subrange(0, p.len() as int) =~= (p + q).subrange(0, p.len() as int));
    assert((p + q).subrange(0, p.len() as int) =~= p);
}

/// Every issue of a `references:`-shaped block under `prefix` is keyed under it.
proof fn lemma_reference_block_keys(prefix: Seq<char>, v: Value)
    ensures
        keys_start_with(reference_block_issues(prefix, v), prefix),
{
    match v {
        Value::Mapping(m) => {
            let e = m.entries();
            lemma_reference_entries_keys(prefix, e, e.len() as int);
        },
        _ => {
            assert(prefix.subrange(0, prefix.len() as int) =~= prefix);
        },
    }
}

/// Every issue of the first `n` entries of a `references:`-shaped block under
/// `prefix` is keyed under it.
proof fn lemma_reference_entries_keys(prefix: Seq<char>, entries: Seq<(String, Value)>, n: int)
    ensures
        keys_start_with(reference_entries_issues(prefix, entries, n), prefix),
    decreases n,
{
    if n > 0 {
        lemma_reference_entries_keys(prefix, entries, n - 1);
        let key = entries[n - 1].0@;
        let one = reference_entry_issues(prefix, key, entries[n - 1].1);
        assert forall|i: int| 0 <= i < one.len() implies starts_with(#[trigger] one[i].key, prefix) by {
            let q = one[i].key;
            assert(q =~= prefix + ("."@ + key));
            assert(q.subrange(0, prefix.len() as int) =~= prefix);
        }
        lemma_keys_start_concat(reference_entries_issues(prefix, entries, n - 1), one, prefix);
    }
}

/// Every issue of the first `n` entries of the `metadata:` block is keyed
/// under `metadata`.
proof fn lemma_metadata_entries_keys(entries: Seq<(String, Value)>, n: int)
    ensures
        keys_start_with(metadata_entries_issues(entries, n), "metadata"@),
    decreases n,
{
    if n > 0 {
        lemma_metadata_entries_keys(entries, n - 1);
        let key = entries[n - 1].0@;
        let one = metadata_entry_issues(key, entries[n - 1].1);
        assert forall|i: int| 0 <= i < one.len() implies starts_with(#[trigger] one[i].key, "metadata"@) by {
            let q = one[i].key;
            reveal_strlit("metadata.");
            reveal_strlit("metadata");
            reveal_strlit(".");
            assert(q =~= "metadata"@ + ("."@ + key));
            assert(q.subrange(0, "metadata"@.len() as int) =~= "metadata"@);
        }
        lemma_keys_start_concat(metadata_entries_issues(entries, n - 1), one, "metadata"@);
    }
}

/// Every issue of the first `n` entries of the `relations:` block is keyed
/// under `relations`.
proof fn lemma_relations_entries_keys(entries: Seq<(String, Value)>, n: int)
    ensures
        keys_start_with(relations_entries_issues(entries, n), "relations"@),
    decreases n,
{
    if n > 0 {
        lemma_relations_entries_keys(entries, n - 1);
        let name = entries[n - 1].0@;
        let prefix = "relations."@ + name;
        let one = reference_block_issues(prefix, entries[n - 1].1);
        lemma_reference_block_keys(prefix, entries[n - 1].1);
        assert forall|i: int| 0 <= i < one.len() implies starts_with(#[trigger] one[i].key, "relations"@) by {
            reveal_strlit("relations.");
            reveal_strlit("relations");
            reveal_strlit(".");
            assert(prefix =~= "relations"@ + ("."@ + name));
            lemma_starts_with_shorter(one[i].key, "relations"@, "."@ + name);
        }
        lemma_keys_start_concat(relations_entries_issues(entries, n - 1), one, "relations"@);
    }
}

/// A key under a block name is none of the scalar axes.
proof fn lemma_block_key_not_axis(q: Seq<char>, p: Seq<char>, k: Seq<char>)
    requires
        p == "metadata"@ || p == "references"@ || p == "relations"@,
        starts_with(q, p),
        scalar_axis(k),
    ensures
        q != k,
{
    reveal_strlit("metadata");
    reveal_strlit("references");
    reveal_strlit("relations");
    reveal_strlit("content_format");
    reveal_strlit("id_storage");
    reveal_strlit("identity");
    reveal_strlit("fixity");
    reveal_strlit("recycle_bin");
    assert(q[2] == p[2]) by {
        assert(q.subrange(0, p.len() as int)[2] == q[2]);
    }
}

/// No issue of an entry under another key is keyed by a scalar axis `k`.
proof fn lemma_other_entry_not_keyed(key: Seq<char>, v: Value, k: Seq<char>)
    requires
        scalar_axis(k),
        key != k,
    ensures
        !issue_keyed(top_entry_issues(key, v), k),
{
    lemma_top_keys_distinct();
    let issues = top_entry_issues(key, v);
    if key == "metadata"@ {
        match v {
            Value::Mapping(m) => lemma_metadata_entries_keys(m.entries(), m.entries().len() as int),
            _ => assert(issues[0].key.subrange(0, "metadata"@.len() as int) =~= "metadata"@),
        }
    } else if key == "references"@ {
        lemma_reference_block_keys("references"@, v);
    } else if key == "relations"@ {
        match v {
            Value::Mapping(m) => lemma_relations_entries_keys(m.entries(), m.entries().len() as int),
            _ => assert(issues[0].key.subrange(0, "relations"@.len() as int) =~= "relations"@),
        }
    }
    if issue_keyed(issues, k) {
        let i = choose|i: int| 0 <= i < issues.len() && (#[trigger] issues[i]).key == k;
        if key == "metadata"@ {
            lemma_block_key_not_axis(issues[i].key, "metadata"@, k);
        } else if key == "references"@ {
            lemma_block_key_not_axis(issues[i].key, "references"@, k);
        } else if key == "relations"@ {
            lemma_block_key_not_axis(issues[i].key, "relations"@, k);
        } else if !(key == "spec"@ || key == "updated"@ || scalar_axis(key)) {
            assert(issues[i].key =~= Seq::<char>::empty() + key);
        }
    }
}

/// The first `n` top-level entries have an issue keyed `k` exactly when one of
/// them does.
proof fn lemma_top_entries_keyed(entries: Seq<(String, Value)>, n: int, k: Seq<char>)
    requires
        0 <= n <= entries.len(),
    ensures
        issue_keyed(top_entries_issues(entries, n), k) <==> exists|j: int|
            0 <= j < n && issue_keyed(#[trigger] top_entry_issues(entries[j].0@, entries[j].1), k),
    decreases n,
{
    if n > 0 {
        lemma_top_entries_keyed(entries, n - 1, k);
        let a = top_entries_issues(entries, n - 1);
        let b = top_entry_issues(entries[n - 1].0@, entries[n - 1].1);
        if issue_keyed(a + b, k) {
            let i = choose|i: int| 0 <= i < (a + b).len() && (#[trigger] (a + b)[i]).key == k;
            if i < a.len() {
                assert((a + b)[i] == a[i]);
                assert(issue_keyed(a, k));
            } else {
                assert((a + b)[i] == b[i - a.len()]);
                assert(issue_keyed(b, k));
            }
        }
        if exists|j: int| 0 <= j < n && issue_keyed(#[trigger] top_entry_issues(entries[j].0@, entries[j].1), k) {
            let j = choose|j: int| 0 <= j < n && issue_keyed(#[trigger] top_entry_issues(entries[j].0@, entries[j].1), k);
            if j < n - 1 {
                let i = choose|i: int| 0 <= i < a.len() && (#[trigger] a[i]).key == k;
                assert((a + b)[i] == a[i]);
            } else {
                let i = choose|i: int| 0 <= i < b.len() && (#[trigger] b[i]).key == k;
                assert((a + b)[a.len() + i] == b[i]);
            }
        }
    }
}

/// Each issue of the first `n` top-level entries is an issue of one of them.
proof fn lemma_top_entries_member(entries: Seq<(String, Value)>, n: int, p: int)
    requires
        0 <= n <= entries.len(),
        0 <= p < top_entries_issues(entries, n).len(),
    ensures
        exists|j: int, q: int|
            0 <= j < n && 0 <= q < top_entry_issues(entries[j].0@, entries[j].1).len()
                && top_entries_issues(entries, n)[p] == #[trigger] top_entry_issues(entries[j].0@, entries[j].1)[q],
    decreases n,
{
    let a = top_entries_issues(entries, n - 1);
    let b = top_entry_issues(entries[n - 1].0@, entries[n - 1].1);
    if p < a.len() {
        assert((a + b)[p] == a[p]);
        lemma_top_entries_member(entries, n - 1, p);
        let (j, q) = choose|j: int, q: int|
            0 <= j < n - 1 && 0 <= q < top_entry_issues(entries[j].0@, entries[j].1).len()
                && top_entries_issues(entries, n - 1)[p] == #[trigger] top_entry_issues(entries[j].0@, entries[j].1)[q];
        assert(top_entries_issues(entries, n)[p] == top_entry_issues(entries[j].0@, entries[j].1)[q]);
    } else {
        assert((a + b)[p] == b[p - a.len()]);
        assert(top_entries_issues(entries, n)[p] == top_entry_issues(entries[n - 1].0@, entries[n - 1].1)[p - a.len()]);
    }
}

/// Whether `apply` reads the value of the scalar axis `k` in `meta`.
pub open spec fn axis_read(meta: Value, k: Seq<char>) -> bool {
    if k == "content_format"@ {
        content_format_at(meta, k) is Some
    } else if k == "id_storage"@ {
        id_storage_at(meta, k) is Some
    } else if k == "identity"@ {
        registration_at(meta, k) is Some
    } else if k == "fixity"@ {
        fixity_at(meta, k) is Some
    } else {
        bool_at(meta, k) is Some
    }
}

/// The diagnosis of the mapping `m` has an issue keyed by the axis of its
/// `i`-th entry exactly when `apply` cannot read that entry's value, and every
/// such issue is an invalid-value issue summarizing the value.
pub open spec fn axis_flagged_iff_ignored(m: Mapping, i: int) -> bool {
    let k = m.entries()[i].0@;
    let v = m.entries()[i].1;
    let meta = Value::Mapping(m);
    &&& issue_keyed(diagnose_spec(meta), k) <==> !axis_read(meta, k)
    &&& forall|j: int| 0 <= j < diagnose_spec(meta).len() && (#[trigger] diagnose_spec(meta)[j]).key == k
        ==> (diagnose_spec(meta)[j].kind matches IssueKindView::InvalidValue { value, .. } && value == summary(v))
}

/// Diagnosis flags exactly what `apply` would ignore, over a whole config
/// mapping: for a recognized top-level scalar axis present in it, the whole
/// diagnosis has an issue keyed by the axis exactly when `apply` cannot read
/// the axis's value, and that issue is an invalid-value issue summarizing the
/// value. Its keys are distinct, as every [`Mapping`]'s are; [`diagnose`]
/// states the same of every mapping it is given.
pub proof fn law_diagnosis_matches_apply(m: Mapping, i: int)
    requires
        0 <= i < m.entries().len(),
        forall|a: int, b: int| 0 <= a < b < m.entries().len() ==> m.entries()[a].0@ != m.entries()[b].0@,
        scalar_axis(m.entries()[i].0@),
    ensures
        axis_flagged_iff_ignored(m, i),
{
    let e = m.entries();
    let k = e[i].0@;
    let v = e[i].1;
    let meta = Value::Mapping(m);
    law_diagnose_flags_what_apply_ignores(m, i);
    lemma_top_entries_keyed(e, e.len() as int, k);
    assert forall|j: int| 0 <= j < e.len() && j != i implies !issue_keyed(#[trigger] top_entry_issues(e[j].0@, e[j].1), k) by {
        lemma_other_entry_not_keyed(e[j].0@, e[j].1, k);
    }
    let own = top_entry_issues(k, v);
    assert(own.len() <= 1);
    if own.len() == 1 {
        assert(own[0].key == k);
        assert(issue_keyed(own, k));
    }
    let d = diagnose_spec(meta);
    assert forall|p: int| 0 <= p < d.len() && (#[trigger] d[p]).key == k implies (d[p].kind matches IssueKindView::InvalidValue { value, .. } && value == summary(v)) by {
        lemma_top_entries_member(e, e.len() as int, p);
        let (j, q) = choose|j: int, q: int|
            0 <= j < e.len() && 0 <= q < top_entry_issues(e[j].0@, e[j].1).len()
                && d[p] == #[trigger] top_entry_issues(e[j].0@, e[j].1)[q];
        if j != i {
            assert(issue_keyed(top_entry_issues(e[j].0@, e[j].1), k));
        }
    }
}

/// Whether `x` is one of `issues`.
pub open spec fn has_issue(issues: Seq<IssueView>, x: IssueView) -> bool {
    exists|p: int| 0 <= p < issues.len() && issues[p] == x
}

/// An issue of one top-level entry is an issue of every longer run of them.
proof fn lemma_top_entries_has(entries: Seq<(String, Value)>, j: int, n: int, x: IssueView)
    requires
        0 <= j < n,
        has_issue(top_entry_issues(entries[j].0@, entries[j].1), x),
    ensures
        has_issue(top_entries_issues(entries, n), x),
    decreases n,
{
    let a = top_entries_issues(entries, n - 1);
    let b = top_entry_issues(entries[n - 1].0@, entries[n - 1].1);
    if j < n - 1 {
        lemma_top_entries_has(entries, j, n - 1, x);
        let p = choose|p: int| 0 <= p < a.len() && a[p] == x;
        assert((a + b)[p] == a[p]);
    } else {
        let p = choose|p: int| 0 <= p < b.len() && b[p] == x;
        assert((a + b)[a.len() + p] == b[p]);
    }
}

/// An issue of one relation's block is an issue of every longer run of them.
proof fn lemma_relations_entries_has(entries: Seq<(String, Value)>, j: int, n: int, x: IssueView)
    requires
        0 <= j < n,
        has_issue(reference_block_issues("relations."@ + entries[j].0@, entries[j].1), x),
    ensures
        has_issue(relations_entries_issues(entries, n), x),
    decreases n,
{
    let a = relations_entries_issues(entries, n - 1);
    let b = reference_block_issues("relations."@ + entries[n - 1].0@, entries[n - 1].1);
    if j < n - 1 {
        lemma_relations_entries_has(entries, j, n - 1, x);
        let p = choose|p: int| 0 <= p < a.len() && a[p] == x;
        assert((a + b)[p] == a[p]);
    } else {
        let p = choose|p: int| 0 <= p < b.len() && b[p] == x;
        assert((a + b)[a.len() + p] == b[p]);
    }
}

/// An issue of one entry of a `references:`-shaped block is an issue of every
/// longer run of them.
proof fn lemma_reference_entries_has(prefix: Seq<char>, entries: Seq<(String, Value)>, j: int, n: int, x: IssueView)
    requires
        0 <= j < n,
        has_issue(reference_entry_issues(prefix, entries[j].0@, entries[j].1), x),
    ensures
        has_issue(reference_entries_issues(prefix, entries, n), x),
    decreases n,
{
    let a = reference_entries_issues(prefix, entries, n - 1);
    let b = reference_entry_issues(prefix, entries[n - 1].0@, entries[n - 1].1);
    if j < n - 1 {
        lemma_reference_entries_has(prefix, entries, j, n - 1, x);
        let p = choose|p: int| 0 <= p < a.len() && a[p] == x;
        assert((a + b)[p] == a[p]);
    } else {
        let p = choose|p: int| 0 <= p < b.len() && b[p] == x;
        assert((a + b)[a.len() + p] == b[p]);
    }
}

/// No issue of the first `n` entries of a block under `prefix` is keyed
/// `prefix.axis` when the block's entry for `axis` (its only one) parses.
proof fn lemma_reference_entries_clean(prefix: Seq<char>, entries: Seq<(String, Value)>, n: int, k: int)
    requires
        0 <= n <= entries.len(),
        0 <= k < entries.len(),
        entry_keys_distinct(entries),
        entries[k].0@ == "notation"@ || entries[k].0@ == "path_style"@ || entries[k].0@ == "target"@ || entries[k].0@ == "label"@,
        reference_entry_issues(prefix, entries[k].0@, entries[k].1) == Seq::<IssueView>::empty(),
    ensures
        !issue_keyed(reference_entries_issues(prefix, entries, n), prefix + "."@ + entries[k].0@),
    decreases n,
{
    if n > 0 {
        lemma_reference_entries_clean(prefix, entries, n - 1, k);
        let key = prefix + "."@ + entries[k].0@;
        let a = reference_entries_issues(prefix, entries, n - 1);
        let b = reference_entry_issues(prefix, entries[n - 1].0@, entries[n - 1].1);
        assert forall|p: int| 0 <= p < b.len() implies b[p].key != key by {
            if n - 1 != k {
                let k2 = entries[n - 1].0@;
                assert(k2 != entries[k].0@);
                assert(b[p].key =~= prefix + "."@ + k2) by {
                    reveal_strlit(".");
                }
                if b[p].key == key {
                    assert((prefix + "."@ + k2).subrange((prefix + "."@).len() as int, b[p].key.len() as int) =~= k2);
                    assert((prefix + "."@ + entries[k].0@).subrange((prefix + "."@).len() as int, key.len() as int) =~= entries[k].0@);
                }
            }
        }
        if issue_keyed(a + b, key) {
            let p = choose|p: int| 0 <= p < (a + b).len() && (#[trigger] (a + b)[p]).key == key;
            if p < a.len() {
                assert((a + b)[p] == a[p]);
            } else {
                assert((a + b)[p] == b[p - a.len()]);
            }
        }
    }
}

/// Diagnosis flags exactly what `apply` would ignore inside a relation's
/// block: for the entry of a recognized axis (`notation`, `path_style`,
/// `target`, `label`) in the `relations.<name>` block of a config mapping,
/// when `apply` cannot read its value the diagnosis has an invalid-value
/// issue keyed `relations.<name>.<axis>` naming the value and the accepted
/// ones; when it can, the block draws no issue under that key.
pub proof fn law_relation_issues_match_reads(m: Mapping, i: int, j: int, k: int)
    requires
        entry_keys_distinct(m.entries()),
        0 <= i < m.entries().len(),
        m.entries()[i].0@ == "relations"@,
        m.entries()[i].1 is Mapping,
        entry_keys_distinct(m.entries()[i].1->Mapping_0.entries()),
        0 <= j < m.entries()[i].1->Mapping_0.entries().len(),
        m.entries()[i].1->Mapping_0.entries()[j].1 is Mapping,
        entry_keys_distinct(m.entries()[i].1->Mapping_0.entries()[j].1->Mapping_0.entries()),
        0 <= k < m.entries()[i].1->Mapping_0.entries()[j].1->Mapping_0.entries().len(),
    ensures
        ({
            let rm = m.entries()[i].1->Mapping_0;
            let name = rm.entries()[j].0@;
            let block = rm.entries()[j].1;
            let bm = block->Mapping_0;
            let axis = bm.entries()[k].0@;
            let v = bm.entries()[k].1;
            let key = "relations."@ + name + "."@ + axis;
            let read = if axis == "notation"@ {
                notation_at(block, axis) is Some
            } else if axis == "path_style"@ {
                path_style_at(block, axis) is Some
            } else if axis == "target"@ {
                addressing_at(block, axis) is Some
            } else {
                bool_at(block, axis) is Some
            };
            let expected = if axis == "notation"@ {
                seq!["markdown"@, "wikilink"@, "bare"@]
            } else if axis == "path_style"@ {
                seq!["root"@, "relative"@, "canonical"@]
            } else if axis == "target"@ {
                seq!["path"@, "id"@, "alias"@]
            } else {
                seq!["true"@, "false"@]
            };
            (axis == "notation"@ || axis == "path_style"@ || axis == "target"@ || axis == "label"@) ==> {
                &&& !read ==> has_issue(
                    diagnose_spec(Value::Mapping(m)),
                    IssueView { key, kind: IssueKindView::InvalidValue { value: summary(v), expected } },
                )
                &&& read ==> !issue_keyed(reference_block_issues("relations."@ + name, block), key)
            }
        }),
{
    let rm = m.entries()[i].1->Mapping_0;
    let name = rm.entries()[j].0@;
    let block = rm.entries()[j].1;
    let bm = block->Mapping_0;
    let be = bm.entries();
    let axis = be[k].0@;
    let v = be[k].1;
    let prefix = "relations."@ + name;
    let key = prefix + "."@ + axis;
    if axis == "notation"@ || axis == "path_style"@ || axis == "target"@ || axis == "label"@ {
        lemma_top_keys_distinct();
        lemma_reference_keys_distinct();
        lemma_lookup_at(be, k, axis);
        let own = reference_entry_issues(prefix, axis, v);
        let read = if axis == "notation"@ {
            notation_at(block, axis) is Some
        } else if axis == "path_style"@ {
            path_style_at(block, axis) is Some
        } else if axis == "target"@ {
            addressing_at(block, axis) is Some
        } else {
            bool_at(block, axis) is Some
        };
        if !read {
            assert(own.len() == 1);
            assert(own[0].key == key);
            lemma_reference_entries_has(prefix, be, k, be.len() as int, own[0]);
            lemma_relations_entries_has(rm.entries(), j, rm.entries().len() as int, own[0]);
            lemma_top_entries_has(m.entries(), i, m.entries().len() as int, own[0]);
        } else {
            assert(own =~= Seq::<IssueView>::empty());
            lemma_reference_entries_clean(prefix, be, be.len() as int, k);
        }
    }
}

/// Inside a `references:`-shaped block, an entry under a recognized axis draws
/// an issue exactly when `apply` cannot read its value.
pub proof fn law_reference_issues_match_reads(prefix: Seq<char>, m: Mapping, i: int)
    requires
        0 <= i < m.entries().len(),
        forall|j: int| 0 <= j < i ==> m.entries()[j].0@ != m.entries()[i].0@,
    ensures
        ({
            let k = m.entries()[i].0@;
            let v = m.entries()[i].1;
            let block = Value::Mapping(m);
            let clean = reference_entry_issues(prefix, k, v) == Seq::<IssueView>::empty();
            &&& k == "notation"@ ==> (clean <==> notation_at(block, k) is Some)
            &&& k == "path_style"@ ==> (clean <==> path_style_at(block, k) is Some)
            &&& k == "target"@ ==> (clean <==> addressing_at(block, k) is Some)
            &&& k == "label"@ ==> (clean <==> bool_at(block, k) is Some)
        }),
{
    lemma_reference_keys_distinct();
    let e = m.entries();
    let k = e[i].0@;
    let v = e[i].1;
    let dotted = prefix + "."@ + k;
    lemma_lookup_at(e, i, k);
    lemma_check_axis_clean(dotted, v, spells_notation(v), seq!["markdown"@, "wikilink"@, "bare"@]);
    lemma_check_axis_clean(dotted, v, spells_path_style(v), seq!["root"@, "relative"@, "canonical"@]);
    lemma_check_axis_clean(dotted, v, spells_addressing(v), seq!["path"@, "id"@, "alias"@]);
    lemma_check_axis_clean(dotted, v, v.spec_as_bool() is Some, bool_spellings());
}

/// Inside the `metadata:` block, an entry under a recognized axis draws an
/// issue exactly when `apply` cannot read its value.
pub proof fn law_metadata_issues_match_reads(m: Mapping, i: int)
    requires
        0 <= i < m.entries().len(),
        forall|j: int| 0 <= j < i ==> m.entries()[j].0@ != m.entries()[i].0@,
    ensures
        ({
            let k = m.entries()[i].0@;
            let v = m.entries()[i].1;
            let block = Value::Mapping(m);
            let clean = metadata_entry_issues(k, v) == Seq::<IssueView>::empty();
            &&& k == "format"@ ==> (clean <==> metadata_format_at(block, k) is Some)
            &&& k == "embed"@ ==> (clean <==> embed_style_at(block, k) is Some)
        }),
{
    lemma_metadata_keys_distinct();
    let e = m.entries();
    let k = e[i].0@;
    let v = e[i].1;
    lemma_lookup_at(e, i, k);
    lemma_check_axis_clean("metadata."@ + k, v, spells_metadata_format(v), embed_format_spellings_spec());
    lemma_check_axis_clean("metadata."@ + k, v, spells_embed_style(v), embed_style_spellings());
}

} // verus!
