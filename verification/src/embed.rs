//! fig, as the library uses it: finding a metadata block embedded in a host
//! document, parsing metadata text, and comment-preserving edits.
//!
//! fig owns the formats (YAML, JSON, TOML, its own dialect) and the fences
//! that embed them; everything here is a call into it. What fig computes is
//! named where the library needs to speak of it, and stated where fig's
//! documentation says it in a few words.
use vstd::prelude::*;
use fig::Value as FigValue;
use fig::Document as FigDocument;
use crate::vocab::MetadataFormat;

verus! {

/// fig's embed archetypes (`---` YAML frontmatter, `;;;` JSON, fenced blocks, ...).
#[verifier::external_type_specification]
#[verifier::external_body]
pub struct ExEmbedType(fig::EmbedType);

/// fig's config formats.
#[verifier::external_type_specification]
#[verifier::external_body]
pub struct ExFormat(fig::Format);

/// fig's owned, format-independent value tree.
#[verifier::external_type_specification]
#[verifier::external_body]
pub struct ExValue(FigValue);

/// fig's error.
#[verifier::external_type_specification]
#[verifier::external_body]
pub struct ExError(fig::Error);

/// fig's editor over a config region embedded in a host file.
#[verifier::external_type_specification]
#[verifier::external_body]
pub struct ExEmbed(fig::Embed);

/// fig's in-place editor over a whole config document.
#[verifier::external_type_specification]
#[verifier::external_body]
pub struct ExEditor(fig::Editor);

/// A config document parsed by fig.
#[verifier::external_type_specification]
#[verifier::external_body]
pub struct ExDocument(FigDocument);

/// The embed archetype `fig::detect` sniffs in a text (by its opening
/// delimiter), if any.
pub uninterp spec fn detected_embed(text: Seq<char>) -> Option<fig::EmbedType>;

/// The `(content, body)` parts `fig::split` cuts a text into for an archetype:
/// the text between the fences and the host prose outside them.
pub uninterp spec fn embed_parts(text: Seq<char>, kind: fig::EmbedType) -> Option<(Seq<char>, Seq<char>)>;

/// The format an archetype's content is written in (`EmbedType::inner_format`).
pub uninterp spec fn inner_format_of(kind: fig::EmbedType) -> fig::Format;

/// `fig::detect`: which embed archetype `text` opens, by its open delimiter
/// only. Stated: the result is a function of the text alone.
#[verifier::external_body]
pub(crate) fn detect(text: &str) -> (r: Option<fig::EmbedType>)
    ensures
        r == detected_embed(text@),
{
    fig::detect(text)
}

/// `fig::split`: the content between the fences of `kind`'s region and the
/// host body outside them; `None` when there is no such region or its opening
/// fence has no close. Stated: the result is a function of its arguments.
#[verifier::external_body]
pub(crate) fn split<'a>(text: &'a str, kind: fig::EmbedType) -> (r: Option<(&'a str, &'a str)>)
    ensures
        r matches Some((c, b)) ==> embed_parts(text@, kind) == Some((c@, b@)),
        r is None ==> embed_parts(text@, kind) is None,
{
    fig::split(text, kind)
}

/// `EmbedType::inner_format`: the format of an archetype's content.
#[verifier::external_body]
pub(crate) fn inner_format(kind: fig::EmbedType) -> (f: fig::Format)
    ensures
        f == inner_format_of(kind),
{
    kind.inner_format()
}


/// One step of a path into a metadata tree: a mapping key or a sequence index.
#[derive(Debug, Clone, PartialEq, Eq)]
pub enum KeySegment {
    /// A mapping key.
    Key(String),
    /// A sequence index.
    Index(usize),
}

/// A path segment with its key as a character sequence.
pub enum SegmentView {
    Key(Seq<char>),
    Index(nat),
}

impl KeySegment {
    /// The segment with its key as a character sequence.
    pub open spec fn view(&self) -> SegmentView {
        match self {
            KeySegment::Key(k) => SegmentView::Key(k@),
            KeySegment::Index(i) => SegmentView::Index(*i as nat),
        }
    }
}

/// The segments of a path, with their keys as character sequences.
pub open spec fn path_view(path: Seq<KeySegment>) -> Seq<SegmentView> {
    path.map_values(|s: KeySegment| s.view())
}

/// The archetype fig detects in a text that opens with a bare `---` fence:
/// YAML frontmatter.
pub open spec fn yaml_frontmatter_kind() -> fig::EmbedType {
    detected_embed("---\n"@)->0
}

/// fig's YAML frontmatter archetype (`---` ... `---`), the block a document
/// gets when it has none. Stated: it is the archetype `fig::detect` sniffs
/// from a bare `---` fence.
#[verifier::external_body]
pub(crate) fn yaml_frontmatter() -> (k: fig::EmbedType)
    ensures
        detected_embed("---\n"@) == Some(k),
{
    fig::EmbedType::FrontmatterYaml
}

/// One edit made through a fig editor.
pub enum EditStep {
    /// `set_value`: upsert the value at the path.
    Upsert(Seq<SegmentView>, FigValue),
    /// `replace_value`: replace the existing value at the path.
    Replace(Seq<SegmentView>, FigValue),
    /// `delete`: delete the mapping entry at the path.
    Delete(Seq<SegmentView>),
}

/// What an editor over an embedded region has been given: the host text, the
/// archetype, whether the region was created when missing (`open_or_init`),
/// and the edits made through it so far, in order.
pub struct EmbedState {
    pub host: Seq<char>,
    pub kind: fig::EmbedType,
    pub init: bool,
    pub edits: Seq<EditStep>,
}

/// What an editor over a whole config document has been given: its text, its
/// format and the edits made through it so far, in order.
pub struct EditorState {
    pub text: Seq<char>,
    pub format: fig::Format,
    pub edits: Seq<EditStep>,
}

/// The error `Embed::open` gives for a host and archetype, if any.
pub uninterp spec fn embed_open_failure(host: Seq<char>, kind: fig::EmbedType) -> Option<fig::Error>;

/// The error `Embed::open_or_init` gives for a host and archetype, if any.
pub uninterp spec fn embed_init_failure(host: Seq<char>, kind: fig::EmbedType) -> Option<fig::Error>;

/// The error `Embed::set_value` gives on an editor in `state`, if any.
pub uninterp spec fn embed_set_failure(state: EmbedState, path: Seq<SegmentView>, value: FigValue) -> Option<fig::Error>;

/// The error `Embed::replace_value` gives on an editor in `state`, if any.
pub uninterp spec fn embed_replace_failure(state: EmbedState, path: Seq<SegmentView>, value: FigValue) -> Option<fig::Error>;

/// The error `Embed::delete` gives on an editor in `state`, if any.
pub uninterp spec fn embed_delete_failure(state: EmbedState, path: Seq<SegmentView>) -> Option<fig::Error>;

/// What `Embed::render` gives on an editor in `state`: the host text with the
/// edited region spliced back, or fig's error.
pub uninterp spec fn embed_rendered(state: EmbedState) -> Result<Seq<char>, fig::Error>;

/// The error `Editor::open` gives for a text and format, if any.
pub uninterp spec fn editor_open_failure(text: Seq<char>, format: fig::Format) -> Option<fig::Error>;

/// The error `Editor::set_value` gives on an editor in `state`, if any.
pub uninterp spec fn editor_set_failure(state: EditorState, path: Seq<SegmentView>, value: FigValue) -> Option<fig::Error>;

/// What `Editor::source` gives on an editor in `state`.
pub uninterp spec fn editor_text(state: EditorState) -> Result<Seq<char>, fig::Error>;

/// The error `fig::Document::parse` gives for a text and format, if any.
pub uninterp spec fn document_parse_failure(text: Seq<char>, format: fig::Format) -> Option<fig::Error>;

/// What `fig::Document::to_value` gives for the document parsed from a text
/// in a format.
pub uninterp spec fn document_tree(text: Seq<char>, format: fig::Format) -> Result<FigValue, fig::Error>;

/// What `Value::serialize` gives for a value tree in a format.
pub uninterp spec fn serialized(value: FigValue, format: fig::Format) -> Result<Seq<char>, fig::Error>;

/// Whether a value tree is the `Null` variant.
pub uninterp spec fn fig_is_null(value: FigValue) -> bool;

/// The entries of a value tree of the `Map` variant.
pub uninterp spec fn fig_entries(value: FigValue) -> Option<Seq<(FigValue, FigValue)>>;

/// The mapping value tree with these entries, in order (`Value::Map`).
pub uninterp spec fn fig_map_value(entries: Seq<(FigValue, FigValue)>) -> FigValue;

/// A fig editor over an embedded region, with what it has been given.
pub struct EmbedSession {
    embed: fig::Embed,
    state: Ghost<EmbedState>,
}

impl EmbedSession {
    /// What this editor has been given.
    pub closed spec fn state(&self) -> EmbedState {
        self.state@
    }
}

/// A fig editor over a whole config document, with what it has been given.
pub struct EditorSession {
    editor: fig::Editor,
    state: Ghost<EditorState>,
}

impl EditorSession {
    /// What this editor has been given.
    pub closed spec fn state(&self) -> EditorState {
        self.state@
    }
}

/// A config document parsed by fig, with the text and format it came from.
pub struct ParsedDocument {
    doc: FigDocument,
    text: Ghost<Seq<char>>,
    format: Ghost<fig::Format>,
}

impl ParsedDocument {
    /// The text and format the document was parsed from.
    pub closed spec fn source(&self) -> (Seq<char>, fig::Format) {
        (self.text@, self.format@)
    }
}

/// `Embed::open`: open the region of `kind` in `host`; fig errors when there
/// is no such region. Stated: the outcome is a function of the host and the
/// archetype, and the editor starts with no edits.
#[verifier::external_body]
pub(crate) fn embed_open(host: &str, kind: fig::EmbedType) -> (r: Result<EmbedSession, fig::Error>)
    ensures
        match r {
            Ok(s) => embed_open_failure(host@, kind) is None
                && s.state() == (EmbedState { host: host@, kind, init: false, edits: Seq::empty() }),
            Err(e) => embed_open_failure(host@, kind) == Some(e),
        },
{
    fig::Embed::open(host.as_bytes(), kind).map(|embed| EmbedSession { embed, state: Ghost(EmbedState { host: host@, kind, init: false, edits: Seq::empty() }) })
}

/// `Embed::open_or_init`: open the region of `kind` in `host`, creating an
/// empty one (placed per the archetype) when there is none. Stated: the
/// outcome is a function of the host and the archetype, and the editor starts
/// with no edits.
#[verifier::external_body]
pub(crate) fn embed_open_or_init(host: &str, kind: fig::EmbedType) -> (r: Result<EmbedSession, fig::Error>)
    ensures
        match r {
            Ok(s) => embed_init_failure(host@, kind) is None
                && s.state() == (EmbedState { host: host@, kind, init: true, edits: Seq::empty() }),
            Err(e) => embed_init_failure(host@, kind) == Some(e),
        },
{
    fig::Embed::open_or_init(host.as_bytes(), kind).map(|embed| EmbedSession { embed, state: Ghost(EmbedState { host: host@, kind, init: true, edits: Seq::empty() }) })
}

/// `Embed::set_value`: upsert the value at `path` (a trailing key is created
/// when absent). Stated: the outcome is a function of the editor's state, the
/// path and the value, and a success is one more edit.
#[verifier::external_body]
pub(crate) fn embed_set(session: &mut EmbedSession, path: &[KeySegment], value: FigValue) -> (r: Result<(), fig::Error>)
    ensures
        match r {
            Ok(()) => embed_set_failure(old(session).state(), path_view(path@), value) is None
                && final(session).state() == (EmbedState {
                    edits: old(session).state().edits.push(EditStep::Upsert(path_view(path@), value)),
                    ..old(session).state()
                }),
            Err(e) => embed_set_failure(old(session).state(), path_view(path@), value) == Some(e),
        },
{
    let segments: Vec<fig::Segment> = path.iter().map(|s| match s {
        KeySegment::Key(k) => fig::Segment::Key(k.as_str()),
        KeySegment::Index(i) => fig::Segment::Index(*i),
    }).collect();
    session.embed.set_value(&segments, value)
}

/// `Embed::replace_value`: replace the existing value at `path`. Stated: the
/// outcome is a function of the editor's state, the path and the value, and a
/// success is one more edit.
#[verifier::external_body]
pub(crate) fn embed_replace(session: &mut EmbedSession, path: &[KeySegment], value: FigValue) -> (r: Result<(), fig::Error>)
    ensures
        match r {
            Ok(()) => embed_replace_failure(old(session).state(), path_view(path@), value) is None
                && final(session).state() == (EmbedState {
                    edits: old(session).state().edits.push(EditStep::Replace(path_view(path@), value)),
                    ..old(session).state()
                }),
            Err(e) => embed_replace_failure(old(session).state(), path_view(path@), value) == Some(e),
        },
{
    let segments: Vec<fig::Segment> = path.iter().map(|s| match s {
        KeySegment::Key(k) => fig::Segment::Key(k.as_str()),
        KeySegment::Index(i) => fig::Segment::Index(*i),
    }).collect();
    session.embed.replace_value(&segments, value)
}

/// `Embed::delete`: delete the mapping entry at `path`. Stated: the outcome is
/// a function of the editor's state and the path, and a success is one more
/// edit.
#[verifier::external_body]
pub(crate) fn embed_delete(session: &mut EmbedSession, path: &[KeySegment]) -> (r: Result<(), fig::Error>)
    ensures
        match r {
            Ok(()) => embed_delete_failure(old(session).state(), path_view(path@)) is None
                && final(session).state() == (EmbedState {
                    edits: old(session).state().edits.push(EditStep::Delete(path_view(path@))),
                    ..old(session).state()
                }),
            Err(e) => embed_delete_failure(old(session).state(), path_view(path@)) == Some(e),
        },
{
    let segments: Vec<fig::Segment> = path.iter().map(|s| match s {
        KeySegment::Key(k) => fig::Segment::Key(k.as_str()),
        KeySegment::Index(i) => fig::Segment::Index(*i),
    }).collect();
    session.embed.delete(&segments)
}

/// `Embed::render`: the full host text with the edited region spliced back
/// between its fences. Stated: the outcome is a function of what the editor
/// has been given; rendering is no edit.
#[verifier::external_body]
pub(crate) fn embed_render(session: &mut EmbedSession) -> (r: Result<String, fig::Error>)
    ensures
        final(session).state() == old(session).state(),
        match r {
            Ok(t) => embed_rendered(old(session).state()) == Ok::<Seq<char>, fig::Error>(t@),
            Err(e) => embed_rendered(old(session).state()) == Err::<Seq<char>, fig::Error>(e),
        },
{
    session.embed.render().map(|s| s.to_string())
}

/// `Editor::open`: an in-place editor over a copy of a whole config document
/// in `format`. Stated: the outcome is a function of the text and the format,
/// and the editor starts with no edits.
#[verifier::external_body]
pub(crate) fn editor_open(text: &str, format: fig::Format) -> (r: Result<EditorSession, fig::Error>)
    ensures
        match r {
            Ok(s) => editor_open_failure(text@, format) is None
                && s.state() == (EditorState { text: text@, format, edits: Seq::empty() }),
            Err(e) => editor_open_failure(text@, format) == Some(e),
        },
{
    fig::Editor::open(text.as_bytes(), format).map(|editor| EditorSession { editor, state: Ghost(EditorState { text: text@, format, edits: Seq::empty() }) })
}

/// `Editor::set_value`: upsert the value at `path`. Stated: the outcome is a
/// function of the editor's state, the path and the value, and a success is
/// one more edit.
#[verifier::external_body]
pub(crate) fn editor_set(session: &mut EditorSession, path: &[KeySegment], value: FigValue) -> (r: Result<(), fig::Error>)
    ensures
        match r {
            Ok(()) => editor_set_failure(old(session).state(), path_view(path@), value) is None
                && final(session).state() == (EditorState {
                    edits: old(session).state().edits.push(EditStep::Upsert(path_view(path@), value)),
                    ..old(session).state()
                }),
            Err(e) => editor_set_failure(old(session).state(), path_view(path@), value) == Some(e),
        },
{
    let segments: Vec<fig::Segment> = path.iter().map(|s| match s {
        KeySegment::Key(k) => fig::Segment::Key(k.as_str()),
        KeySegment::Index(i) => fig::Segment::Index(*i),
    }).collect();
    session.editor.set_value(&segments, value)
}

/// `Editor::source`: the edited document's current text. Stated: it is a
/// function of what the editor has been given.
#[verifier::external_body]
pub(crate) fn editor_source(session: &EditorSession) -> (r: Result<String, fig::Error>)
    ensures
        match r {
            Ok(t) => editor_text(session.state()) == Ok::<Seq<char>, fig::Error>(t@),
            Err(e) => editor_text(session.state()) == Err::<Seq<char>, fig::Error>(e),
        },
{
    session.editor.source().map(|s| s.to_string())
}

/// `fig::Document::parse`: parse `text` in `format`. Stated: the outcome is a
/// function of the text and the format.
#[verifier::external_body]
pub(crate) fn parse_document(text: &str, format: fig::Format) -> (r: Result<ParsedDocument, fig::Error>)
    ensures
        match r {
            Ok(d) => document_parse_failure(text@, format) is None && d.source() == (text@, format),
            Err(e) => document_parse_failure(text@, format) == Some(e),
        },
{
    FigDocument::parse(text.as_bytes(), format).map(|doc| ParsedDocument { doc, text: Ghost(text@), format: Ghost(format) })
}

/// `fig::Document::to_value`: the parsed document as an owned value tree (an
/// empty document is `Null`). Stated: a function of the text and format the
/// document was parsed from.
#[verifier::external_body]
pub(crate) fn document_value(doc: &ParsedDocument) -> (r: Result<FigValue, fig::Error>)
    ensures
        r == document_tree(doc.source().0, doc.source().1),
{
    doc.doc.to_value()
}

/// `Value::serialize`: render a value tree in `format`, fig's default style.
/// Stated: a function of the tree and the format.
#[verifier::external_body]
pub(crate) fn serialize(value: &FigValue, format: fig::Format) -> (r: Result<String, fig::Error>)
    ensures
        match r {
            Ok(t) => serialized(*value, format) == Ok::<Seq<char>, fig::Error>(t@),
            Err(e) => serialized(*value, format) == Err::<Seq<char>, fig::Error>(e),
        },
{
    value.serialize(format)
}

/// Whether a value tree is `Null`: telling fig's value variants apart.
#[verifier::external_body]
pub(crate) fn value_is_null(value: &FigValue) -> (r: bool)
    ensures
        r == fig_is_null(*value),
{
    matches!(value, FigValue::Null)
}

/// The entries of a mapping value tree, `None` for any other variant.
#[verifier::external_body]
pub(crate) fn value_into_entries(value: FigValue) -> (r: Option<Vec<(FigValue, FigValue)>>)
    ensures
        match r {
            Some(es) => fig_entries(value) == Some(es@),
            None => fig_entries(value) is None,
        },
{
    match value {
        FigValue::Map(entries) => Some(entries),
        _ => None,
    }
}

/// One node of a fig value tree, its fields as plain values: the variant and
/// what it holds. A float is told apart only (its text is [`float_text`]).
pub enum FigNodeView {
    Null,
    Bool(bool),
    Int(i64),
    Uint(u64),
    Float,
    Extended(Seq<char>),
    Str(Seq<char>),
    Sequence(Seq<FigValue>),
    Mapping(Seq<(FigValue, FigValue)>),
}

/// One node of a fig value tree, taken apart (see [`FigNodeView`]).
pub enum FigNode {
    Null,
    Bool(bool),
    Int(i64),
    Uint(u64),
    Float,
    Extended(String),
    Str(String),
    Sequence(Vec<FigValue>),
    Mapping(Vec<(FigValue, FigValue)>),
}

impl FigNode {
    /// The node with its strings and vectors as sequences.
    pub open spec fn view(&self) -> FigNodeView {
        match self {
            FigNode::Null => FigNodeView::Null,
            FigNode::Bool(b) => FigNodeView::Bool(*b),
            FigNode::Int(i) => FigNodeView::Int(*i),
            FigNode::Uint(u) => FigNodeView::Uint(*u),
            FigNode::Float => FigNodeView::Float,
            FigNode::Extended(t) => FigNodeView::Extended(t@),
            FigNode::Str(s) => FigNodeView::Str(s@),
            FigNode::Sequence(items) => FigNodeView::Sequence(items@),
            FigNode::Mapping(entries) => FigNodeView::Mapping(entries@),
        }
    }
}

/// The variant of a value tree's root and what it holds.
pub uninterp spec fn fig_node_of(value: FigValue) -> FigNodeView;

/// The nesting depth of a value tree: a `fig::Value` is an owned, finite tree.
pub uninterp spec fn fig_depth(value: FigValue) -> nat;

/// A value tree's root taken apart: the variant and its fields, the children
/// of a sequence or mapping cloned out. Stated: the node is a function of the
/// tree, and each child of a tree is nested less deeply than the tree itself.
#[verifier::external_body]
pub(crate) fn fig_node(value: &FigValue) -> (r: FigNode)
    ensures
        r.view() == fig_node_of(*value),
        r.view() matches FigNodeView::Sequence(items) ==> forall|i: int|
            0 <= i < items.len() ==> fig_depth(#[trigger] items[i]) < fig_depth(*value),
        r.view() matches FigNodeView::Mapping(es) ==> forall|i: int|
            0 <= i < es.len() ==> fig_depth((#[trigger] es[i]).0) < fig_depth(*value) && fig_depth(es[i].1) < fig_depth(*value),
{
    match value {
        FigValue::Null => FigNode::Null,
        FigValue::Bool(b) => FigNode::Bool(*b),
        FigValue::Int(i) => FigNode::Int(*i),
        FigValue::Uint(u) => FigNode::Uint(*u),
        FigValue::Float(_) => FigNode::Float,
        FigValue::Extended { text, .. } => FigNode::Extended(text.clone()),
        FigValue::Str(s) => FigNode::Str(s.clone()),
        FigValue::Seq(items) => FigNode::Sequence(items.clone()),
        FigValue::Map(entries) => FigNode::Mapping(entries.clone()),
    }
}

/// The text a float tree's number is displayed as (std's `Display` for it).
pub uninterp spec fn fig_float_text(value: FigValue) -> Seq<char>;

/// A float tree's number as text, by std's `Display`. Stated: a function of
/// the tree.
#[verifier::external_body]
pub(crate) fn float_text(value: &FigValue) -> (r: String)
    requires
        fig_node_of(*value) is Float,
    ensures
        r@ == fig_float_text(*value),
{
    match value {
        FigValue::Float(f) => f.to_string(),
        _ => String::new(),
    }
}

/// The text a value tree is shown as by its `Debug` impl.
pub uninterp spec fn fig_debug_text(value: FigValue) -> Seq<char>;

/// A value tree's `Debug` rendering. Stated: a function of the tree.
#[verifier::external_body]
pub(crate) fn debug_text(value: &FigValue) -> (r: String)
    ensures
        r@ == fig_debug_text(*value),
{
    format!("{value:?}")
}

/// The string value tree holding `s` (`Value::Str(s)`).
pub uninterp spec fn fig_str_value(s: Seq<char>) -> FigValue;

/// A string value tree (`Value::Str`). Stated: the tree is a function of the
/// string alone.
#[verifier::external_body]
pub(crate) fn str_value(s: String) -> (r: FigValue)
    ensures
        r == fig_str_value(s@),
{
    FigValue::Str(s)
}

/// The null value tree (`Value::Null`). Stated: it is the one tree of the
/// `Null` variant (which has no fields), and no string tree.
#[verifier::external_body]
pub(crate) fn null_value() -> (r: FigValue)
    ensures
        forall|t: FigValue| fig_is_null(t) <==> t == r,
        forall|t: Seq<char>| r != fig_str_value(t),
{
    FigValue::Null
}

/// A mapping value tree with these entries, in order (`Value::Map`). Stated:
/// the tree is a function of the entries.
#[verifier::external_body]
pub(crate) fn map_value(entries: Vec<(FigValue, FigValue)>) -> (r: FigValue)
    ensures
        r == fig_map_value(entries@),
{
    FigValue::Map(entries)
}

/// The fig format a metadata format is written in.
pub uninterp spec fn fig_format_of(format: MetadataFormat) -> fig::Format;

/// The fig format for a metadata format: `Yaml`, `Json`, `Toml` or fig's own
/// dialect, one variant for one. Stated: a function of the format alone.
#[verifier::external_body]
pub(crate) fn fig_format(format: MetadataFormat) -> (f: fig::Format)
    ensures
        f == fig_format_of(format),
{
    match format {
        MetadataFormat::Yaml => fig::Format::Yaml,
        MetadataFormat::Json => fig::Format::Json,
        MetadataFormat::Toml => fig::Format::Toml,
        MetadataFormat::Fig => fig::Format::Fig,
    }
}

} // verus!
