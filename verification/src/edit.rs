//! Format-preserving edits to a document's embedded metadata.
//!
//! These are text to text: they detect the document's embed archetype, open it
//! with fig's comment-preserving editor, apply the edit, and re-render; only the
//! changed node's bytes move. Comments, key order, fence style and the body are
//! untouched, and a fig block is never rewritten as YAML.
use vstd::prelude::*;
use fig::Value as FigValue;
use crate::embed::{
    KeySegment, SegmentView, EditStep, EmbedState, detect, detected_embed, embed_delete, embed_open,
    embed_open_or_init, embed_render, embed_replace, embed_set, yaml_frontmatter, yaml_frontmatter_kind,
    embed_open_failure, embed_init_failure, embed_set_failure, embed_replace_failure, embed_delete_failure,
    embed_rendered,
};

verus! {

/// Why an edit failed.
#[derive(Debug)]
pub enum EditError {
    /// The document has no embedded metadata block to edit.
    NoMetadataBlock,
    /// fig refused the edit (no such path, a malformed block, ...).
    Fig(fig::Error),
}

/// `s` cut at every `sep`, as `str::split` cuts it: `n` separators give
/// `n + 1` pieces, empty ones included.
pub open spec fn split_on(s: Seq<char>, sep: char) -> Seq<Seq<char>>
    decreases s.len(),
{
    if s.len() == 0 {
        seq![Seq::empty()]
    } else {
        let rest = split_on(s.drop_last(), sep);
        if s.last() == sep {
            rest.push(Seq::empty())
        } else {
            rest.update(rest.len() - 1, rest.last().push(s.last()))
        }
    }
}

/// Whether `c` is an ASCII decimal digit.
pub open spec fn is_digit(c: char) -> bool {
    '0' <= c && c <= '9'
}

/// The number the decimal digits `s` spell.
pub open spec fn digits_value(s: Seq<char>) -> nat
    decreases s.len(),
{
    if s.len() == 0 {
        0
    } else {
        digits_value(s.drop_last()) * 10 + (s.last() as nat - '0' as nat) as nat
    }
}

/// The digits of an index piece: the piece without a leading `+`.
pub open spec fn index_digits(s: Seq<char>) -> Seq<char> {
    if s.len() > 0 && s[0] == '+' {
        s.drop_first()
    } else {
        s
    }
}

/// What `str::parse::<usize>` gives for `s`: an optional `+`, then one or more
/// decimal digits whose value fits in a `usize`.
pub open spec fn parse_index(s: Seq<char>) -> Option<nat> {
    let d = index_digits(s);
    if d.len() > 0 && (forall|i: int| 0 <= i < d.len() ==> is_digit(#[trigger] d[i])) && digits_value(d) <= usize::MAX {
        Some(digits_value(d))
    } else {
        None
    }
}

/// The segment a dotted-path piece names: an index when it parses as one,
/// otherwise a mapping key.
pub open spec fn segment_of(part: Seq<char>) -> SegmentView {
    match parse_index(part) {
        Some(n) => SegmentView::Index(n),
        None => SegmentView::Key(part),
    }
}

/// The segments a dotted path names.
pub open spec fn key_path_spec(dotted: Seq<char>) -> Seq<SegmentView> {
    split_on(dotted, '.').map_values(|p: Seq<char>| segment_of(p))
}

/// The piece a parse of `part` gives: `Some(n)` for an index.
fn parse_part(part: &Vec<char>) -> (r: Option<usize>)
    ensures
        match parse_index(part@) {
            Some(n) => r == Some(n as usize),
            None => r is None,
        },
{
    let start: usize = if part.len() > 0 && part[0] == '+' { 1 } else { 0 };
    let ghost d = index_digits(part@);
    proof {
        assert(d =~= part@.skip(start as int));
    }
    if start >= part.len() {
        return None;
    }
    let mut value: usize = 0;
    let mut i: usize = start;
    while i < part.len()
        invariant
            start <= i <= part@.len(),
            start < part@.len(),
            d =~= part@.skip(start as int),
            d == index_digits(part@),
            forall|j: int| start <= j < i ==> is_digit(#[trigger] part@[j]),
            value as nat == digits_value(part@.subrange(start as int, i as int)),
        decreases part@.len() - i,
    {
        let c = part[i];
        if !('0' <= c && c <= '9') {
            proof {
                assert(d[i - start] == c);
                assert(!is_digit(d[i - start]));
            }
            return None;
        }
        let digit: usize = ((c as u32) - ('0' as u32)) as usize;
        proof {
            assert(part@.subrange(start as int, i + 1).drop_last() =~= part@.subrange(start as int, i as int));
        }
        let ghost pre = d.take(i + 1 - start);
        proof {
            assert(pre =~= part@.subrange(start as int, i + 1));
            assert(pre.drop_last() =~= part@.subrange(start as int, i as int));
            assert(digits_value(pre) == value * 10 + digit);
        }
        match value.checked_mul(10) {
            Some(v10) => match v10.checked_add(digit) {
                Some(v) => {
                    value = v;
                },
                None => {
                    proof {
                        overflow_is_no_index(d, pre, i + 1 - start);
                    }
                    return None;
                },
            },
            None => {
                proof {
                    assert(value * 10 + digit > usize::MAX);
                    overflow_is_no_index(d, pre, i + 1 - start);
                }
                return None;
            },
        }
        i = i + 1;
    }
    proof {
        assert(part@.subrange(start as int, part@.len() as int) =~= d);
    }
    Some(value)
}

/// A digit string whose prefix already exceeds `usize::MAX` is no index.
proof fn overflow_is_no_index(d: Seq<char>, pre: Seq<char>, n: int)
    requires
        0 <= n <= d.len(),
        pre == d.take(n),
        digits_value(pre) > usize::MAX,
    ensures
        !(d.len() > 0 && (forall|i: int| 0 <= i < d.len() ==> is_digit(#[trigger] d[i])) && digits_value(d) <= usize::MAX),
{
    if d.len() > 0 && (forall|i: int| 0 <= i < d.len() ==> is_digit(#[trigger] d[i])) {
        lemma_digits_value_prefix(d, n);
    }
}

/// The value of a digit string is at least the value of any of its prefixes.
proof fn lemma_digits_value_prefix(d: Seq<char>, n: int)
    requires
        0 <= n <= d.len(),
        forall|i: int| 0 <= i < d.len() ==> is_digit(#[trigger] d[i]),
    ensures
        digits_value(d.take(n)) <= digits_value(d),
    decreases d.len() - n,
{
    if n < d.len() {
        lemma_digits_value_prefix(d, n + 1);
        assert(d.take(n + 1).drop_last() =~= d.take(n));
        assert(is_digit(d[n]));
    } else {
        assert(d.take(n) =~= d);
    }
}

/// Parse a dotted key path (`a.b.0.c`) into path segments. A piece that parses
/// as an index (optional `+`, decimal digits, fitting a `usize`) indexes a
/// sequence; anything else names a mapping key.
pub fn key_path(dotted: &str) -> (r: Vec<KeySegment>)
    ensures
        r@.map_values(|s: KeySegment| s.view()) == key_path_spec(dotted@),
{
    let chars = crate::textdist::chars_of(dotted);
    let ghost parts = split_on(dotted@, '.');
    let mut out: Vec<KeySegment> = Vec::new();
    let mut current: Vec<char> = Vec::new();
    let mut i: usize = 0;
    while i < chars.len()
        invariant
            chars@ == dotted@,
            i <= chars@.len(),
            out@.len() + 1 == split_on(chars@.take(i as int), '.').len(),
            forall|j: int| 0 <= j < out@.len() ==> (#[trigger] out@[j]).view() == segment_of(
                split_on(chars@.take(i as int), '.')[j],
            ),
            current@ == split_on(chars@.take(i as int), '.').last(),
        decreases chars@.len() - i,
    {
        let c = chars[i];
        proof {
            assert(chars@.take(i + 1).drop_last() =~= chars@.take(i as int));
            assert(chars@.take(i + 1).last() == c);
        }
        if c == '.' {
            let seg = segment(&current);
            out.push(seg);
            current = Vec::new();
        } else {
            current.push(c);
        }
        i = i + 1;
    }
    let seg = segment(&current);
    out.push(seg);
    proof {
        assert(chars@.take(chars@.len() as int) =~= chars@);
        assert(out@.map_values(|s: KeySegment| s.view()) =~= key_path_spec(dotted@));
    }
    out
}

/// The segment one piece of a dotted path names.
fn segment(part: &Vec<char>) -> (r: KeySegment)
    ensures
        r.view() == segment_of(part@),
{
    match parse_part(part) {
        Some(n) => KeySegment::Index(n),
        None => {
            let mut key = String::new();
            let mut j: usize = 0;
            while j < part.len()
                invariant
                    j <= part@.len(),
                    key@ == part@.take(j as int),
                decreases part@.len() - j,
            {
                key.push(part[j]);
                proof {
                    assert(part@.take(j + 1) =~= part@.take(j as int).push(part@[j as int]));
                }
                j = j + 1;
            }
            proof {
                assert(part@.take(part@.len() as int) =~= part@);
            }
            KeySegment::Key(key)
        },
    }
}

/// Whether the last segment of `path` is an index.
fn ends_in_index(path: &Vec<KeySegment>) -> (r: bool)
    ensures
        r == (path@.len() > 0 && path@.last() is Index),
{
    if path.len() == 0 {
        false
    } else {
        match &path[path.len() - 1] {
            KeySegment::Index(_) => true,
            KeySegment::Key(_) => false,
        }
    }
}

/// The archetype `set_in_text` edits: the one fig detects, else YAML
/// frontmatter.
pub open spec fn set_kind(text: Seq<char>) -> fig::EmbedType {
    match detected_embed(text) {
        Some(k) => k,
        None => yaml_frontmatter_kind(),
    }
}

/// The edit `set_in_text` makes at `path`: a replacement when the path ends in
/// an index, an upsert otherwise.
pub open spec fn set_step(path: Seq<SegmentView>, value: FigValue) -> EditStep {
    if path.len() > 0 && path.last() is Index {
        EditStep::Replace(path, value)
    } else {
        EditStep::Upsert(path, value)
    }
}

/// What setting `dotted` to `value` in `text` gives: fig opens (or creates)
/// the block, makes the one edit, and renders the document; the first of
/// these that fails gives its error.
pub open spec fn set_outcome(text: Seq<char>, dotted: Seq<char>, value: FigValue) -> Result<Seq<char>, fig::Error> {
    let kind = set_kind(text);
    let path = key_path_spec(dotted);
    let start = EmbedState { host: text, kind, init: true, edits: Seq::empty() };
    match embed_init_failure(text, kind) {
        Some(e) => Err(e),
        None => {
            let failure = if path.len() > 0 && path.last() is Index {
                embed_replace_failure(start, path, value)
            } else {
                embed_set_failure(start, path, value)
            };
            match failure {
                Some(e) => Err(e),
                None => embed_rendered(EmbedState { edits: seq![set_step(path, value)], ..start }),
            }
        },
    }
}

/// What deleting `dotted` from `text` gives: no block is an error of its own;
/// otherwise fig opens the block, deletes the entry and renders the document,
/// and the first of these that fails gives its error.
pub open spec fn unset_outcome(text: Seq<char>, dotted: Seq<char>) -> Result<Seq<char>, EditError> {
    match detected_embed(text) {
        None => Err(EditError::NoMetadataBlock),
        Some(kind) => {
            let path = key_path_spec(dotted);
            let start = EmbedState { host: text, kind, init: false, edits: Seq::empty() };
            match embed_open_failure(text, kind) {
                Some(e) => Err(EditError::Fig(e)),
                None => match embed_delete_failure(start, path) {
                    Some(e) => Err(EditError::Fig(e)),
                    None => match embed_rendered(EmbedState { edits: seq![EditStep::Delete(path)], ..start }) {
                        Ok(t) => Ok(t),
                        Err(e) => Err(EditError::Fig(e)),
                    },
                },
            }
        },
    }
}

/// Upsert `dotted` to `value` in `text`'s metadata block, creating the block
/// (YAML frontmatter) when the document has none, and return the re-rendered
/// document text. A path ending in a key is upserted; one ending in an index
/// replaces the existing item (there is no insert at an absent index). Fails
/// only where fig refuses the edit.
pub fn set_in_text(text: &str, dotted: &str, value: FigValue) -> (r: Result<String, EditError>)
    ensures
        match r {
            Ok(t) => set_outcome(text@, dotted@, value) == Ok::<Seq<char>, fig::Error>(t@),
            Err(EditError::Fig(e)) => set_outcome(text@, dotted@, value) == Err::<Seq<char>, fig::Error>(e),
            Err(EditError::NoMetadataBlock) => false,
        },
{
    let kind = match detect(text) {
        Some(k) => k,
        None => yaml_frontmatter(),
    };
    let mut embed = match embed_open_or_init(text, kind) {
        Ok(e) => e,
        Err(e) => return Err(EditError::Fig(e)),
    };
    let path = key_path(dotted);
    let ghost pv = path@.map_values(|s: KeySegment| s.view());
    let edited = if ends_in_index(&path) {
        embed_replace(&mut embed, path.as_slice(), value)
    } else {
        embed_set(&mut embed, path.as_slice(), value)
    };
    proof {
        if pv.len() > 0 {
            assert(pv.last() == path@.last().view());
        }
    }
    match edited {
        Ok(()) => {},
        Err(e) => return Err(EditError::Fig(e)),
    }
    proof {
        assert(embed.state().edits =~= seq![set_step(pv, value)]);
    }
    match embed_render(&mut embed) {
        Ok(s) => Ok(s),
        Err(e) => Err(EditError::Fig(e)),
    }
}

/// Delete the entry at `dotted` from `text`'s metadata block and return the
/// re-rendered document text. Fails with [`EditError::NoMetadataBlock`] exactly
/// when the document has no metadata block, and otherwise where fig refuses
/// (e.g. the path does not exist).
pub fn unset_in_text(text: &str, dotted: &str) -> (r: Result<String, EditError>)
    ensures
        (r matches Err(EditError::NoMetadataBlock)) <==> detected_embed(text@) is None,
        match r {
            Ok(t) => unset_outcome(text@, dotted@) == Ok::<Seq<char>, EditError>(t@),
            Err(e) => unset_outcome(text@, dotted@) == Err::<Seq<char>, EditError>(e),
        },
{
    let kind = match detect(text) {
        Some(k) => k,
        None => return Err(EditError::NoMetadataBlock),
    };
    let mut embed = match embed_open(text, kind) {
        Ok(e) => e,
        Err(e) => return Err(EditError::Fig(e)),
    };
    let path = key_path(dotted);
    match embed_delete(&mut embed, path.as_slice()) {
        Ok(()) => {},
        Err(e) => return Err(EditError::Fig(e)),
    }
    proof {
        assert(embed.state().edits =~= seq![EditStep::Delete(path@.map_values(|s: KeySegment| s.view()))]);
    }
    match embed_render(&mut embed) {
        Ok(s) => Ok(s),
        Err(e) => Err(EditError::Fig(e)),
    }
}

} // verus!
