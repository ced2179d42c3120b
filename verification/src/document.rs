//! Documents: a plaintext file with an embedded metadata block and a body.
use vstd::prelude::*;
use crate::embed::{detect, split, inner_format, detected_embed, embed_parts, inner_format_of, fig_format, fig_format_of};
use crate::vocab::MetadataFormat;
use crate::meta::{Value, parse_value, read_meta};

verus! {

/// A parsed document: its path, its embedded metadata, and its body text.
///
/// Metadata is a dynamic [`Value`] (a mapping, or [`Value::Null`] when the
/// document has no metadata block) because link fields are configurable and
/// therefore accessed dynamically.
#[derive(Debug)]
pub struct Document {
    /// Path this document was read from (the caller decides whether it is
    /// workspace-relative or absolute; it is not interpreted here).
    pub path: String,
    /// Parsed embedded metadata.
    pub meta: Value,
    /// Everything outside the metadata block (the host prose).
    pub body: String,
    /// The embed archetype the metadata was found in, or `None` when the
    /// document has no (well-formed) metadata block. Recorded so a write can
    /// keep the fence style and inner format it was found in.
    pub embed: Option<fig::EmbedType>,
}

impl Document {
    /// The text of a metadata block `text` embeds, with its archetype and the
    /// body around it: `None` when fig detects no archetype, or detects one
    /// whose opening fence has no close.
    pub open spec fn block_of(text: Seq<char>) -> Option<(fig::EmbedType, Seq<char>, Seq<char>)> {
        match detected_embed(text) {
            Some(kind) => match embed_parts(text, kind) {
                Some((content, body)) => Some((kind, content, body)),
                None => None,
            },
            None => None,
        }
    }

    /// Parse a document from its full text. The embedded metadata block is
    /// auto-detected by fig (any archetype it knows: `---` YAML, `;;;` JSON,
    /// a fig fenced block, an endmatter block) and its content read as
    /// metadata ([`parse_value`]) in that archetype's inner format. With no
    /// (well-formed) block, `meta` is [`Value::Null`] and the whole text is the
    /// body: an unterminated opening fence is treated as no metadata. A
    /// metadata error is returned as is.
    pub fn parse(path: &str, text: &str) -> (r: Result<Document, fig::Error>)
        ensures
            Self::block_of(text@) is None ==> (r matches Ok(d) && d.path@ == path@ && d.meta is Null && d.body@ == text@
                && d.embed is None),
            Self::block_of(text@) matches Some(b) ==> match r {
                Ok(d) => read_meta(b.1, inner_format_of(b.0), Ok(d.meta)) && d.path@ == path@ && d.body@ == b.2
                    && d.embed == Some(b.0),
                Err(e) => read_meta(b.1, inner_format_of(b.0), Err(e)),
            },
    {
        match detect(text) {
            Some(kind) => match split(text, kind) {
                Some((content, body)) => {
                    let format = inner_format(kind);
                    let res = parse_value(content, format);
                    proof {
                        let b = Self::block_of(text@)->0;
                        assert(b == (kind, content@, body@));
                    }
                    match res {
                        Ok(meta) => Ok(
                            Document { path: String::from_str(path), meta, body: String::from_str(body), embed: Some(kind) },
                        ),
                        Err(e) => Err(e),
                    }
                },
                None => Ok(
                    Document { path: String::from_str(path), meta: Value::Null, body: String::from_str(text), embed: None },
                ),
            },
            None => Ok(
                Document { path: String::from_str(path), meta: Value::Null, body: String::from_str(text), embed: None },
            ),
        }
    }

    /// The document's path.
    pub fn path(&self) -> (r: &str)
        ensures
            r@ == self.path@,
    {
        self.path.as_str()
    }

    /// `true` if the document declares an embedded metadata mapping.
    pub fn has_meta(&self) -> (r: bool)
        ensures
            r == (self.meta is Mapping),
    {
        self.meta.as_mapping().is_some()
    }
}


/// Where a document's metadata lives: the whole file is metadata in a config
/// format, or a block fenced inside prose.
#[derive(Debug, Clone, Copy)]
pub enum MetaCarrier {
    /// A bare config document whose whole text is metadata in this format.
    WholeFile(fig::Format),
    /// A metadata block of this archetype embedded in a host document.
    Fenced(fig::EmbedType),
}

/// The file name of a path: the text after its last `/`.
pub open spec fn file_name_of(path: Seq<char>) -> Seq<char>
    decreases path.len(),
{
    if path.len() == 0 {
        path
    } else if path.last() == '/' {
        Seq::empty()
    } else {
        file_name_of(path.drop_last()).push(path.last())
    }
}

/// The extension of a file name: the text after its last `.`, unless that dot
/// opens the name (a dotfile has no extension).
pub open spec fn extension_of(name: Seq<char>) -> Option<Seq<char>>
    decreases name.len(),
{
    if name.len() == 0 {
        None
    } else if name.last() == '.' {
        if name.len() == 1 {
            None
        } else {
            Some(Seq::empty())
        }
    } else {
        match extension_of(name.drop_last()) {
            Some(ext) => Some(ext.push(name.last())),
            None => None,
        }
    }
}

/// The metadata format a config-file extension names.
pub open spec fn config_extension_format(ext: Seq<char>) -> Option<MetadataFormat> {
    if ext == "yaml"@ || ext == "yml"@ {
        Some(MetadataFormat::Yaml)
    } else if ext == "json"@ {
        Some(MetadataFormat::Json)
    } else if ext == "toml"@ {
        Some(MetadataFormat::Toml)
    } else if ext == "figl"@ {
        Some(MetadataFormat::Fig)
    } else {
        None
    }
}

/// The config format `path` is a bare config document in, by its extension.
pub open spec fn whole_file_format_spec(path: Seq<char>) -> Option<fig::Format> {
    match extension_of(file_name_of(path)) {
        Some(ext) => match config_extension_format(ext) {
            Some(f) => Some(fig_format_of(f)),
            None => None,
        },
        None => None,
    }
}

/// The extension of the file `path` names, if any.
fn extension(path: &str) -> (r: Option<String>)
    ensures
        match extension_of(file_name_of(path@)) {
            Some(e) => r matches Some(s) && s@ == e,
            None => r is None,
        },
{
    let chars = crate::textdist::chars_of(path);
    let mut ext: Option<String> = None;
    let mut name_empty = true;
    let mut i: usize = 0;
    while i < chars.len()
        invariant
            chars@ == path@,
            i <= chars@.len(),
            name_empty == (file_name_of(chars@.take(i as int)).len() == 0),
            match extension_of(file_name_of(chars@.take(i as int))) {
                Some(e) => ext matches Some(s) && s@ == e,
                None => ext is None,
            },
        decreases chars@.len() - i,
    {
        let c = chars[i];
        let ghost name = file_name_of(chars@.take(i as int));
        proof {
            assert(chars@.take(i + 1).drop_last() =~= chars@.take(i as int));
            assert(chars@.take(i + 1).last() == c);
            if c != '/' {
                assert(file_name_of(chars@.take(i + 1)) == name.push(c));
                assert(name.push(c).drop_last() =~= name);
                assert(name.push(c).last() == c);
            }
        }
        if c == '/' {
            ext = None;
            name_empty = true;
        } else if c == '.' {
            if name_empty {
                ext = None;
            } else {
                ext = Some(String::new());
            }
            name_empty = false;
        } else {
            match ext {
                Some(mut s) => {
                    s.push(c);
                    ext = Some(s);
                },
                None => {},
            }
            name_empty = false;
        }
        i = i + 1;
    }
    proof {
        assert(chars@.take(chars@.len() as int) =~= chars@);
    }
    ext
}

/// The format of a bare config document, by its extension (`yaml`/`yml`,
/// `json`, `toml`, `figl`): a document with one of these is metadata through
/// and through. `None` for any other path (prose with an embedded block).
pub fn whole_file_format(path: &str) -> (r: Option<fig::Format>)
    ensures
        r == whole_file_format_spec(path@),
{
    match extension(path) {
        Some(ext) => {
            let e = ext.as_str();
            proof {
                reveal_strlit("yaml");
                reveal_strlit("yml");
                reveal_strlit("json");
                reveal_strlit("toml");
                reveal_strlit("figl");
            }
            if crate::strings::str_eq(e, "yaml") || crate::strings::str_eq(e, "yml") {
                Some(fig_format(MetadataFormat::Yaml))
            } else if crate::strings::str_eq(e, "json") {
                Some(fig_format(MetadataFormat::Json))
            } else if crate::strings::str_eq(e, "toml") {
                Some(fig_format(MetadataFormat::Toml))
            } else if crate::strings::str_eq(e, "figl") {
                Some(fig_format(MetadataFormat::Fig))
            } else {
                None
            }
        },
        None => None,
    }
}

} // verus!
