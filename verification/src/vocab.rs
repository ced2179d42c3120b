//! The policy axes a workspace config names, each with its config spelling:
//! where IDs live, how far fixity extends, the body grammar, how metadata is
//! embedded and in which language, and how references are written.
use vstd::prelude::*;
use crate::strings::str_eq;

verus! {

/// Where a document's stable ID is persisted: the identity-storage axis. Spelled in config as `id_storage`.
#[derive(Debug, Clone, Copy, PartialEq, Eq, Structural)]
pub enum IdStorage {
    /// **Registry only**: IDs live solely in the registry document.
    Registry,
    /// **Frontmatter + registry** (the default): each document also carries its own ID in an `id` frontmatter field, and the registry is retained as a rebuildable cache and tombstone ledger.
    Frontmatter,
    /// **Frontmatter only**: the `id` field is the sole home; no registry document is written.
    FrontmatterOnly,
}

impl IdStorage {
    /// The config spelling of each IdStorage.
    pub open spec fn spelling(self) -> Seq<char> {
        match self {
            IdStorage::Registry => "registry"@,
            IdStorage::Frontmatter => "both"@,
            IdStorage::FrontmatterOnly => "frontmatter"@,
        }
    }

    /// The value a config spelling names, if any.
    pub open spec fn parse_spelling(s: Seq<char>) -> Option<Self> {
        if s == "registry"@ {
            Some(IdStorage::Registry)
        } else if s == "both"@ {
            Some(IdStorage::Frontmatter)
        } else if s == "frontmatter"@ {
            Some(IdStorage::FrontmatterOnly)
        } else {
            None
        }
    }

    /// Parse the config spelling; an unknown spelling is `None`.
    pub fn from_config_str(value: &str) -> (r: Option<Self>)
        ensures
            r == Self::parse_spelling(value@),
    {
        if str_eq(value, "registry") {
            Some(IdStorage::Registry)
        } else if str_eq(value, "both") {
            Some(IdStorage::Frontmatter)
        } else if str_eq(value, "frontmatter") {
            Some(IdStorage::FrontmatterOnly)
        } else {
            None
        }
    }

    /// The config spelling.
    pub fn as_config_str(self) -> (r: &'static str)
        ensures
            r@ == self.spelling(),
    {
        match self {
            IdStorage::Registry => "registry",
            IdStorage::Frontmatter => "both",
            IdStorage::FrontmatterOnly => "frontmatter",
        }
    }

    /// Every value reads back from its own spelling.
    pub proof fn lemma_spelling_round_trip(self)
        ensures
            Self::parse_spelling(self.spelling()) == Some(self),
    {
        reveal_strlit("both");
        reveal_strlit("frontmatter");
        reveal_strlit("registry");
        assert("both"@.len() != "frontmatter"@.len());
        assert("both"@.len() != "registry"@.len());
        assert("frontmatter"@.len() != "registry"@.len());
    }

}

impl Default for IdStorage {
    /// The default: `both`.
    fn default() -> (r: Self)
        ensures
            r == IdStorage::Frontmatter,
    {
        IdStorage::Frontmatter
    }
}

/// How far content-checksum (fixity) coverage extends: the archival integrity axis. Spelled in config as `fixity`.
#[derive(Debug, Clone, Copy, PartialEq, Eq, Structural)]
pub enum Fixity {
    /// No content checksums are recorded or verified.
    Off,
    /// **Attachments only** (the default): each attachment records a `content_hash` of its payload.
    Payloads,
    /// **Attachments and document bodies**: each document also records a `content_hash` of its body.
    Full,
}

impl Fixity {
    /// The config spelling of each Fixity.
    pub open spec fn spelling(self) -> Seq<char> {
        match self {
            Fixity::Off => "off"@,
            Fixity::Payloads => "attachments"@,
            Fixity::Full => "all"@,
        }
    }

    /// The value a config spelling names, if any.
    pub open spec fn parse_spelling(s: Seq<char>) -> Option<Self> {
        if s == "off"@ {
            Some(Fixity::Off)
        } else if s == "attachments"@ {
            Some(Fixity::Payloads)
        } else if s == "all"@ {
            Some(Fixity::Full)
        } else {
            None
        }
    }

    /// Parse the config spelling; an unknown spelling is `None`.
    pub fn from_config_str(value: &str) -> (r: Option<Self>)
        ensures
            r == Self::parse_spelling(value@),
    {
        if str_eq(value, "off") {
            Some(Fixity::Off)
        } else if str_eq(value, "attachments") {
            Some(Fixity::Payloads)
        } else if str_eq(value, "all") {
            Some(Fixity::Full)
        } else {
            None
        }
    }

    /// The config spelling.
    pub fn as_config_str(self) -> (r: &'static str)
        ensures
            r@ == self.spelling(),
    {
        match self {
            Fixity::Off => "off",
            Fixity::Payloads => "attachments",
            Fixity::Full => "all",
        }
    }

    /// Every value reads back from its own spelling.
    pub proof fn lemma_spelling_round_trip(self)
        ensures
            Self::parse_spelling(self.spelling()) == Some(self),
    {
        reveal_strlit("all");
        reveal_strlit("attachments");
        reveal_strlit("off");
        assert("all"@.len() != "attachments"@.len());
        assert("all"@[0] != "off"@[0]);
        assert("attachments"@.len() != "off"@.len());
    }

}

impl Default for Fixity {
    /// The default: `attachments`.
    fn default() -> (r: Self)
        ensures
            r == Fixity::Payloads,
    {
        Fixity::Payloads
    }
}

/// The body-prose grammar a workspace is authored in. Spelled in config as `content_format`.
#[derive(Debug, Clone, Copy, PartialEq, Eq, Structural)]
pub enum ContentFormat {
    /// Markdown (`.md`).
    Markdown,
    /// Djot (`.dj`).
    Djot,
    /// HTML (`.html`).
    Html,
}

impl ContentFormat {
    /// The config spelling of each ContentFormat.
    pub open spec fn spelling(self) -> Seq<char> {
        match self {
            ContentFormat::Markdown => "markdown"@,
            ContentFormat::Djot => "djot"@,
            ContentFormat::Html => "html"@,
        }
    }

    /// The value a config spelling names, if any.
    pub open spec fn parse_spelling(s: Seq<char>) -> Option<Self> {
        if s == "markdown"@ {
            Some(ContentFormat::Markdown)
        } else if s == "djot"@ {
            Some(ContentFormat::Djot)
        } else if s == "html"@ {
            Some(ContentFormat::Html)
        } else {
            None
        }
    }

    /// Parse the config spelling; an unknown spelling is `None`.
    pub fn from_config_str(value: &str) -> (r: Option<Self>)
        ensures
            r == Self::parse_spelling(value@),
    {
        if str_eq(value, "markdown") {
            Some(ContentFormat::Markdown)
        } else if str_eq(value, "djot") {
            Some(ContentFormat::Djot)
        } else if str_eq(value, "html") {
            Some(ContentFormat::Html)
        } else {
            None
        }
    }

    /// The config spelling.
    pub fn as_config_str(self) -> (r: &'static str)
        ensures
            r@ == self.spelling(),
    {
        match self {
            ContentFormat::Markdown => "markdown",
            ContentFormat::Djot => "djot",
            ContentFormat::Html => "html",
        }
    }

    /// Every value reads back from its own spelling.
    pub proof fn lemma_spelling_round_trip(self)
        ensures
            Self::parse_spelling(self.spelling()) == Some(self),
    {
        reveal_strlit("djot");
        reveal_strlit("html");
        reveal_strlit("markdown");
        assert("djot"@[0] != "html"@[0]);
        assert("djot"@.len() != "markdown"@.len());
        assert("html"@.len() != "markdown"@.len());
    }

}

/// How a document's metadata is embedded in it. Spelled in config as `metadata.embed`.
#[derive(Debug, Clone, Copy, PartialEq, Eq, Structural)]
pub enum EmbedStyle {
    /// Character delimiters (`---` frontmatter).
    Delimited,
    /// A typed fenced code block.
    CodeBlock,
    /// An HTML `<script>` data island.
    HtmlScript,
    /// An HTML `<code>` island.
    HtmlCode,
    /// A separate sidecar document.
    Separate,
}

impl EmbedStyle {
    /// The config spelling of each EmbedStyle.
    pub open spec fn spelling(self) -> Seq<char> {
        match self {
            EmbedStyle::Delimited => "delimited"@,
            EmbedStyle::CodeBlock => "code_block"@,
            EmbedStyle::HtmlScript => "html_script"@,
            EmbedStyle::HtmlCode => "html_code"@,
            EmbedStyle::Separate => "separate"@,
        }
    }

    /// The value a config spelling names, if any.
    pub open spec fn parse_spelling(s: Seq<char>) -> Option<Self> {
        if s == "delimited"@ {
            Some(EmbedStyle::Delimited)
        } else if s == "code_block"@ {
            Some(EmbedStyle::CodeBlock)
        } else if s == "html_script"@ {
            Some(EmbedStyle::HtmlScript)
        } else if s == "html_code"@ {
            Some(EmbedStyle::HtmlCode)
        } else if s == "separate"@ {
            Some(EmbedStyle::Separate)
        } else {
            None
        }
    }

    /// Parse the config spelling; an unknown spelling is `None`.
    pub fn from_config_str(value: &str) -> (r: Option<Self>)
        ensures
            r == Self::parse_spelling(value@),
    {
        if str_eq(value, "delimited") {
            Some(EmbedStyle::Delimited)
        } else if str_eq(value, "code_block") {
            Some(EmbedStyle::CodeBlock)
        } else if str_eq(value, "html_script") {
            Some(EmbedStyle::HtmlScript)
        } else if str_eq(value, "html_code") {
            Some(EmbedStyle::HtmlCode)
        } else if str_eq(value, "separate") {
            Some(EmbedStyle::Separate)
        } else {
            None
        }
    }

    /// The config spelling.
    pub fn as_config_str(self) -> (r: &'static str)
        ensures
            r@ == self.spelling(),
    {
        match self {
            EmbedStyle::Delimited => "delimited",
            EmbedStyle::CodeBlock => "code_block",
            EmbedStyle::HtmlScript => "html_script",
            EmbedStyle::HtmlCode => "html_code",
            EmbedStyle::Separate => "separate",
        }
    }

    /// Every value reads back from its own spelling.
    pub proof fn lemma_spelling_round_trip(self)
        ensures
            Self::parse_spelling(self.spelling()) == Some(self),
    {
        reveal_strlit("code_block");
        reveal_strlit("delimited");
        reveal_strlit("html_code");
        reveal_strlit("html_script");
        reveal_strlit("separate");
        assert("code_block"@.len() != "delimited"@.len());
        assert("code_block"@.len() != "html_code"@.len());
        assert("code_block"@.len() != "html_script"@.len());
        assert("code_block"@.len() != "separate"@.len());
        assert("delimited"@[0] != "html_code"@[0]);
        assert("delimited"@.len() != "html_script"@.len());
        assert("delimited"@.len() != "separate"@.len());
        assert("html_code"@.len() != "html_script"@.len());
        assert("html_code"@.len() != "separate"@.len());
        assert("html_script"@.len() != "separate"@.len());
    }

}

/// The syntactic form a reference is written in. Spelled in config as `references.notation`.
#[derive(Debug, Clone, Copy, PartialEq, Eq, Structural)]
pub enum Notation {
    /// A markdown link `[label](target)`.
    Markdown,
    /// A wikilink `[[target]]`.
    Wikilink,
    /// The bare target.
    Bare,
}

impl Notation {
    /// The config spelling of each Notation.
    pub open spec fn spelling(self) -> Seq<char> {
        match self {
            Notation::Markdown => "markdown"@,
            Notation::Wikilink => "wikilink"@,
            Notation::Bare => "bare"@,
        }
    }

    /// The value a config spelling names, if any.
    pub open spec fn parse_spelling(s: Seq<char>) -> Option<Self> {
        if s == "markdown"@ {
            Some(Notation::Markdown)
        } else if s == "wikilink"@ {
            Some(Notation::Wikilink)
        } else if s == "bare"@ {
            Some(Notation::Bare)
        } else {
            None
        }
    }

    /// Parse the config spelling; an unknown spelling is `None`.
    pub fn from_config_str(value: &str) -> (r: Option<Self>)
        ensures
            r == Self::parse_spelling(value@),
    {
        if str_eq(value, "markdown") {
            Some(Notation::Markdown)
        } else if str_eq(value, "wikilink") {
            Some(Notation::Wikilink)
        } else if str_eq(value, "bare") {
            Some(Notation::Bare)
        } else {
            None
        }
    }

    /// The config spelling.
    pub fn as_config_str(self) -> (r: &'static str)
        ensures
            r@ == self.spelling(),
    {
        match self {
            Notation::Markdown => "markdown",
            Notation::Wikilink => "wikilink",
            Notation::Bare => "bare",
        }
    }

    /// Every value reads back from its own spelling.
    pub proof fn lemma_spelling_round_trip(self)
        ensures
            Self::parse_spelling(self.spelling()) == Some(self),
    {
        reveal_strlit("bare");
        reveal_strlit("markdown");
        reveal_strlit("wikilink");
        assert("bare"@.len() != "markdown"@.len());
        assert("bare"@.len() != "wikilink"@.len());
        assert("markdown"@[0] != "wikilink"@[0]);
    }

}

/// How a path target is resolved. Spelled in config as `references.path_style`.
#[derive(Debug, Clone, Copy, PartialEq, Eq, Structural)]
pub enum PathStyle {
    /// Workspace-absolute (`/a/b.md`).
    Root,
    /// Relative to the linking document.
    Relative,
    /// The plain workspace-relative path.
    Canonical,
}

impl PathStyle {
    /// The config spelling of each PathStyle.
    pub open spec fn spelling(self) -> Seq<char> {
        match self {
            PathStyle::Root => "root"@,
            PathStyle::Relative => "relative"@,
            PathStyle::Canonical => "canonical"@,
        }
    }

    /// The value a config spelling names, if any.
    pub open spec fn parse_spelling(s: Seq<char>) -> Option<Self> {
        if s == "root"@ {
            Some(PathStyle::Root)
        } else if s == "relative"@ {
            Some(PathStyle::Relative)
        } else if s == "canonical"@ {
            Some(PathStyle::Canonical)
        } else {
            None
        }
    }

    /// Parse the config spelling; an unknown spelling is `None`.
    pub fn from_config_str(value: &str) -> (r: Option<Self>)
        ensures
            r == Self::parse_spelling(value@),
    {
        if str_eq(value, "root") {
            Some(PathStyle::Root)
        } else if str_eq(value, "relative") {
            Some(PathStyle::Relative)
        } else if str_eq(value, "canonical") {
            Some(PathStyle::Canonical)
        } else {
            None
        }
    }

    /// The config spelling.
    pub fn as_config_str(self) -> (r: &'static str)
        ensures
            r@ == self.spelling(),
    {
        match self {
            PathStyle::Root => "root",
            PathStyle::Relative => "relative",
            PathStyle::Canonical => "canonical",
        }
    }

    /// Every value reads back from its own spelling.
    pub proof fn lemma_spelling_round_trip(self)
        ensures
            Self::parse_spelling(self.spelling()) == Some(self),
    {
        reveal_strlit("canonical");
        reveal_strlit("relative");
        reveal_strlit("root");
        assert("canonical"@.len() != "relative"@.len());
        assert("canonical"@.len() != "root"@.len());
        assert("relative"@.len() != "root"@.len());
    }

}

/// What a reference addresses. Spelled in config as `references.target`.
#[derive(Debug, Clone, Copy, PartialEq, Eq, Structural)]
pub enum Addressing {
    /// A path.
    Path,
    /// A stable ID.
    Id,
    /// An alias.
    Alias,
}

impl Addressing {
    /// The config spelling of each Addressing.
    pub open spec fn spelling(self) -> Seq<char> {
        match self {
            Addressing::Path => "path"@,
            Addressing::Id => "id"@,
            Addressing::Alias => "alias"@,
        }
    }

    /// The value a config spelling names, if any.
    pub open spec fn parse_spelling(s: Seq<char>) -> Option<Self> {
        if s == "path"@ {
            Some(Addressing::Path)
        } else if s == "id"@ {
            Some(Addressing::Id)
        } else if s == "alias"@ {
            Some(Addressing::Alias)
        } else {
            None
        }
    }

    /// Parse the config spelling; an unknown spelling is `None`.
    pub fn from_config_str(value: &str) -> (r: Option<Self>)
        ensures
            r == Self::parse_spelling(value@),
    {
        if str_eq(value, "path") {
            Some(Addressing::Path)
        } else if str_eq(value, "id") {
            Some(Addressing::Id)
        } else if str_eq(value, "alias") {
            Some(Addressing::Alias)
        } else {
            None
        }
    }

    /// The config spelling.
    pub fn as_config_str(self) -> (r: &'static str)
        ensures
            r@ == self.spelling(),
    {
        match self {
            Addressing::Path => "path",
            Addressing::Id => "id",
            Addressing::Alias => "alias",
        }
    }

    /// Every value reads back from its own spelling.
    pub proof fn lemma_spelling_round_trip(self)
        ensures
            Self::parse_spelling(self.spelling()) == Some(self),
    {
        reveal_strlit("alias");
        reveal_strlit("id");
        reveal_strlit("path");
        assert("alias"@.len() != "id"@.len());
        assert("alias"@.len() != "path"@.len());
        assert("id"@.len() != "path"@.len());
    }

}

/// The language a metadata block is written in. Spelled in config as `metadata.format`.
#[derive(Debug, Clone, Copy, PartialEq, Eq, Structural)]
pub enum MetadataFormat {
    /// YAML.
    Yaml,
    /// JSON.
    Json,
    /// TOML.
    Toml,
    /// fig's own authoring dialect.
    Fig,
}

impl MetadataFormat {
    /// The config spelling of each MetadataFormat.
    pub open spec fn spelling(self) -> Seq<char> {
        match self {
            MetadataFormat::Yaml => "yaml"@,
            MetadataFormat::Json => "json"@,
            MetadataFormat::Toml => "toml"@,
            MetadataFormat::Fig => "fig"@,
        }
    }

    /// The value a config spelling names, if any.
    pub open spec fn parse_spelling(s: Seq<char>) -> Option<Self> {
        if s == "yaml"@ || s == "yml"@ {
            Some(MetadataFormat::Yaml)
        } else if s == "json"@ {
            Some(MetadataFormat::Json)
        } else if s == "toml"@ {
            Some(MetadataFormat::Toml)
        } else if s == "fig"@ {
            Some(MetadataFormat::Fig)
        } else {
            None
        }
    }

    /// Parse the config spelling; an unknown spelling is `None`.
    pub fn from_config_str(value: &str) -> (r: Option<Self>)
        ensures
            r == Self::parse_spelling(value@),
    {
        if str_eq(value, "yaml") || str_eq(value, "yml") {
            Some(MetadataFormat::Yaml)
        } else if str_eq(value, "json") {
            Some(MetadataFormat::Json)
        } else if str_eq(value, "toml") {
            Some(MetadataFormat::Toml)
        } else if str_eq(value, "fig") {
            Some(MetadataFormat::Fig)
        } else {
            None
        }
    }

    /// The config spelling.
    pub fn as_config_str(self) -> (r: &'static str)
        ensures
            r@ == self.spelling(),
    {
        match self {
            MetadataFormat::Yaml => "yaml",
            MetadataFormat::Json => "json",
            MetadataFormat::Toml => "toml",
            MetadataFormat::Fig => "fig",
        }
    }

    /// Every value reads back from its own spelling.
    pub proof fn lemma_spelling_round_trip(self)
        ensures
            Self::parse_spelling(self.spelling()) == Some(self),
    {
        reveal_strlit("fig");
        reveal_strlit("json");
        reveal_strlit("toml");
        reveal_strlit("yaml");
        reveal_strlit("yml");
        assert("fig"@.len() != "json"@.len());
        assert("fig"@.len() != "toml"@.len());
        assert("fig"@.len() != "yaml"@.len());
        assert("fig"@[0] != "yml"@[0]);
        assert("json"@[0] != "toml"@[0]);
        assert("json"@[0] != "yaml"@[0]);
        assert("json"@.len() != "yml"@.len());
        assert("toml"@[0] != "yaml"@[0]);
        assert("toml"@.len() != "yml"@.len());
        assert("yaml"@.len() != "yml"@.len());
    }

}

impl IdStorage {
    /// Whether this mode writes the ID into each document's `id` frontmatter.
    pub fn stamps_frontmatter(self) -> (r: bool)
        ensures
            r == (self == IdStorage::Frontmatter || self == IdStorage::FrontmatterOnly),
    {
        matches!(self, IdStorage::Frontmatter | IdStorage::FrontmatterOnly)
    }

    /// Whether this mode keeps a registry document (the authoritative store, or,
    /// under `Frontmatter`, a rebuildable cache).
    pub fn keeps_registry(self) -> (r: bool)
        ensures
            r == (self == IdStorage::Registry || self == IdStorage::Frontmatter),
    {
        matches!(self, IdStorage::Registry | IdStorage::Frontmatter)
    }
}

impl Fixity {
    /// Whether attachment payloads are checksummed (every tier but off).
    pub fn covers_payloads(self) -> (r: bool)
        ensures
            r == (self == Fixity::Payloads || self == Fixity::Full),
    {
        matches!(self, Fixity::Payloads | Fixity::Full)
    }

    /// Whether document bodies are checksummed (only the `all` tier).
    pub fn covers_bodies(self) -> (r: bool)
        ensures
            r == (self == Fixity::Full),
    {
        matches!(self, Fixity::Full)
    }
}

/// The `id_storage` spellings are the documented ones: each value is written as
/// its own word, and each word reads back as that value.
pub proof fn law_id_storage_spellings()
    ensures
        IdStorage::Registry.spelling() == "registry"@,
        IdStorage::Frontmatter.spelling() == "both"@,
        IdStorage::FrontmatterOnly.spelling() == "frontmatter"@,
        IdStorage::parse_spelling("registry"@) == Some(IdStorage::Registry),
        IdStorage::parse_spelling("both"@) == Some(IdStorage::Frontmatter),
        IdStorage::parse_spelling("frontmatter"@) == Some(IdStorage::FrontmatterOnly),
{
    IdStorage::Registry.lemma_spelling_round_trip();
    IdStorage::Frontmatter.lemma_spelling_round_trip();
    IdStorage::FrontmatterOnly.lemma_spelling_round_trip();
}

/// The `fixity` spellings are the documented ones: each value is written as
/// its own word, and each word reads back as that value.
pub proof fn law_fixity_spellings()
    ensures
        Fixity::Off.spelling() == "off"@,
        Fixity::Payloads.spelling() == "attachments"@,
        Fixity::Full.spelling() == "all"@,
        Fixity::parse_spelling("off"@) == Some(Fixity::Off),
        Fixity::parse_spelling("attachments"@) == Some(Fixity::Payloads),
        Fixity::parse_spelling("all"@) == Some(Fixity::Full),
{
    Fixity::Off.lemma_spelling_round_trip();
    Fixity::Payloads.lemma_spelling_round_trip();
    Fixity::Full.lemma_spelling_round_trip();
}

/// The `content_format` spellings are the documented ones: each value is written as
/// its own word, and each word reads back as that value.
pub proof fn law_content_format_spellings()
    ensures
        ContentFormat::Markdown.spelling() == "markdown"@,
        ContentFormat::Djot.spelling() == "djot"@,
        ContentFormat::Html.spelling() == "html"@,
        ContentFormat::parse_spelling("markdown"@) == Some(ContentFormat::Markdown),
        ContentFormat::parse_spelling("djot"@) == Some(ContentFormat::Djot),
        ContentFormat::parse_spelling("html"@) == Some(ContentFormat::Html),
{
    ContentFormat::Markdown.lemma_spelling_round_trip();
    ContentFormat::Djot.lemma_spelling_round_trip();
    ContentFormat::Html.lemma_spelling_round_trip();
}

/// The `metadata.embed` spellings are the documented ones: each value is written as
/// its own word, and each word reads back as that value.
pub proof fn law_embed_style_spellings()
    ensures
        EmbedStyle::Delimited.spelling() == "delimited"@,
        EmbedStyle::CodeBlock.spelling() == "code_block"@,
        EmbedStyle::HtmlScript.spelling() == "html_script"@,
        EmbedStyle::HtmlCode.spelling() == "html_code"@,
        EmbedStyle::Separate.spelling() == "separate"@,
        EmbedStyle::parse_spelling("delimited"@) == Some(EmbedStyle::Delimited),
        EmbedStyle::parse_spelling("code_block"@) == Some(EmbedStyle::CodeBlock),
        EmbedStyle::parse_spelling("html_script"@) == Some(EmbedStyle::HtmlScript),
        EmbedStyle::parse_spelling("html_code"@) == Some(EmbedStyle::HtmlCode),
        EmbedStyle::parse_spelling("separate"@) == Some(EmbedStyle::Separate),
{
    EmbedStyle::Delimited.lemma_spelling_round_trip();
    EmbedStyle::CodeBlock.lemma_spelling_round_trip();
    EmbedStyle::HtmlScript.lemma_spelling_round_trip();
    EmbedStyle::HtmlCode.lemma_spelling_round_trip();
    EmbedStyle::Separate.lemma_spelling_round_trip();
}

/// The `references.notation` spellings are the documented ones: each value is written as
/// its own word, and each word reads back as that value.
pub proof fn law_notation_spellings()
    ensures
        Notation::Markdown.spelling() == "markdown"@,
        Notation::Wikilink.spelling() == "wikilink"@,
        Notation::Bare.spelling() == "bare"@,
        Notation::parse_spelling("markdown"@) == Some(Notation::Markdown),
        Notation::parse_spelling("wikilink"@) == Some(Notation::Wikilink),
        Notation::parse_spelling("bare"@) == Some(Notation::Bare),
{
    Notation::Markdown.lemma_spelling_round_trip();
    Notation::Wikilink.lemma_spelling_round_trip();
    Notation::Bare.lemma_spelling_round_trip();
}

/// The `references.path_style` spellings are the documented ones: each value is written as
/// its own word, and each word reads back as that value.
pub proof fn law_path_style_spellings()
    ensures
        PathStyle::Root.spelling() == "root"@,
        PathStyle::Relative.spelling() == "relative"@,
        PathStyle::Canonical.spelling() == "canonical"@,
        PathStyle::parse_spelling("root"@) == Some(PathStyle::Root),
        PathStyle::parse_spelling("relative"@) == Some(PathStyle::Relative),
        PathStyle::parse_spelling("canonical"@) == Some(PathStyle::Canonical),
{
    PathStyle::Root.lemma_spelling_round_trip();
    PathStyle::Relative.lemma_spelling_round_trip();
    PathStyle::Canonical.lemma_spelling_round_trip();
}

/// The `references.target` spellings are the documented ones: each value is written as
/// its own word, and each word reads back as that value.
pub proof fn law_addressing_spellings()
    ensures
        Addressing::Path.spelling() == "path"@,
        Addressing::Id.spelling() == "id"@,
        Addressing::Alias.spelling() == "alias"@,
        Addressing::parse_spelling("path"@) == Some(Addressing::Path),
        Addressing::parse_spelling("id"@) == Some(Addressing::Id),
        Addressing::parse_spelling("alias"@) == Some(Addressing::Alias),
{
    Addressing::Path.lemma_spelling_round_trip();
    Addressing::Id.lemma_spelling_round_trip();
    Addressing::Alias.lemma_spelling_round_trip();
}

/// The `metadata.format` spellings are the documented ones: each value is written as
/// its own word, and each word reads back as that value.
pub proof fn law_metadata_format_spellings()
    ensures
        MetadataFormat::Yaml.spelling() == "yaml"@,
        MetadataFormat::Json.spelling() == "json"@,
        MetadataFormat::Toml.spelling() == "toml"@,
        MetadataFormat::Fig.spelling() == "fig"@,
        MetadataFormat::parse_spelling("yaml"@) == Some(MetadataFormat::Yaml),
        MetadataFormat::parse_spelling("json"@) == Some(MetadataFormat::Json),
        MetadataFormat::parse_spelling("toml"@) == Some(MetadataFormat::Toml),
        MetadataFormat::parse_spelling("fig"@) == Some(MetadataFormat::Fig),
{
    MetadataFormat::Yaml.lemma_spelling_round_trip();
    MetadataFormat::Json.lemma_spelling_round_trip();
    MetadataFormat::Toml.lemma_spelling_round_trip();
    MetadataFormat::Fig.lemma_spelling_round_trip();
}

} // verus!
