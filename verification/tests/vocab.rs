use colophon::config::{metadata_format_from_str, metadata_format_str};
use colophon::vocab::{Addressing, ContentFormat, EmbedStyle, Fixity, IdStorage, MetadataFormat, Notation, PathStyle};

#[test]
fn id_storage_modes_decide_where_an_id_lives() {
    assert!(!IdStorage::Registry.stamps_frontmatter() && IdStorage::Registry.keeps_registry());
    assert!(IdStorage::Frontmatter.stamps_frontmatter() && IdStorage::Frontmatter.keeps_registry());
    assert!(IdStorage::FrontmatterOnly.stamps_frontmatter() && !IdStorage::FrontmatterOnly.keeps_registry());
    assert_eq!(IdStorage::default(), IdStorage::Frontmatter);
}

#[test]
fn fixity_tiers_nest() {
    assert!(!Fixity::Off.covers_payloads() && !Fixity::Off.covers_bodies());
    assert!(Fixity::Payloads.covers_payloads() && !Fixity::Payloads.covers_bodies());
    assert!(Fixity::Full.covers_payloads() && Fixity::Full.covers_bodies());
    assert_eq!(Fixity::default(), Fixity::Payloads);
}

#[test]
fn spellings_read_back() {
    for s in [IdStorage::Registry, IdStorage::Frontmatter, IdStorage::FrontmatterOnly] {
        assert_eq!(IdStorage::from_config_str(s.as_config_str()), Some(s));
    }
    assert_eq!(IdStorage::from_config_str("both"), Some(IdStorage::Frontmatter));
    assert_eq!(IdStorage::from_config_str("frontmatter"), Some(IdStorage::FrontmatterOnly));
    assert_eq!(IdStorage::from_config_str("Both"), None);
    for s in [Fixity::Off, Fixity::Payloads, Fixity::Full] {
        assert_eq!(Fixity::from_config_str(s.as_config_str()), Some(s));
    }
    assert_eq!(Fixity::Payloads.as_config_str(), "attachments");
    assert_eq!(Fixity::Full.as_config_str(), "all");
    for s in [ContentFormat::Markdown, ContentFormat::Djot, ContentFormat::Html] {
        assert_eq!(ContentFormat::from_config_str(s.as_config_str()), Some(s));
    }
    for s in [EmbedStyle::Delimited, EmbedStyle::CodeBlock, EmbedStyle::HtmlScript, EmbedStyle::HtmlCode, EmbedStyle::Separate] {
        assert_eq!(EmbedStyle::from_config_str(s.as_config_str()), Some(s));
    }
    assert_eq!(EmbedStyle::CodeBlock.as_config_str(), "code_block");
    for s in [Notation::Markdown, Notation::Wikilink, Notation::Bare] {
        assert_eq!(Notation::from_config_str(s.as_config_str()), Some(s));
    }
    for s in [PathStyle::Root, PathStyle::Relative, PathStyle::Canonical] {
        assert_eq!(PathStyle::from_config_str(s.as_config_str()), Some(s));
    }
    for s in [Addressing::Path, Addressing::Id, Addressing::Alias] {
        assert_eq!(Addressing::from_config_str(s.as_config_str()), Some(s));
    }
}

#[test]
fn metadata_formats_accept_yml_as_yaml() {
    assert_eq!(metadata_format_from_str("yml"), Some(MetadataFormat::Yaml));
    assert_eq!(metadata_format_from_str("yaml"), Some(MetadataFormat::Yaml));
    assert_eq!(metadata_format_from_str("fig"), Some(MetadataFormat::Fig));
    assert_eq!(metadata_format_from_str("xml"), None);
    assert_eq!(metadata_format_str(MetadataFormat::Yaml), "yaml");
    assert_eq!(metadata_format_str(MetadataFormat::Toml), "toml");
}
