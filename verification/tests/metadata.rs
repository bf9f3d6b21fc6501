use sn0int::error::Error;
use sn0int::ident::valid_name;
use sn0int::metadata::Metadata;
use sn0int::store::schema::Family;
use sn0int::version::{newer, valid_version};

#[test]
fn metadata_of_a_module() {
    let code = "-- Description: Query certificate transparency logs\n-- Version: 0.1.0\n-- Source: domains\n-- Author: kpcyrd\n-- License: GPL-3.0\n-- Keyring-Access: shodan\n-- Keyring-Access: github\n\nfunction run(arg)\n    -- Colour: red\nend\n";
    assert_eq!(
        Metadata::parse(code),
        Ok(Metadata {
            description: "Query certificate transparency logs".to_string(),
            version: "0.1.0".to_string(),
            author: Some("kpcyrd".to_string()),
            license: Some("GPL-3.0".to_string()),
            source: Some("domains".to_string()),
            keyring_access: vec!["shodan".to_string(), "github".to_string()],
        })
    );
}

#[test]
fn metadata_with_only_a_version() {
    assert_eq!(
        Metadata::parse("-- Version: 1.2.3-beta.1"),
        Ok(Metadata {
            description: String::new(),
            version: "1.2.3-beta.1".to_string(),
            author: None,
            license: None,
            source: None,
            keyring_access: vec![],
        })
    );
}

#[test]
fn metadata_with_carriage_returns() {
    let parsed = Metadata::parse("-- Description: a: b\r\n-- Version: 1.0.0\r\n\r\ncode\r\n").unwrap();
    assert_eq!(parsed.description, "a: b");
    assert_eq!(parsed.version, "1.0.0");
}

#[test]
fn metadata_later_value_wins() {
    let parsed = Metadata::parse("-- Version: 1.0.0\n-- Version: 2.0.0\n").unwrap();
    assert_eq!(parsed.version, "2.0.0");
}

#[test]
fn metadata_unknown_key() {
    assert_eq!(
        Metadata::parse("-- Description: x\n-- Colour: red\n-- Version: 1.0.0\n"),
        Err(Error::MetadataUnknownKey)
    );
    assert_eq!(
        Metadata::parse("-- version: 1.0.0\n"),
        Err(Error::MetadataUnknownKey)
    );
    // An unknown key is reported before a version that is missing.
    assert_eq!(Metadata::parse("-- Colour: red\n"), Err(Error::MetadataUnknownKey));
}

#[test]
fn metadata_version() {
    assert_eq!(Metadata::parse(""), Err(Error::MetadataVersion));
    assert_eq!(Metadata::parse("function run() end"), Err(Error::MetadataVersion));
    assert_eq!(Metadata::parse("-- Description: x\n"), Err(Error::MetadataVersion));
    assert_eq!(Metadata::parse("-- Version: 1.0\n"), Err(Error::MetadataVersion));
    assert_eq!(Metadata::parse("-- Version: 1.0.0+build\n"), Err(Error::MetadataVersion));
    assert_eq!(Metadata::parse("-- Version: v1.0.0\n"), Err(Error::MetadataVersion));
    assert_eq!(Metadata::parse("-- Version: 1.0.01\n"), Err(Error::MetadataVersion));
    // The block ends at the first line that is no metadata line.
    assert_eq!(
        Metadata::parse("-- Description: x\n\n-- Version: 1.0.0\n"),
        Err(Error::MetadataVersion)
    );
    assert_eq!(
        Metadata::parse("-- just a comment\n-- Version: 1.0.0\n"),
        Err(Error::MetadataVersion)
    );
}

#[test]
fn names_of_authors_and_modules() {
    assert!(valid_name("a"));
    assert!(valid_name("0"));
    assert!(valid_name("kpcyrd"));
    assert!(valid_name("dns-resolve_2"));
    assert!(valid_name("a1234567890123456789012345678901"));
    assert!(!valid_name("a12345678901234567890123456789012"));
    assert!(!valid_name(""));
    assert!(!valid_name("-a"));
    assert!(!valid_name("_a"));
    assert!(!valid_name("A"));
    assert!(!valid_name("aB"));
    assert!(!valid_name("a b"));
    assert!(!valid_name("a.b"));
    assert!(!valid_name("é"));
    assert!(!valid_name("a/b"));
}

#[test]
fn release_versions() {
    assert!(valid_version("0.1.0"));
    assert!(valid_version("10.20.30"));
    assert!(valid_version("1.0.0-alpha.1"));
    assert!(!valid_version("1.0.0+build.5"));
    assert!(!valid_version("1.0.0-alpha+build"));
    assert!(!valid_version("1.0"));
    assert!(!valid_version("1"));
    assert!(!valid_version(""));
    assert!(!valid_version("1.0.0 "));
    assert!(!valid_version("a.b.c"));
}

#[test]
fn order_of_versions() {
    assert!(newer("0.2.0", "0.1.0"));
    assert!(!newer("0.1.0", "0.2.0"));
    assert!(!newer("0.1.0", "0.1.0"));
    assert!(newer("1.19.0", "1.5.0"));
    assert!(newer("1.0.0", "1.0.0-rc.1"));
    assert!(newer("1.0.0-beta.11", "1.0.0-beta.2"));
    assert!(newer("1.0.0-alpha.beta", "1.0.0-alpha.1"));
    assert!(!newer("1.0.0", "not a version"));
    assert!(!newer("not a version", "1.0.0"));
    assert!(!newer("not a version", "not a version"));
    assert!(!newer("1.0.0-rc.1", "1.0.0-rc.1"));
    assert!(newer("1.0.0+b", "1.0.0+a"));
    assert!(!newer("1.0.0+a", "1.0.0+b"));
}

#[test]
fn source_of_a_module() {
    let with = |source: &str| {
        Metadata::parse(&format!("-- Version: 1.0.0\n-- Source: {}\n", source)).unwrap()
    };
    assert_eq!(with("domains").source_family(), Some(Family::Domain));
    assert_eq!(with("ipaddrs").source_family(), Some(Family::IpAddr));
    assert_eq!(with("networks").source_family(), Some(Family::Network));
    assert_eq!(with("nothing").source_family(), None);
    assert_eq!(Metadata::parse("-- Version: 1.0.0\n").unwrap().source_family(), None);
}
