use sn0int::error::{Error, Failure};
use sn0int::registry::api::{
    authorize, dashboard, download, info, publish, search, whoami, ApiResponse, AuthHeader,
    DownloadResponse, Identity, ModuleInfoResponse, OAuth, PublishRequest, PublishResponse, Search,
    WhoamiResponse,
};
use sn0int::registry::search::SearchResponse;
use sn0int::registry::{AuthToken, Author, Module, Registry, Release};
use sn0int::runtime::json::JsonValue;

fn source(description: &str, version: &str) -> String {
    format!(
        "-- Description: {}\n-- Version: {}\n-- License: MIT\n\nfunction run()\nend\n",
        description, version
    )
}

fn registry_with_users() -> Registry {
    let mut registry = Registry::new();
    registry.authorize("session-alice".to_string(), "alice".to_string(), 100);
    registry.authorize("session-bob".to_string(), "bob".to_string(), 100);
    registry
}

fn publish_as(
    registry: &mut Registry,
    session: &str,
    name: &str,
    description: &str,
    version: &str,
) -> Result<ApiResponse<PublishResponse>, Failure> {
    publish(
        name.to_string(),
        PublishRequest { code: source(description, version) },
        AuthHeader(session.to_string()),
        registry,
        7,
    )
}

fn latest_of(registry: &Registry, author: &str, name: &str) -> Option<String> {
    match info(author.to_string(), name.to_string(), registry) {
        Ok(ApiResponse::Success(m)) => m.latest,
        _ => panic!("module not found"),
    }
}

#[test]
fn publish_versions_and_names() {
    let mut registry = registry_with_users();
    assert_eq!(
        publish_as(&mut registry, "session-alice", "test", "A test", "0.1.0"),
        Ok(ApiResponse::Success(PublishResponse {
            author: "alice".to_string(),
            name: "test".to_string(),
            version: "0.1.0".to_string(),
        }))
    );
    assert_eq!(latest_of(&registry, "alice", "test"), Some("0.1.0".to_string()));
    assert_eq!(
        publish_as(&mut registry, "session-alice", "test", "A test", "0.1.0"),
        Err(Failure::of(Error::VersionExists))
    );
    assert!(publish_as(&mut registry, "session-alice", "test", "A test", "0.2.0").is_ok());
    assert_eq!(latest_of(&registry, "alice", "test"), Some("0.2.0".to_string()));
    assert_eq!(
        publish_as(&mut registry, "session-bob", "test", "Not mine", "0.3.0"),
        Err(Failure::of(Error::NameTaken))
    );
    assert_eq!(latest_of(&registry, "alice", "test"), Some("0.2.0".to_string()));
    assert_eq!(registry.modules().len(), 1);
    assert_eq!(registry.releases().len(), 2);
}

#[test]
fn latest_follows_the_order_of_versions() {
    let mut registry = registry_with_users();
    assert!(publish_as(&mut registry, "session-alice", "scan", "d", "0.9.0").is_ok());
    assert!(publish_as(&mut registry, "session-alice", "scan", "d", "0.10.0").is_ok());
    assert_eq!(latest_of(&registry, "alice", "scan"), Some("0.10.0".to_string()));
    assert!(publish_as(&mut registry, "session-alice", "scan", "d", "0.9.5").is_ok());
    assert_eq!(latest_of(&registry, "alice", "scan"), Some("0.10.0".to_string()));
    assert!(publish_as(&mut registry, "session-alice", "scan", "d", "1.0.0-rc.1").is_ok());
    assert_eq!(latest_of(&registry, "alice", "scan"), Some("1.0.0-rc.1".to_string()));
    assert!(publish_as(&mut registry, "session-alice", "scan", "d", "1.0.0").is_ok());
    assert_eq!(latest_of(&registry, "alice", "scan"), Some("1.0.0".to_string()));
    assert!(publish_as(&mut registry, "session-alice", "scan", "d", "1.0.0-rc.2").is_ok());
    assert_eq!(latest_of(&registry, "alice", "scan"), Some("1.0.0".to_string()));
}

#[test]
fn publish_takes_over_the_description() {
    let mut registry = registry_with_users();
    assert!(publish_as(&mut registry, "session-alice", "scan", "first", "0.1.0").is_ok());
    assert!(publish_as(&mut registry, "session-alice", "scan", "second", "0.0.1").is_ok());
    let module = &registry.modules()[0];
    assert_eq!(module.description, "second");
    assert_eq!(module.latest, Some("0.1.0".to_string()));
    assert_eq!(module.author, "alice");
    assert!(!module.featured);
    assert_eq!(module.downloads, 0);
    let release = &registry.releases()[1];
    assert_eq!(release.module, 0);
    assert_eq!(release.version, "0.0.1");
    assert_eq!(release.code, source("second", "0.0.1"));
    assert_eq!(release.published_at, 7);
}

#[test]
fn publish_needs_a_session() {
    let mut registry = registry_with_users();
    let before = registry.clone();
    assert_eq!(
        publish_as(&mut registry, "nobody", "test", "A test", "0.1.0"),
        Err(Failure::of(Error::AuthRequired))
    );
    assert_eq!(registry, before);
}

#[test]
fn publish_checks_the_names() {
    let mut registry = registry_with_users();
    registry.authorize("session-odd".to_string(), "Odd User".to_string(), 100);
    let bad_module = Failure {
        kind: Error::InvalidModuleName,
        text: "Module name is invalid".to_string(),
    };
    let bad_user = Failure { kind: Error::InvalidUserName, text: "Username is invalid".to_string() };
    assert_eq!(
        publish_as(&mut registry, "session-alice", "Bad_Name", "d", "0.1.0"),
        Err(bad_module.clone())
    );
    assert_eq!(publish_as(&mut registry, "session-alice", "", "d", "0.1.0"), Err(bad_module.clone()));
    assert_eq!(publish_as(&mut registry, "session-alice", "-x", "d", "0.1.0"), Err(bad_module));
    assert_eq!(publish_as(&mut registry, "session-odd", "fine", "d", "0.1.0"), Err(bad_user.clone()));
    // The name of the user is checked before the name of the module.
    assert_eq!(publish_as(&mut registry, "session-odd", "Bad_Name", "d", "0.1.0"), Err(bad_user));
    assert!(publish_as(&mut registry, "session-alice", "a-b_c9", "d", "0.1.0").is_ok());
}

#[test]
fn publish_checks_the_metadata() {
    let mut registry = registry_with_users();
    let publish_code = |registry: &mut Registry, code: &str| {
        publish(
            "test".to_string(),
            PublishRequest { code: code.to_string() },
            AuthHeader("session-alice".to_string()),
            registry,
            0,
        )
    };
    assert_eq!(
        publish_code(&mut registry, "-- Description: x\n-- Version: 1.0\n"),
        Err(Failure::of(Error::MetadataVersion))
    );
    assert_eq!(
        publish_code(&mut registry, "-- Description: x\n"),
        Err(Failure::of(Error::MetadataVersion))
    );
    assert_eq!(
        publish_code(&mut registry, "-- Description: x\n-- Version: 1.0.0\n-- Colour: red\n"),
        Err(Failure::of(Error::MetadataUnknownKey))
    );
    // The metadata is read before the names are checked.
    assert_eq!(
        publish(
            "Bad Name".to_string(),
            PublishRequest { code: "-- Version: 1.0\n".to_string() },
            AuthHeader("session-alice".to_string()),
            &mut registry,
            0,
        ),
        Err(Failure::of(Error::MetadataVersion))
    );
    // The session is checked before anything is read.
    assert_eq!(
        publish(
            "test".to_string(),
            PublishRequest { code: "-- Colour: red\n".to_string() },
            AuthHeader("nobody".to_string()),
            &mut registry,
            0,
        ),
        Err(Failure::of(Error::AuthRequired))
    );
    assert_eq!(registry.modules().len(), 0);
    assert_eq!(registry.releases().len(), 0);
}

#[test]
fn download_counts_once() {
    let mut registry = registry_with_users();
    assert!(publish_as(&mut registry, "session-alice", "scan", "d", "0.1.0").is_ok());
    assert!(publish_as(&mut registry, "session-alice", "scan", "d", "0.2.0").is_ok());
    let got = download(
        "alice".to_string(),
        "scan".to_string(),
        "0.1.0".to_string(),
        &mut registry,
    );
    assert_eq!(
        got,
        Ok(ApiResponse::Success(DownloadResponse {
            author: "alice".to_string(),
            name: "scan".to_string(),
            version: "0.1.0".to_string(),
            code: source("d", "0.1.0"),
        }))
    );
    assert_eq!(registry.releases()[0].downloads, 1);
    assert_eq!(registry.releases()[1].downloads, 0);
    assert_eq!(registry.modules()[0].downloads, 1);
    for _ in 0..3 {
        assert!(download(
            "alice".to_string(),
            "scan".to_string(),
            "0.2.0".to_string(),
            &mut registry
        )
        .is_ok());
    }
    assert_eq!(registry.releases()[0].downloads, 1);
    assert_eq!(registry.releases()[1].downloads, 3);
    assert_eq!(registry.modules()[0].downloads, 4);
}

#[test]
fn download_of_what_is_not_there() {
    let mut registry = registry_with_users();
    assert!(publish_as(&mut registry, "session-alice", "scan", "d", "0.1.0").is_ok());
    let before = registry.clone();
    let mut get = |author: &str, name: &str, version: &str| {
        download(author.to_string(), name.to_string(), version.to_string(), &mut registry)
    };
    assert_eq!(get("alice", "scan", "0.2.0"), Err(Failure::of(Error::NotFound)));
    assert_eq!(get("alice", "other", "0.1.0"), Err(Failure::of(Error::NotFound)));
    assert_eq!(get("bob", "scan", "0.1.0"), Err(Failure::of(Error::NotFound)));
    assert_eq!(registry, before);
}

#[test]
fn info_of_a_module() {
    let mut registry = registry_with_users();
    assert!(publish_as(&mut registry, "session-bob", "dns", "Resolve names", "2.0.0").is_ok());
    assert_eq!(
        info("bob".to_string(), "dns".to_string(), &registry),
        Ok(ApiResponse::Success(ModuleInfoResponse {
            author: "bob".to_string(),
            name: "dns".to_string(),
            description: "Resolve names".to_string(),
            latest: Some("2.0.0".to_string()),
        }))
    );
    assert_eq!(info("alice".to_string(), "dns".to_string(), &registry), Err(Failure::of(Error::NotFound)));
    assert_eq!(info("bob".to_string(), "dn".to_string(), &registry), Err(Failure::of(Error::NotFound)));
}

fn names(found: Result<ApiResponse<Vec<SearchResponse>>, Failure>) -> Vec<String> {
    match found {
        Ok(ApiResponse::Success(list)) => list.into_iter().map(|m| m.name).collect(),
        _ => panic!("search failed"),
    }
}

#[test]
fn search_ranks_the_answers() {
    let mut registry = registry_with_users();
    assert!(publish_as(&mut registry, "session-alice", "dns-zeta", "resolver", "1.0.0").is_ok());
    assert!(publish_as(&mut registry, "session-alice", "dns-alpha", "resolver", "1.0.0").is_ok());
    assert!(publish_as(&mut registry, "session-bob", "whois", "asks dns too", "1.0.0").is_ok());
    assert!(publish_as(&mut registry, "session-bob", "ports", "scans ports", "1.0.0").is_ok());
    assert!(publish_as(&mut registry, "session-bob", "dns-mid", "resolver", "1.0.0").is_ok());
    let query = |registry: &Registry, q: &str| names(search(Search { q: q.to_string() }, registry));
    assert_eq!(query(&registry, "dns"), vec!["dns-alpha", "dns-mid", "dns-zeta", "whois"]);
    for _ in 0..2 {
        assert!(download(
            "bob".to_string(),
            "whois".to_string(),
            "1.0.0".to_string(),
            &mut registry
        )
        .is_ok());
    }
    assert!(download(
        "alice".to_string(),
        "dns-zeta".to_string(),
        "1.0.0".to_string(),
        &mut registry
    )
    .is_ok());
    assert_eq!(query(&registry, "dns"), vec!["whois", "dns-zeta", "dns-alpha", "dns-mid"]);
    assert_eq!(registry.set_featured(&"dns-mid".to_string(), true), Ok(()));
    assert_eq!(query(&registry, "dns"), vec!["dns-mid", "whois", "dns-zeta", "dns-alpha"]);
    assert_eq!(query(&registry, "scans"), vec!["ports"]);
    assert_eq!(query(&registry, "nothing"), Vec::<String>::new());
    assert_eq!(query(&registry, "").len(), 5);
    assert_eq!(registry.set_featured(&"missing".to_string(), true), Err(Error::NotFound));
}

#[test]
fn search_answers_with_the_module() {
    let mut registry = registry_with_users();
    assert!(publish_as(&mut registry, "session-alice", "ctlogs", "Query logs", "0.4.2").is_ok());
    assert_eq!(
        search(Search { q: "logs".to_string() }, &registry),
        Ok(ApiResponse::Success(vec![SearchResponse {
            author: "alice".to_string(),
            name: "ctlogs".to_string(),
            description: "Query logs".to_string(),
            latest: "0.4.2".to_string(),
            featured: false,
            downloads: 0,
        }]))
    );
}

#[test]
fn whoami_names_the_user() {
    let registry = registry_with_users();
    assert_eq!(
        whoami(AuthHeader("session-bob".to_string()), &registry, 7),
        Ok(ApiResponse::Success(WhoamiResponse { user: "bob".to_string() }))
    );
    assert_eq!(whoami(AuthHeader("session".to_string()), &registry, 7), Err(Failure::of(Error::AuthRequired)));
    assert_eq!(
        AuthHeader("session-alice".to_string()).verify(&registry, 7),
        Ok("alice".to_string())
    );
}

fn success() -> JsonValue {
    JsonValue::Object(vec![("success".to_string(), JsonValue::Object(vec![]))])
}

#[test]
fn authorize_binds_the_session() {
    let mut registry = Registry::new();
    let carol = Identity { subject: "id-1".to_string(), login: "carol".to_string() };
    assert_eq!(authorize("s1".to_string(), carol.clone(), &mut registry, 3, 50), Ok(success()));
    assert_eq!(
        whoami(AuthHeader("s1".to_string()), &registry, 3),
        Ok(ApiResponse::Success(WhoamiResponse { user: "carol".to_string() }))
    );
    // The identity keeps its first name, whatever it is called later.
    let renamed = Identity { subject: "id-1".to_string(), login: "caroline".to_string() };
    assert_eq!(authorize("s2".to_string(), renamed, &mut registry, 4, 50), Ok(success()));
    assert_eq!(AuthHeader("s2".to_string()).verify(&registry, 9), Ok("carol".to_string()));
    // A name that is taken is not given to another identity.
    let other = Identity { subject: "id-2".to_string(), login: "carol".to_string() };
    let before = registry.clone();
    assert_eq!(authorize("s3".to_string(), other, &mut registry, 5, 50), Err(Failure::of(Error::NameTaken)));
    assert_eq!(registry, before);
    assert_eq!(AuthHeader("s3".to_string()).verify(&registry, 9), Err(Failure::of(Error::AuthRequired)));
    // A session can be bound anew.
    let dave = Identity { subject: "id-3".to_string(), login: "dave".to_string() };
    assert_eq!(authorize("s1".to_string(), dave, &mut registry, 6, 50), Ok(success()));
    assert_eq!(AuthHeader("s1".to_string()).verify(&registry, 9), Ok("dave".to_string()));
    assert_eq!(AuthHeader("s2".to_string()).verify(&registry, 9), Ok("carol".to_string()));
}

#[test]
fn register_is_first_come_first_served() {
    let mut registry = Registry::new();
    assert_eq!(
        registry.register("id-1".to_string(), "erin".to_string(), 1),
        Ok("erin".to_string())
    );
    assert_eq!(
        registry.register("id-1".to_string(), "other".to_string(), 2),
        Ok("erin".to_string())
    );
    assert_eq!(
        registry.register("id-2".to_string(), "erin".to_string(), 3),
        Err(Error::NameTaken)
    );
    assert_eq!(
        registry.register("id-2".to_string(), "frank".to_string(), 4),
        Ok("frank".to_string())
    );
}

#[test]
fn oauth_extract() {
    let some = |s: &str| Some(s.to_string());
    let refused = |text: &str| Failure { kind: Error::AuthRequired, text: text.to_string() };
    let invalid = Failure { kind: Error::InvalidRequest, text: "Invalid request".to_string() };
    let ok = OAuth { code: some("c"), state: some("s"), error: None, error_description: None };
    assert_eq!(ok.extract(), Ok(("c".to_string(), "s".to_string())));
    let denied = OAuth {
        code: None,
        state: None,
        error: some("access_denied"),
        error_description: some("The user said no"),
    };
    assert_eq!(
        denied.extract(),
        Err(refused("oauth error: \"access_denied\", \"The user said no\""))
    );
    // A code and a state that come with an error are not accepted.
    let both = OAuth {
        code: some("c"),
        state: some("s"),
        error: some("access_denied"),
        error_description: some("no"),
    };
    assert_eq!(both.extract(), Err(refused("oauth error: \"access_denied\", \"no\"")));
    let quoted = OAuth {
        code: None,
        state: some("s"),
        error: some("a \"b\""),
        error_description: some("line\nbreak"),
    };
    assert_eq!(
        quoted.extract(),
        Err(refused("oauth error: \"a \\\"b\\\"\", \"line\\nbreak\""))
    );
    let empty = OAuth { code: None, state: None, error: some(""), error_description: some("") };
    assert_eq!(empty.extract(), Err(refused("oauth error: \"\", \"\"")));
    let half = OAuth { code: some("c"), state: None, error: None, error_description: None };
    assert_eq!(half.extract(), Err(invalid.clone()));
    let odd = OAuth { code: some("c"), state: some("s"), error: some("e"), error_description: None };
    assert_eq!(odd.extract(), Err(invalid.clone()));
    let other = OAuth { code: some("c"), state: some("s"), error: None, error_description: some("d") };
    assert_eq!(other.extract(), Err(invalid.clone()));
    let none = OAuth { code: None, state: None, error: None, error_description: None };
    assert_eq!(none.extract(), Err(invalid));
}

#[test]
fn envelope_of_an_answer() {
    assert_eq!(ApiResponse::wrap(Ok::<u8, Failure>(3)), ApiResponse::Success(3));
    assert_eq!(
        ApiResponse::<u8>::wrap(Err(Failure::of(Error::NameTaken))),
        ApiResponse::Error("name is taken by another author".to_string())
    );
    assert_eq!(
        ApiResponse::<u8>::wrap(Err(Failure::of(Error::Internal))),
        ApiResponse::Error("internal error".to_string())
    );
    let told = Failure { kind: Error::AuthRequired, text: "oauth error: \"e\", \"d\"".to_string() };
    assert_eq!(
        ApiResponse::<u8>::wrap(Err(told)),
        ApiResponse::Error("oauth error: \"e\", \"d\"".to_string())
    );
    assert_eq!(
        Failure::of(Error::VersionExists),
        Failure { kind: Error::VersionExists, text: "version already exists".to_string() }
    );
    assert!(Error::Internal.opaque());
    assert!(!Error::NotFound.opaque());
}

#[test]
fn dashboard_is_an_empty_object() {
    assert_eq!(
        dashboard(),
        JsonValue::Object(vec![("dashboard".to_string(), JsonValue::Object(vec![]))])
    );
}

#[test]
fn a_registry_is_put_back() {
    let mut registry = registry_with_users();
    assert_eq!(
        registry.register("id-1".to_string(), "alice".to_string(), 1),
        Ok("alice".to_string())
    );
    assert!(publish_as(&mut registry, "session-alice", "scan", "d", "0.1.0").is_ok());
    assert!(publish_as(&mut registry, "session-alice", "scan", "d", "0.2.0").is_ok());
    assert!(publish_as(&mut registry, "session-bob", "dns", "d", "1.0.0").is_ok());
    let restore = |authors: &[Author], modules: &[Module], releases: &[Release], tokens: &[AuthToken]| {
        Registry::restore(authors.to_vec(), modules.to_vec(), releases.to_vec(), tokens.to_vec())
    };
    let authors = registry.authors().clone();
    let modules = registry.modules().clone();
    let releases = registry.releases().clone();
    let tokens = registry.tokens().clone();
    assert_eq!(restore(&authors, &modules, &releases, &tokens), Ok(registry.clone()));
    assert_eq!(restore(&[], &[], &[], &[]), Ok(Registry::new()));

    // A release without its module.
    assert_eq!(restore(&authors, &modules[..1], &releases, &tokens), Err(Error::StorageError));
    // A module with a latest version that was never released.
    assert_eq!(restore(&authors, &modules, &releases[..1], &tokens), Err(Error::StorageError));
    let mut odd = modules.clone();
    odd[0].latest = Some("0.3.0".to_string());
    assert_eq!(restore(&authors, &odd, &releases, &tokens), Err(Error::StorageError));
    // A module with releases and no latest version.
    let mut odd = modules.clone();
    odd[1].latest = None;
    assert_eq!(restore(&authors, &odd, &releases, &tokens), Err(Error::StorageError));
    // A module name, a version, a session, an author or an identity twice.
    let mut odd = modules.clone();
    odd[1].name = "scan".to_string();
    assert_eq!(restore(&authors, &odd, &releases, &tokens), Err(Error::StorageError));
    let mut odd = releases.clone();
    odd[1].version = "0.1.0".to_string();
    assert_eq!(restore(&authors, &modules, &odd, &tokens), Err(Error::StorageError));
    let mut odd = tokens.clone();
    odd[1].session = "session-alice".to_string();
    assert_eq!(restore(&authors, &modules, &releases, &odd), Err(Error::StorageError));
    let twice = |name: &str, subject: &str| {
        vec![
            authors[0].clone(),
            Author { name: name.to_string(), subject: subject.to_string(), created_at: 2 },
        ]
    };
    assert_eq!(restore(&twice("alice", "id-2"), &modules, &releases, &tokens), Err(Error::StorageError));
    assert_eq!(restore(&twice("bob", "id-1"), &modules, &releases, &tokens), Err(Error::StorageError));
    assert!(restore(&twice("bob", "id-2"), &modules, &releases, &tokens).is_ok());
    // A module or an author of a module with a name against the policy.
    let mut odd = modules.clone();
    odd[1].name = "Not A Name".to_string();
    assert_eq!(restore(&authors, &odd, &releases, &tokens), Err(Error::StorageError));
    let mut odd = modules.clone();
    odd[0].author = String::new();
    assert_eq!(restore(&authors, &odd, &releases, &tokens), Err(Error::StorageError));
    // A module that was never released has no latest version, and is fine.
    let mut more = modules.clone();
    more.push(Module {
        author: "bob".to_string(),
        name: "empty".to_string(),
        description: String::new(),
        latest: None,
        featured: true,
        downloads: 0,
    });
    let restored = restore(&authors, &more, &releases, &tokens).unwrap();
    assert_eq!(names(search(Search { q: "".to_string() }, &restored)), vec!["dns", "scan"]);
}

#[test]
fn a_counter_at_its_limit() {
    let module = Module {
        author: "alice".to_string(),
        name: "scan".to_string(),
        description: String::new(),
        latest: Some("1.0.0".to_string()),
        featured: false,
        downloads: 7,
    };
    let release = Release {
        module: 0,
        version: "1.0.0".to_string(),
        code: "code".to_string(),
        downloads: u64::MAX,
        published_at: 0,
    };
    let mut registry = Registry::restore(vec![], vec![module], vec![release], vec![]).unwrap();
    let before = registry.clone();
    assert_eq!(
        download("alice".to_string(), "scan".to_string(), "1.0.0".to_string(), &mut registry),
        Err(Failure::of(Error::Internal))
    );
    assert_eq!(registry, before);
}

#[test]
fn texts_of_the_failures() {
    let all = [
        Error::NotFound,
        Error::AlreadyExists,
        Error::NameTaken,
        Error::VersionExists,
        Error::AuthRequired,
        Error::KeyringDenied,
        Error::FilterSyntax,
        Error::MetadataUnknownKey,
        Error::MetadataVersion,
        Error::WorkspaceLocked,
        Error::Timeout,
        Error::NetworkError,
        Error::StorageError,
        Error::ScriptError,
        Error::Internal,
        Error::InvalidUserName,
        Error::InvalidModuleName,
        Error::InvalidRequest,
    ];
    let texts: Vec<String> = all.iter().map(|e| e.message()).collect();
    for (i, text) in texts.iter().enumerate() {
        assert!(!text.is_empty());
        assert!(!texts[..i].contains(text));
    }
    assert_eq!(Error::NotFound.message(), "not found");
    assert_eq!(Error::VersionExists.message(), "version already exists");
    assert_eq!(Error::InvalidRequest.message(), "Invalid request");
    assert_eq!(Error::InvalidUserName.message(), "Username is invalid");
    assert_eq!(Error::InvalidModuleName.message(), "Module name is invalid");
}

#[test]
fn sessions_expire() {
    let mut registry = Registry::new();
    registry.authorize("session".to_string(), "alice".to_string(), 10);
    let header = || AuthHeader("session".to_string());
    assert_eq!(header().verify(&registry, 0), Ok("alice".to_string()));
    assert_eq!(header().verify(&registry, 9), Ok("alice".to_string()));
    assert_eq!(header().verify(&registry, 10), Err(Failure::of(Error::AuthRequired)));
    assert_eq!(header().verify(&registry, 11), Err(Failure::of(Error::AuthRequired)));
    assert_eq!(whoami(header(), &registry, 10), Err(Failure::of(Error::AuthRequired)));
    let publish_at = |registry: &mut Registry, now: u64| {
        publish(
            "scan".to_string(),
            PublishRequest { code: source("d", &format!("0.{}.0", now)) },
            header(),
            registry,
            now,
        )
    };
    assert!(publish_at(&mut registry, 9).is_ok());
    assert_eq!(publish_at(&mut registry, 10), Err(Failure::of(Error::AuthRequired)));
    // The session is authorised anew.
    registry.authorize("session".to_string(), "alice".to_string(), 20);
    assert!(publish_at(&mut registry, 10).is_ok());
    assert_eq!(
        registry.tokens().to_vec(),
        vec![AuthToken { session: "session".to_string(), user: "alice".to_string(), expires_at: 20 }]
    );
    assert_eq!(registry.releases()[1].published_at, 10);
}

#[test]
fn a_release_beside_the_only_one() {
    for (second, latest) in [("0.2.0", "0.2.0"), ("0.1.1", "0.1.1"), ("0.1.0-rc.1", "0.1.0")] {
        let mut registry = registry_with_users();
        assert!(publish_as(&mut registry, "session-alice", "scan", "d", "0.1.0").is_ok());
        assert_eq!(
            publish_as(&mut registry, "session-alice", "scan", "e", second),
            Ok(ApiResponse::Success(PublishResponse {
                author: "alice".to_string(),
                name: "scan".to_string(),
                version: second.to_string(),
            }))
        );
        assert_eq!(registry.modules()[0].latest, Some(latest.to_string()));
        let versions: Vec<&str> = registry.releases().iter().map(|r| r.version.as_str()).collect();
        assert_eq!(versions, vec!["0.1.0", second]);
        assert_eq!(registry.releases()[1].code, source("e", second));
    }
}
