use sn0int::error::Error;
use sn0int::metadata::Metadata;
use sn0int::runtime::db::{add_up, seeds, Effect, Observation, Summary, Transaction};
use sn0int::runtime::module::{ModuleID, ModuleIndex, Script};
use sn0int::runtime::run::Run;
use sn0int::runtime::keyring::{keyring, KeyRing, KeyRingEntry};
use sn0int::runtime::State;
use sn0int::store::filter::Filter;
use sn0int::store::row::{Datum, NewRow};
use sn0int::store::schema::Family;
use sn0int::store::Database;

fn entry(namespace: &str, access_key: &str) -> KeyRingEntry {
    KeyRingEntry {
        namespace: namespace.to_string(),
        access_key: access_key.to_string(),
        secret_key: Some("secret".to_string()),
    }
}

#[test]
fn keyring_access_is_declared() {
    let metadata =
        Metadata::parse("-- Description: x\n-- Version: 0.1.0\n-- Keyring-Access: shodan\n").unwrap();
    let ring = KeyRing {
        entries: vec![entry("shodan", "a"), entry("github", "b"), entry("shodan", "c")],
    };
    let mut state = State::new();
    assert_eq!(
        keyring("shodan", &metadata, &ring, &mut state),
        Ok(vec![entry("shodan", "a"), entry("shodan", "c")])
    );
    assert_eq!(state.last_error(), None);
    assert_eq!(keyring("github", &metadata, &ring, &mut state), Err(Error::KeyringDenied));
    assert_eq!(state.last_error(), Some(Error::KeyringDenied));
    assert!(keyring("shodan", &metadata, &ring, &mut state).is_ok());
    assert_eq!(state.last_error(), None);
    assert_eq!(keyring("sho", &metadata, &ring, &mut state), Err(Error::KeyringDenied));
    let open = Metadata::parse("-- Version: 0.1.0\n-- Keyring-Access: aws\n").unwrap();
    let mut state = State::new();
    assert_eq!(keyring("aws", &open, &ring, &mut state), Ok(vec![]));
    assert_eq!(state.last_error(), None);
}

fn domain(value: &str) -> NewRow {
    NewRow { value: value.to_string(), parents: vec![], attrs: vec![] }
}

fn subdomain(value: &str, domain: i32, resolvable: Option<bool>) -> NewRow {
    NewRow {
        value: value.to_string(),
        parents: vec![domain],
        attrs: vec![resolvable.map(Datum::Bool)],
    }
}

fn store() -> Database {
    let mut db = Database::new();
    assert_eq!(db.insert(Family::Domain, domain("a.example")), Ok(1));
    assert_eq!(db.insert(Family::Domain, domain("b.example")), Ok(2));
    db
}

#[test]
fn failing_seeds_are_rolled_back() {
    let mut db = store();
    let before = db.clone();
    let mut summary = Summary::new();
    let found = seeds(&db, Some(Family::Domain)).unwrap();
    assert_eq!(found.len(), 2);
    // Two workers, each with a seed, a state and a transaction of its own.
    let mut state_a = State::new();
    let mut state_b = State::new();
    let mut tx_a = Transaction::begin(&db);
    let mut tx_b = Transaction::begin(&db);
    let name_a = format!("www.{}", found[0].value);
    let name_b = format!("www.{}", found[1].value);
    assert_eq!(
        tx_a.db_insert(Family::Subdomain, subdomain(&name_a, found[0].id, None), &mut state_a),
        Ok(1)
    );
    assert_eq!(
        tx_b.db_insert(Family::Subdomain, subdomain(&name_b, found[1].id, None), &mut state_b),
        Ok(1)
    );
    assert_eq!(tx_a.db_select(Family::Subdomain, &name_a, &mut state_a), Ok(Some(1)));
    assert_eq!(tx_a.db_select(Family::Subdomain, &name_b, &mut state_a), Ok(None));
    tx_b.finish(&mut db, Err(Error::ScriptError), &state_b, &mut summary);
    tx_a.finish(&mut db, Err(Error::ScriptError), &state_a, &mut summary);
    assert_eq!(db, before);
    assert_eq!(summary, Summary { seeds: 2, added: 0, updated: 0, errors: 2 });
}

#[test]
fn workers_commit_one_after_the_other() {
    let mut db = store();
    let mut summary = Summary::new();
    let mut state_a = State::new();
    let mut state_b = State::new();
    let mut tx_a = Transaction::begin(&db);
    let mut tx_b = Transaction::begin(&db);
    assert_eq!(
        tx_a.db_insert(Family::Subdomain, subdomain("www.a.example", 1, None), &mut state_a),
        Ok(1)
    );
    assert_eq!(
        tx_b.db_insert(Family::Subdomain, subdomain("www.b.example", 2, None), &mut state_b),
        Ok(1)
    );
    assert_eq!(
        tx_b.db_insert(Family::Subdomain, subdomain("www.a.example", 1, Some(true)), &mut state_b),
        Ok(2)
    );
    tx_b.finish(&mut db, Ok(()), &state_b, &mut summary);
    assert_eq!(summary, Summary { seeds: 1, added: 2, updated: 0, errors: 0 });
    // What the first worker observed is made on the store as it is now.
    tx_a.finish(&mut db, Ok(()), &state_a, &mut summary);
    assert_eq!(summary, Summary { seeds: 2, added: 2, updated: 0, errors: 0 });
    let rows = db.list(Family::Subdomain).unwrap();
    assert_eq!(rows.len(), 2);
    assert_eq!(rows[0].value, "www.b.example");
    assert_eq!(rows[1].value, "www.a.example");
    assert_eq!(rows[1].attrs, vec![Some(Datum::Bool(true))]);
}

#[test]
fn a_commit_that_cannot_be_made_is_rolled_back() {
    let mut db = store();
    let mut summary = Summary::new();
    let mut state = State::new();
    let mut tx = Transaction::begin(&db);
    assert_eq!(tx.db_insert(Family::Domain, domain("c.example"), &mut state), Ok(3));
    assert_eq!(
        tx.db_insert(Family::Subdomain, subdomain("www.a.example", 1, None), &mut state),
        Ok(1)
    );
    // Meanwhile the domain is deleted.
    assert_eq!(db.delete_id(Family::Domain, 1), Ok(1));
    let before = db.clone();
    tx.finish(&mut db, Ok(()), &state, &mut summary);
    assert_eq!(db, before);
    assert_eq!(summary, Summary { seeds: 1, added: 0, updated: 0, errors: 1 });
}

#[test]
fn seeds_are_committed_one_by_one() {
    let mut db = store();
    let mut summary = Summary::new();
    for seed in seeds(&db, Some(Family::Domain)).unwrap() {
        let mut state = State::new();
        let mut tx = Transaction::begin(&db);
        let name = format!("www.{}", seed.value);
        let id = tx.db_insert(Family::Subdomain, subdomain(&name, seed.id, None), &mut state).unwrap();
        assert_eq!(
            tx.db_insert(Family::Subdomain, subdomain(&name, seed.id, Some(true)), &mut state),
            Ok(id)
        );
        assert_eq!(
            tx.db_insert(Family::Subdomain, subdomain(&name, seed.id, Some(true)), &mut state),
            Ok(id)
        );
        // Nothing is seen in the store before the seed is done.
        assert_eq!(db.get_opt(Family::Subdomain, &name), Ok(None));
        tx.finish(&mut db, Ok(()), &state, &mut summary);
        assert_eq!(db.get(Family::Subdomain, &name).unwrap().id, id);
    }
    assert_eq!(summary, Summary { seeds: 2, added: 2, updated: 2, errors: 0 });
    assert_eq!(db.list(Family::Subdomain).unwrap().len(), 2);
    assert_eq!(
        db.get(Family::Subdomain, "www.b.example").unwrap().attrs,
        vec![Some(Datum::Bool(true))]
    );
}

#[test]
fn an_error_of_a_host_function_rolls_back() {
    let mut db = store();
    let before = db.clone();
    let mut summary = Summary::new();
    let mut state = State::new();
    let mut tx = Transaction::begin(&db);
    assert_eq!(tx.db_insert(Family::Domain, domain("c.example"), &mut state), Ok(3));
    assert_eq!(
        tx.db_insert(Family::Subdomain, subdomain("www.c.example", 9, None), &mut state),
        Err(Error::NotFound)
    );
    assert_eq!(state.last_error(), Some(Error::NotFound));
    // The script went on and returned without an error of its own.
    tx.finish(&mut db, Ok(()), &state, &mut summary);
    assert_eq!(db, before);
    assert_eq!(summary, Summary { seeds: 1, added: 0, updated: 0, errors: 1 });
}

#[test]
fn update_by_value() {
    let mut db = store();
    assert_eq!(db.insert(Family::Subdomain, subdomain("www.a.example", 1, None)), Ok(1));
    let mut summary = Summary::new();
    let mut state = State::new();
    let mut tx = Transaction::begin(&db);
    assert_eq!(
        tx.db_update(Family::Subdomain, "www.a.example", vec![Some(Datum::Bool(false))], &mut state),
        Ok(1)
    );
    assert_eq!(
        tx.db_update(Family::Subdomain, "www.a.example", vec![Some(Datum::Bool(false))], &mut state),
        Ok(1)
    );
    assert_eq!(tx.db_update(Family::Subdomain, "www.a.example", vec![None], &mut state), Ok(1));
    assert_eq!(state.last_error(), None);
    assert_eq!(
        tx.db_update(Family::Subdomain, "nowhere", vec![None], &mut state),
        Err(Error::NotFound)
    );
    assert_eq!(state.last_error(), Some(Error::NotFound));
    // The slot speaks of the latest call.
    assert_eq!(tx.db_select(Family::Subdomain, "nowhere", &mut state), Ok(None));
    assert_eq!(state.last_error(), None);
    tx.finish(&mut db, Ok(()), &state, &mut summary);
    assert_eq!(summary, Summary { seeds: 1, added: 0, updated: 1, errors: 0 });
    assert_eq!(
        db.get(Family::Subdomain, "www.a.example").unwrap().attrs,
        vec![Some(Datum::Bool(false))]
    );
}

#[test]
fn seeds_are_the_rows_in_scope() {
    let mut db = store();
    let hide = Filter::parse(Family::Domain, "value = 'a.example'").unwrap();
    assert_eq!(db.noscope(Family::Domain, &hide), Ok(1));
    let found = seeds(&db, Some(Family::Domain)).unwrap();
    assert_eq!(found.len(), 1);
    assert_eq!(found[0].value, "b.example");
    assert_eq!(seeds(&db, None), Ok(vec![]));
    assert_eq!(seeds(&db, Some(Family::Email)), Ok(vec![]));
}

#[test]
fn counters_stay_at_their_limit() {
    assert_eq!(add_up(1, 2), 3);
    assert_eq!(add_up(u64::MAX, 1), u64::MAX);
    assert_eq!(add_up(u64::MAX - 1, 1), u64::MAX);
    assert_eq!(add_up(5, u64::MAX), u64::MAX);
}

#[test]
fn error_slot() {
    let mut state = State::new();
    assert_eq!(state.checked(Ok::<u8, Error>(1)), Ok(1));
    assert_eq!(state.last_error(), None);
    assert_eq!(state.checked(Err::<u8, Error>(Error::Timeout)), Err(Error::Timeout));
    assert_eq!(state.last_error(), Some(Error::Timeout));
    assert_eq!(state.checked(Ok::<u8, Error>(1)), Ok(1));
    assert_eq!(state.last_error(), None);
    assert_eq!(state.set_error(Error::NetworkError), Error::NetworkError);
    assert_eq!(state.take_error(), Some(Error::NetworkError));
    assert_eq!(state.take_error(), None);
}

#[test]
fn observations_are_applied() {
    let mut db = store();
    let insert = Observation::Insert(Family::Subdomain, subdomain("www.a.example", 1, None));
    assert_eq!(insert.apply(&mut db), Ok((1, Effect::Added)));
    assert_eq!(insert.apply(&mut db), Ok((1, Effect::Unchanged)));
    assert_eq!(insert.duplicate(), insert);
    let known = Observation::Insert(Family::Subdomain, subdomain("www.a.example", 1, Some(true)));
    assert_eq!(known.apply(&mut db), Ok((1, Effect::Updated)));
    let update = |value: &str, resolvable: Option<bool>| {
        Observation::Update(
            Family::Subdomain,
            value.to_string(),
            vec![resolvable.map(Datum::Bool)],
        )
    };
    assert_eq!(update("www.a.example", Some(true)).apply(&mut db), Ok((1, Effect::Unchanged)));
    assert_eq!(update("www.a.example", Some(false)).apply(&mut db), Ok((1, Effect::Updated)));
    assert_eq!(update("www.a.example", None).apply(&mut db), Ok((1, Effect::Unchanged)));
    assert_eq!(update("nowhere", None).apply(&mut db), Err(Error::NotFound));
    let orphan = Observation::Insert(Family::Subdomain, subdomain("www.c.example", 9, None));
    assert_eq!(orphan.apply(&mut db), Err(Error::NotFound));
}

#[test]
fn a_run_hands_out_its_seeds() {
    let mut db = store();
    let mut run = Run::new(seeds(&db, Some(Family::Domain)).unwrap());
    let mut seen = Vec::new();
    while let Some(seed) = run.next_seed(false) {
        let mut state = State::new();
        let mut tx = Transaction::begin(&db);
        let name = format!("mail.{}", seed.value);
        let outcome = tx
            .db_insert(Family::Subdomain, subdomain(&name, seed.id + 1, None), &mut state)
            .map(|_| ());
        run.finish_seed(tx, &mut db, outcome, &state);
        seen.push(seed.value);
    }
    assert_eq!(seen, vec!["a.example", "b.example"]);
    // The first seed named a parent that is there, the second did not.
    assert_eq!(run.summary(), Summary { seeds: 2, added: 1, updated: 0, errors: 1 });
    assert_eq!(run.next_seed(false), None);
    assert_eq!(db.list(Family::Subdomain).unwrap().len(), 1);
}

#[test]
fn a_cancelled_run_hands_out_nothing() {
    let db = store();
    let mut run = Run::new(seeds(&db, Some(Family::Domain)).unwrap());
    assert_eq!(run.next_seed(false).unwrap().value, "a.example");
    assert_eq!(run.next_seed(true), None);
    assert_eq!(run.next_seed(true), None);
    assert_eq!(run.next_seed(false).unwrap().value, "b.example");
    assert_eq!(run.next_seed(false), None);
    assert_eq!(run.summary(), Summary::new());
}

#[test]
fn module_ids() {
    assert_eq!(
        ModuleID::parse("kpcyrd/ctlogs"),
        Ok(ModuleID { author: "kpcyrd".to_string(), name: "ctlogs".to_string() })
    );
    assert_eq!(ModuleID::parse("kpcyrd/ctlogs").unwrap().to_string(), "kpcyrd/ctlogs");
    for text in ["", "ctlogs", "kpcyrd/", "kpcyrd/ct/logs", "kpcyrd/Ctlogs"] {
        assert_eq!(ModuleID::parse(text), Err(Error::InvalidModuleName), "{:?}", text);
    }
    for text in ["/ctlogs", "Kpcyrd/ctlogs", "a b/c", "/", "Kpcyrd/Ctlogs"] {
        assert_eq!(ModuleID::parse(text), Err(Error::InvalidUserName), "{:?}", text);
    }
}

fn script(author: &str, name: &str, version: &str, body: &str) -> Script {
    let id = ModuleID { author: author.to_string(), name: name.to_string() };
    let code = format!("-- Description: d\n-- Version: {}\n\n{}", version, body);
    Script::load(id, code).unwrap()
}

#[test]
fn modules_are_loaded_and_indexed() {
    let id = ModuleID { author: "a".to_string(), name: "m".to_string() };
    assert_eq!(
        Script::load(id.clone(), "-- Colour: red\n".to_string()),
        Err(Error::MetadataUnknownKey)
    );
    assert_eq!(Script::load(id.clone(), "x".to_string()), Err(Error::MetadataVersion));
    let loaded = script("a", "m", "0.1.0", "one");
    assert_eq!(loaded.id, id);
    assert_eq!(loaded.metadata.version, "0.1.0");
    let mut index = ModuleIndex::new();
    index.insert(loaded.clone());
    index.insert(script("a", "m", "0.2.0", "two"));
    index.insert(script("b", "m", "0.1.0", "three"));
    assert_eq!(index.len(), 3);
    index.insert(script("a", "m", "0.1.0", "four"));
    assert_eq!(index.len(), 3);
    let get = |index: &ModuleIndex, author: &str, name: &str, version: &str| {
        index
            .get(&author.to_string(), &name.to_string(), &version.to_string())
            .map(|s| s.code.clone())
    };
    assert!(get(&index, "a", "m", "0.1.0").unwrap().ends_with("four"));
    assert!(get(&index, "a", "m", "0.2.0").unwrap().ends_with("two"));
    assert!(get(&index, "b", "m", "0.1.0").unwrap().ends_with("three"));
    assert_eq!(get(&index, "b", "m", "0.2.0"), Err(Error::NotFound));
    assert_eq!(get(&index, "a", "n", "0.1.0"), Err(Error::NotFound));
}
