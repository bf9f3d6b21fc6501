use sn0int::error::Error;
use sn0int::store::filter::Filter;
use sn0int::store::row::{Datum, NewRow, Row, Update};
use sn0int::store::schema::Family;
use sn0int::store::Database;

fn record(value: &str, parents: Vec<i32>, attrs: Vec<Option<Datum>>) -> NewRow {
    NewRow { value: value.to_string(), parents, attrs }
}

fn text(s: &str) -> Option<Datum> {
    Some(Datum::Text(s.to_string()))
}

fn values(rows: &[Row]) -> Vec<String> {
    rows.iter().map(|r| r.value.clone()).collect()
}

fn filter(family: Family, text: &str) -> Filter {
    Filter::parse(family, text).unwrap()
}

#[test]
fn domain_with_a_subdomain() {
    let mut db = Database::new();
    assert_eq!(db.insert(Family::Domain, record("example.com", vec![], vec![])), Ok(1));
    assert_eq!(
        db.insert(Family::Subdomain, record("www.example.com", vec![1], vec![None])),
        Ok(1)
    );
    let domain = db.by_id(Family::Domain, 1).unwrap();
    assert_eq!(domain.value, "example.com");
    let children = db.children(Family::Subdomain, 0, domain.id).unwrap();
    assert_eq!(values(&children), vec!["www.example.com"]);
    assert_eq!(children[0].parents, vec![1]);
    assert_eq!(db.children(Family::Subdomain, 0, 2).unwrap(), vec![]);
}

#[test]
fn upsert_of_an_ip_address() {
    let mut db = Database::new();
    assert_eq!(
        db.insert(Family::IpAddr, record("192.0.2.1", vec![], vec![None, None, None])),
        Ok(1)
    );
    assert_eq!(db.get(Family::IpAddr, "192.0.2.1").unwrap().attrs, vec![None, None, None]);
    assert_eq!(
        db.upsert(Family::IpAddr, record("192.0.2.1", vec![], vec![text("US"), None, None])),
        Ok(1)
    );
    assert_eq!(
        db.get(Family::IpAddr, "192.0.2.1").unwrap().attrs,
        vec![text("US"), None, None]
    );
    assert_eq!(
        db.upsert(Family::IpAddr, record("192.0.2.1", vec![], vec![None, None, None])),
        Ok(1)
    );
    assert_eq!(
        db.get(Family::IpAddr, "192.0.2.1").unwrap().attrs,
        vec![text("US"), None, None]
    );
    assert_eq!(
        db.upsert(
            Family::IpAddr,
            record("192.0.2.1", vec![], vec![text("DE"), Some(Datum::Int(64496)), None])
        ),
        Ok(1)
    );
    assert_eq!(
        db.get(Family::IpAddr, "192.0.2.1").unwrap().attrs,
        vec![text("DE"), Some(Datum::Int(64496)), None]
    );
    assert_eq!(db.list(Family::IpAddr).unwrap().len(), 1);
}

#[test]
fn scope_and_noscope() {
    let mut db = Database::new();
    assert_eq!(db.insert(Family::Domain, record("example.com", vec![], vec![])), Ok(1));
    assert_eq!(db.insert(Family::Domain, record("example.org", vec![], vec![])), Ok(2));
    let only = filter(Family::Domain, "value = 'example.com'");
    assert_eq!(db.noscope(Family::Domain, &only), Ok(1));
    assert_eq!(values(&db.default_select(Family::Domain).unwrap()), vec!["example.org"]);
    assert!(!db.get(Family::Domain, "example.com").unwrap().scoped());
    assert_eq!(db.list(Family::Domain).unwrap().len(), 2);
    assert_eq!(db.scope(Family::Domain, &only), Ok(1));
    assert_eq!(
        values(&db.default_select(Family::Domain).unwrap()),
        vec!["example.com", "example.org"]
    );
    assert_eq!(db.noscope(Family::Domain, &filter(Family::Domain, "value like '%'")), Ok(2));
    assert_eq!(db.default_select(Family::Domain).unwrap(), vec![]);
    assert_eq!(db.scope(Family::Domain, &filter(Family::Domain, "unscoped = 1 and id = 2")), Ok(1));
    assert_eq!(values(&db.default_select(Family::Domain).unwrap()), vec!["example.org"]);
    assert_eq!(db.scope(Family::Domain, &filter(Family::Domain, "id = 7")), Ok(0));
}

#[test]
fn scope_of_a_child_is_its_own() {
    let mut db = Database::new();
    assert_eq!(db.insert(Family::Domain, record("example.com", vec![], vec![])), Ok(1));
    assert_eq!(
        db.insert(Family::Subdomain, record("www.example.com", vec![1], vec![None])),
        Ok(1)
    );
    assert_eq!(db.noscope(Family::Domain, &filter(Family::Domain, "id = 1")), Ok(1));
    assert_eq!(values(&db.default_select(Family::Subdomain).unwrap()), vec!["www.example.com"]);
    assert_eq!(db.default_select(Family::Domain).unwrap(), vec![]);
}

#[test]
fn insert_twice_gives_the_same_id() {
    let mut db = Database::new();
    assert_eq!(db.insert(Family::Email, record("a@example.com", vec![], vec![None])), Ok(1));
    assert_eq!(db.insert(Family::Email, record("b@example.com", vec![], vec![None])), Ok(2));
    let before = db.clone();
    assert_eq!(
        db.insert(Family::Email, record("a@example.com", vec![], vec![Some(Datum::Bool(true))])),
        Ok(1)
    );
    assert_eq!(db, before);
    assert_eq!(db.insert(Family::Email, record("c@example.com", vec![], vec![None])), Ok(3));
    // Each family counts its own ids.
    assert_eq!(db.insert(Family::Breach, record("dump", vec![], vec![])), Ok(1));
}

#[test]
fn insert_checks_the_record() {
    let mut db = Database::new();
    let before = db.clone();
    assert_eq!(
        db.insert(Family::Email, record("a@example.com", vec![], vec![])),
        Err(Error::StorageError)
    );
    assert_eq!(
        db.insert(Family::Email, record("a@example.com", vec![], vec![text("yes")])),
        Err(Error::StorageError)
    );
    assert_eq!(
        db.insert(Family::Email, record("a@example.com", vec![1], vec![None])),
        Err(Error::StorageError)
    );
    assert_eq!(
        db.insert(Family::Subdomain, record("www.example.com", vec![1], vec![None])),
        Err(Error::NotFound)
    );
    assert_eq!(db, before);
}

#[test]
fn update_by_id() {
    let mut db = Database::new();
    assert_eq!(
        db.insert(Family::Url, record("https://example.com/", vec![], vec![None, None, None])),
        Err(Error::StorageError)
    );
    assert_eq!(db.insert(Family::Domain, record("example.com", vec![], vec![])), Ok(1));
    assert_eq!(db.insert(Family::Subdomain, record("example.com", vec![1], vec![None])), Ok(1));
    assert_eq!(
        db.insert(
            Family::Url,
            record("https://example.com/", vec![1], vec![Some(Datum::Int(200)), None, None])
        ),
        Ok(1)
    );
    let update = Update { id: 1, attrs: vec![None, None, text("Example Domain")] };
    assert_eq!(db.update(Family::Url, &update), Ok(1));
    assert_eq!(
        db.by_id(Family::Url, 1).unwrap().attrs,
        vec![Some(Datum::Int(200)), None, text("Example Domain")]
    );
    let before = db.clone();
    assert_eq!(
        db.update(Family::Url, &Update { id: 2, attrs: vec![None, None, None] }),
        Err(Error::NotFound)
    );
    assert_eq!(
        db.update(Family::Url, &Update { id: 1, attrs: vec![text("200"), None, None] }),
        Err(Error::StorageError)
    );
    assert_eq!(
        db.update(Family::Url, &Update { id: 1, attrs: vec![None] }),
        Err(Error::StorageError)
    );
    assert_eq!(db, before);
}

#[test]
fn upsert_derives_the_update() {
    let existing = Row {
        id: 4,
        value: "192.0.2.1".to_string(),
        unscoped: false,
        parents: vec![],
        attrs: vec![text("US"), None, text("old")],
    };
    let update = record("192.0.2.1", vec![], vec![text("US"), Some(Datum::Int(1)), text("new")])
        .upsert(&existing);
    assert_eq!(update, Update { id: 4, attrs: vec![None, Some(Datum::Int(1)), text("new")] });
    assert!(update.is_dirty());
    let nothing = record("192.0.2.1", vec![], vec![text("US"), None, None]).upsert(&existing);
    assert_eq!(nothing, Update { id: 4, attrs: vec![None, None, None] });
    assert!(!nothing.is_dirty());
    let mut update = Update { id: 4, attrs: vec![text("US"), None, text("new")] };
    update.changeset(&existing);
    assert_eq!(update, Update { id: 4, attrs: vec![None, None, text("new")] });
}

#[test]
fn delete_by_id() {
    let mut db = Database::new();
    assert_eq!(db.insert(Family::Domain, record("example.com", vec![], vec![])), Ok(1));
    assert_eq!(db.insert(Family::Domain, record("example.org", vec![], vec![])), Ok(2));
    assert_eq!(db.delete_id(Family::Domain, 1), Ok(1));
    assert_eq!(db.by_id(Family::Domain, 1), Err(Error::NotFound));
    assert_eq!(db.get(Family::Domain, "example.com"), Err(Error::NotFound));
    assert_eq!(db.get_opt(Family::Domain, "example.com"), Ok(None));
    assert_eq!(db.by_id(Family::Domain, 2).unwrap().value, "example.org");
    assert_eq!(db.delete_id(Family::Domain, 1), Ok(0));
    // An id is not given twice.
    assert_eq!(db.insert(Family::Domain, record("example.net", vec![], vec![])), Ok(3));
}

#[test]
fn delete_cascades() {
    let mut db = Database::new();
    assert_eq!(db.insert(Family::Domain, record("example.com", vec![], vec![])), Ok(1));
    assert_eq!(db.insert(Family::Domain, record("example.org", vec![], vec![])), Ok(2));
    assert_eq!(db.insert(Family::Subdomain, record("a.example.com", vec![1], vec![None])), Ok(1));
    assert_eq!(db.insert(Family::Subdomain, record("b.example.org", vec![2], vec![None])), Ok(2));
    assert_eq!(db.insert(Family::IpAddr, record("192.0.2.1", vec![], vec![None, None, None])), Ok(1));
    let link = |sub: i32| record(&format!("{}+1", sub), vec![sub, 1], vec![]);
    assert_eq!(db.insert(Family::SubdomainIpAddr, link(1)), Ok(1));
    assert_eq!(db.insert(Family::SubdomainIpAddr, link(2)), Ok(2));
    let url = |value: &str, sub: i32| record(value, vec![sub], vec![None, None, None]);
    assert_eq!(db.insert(Family::Url, url("http://a.example.com/", 1)), Ok(1));
    assert_eq!(db.insert(Family::Url, url("http://b.example.org/", 2)), Ok(2));
    assert_eq!(db.delete(Family::Domain, &filter(Family::Domain, "value like '%.com'")), Ok(1));
    assert_eq!(values(&db.list(Family::Domain).unwrap()), vec!["example.org"]);
    assert_eq!(values(&db.list(Family::Subdomain).unwrap()), vec!["b.example.org"]);
    assert_eq!(values(&db.list(Family::SubdomainIpAddr).unwrap()), vec!["2+1"]);
    assert_eq!(values(&db.list(Family::Url).unwrap()), vec!["http://b.example.org/"]);
    assert_eq!(values(&db.list(Family::IpAddr).unwrap()), vec!["192.0.2.1"]);
    assert_eq!(db.delete_id(Family::IpAddr, 1), Ok(1));
    assert_eq!(db.list(Family::SubdomainIpAddr).unwrap(), vec![]);
    assert_eq!(values(&db.list(Family::Subdomain).unwrap()), vec!["b.example.org"]);
}

#[test]
fn filter_selects_rows() {
    let mut db = Database::new();
    for (value, country, asn) in [
        ("192.0.2.1", Some("US"), Some(64496)),
        ("192.0.2.2", Some("DE"), Some(64496)),
        ("198.51.100.7", None, Some(64511)),
        ("203.0.113.9", Some("US"), None),
    ] {
        let attrs = vec![country.and_then(text), asn.map(Datum::Int), None];
        assert!(db.insert(Family::IpAddr, record(value, vec![], attrs)).is_ok());
    }
    let select = |db: &Database, text: &str| {
        values(&db.filter(Family::IpAddr, &filter(Family::IpAddr, text)).unwrap())
    };
    assert_eq!(select(&db, "country = 'US'"), vec!["192.0.2.1", "203.0.113.9"]);
    assert_eq!(select(&db, "country != 'US'"), vec!["192.0.2.2"]);
    assert_eq!(select(&db, "not country = 'US'"), vec!["192.0.2.2", "198.51.100.7"]);
    assert_eq!(select(&db, "asn = 64496 and country = 'US'"), vec!["192.0.2.1"]);
    assert_eq!(
        select(&db, "asn = 64511 or country = 'US'"),
        vec!["192.0.2.1", "198.51.100.7", "203.0.113.9"]
    );
    assert_eq!(select(&db, "value like '192.0.2._'"), vec!["192.0.2.1", "192.0.2.2"]);
    assert_eq!(select(&db, "value like '%.9'"), vec!["203.0.113.9"]);
    assert_eq!(select(&db, "id = 3"), vec!["198.51.100.7"]);
    assert_eq!(select(&db, "id != 3 and not (asn = 64496 or country = 'DE')"), vec!["203.0.113.9"]);
    assert_eq!(
        select(&db, "country = 'DE' or country = 'US' and asn = 64496"),
        vec!["192.0.2.1", "192.0.2.2"]
    );
    assert_eq!(select(&db, "description = ''"), Vec::<String>::new());
    assert_eq!(select(&db, "unscoped = 0").len(), 4);
}

#[test]
fn copy_of_a_store() {
    let mut db = Database::new();
    assert_eq!(db.insert(Family::Domain, record("example.com", vec![], vec![])), Ok(1));
    let copy = db.duplicate();
    assert_eq!(copy, db);
    assert_eq!(db.insert(Family::Domain, record("example.org", vec![], vec![])), Ok(2));
    assert_eq!(copy.list(Family::Domain).unwrap().len(), 1);
}

#[test]
fn families_and_their_columns() {
    assert_eq!(Family::Network.index(), 8);
    for place in 0..14 {
        let family = Family::from_index(place);
        assert_eq!(family.index(), place);
        assert_eq!(family.attributes().len(), family.attribute_kinds().len());
        assert_eq!(family.parents().len(), family.parent_columns().len());
        for parent in family.parents() {
            assert!(parent.index() < place);
        }
    }
    assert_eq!(Family::NetworkDevice.parents(), vec![Family::Network, Family::Device]);
    assert_eq!(Family::from_source(&"domains".to_string()), Some(Family::Domain));
    assert_eq!(Family::from_source(&"networks".to_string()), Some(Family::Network));
    assert_eq!(Family::from_source(&"domain".to_string()), None);
}

#[test]
fn rows_are_put_back() {
    let mut db = Database::new();
    let row = |id: i32, value: &str, unscoped: bool| Row {
        id,
        value: value.to_string(),
        unscoped,
        parents: vec![],
        attrs: vec![],
    };
    assert_eq!(db.restore(Family::Domain, row(5, "example.com", true)), Ok(()));
    assert_eq!(db.restore(Family::Domain, row(2, "example.org", false)), Ok(()));
    assert_eq!(db.by_id(Family::Domain, 5), Ok(row(5, "example.com", true)));
    assert_eq!(values(&db.default_select(Family::Domain).unwrap()), vec!["example.org"]);
    let before = db.clone();
    assert_eq!(db.restore(Family::Domain, row(5, "example.net", false)), Err(Error::AlreadyExists));
    assert_eq!(db.restore(Family::Domain, row(6, "example.org", false)), Err(Error::AlreadyExists));
    assert_eq!(db.restore(Family::Domain, row(0, "example.net", false)), Err(Error::StorageError));
    assert_eq!(db.restore(Family::Domain, row(-3, "example.net", false)), Err(Error::StorageError));
    assert_eq!(
        db.restore(Family::Domain, row(i32::MAX, "example.net", false)),
        Err(Error::StorageError)
    );
    let orphan = Row {
        id: 1,
        value: "www.example.net".to_string(),
        unscoped: false,
        parents: vec![9],
        attrs: vec![None],
    };
    assert_eq!(db.restore(Family::Subdomain, orphan), Err(Error::NotFound));
    assert_eq!(db, before);
    // New rows get ids behind the greatest that was put back.
    assert_eq!(db.insert(Family::Domain, record("example.net", vec![], vec![])), Ok(6));
}
