use sn0int::error::Error;
use sn0int::store::filter::{like_chars, Column, Filter, Literal, Op};
use sn0int::store::parse::{tokenize, Token};
use sn0int::store::row::{Datum, Row};
use sn0int::store::schema::{Family, Kind};
use sn0int::text::chars_of;

fn like(text: &str, pattern: &str) -> bool {
    like_chars(&chars_of(text), &chars_of(pattern))
}

fn cmp(column: Column, op: Op, text: &str) -> Filter {
    Filter::Cmp(column, op, Literal::Text(text.to_string()))
}

#[test]
fn unknown_column_is_a_syntax_error() {
    assert_eq!(Filter::parse(Family::Domain, "unknown_col = 'x'"), Err(Error::FilterSyntax));
    assert_eq!(Filter::parse(Family::Network, "country = 'x'"), Err(Error::FilterSyntax));
    assert_eq!(
        Filter::parse(Family::Domain, "value = 'x' and unknown_col = 'x'"),
        Err(Error::FilterSyntax)
    );
    assert_eq!(Filter::parse(Family::Domain, "domain_id = 1"), Err(Error::FilterSyntax));
    assert!(Filter::parse(Family::Subdomain, "domain_id = 1").is_ok());
}

#[test]
fn kinds_must_agree() {
    assert_eq!(Filter::parse(Family::Domain, "value = 1"), Err(Error::FilterSyntax));
    assert_eq!(Filter::parse(Family::Domain, "id = '1'"), Err(Error::FilterSyntax));
    assert_eq!(Filter::parse(Family::Domain, "id like 1"), Err(Error::FilterSyntax));
    assert_eq!(Filter::parse(Family::Domain, "unscoped = 'no'"), Err(Error::FilterSyntax));
    assert_eq!(Filter::parse(Family::Network, "latitude = 1"), Err(Error::FilterSyntax));
    assert_eq!(Filter::parse(Family::Network, "latitude = '1'"), Err(Error::FilterSyntax));
    assert_eq!(Filter::parse(Family::IpAddr, "asn = 'x'"), Err(Error::FilterSyntax));
    assert!(Filter::parse(Family::IpAddr, "asn != -5").is_ok());
    assert!(Filter::parse(Family::Email, "valid = 1").is_ok());
}

#[test]
fn filters_as_they_are_read() {
    assert_eq!(
        Filter::parse(Family::Domain, "value = 'example.com'"),
        Ok(cmp(Column::Value, Op::Eq, "example.com"))
    );
    assert_eq!(
        Filter::parse(Family::IpAddr, "  country!='US'  "),
        Ok(cmp(Column::Attr(0), Op::Ne, "US"))
    );
    assert_eq!(
        Filter::parse(Family::IpAddr, "asn = 64496"),
        Ok(Filter::Cmp(Column::Attr(1), Op::Eq, Literal::Int(64496)))
    );
    assert_eq!(
        Filter::parse(Family::SubdomainIpAddr, "ip_addr_id = 3"),
        Ok(Filter::Cmp(Column::Parent(1), Op::Eq, Literal::Int(3)))
    );
    assert_eq!(
        Filter::parse(Family::Domain, "not value like '%.com' or id = 1 and unscoped = 0"),
        Ok(Filter::Or(
            Box::new(Filter::Not(Box::new(cmp(Column::Value, Op::Like, "%.com")))),
            Box::new(Filter::And(
                Box::new(Filter::Cmp(Column::Id, Op::Eq, Literal::Int(1))),
                Box::new(Filter::Cmp(Column::Unscoped, Op::Eq, Literal::Int(0))),
            )),
        ))
    );
    assert_eq!(
        Filter::parse(Family::Domain, "(id = 1 or id = 2) and not (id = 2)"),
        Ok(Filter::And(
            Box::new(Filter::Or(
                Box::new(Filter::Cmp(Column::Id, Op::Eq, Literal::Int(1))),
                Box::new(Filter::Cmp(Column::Id, Op::Eq, Literal::Int(2))),
            )),
            Box::new(Filter::Not(Box::new(Filter::Cmp(Column::Id, Op::Eq, Literal::Int(2))))),
        ))
    );
    assert_eq!(
        Filter::parse(Family::Domain, "id = 1 or id = 2 or id = 3"),
        Ok(Filter::Or(
            Box::new(Filter::Cmp(Column::Id, Op::Eq, Literal::Int(1))),
            Box::new(Filter::Or(
                Box::new(Filter::Cmp(Column::Id, Op::Eq, Literal::Int(2))),
                Box::new(Filter::Cmp(Column::Id, Op::Eq, Literal::Int(3))),
            )),
        ))
    );
}

#[test]
fn texts_that_are_no_filter() {
    for text in [
        "",
        "   ",
        "value",
        "value =",
        "= 'x'",
        "value = 'x",
        "value = x",
        "value == 'x'",
        "value ! 'x'",
        "value = 'x' and",
        "value = 'x' or or id = 1",
        "value = 'x' id = 1",
        "(value = 'x'",
        "value = 'x')",
        "()",
        "not",
        "value = \"x\"",
        "value = 'x'; drop table domains",
        "id = 99999999999999999999",
        "id = -",
        "id = 1.5",
        "value LIKE 'x'",
    ] {
        assert_eq!(Filter::parse(Family::Domain, text), Err(Error::FilterSyntax), "{:?}", text);
    }
}

#[test]
fn tokens_of_a_text() {
    assert_eq!(
        tokenize("(a_1!=-12)like'x y'="),
        Some(vec![
            Token::Open,
            Token::Word("a_1".to_string()),
            Token::Ne,
            Token::Int(-12),
            Token::Close,
            Token::Word("like".to_string()),
            Token::Text("x y".to_string()),
            Token::Eq,
        ])
    );
    assert_eq!(tokenize(" \t\r\n"), Some(vec![]));
    assert_eq!(
        tokenize("9223372036854775807 -9223372036854775808 007 ''"),
        Some(vec![
            Token::Int(i64::MAX),
            Token::Int(i64::MIN),
            Token::Int(7),
            Token::Text(String::new()),
        ])
    );
    assert_eq!(tokenize("9223372036854775808"), None);
    assert_eq!(tokenize("-9223372036854775809"), None);
    assert_eq!(tokenize("a - b"), None);
    assert_eq!(tokenize("a # b"), None);
    assert_eq!(tokenize("'é' ä"), None);
    assert_eq!(tokenize("'日本'"), Some(vec![Token::Text("日本".to_string())]));
}

#[test]
fn like_patterns() {
    assert!(like("", ""));
    assert!(like("", "%"));
    assert!(like("", "%%"));
    assert!(!like("", "_"));
    assert!(!like("a", ""));
    assert!(like("a", "_"));
    assert!(like("a", "%"));
    assert!(like("a", "a"));
    assert!(!like("a", "b"));
    assert!(!like("a", "A"));
    assert!(like("example.com", "%.com"));
    assert!(like("example.com", "example%"));
    assert!(like("example.com", "%ample%"));
    assert!(like("example.com", "e%e%.c_m"));
    assert!(like("example.com", "%"));
    assert!(like("example.com", "___________"));
    assert!(!like("example.com", "__________"));
    assert!(!like("example.com", "%.org"));
    assert!(!like("example.com", "example"));
    assert!(!like("example.com", "xample.com"));
    assert!(like("aaa", "%a%a%a%"));
    assert!(!like("aa", "%a%a%a%"));
    assert!(like("a%b", "a%b"));
    assert!(like("日本語", "日_語"));
}

#[test]
fn a_filter_holds_of_a_row() {
    let row = Row {
        id: 3,
        value: "www.example.com".to_string(),
        unscoped: true,
        parents: vec![7],
        attrs: vec![Some(Datum::Bool(true))],
    };
    let check = |text: &str| Filter::parse(Family::Subdomain, text).unwrap().matches(&row);
    assert!(check("id = 3"));
    assert!(!check("id != 3"));
    assert!(check("domain_id = 7"));
    assert!(check("unscoped = 1"));
    assert!(!check("unscoped = 0"));
    assert!(check("unscoped != 2"));
    assert!(check("resolvable = 1"));
    assert!(check("value like 'www.%'"));
    assert!(check("value != 'example.com'"));
    assert!(!check("not value like '%'"));
    assert!(check("id = 1 or id = 3"));
    assert!(!check("id = 1 and id = 3"));
    let unknown = Row { attrs: vec![None], ..row.clone() };
    let check = |text: &str| Filter::parse(Family::Subdomain, text).unwrap().matches(&unknown);
    assert!(!check("resolvable = 1"));
    assert!(!check("resolvable = 0"));
    assert!(!check("resolvable != 1"));
    assert!(check("not resolvable = 1"));
    assert!(Filter::in_scope().matches(&Row { unscoped: false, ..row.clone() }));
    assert!(!Filter::in_scope().matches(&row));
    assert!(Filter::by_id(3).matches(&row));
    assert!(!Filter::by_id(4).matches(&row));
}

#[test]
fn columns_of_a_family() {
    let column = |family: Family, name: &str| family.column(&name.to_string());
    assert_eq!(column(Family::Network, "id"), Some((Column::Id, Kind::Integer)));
    assert_eq!(column(Family::Network, "value"), Some((Column::Value, Kind::Text)));
    assert_eq!(column(Family::Network, "unscoped"), Some((Column::Unscoped, Kind::Boolean)));
    assert_eq!(column(Family::Network, "latitude"), Some((Column::Attr(0), Kind::Real)));
    assert_eq!(column(Family::Network, "longitude"), Some((Column::Attr(1), Kind::Real)));
    assert_eq!(column(Family::NetworkDevice, "device_id"), Some((Column::Parent(1), Kind::Integer)));
    assert_eq!(column(Family::NetworkDevice, "ipaddr"), Some((Column::Attr(0), Kind::Text)));
    assert_eq!(column(Family::Url, "status"), Some((Column::Attr(0), Kind::Integer)));
    assert_eq!(column(Family::Network, "device_id"), None);
    assert_eq!(column(Family::Network, "Latitude"), None);
}
