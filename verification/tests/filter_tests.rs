use sql2ldap::config::Mappings;
use sql2ldap::filter::build_filter;
use sql2ldap::proto::{FilterNode, LdapResultCode, SubstringParts};
use sql2ldap::strutil::sanitize;

fn map_with(entries: &[(&str, &str)]) -> Mappings {
    let mut m = Mappings::new();
    for (a, c) in entries {
        m.insert(a.to_string(), c.to_string());
    }
    m
}

#[test]
fn equality_filter_binds_value() {
    let m = map_with(&[("cn", "name")]);
    let f = FilterNode::Equality("cn".to_string(), "bob".to_string());
    let (clause, bindings) = build_filter(&m, &f).unwrap();
    assert_eq!(clause, "WHERE LOWER(name) = LOWER($1) ");
    assert_eq!(bindings, vec!["bob".to_string()]);
}

#[test]
fn equality_value_never_in_clause() {
    let m = map_with(&[("cn", "name")]);
    let f1 = FilterNode::Equality("cn".to_string(), "bob'; DROP TABLE x--".to_string());
    let f2 = FilterNode::Equality("cn".to_string(), "alice".to_string());
    let (c1, b1) = build_filter(&m, &f1).unwrap();
    let (c2, _) = build_filter(&m, &f2).unwrap();
    assert_eq!(c1, c2);
    assert!(!c1.contains("DROP"));
    assert_eq!(b1, vec!["bob'; DROP TABLE x--".to_string()]);
}

#[test]
fn substring_filter_builds_like_pattern() {
    let m = map_with(&[("cn", "name"), ("mail", "mail_col")]);
    let f = FilterNode::Substring(
        "mail".to_string(),
        SubstringParts {
            initial: Some("a".to_string()),
            any: vec!["b%c".to_string()],
            last: Some("d".to_string()),
        },
    );
    let (clause, bindings) = build_filter(&m, &f).unwrap();
    assert_eq!(clause, "WHERE LOWER(mail_col) LIKE LOWER($1) ");
    assert_eq!(bindings, vec!["a%b\\%c%d".to_string()]);
}

#[test]
fn substring_without_initial_starts_percent() {
    let m = map_with(&[("mail", "mail_col")]);
    let f = FilterNode::Substring(
        "mail".to_string(),
        SubstringParts { initial: None, any: vec!["mid".to_string()], last: None },
    );
    let (_, bindings) = build_filter(&m, &f).unwrap();
    assert_eq!(bindings, vec!["%mid%".to_string()]);
}

#[test]
fn substring_final_only() {
    let m = map_with(&[("mail", "mail_col")]);
    let f = FilterNode::Substring(
        "mail".to_string(),
        SubstringParts { initial: None, any: vec![], last: Some("end".to_string()) },
    );
    let (_, bindings) = build_filter(&m, &f).unwrap();
    assert_eq!(bindings, vec!["end".to_string()]);
}

#[test]
fn unknown_attribute_becomes_empty_literal() {
    let m = map_with(&[("cn", "name")]);
    let f = FilterNode::Equality("nosuchattr".to_string(), "x".to_string());
    let (clause, bindings) = build_filter(&m, &f).unwrap();
    assert_eq!(clause, "WHERE LOWER('') = LOWER($1) ");
    assert_eq!(bindings, vec!["x".to_string()]);
}

#[test]
fn empty_and_group_emits_nothing() {
    let m = map_with(&[("cn", "name")]);
    let (clause, bindings) = build_filter(&m, &FilterNode::And(vec![])).unwrap();
    assert_eq!(clause, "WHERE ");
    assert!(bindings.is_empty());
}

#[test]
fn empty_or_group_emits_nothing() {
    let m = map_with(&[("cn", "name")]);
    let (clause, bindings) = build_filter(&m, &FilterNode::Or(vec![])).unwrap();
    assert_eq!(clause, "WHERE ");
    assert!(bindings.is_empty());
}

#[test]
fn and_group_joins_with_and() {
    let m = map_with(&[("cn", "name"), ("mail", "mail_col")]);
    let f = FilterNode::And(vec![
        FilterNode::Equality("cn".to_string(), "a".to_string()),
        FilterNode::Present("mail".to_string()),
    ]);
    let (clause, bindings) = build_filter(&m, &f).unwrap();
    assert_eq!(clause, "WHERE (LOWER(name) = LOWER($1) AND mail_col <> '' ) ");
    assert_eq!(bindings, vec!["a".to_string()]);
}

#[test]
fn or_and_not_nest() {
    let m = map_with(&[("cn", "name")]);
    let f = FilterNode::Or(vec![
        FilterNode::Not(Box::new(FilterNode::Present("cn".to_string()))),
        FilterNode::Equality("cn".to_string(), "z".to_string()),
    ]);
    let (clause, bindings) = build_filter(&m, &f).unwrap();
    assert_eq!(clause, "WHERE ((NOT name <> '' ) OR LOWER(name) = LOWER($1) ) ");
    assert_eq!(bindings, vec!["z".to_string()]);
}

#[test]
fn placeholders_numbered_left_to_right() {
    let m = map_with(&[("cn", "name"), ("mail", "mail_col")]);
    let f = FilterNode::And(vec![
        FilterNode::Equality("cn".to_string(), "a".to_string()),
        FilterNode::Equality("mail".to_string(), "b".to_string()),
        FilterNode::Substring(
            "cn".to_string(),
            SubstringParts { initial: Some("c".to_string()), any: vec![], last: None },
        ),
    ]);
    let (clause, bindings) = build_filter(&m, &f).unwrap();
    assert_eq!(
        clause,
        "WHERE (LOWER(name) = LOWER($1) AND LOWER(mail_col) = LOWER($2) \
         AND LOWER(name) LIKE LOWER($3) ) "
    );
    assert_eq!(bindings.len(), 3);
    assert_eq!(bindings[2], "c%");
}

#[test]
fn unsupported_filter_is_refused() {
    let m = map_with(&[("cn", "name")]);
    let r = build_filter(&m, &FilterNode::Unsupported);
    match r {
        Err((code, msg)) => {
            assert!(matches!(code, LdapResultCode::Other));
            assert_eq!(msg, "Filter not implemented");
        },
        Ok(_) => panic!("unsupported filter must be refused"),
    }
}

#[test]
fn unsupported_inside_group_is_refused() {
    let m = map_with(&[("cn", "name")]);
    let f = FilterNode::And(vec![
        FilterNode::Present("cn".to_string()),
        FilterNode::Unsupported,
    ]);
    assert!(build_filter(&m, &f).is_err());
}

#[test]
fn sanitize_escapes_like_metacharacters() {
    assert_eq!(sanitize("50%_"), "50\\%\\_");
    assert_eq!(sanitize("plain"), "plain");
    assert_eq!(sanitize(""), "");
    assert_eq!(sanitize("%%"), "\\%\\%");
}

#[test]
fn equality_binding_is_sanitized() {
    let m = map_with(&[("cn", "name")]);
    let f = FilterNode::Equality("cn".to_string(), "a_b%c".to_string());
    let (_, bindings) = build_filter(&m, &f).unwrap();
    assert_eq!(bindings, vec!["a\\_b\\%c".to_string()]);
}

#[test]
fn placeholders_reach_two_digits() {
    let m = map_with(&[("cn", "name")]);
    let members: Vec<FilterNode> = (0..11)
        .map(|i| FilterNode::Equality("cn".to_string(), format!("v{}", i)))
        .collect();
    let (clause, bindings) = build_filter(&m, &FilterNode::Or(members)).unwrap();
    assert_eq!(bindings.len(), 11);
    assert!(clause.contains("LOWER($10) "));
    assert!(clause.contains("LOWER($11) "));
    assert!(!clause.contains("$12"));
}
