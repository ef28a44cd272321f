use sql2ldap::config::Mappings;
use sql2ldap::dn::{BaseOutcome, classify_base, suffix_parse_ok};
use sql2ldap::projection::build_select;
use sql2ldap::proto::{FilterNode, LdapMsg, LdapResultCode, Scope, SearchRequest};
use sql2ldap::search::{SearchPlan, SqlRow, plan_search, shape_row, shape_rows};

const SUFFIX: &str = "dc=example,dc=com";

fn map_cn_mail() -> Mappings {
    let mut m = Mappings::new();
    m.insert("cn".to_string(), "name".to_string());
    m.insert("mailAddress".to_string(), "mail".to_string());
    m
}

fn request(base: &str, scope: Scope, filter: FilterNode, attrs: &[&str], sizelimit: i32) -> SearchRequest {
    SearchRequest {
        base: base.to_string(),
        scope,
        filter,
        attrs: attrs.iter().map(|s| s.to_string()).collect(),
        sizelimit,
    }
}

fn entry_of(msg: &LdapMsg) -> (&String, &Vec<sql2ldap::proto::LdapPartialAttribute>) {
    match msg {
        LdapMsg::SearchResultEntry(e) => (&e.dn, &e.attributes),
        _ => panic!("expected a search result entry"),
    }
}

fn assert_done(msg: &LdapMsg, code: LdapResultCode, text: &str) {
    match msg {
        LdapMsg::SearchResultDone(c, m) => {
            assert_eq!(*c, code);
            assert_eq!(m, text);
        },
        _ => panic!("expected a search result done"),
    }
}

#[test]
fn root_dse_probe() {
    let m = map_cn_mail();
    let req = request("", Scope::Base, FilterNode::Present("objectClass".to_string()), &[], 0);
    match plan_search(&req, &m, SUFFIX, "people") {
        SearchPlan::Respond(ms) => {
            assert_eq!(ms.len(), 2);
            let (dn, attrs) = entry_of(&ms[0]);
            assert_eq!(dn, "");
            assert_eq!(attrs.len(), 2);
            assert_eq!(attrs[0].atype, "objectClass");
            assert_eq!(attrs[0].vals, vec!["top".to_string()]);
            assert_eq!(attrs[1].atype, "namingContexts");
            assert_eq!(attrs[1].vals, vec![SUFFIX.to_string()]);
            assert_done(&ms[1], LdapResultCode::Success, "");
        },
        SearchPlan::Query { .. } => panic!("root DSE must not reach SQL"),
    }
}

#[test]
fn suffix_probe_dc() {
    let m = map_cn_mail();
    let req = request(SUFFIX, Scope::Base, FilterNode::And(vec![]), &[], 0);
    match plan_search(&req, &m, SUFFIX, "people") {
        SearchPlan::Respond(ms) => {
            assert_eq!(ms.len(), 2);
            let (dn, attrs) = entry_of(&ms[0]);
            assert_eq!(dn, SUFFIX);
            assert_eq!(attrs[0].atype, "objectClass");
            assert_eq!(attrs[0].vals, vec!["dcObject".to_string()]);
            assert_eq!(attrs[1].atype, "dc");
            assert_eq!(attrs[1].vals, vec!["example".to_string()]);
            assert_eq!(attrs[2].atype, "hasSubordinates");
            assert_eq!(attrs[2].vals, vec!["TRUE".to_string()]);
            assert_eq!(attrs[3].atype, "entryDN");
            assert_eq!(attrs[3].vals, vec![SUFFIX.to_string()]);
            assert_done(&ms[1], LdapResultCode::Success, "");
        },
        SearchPlan::Query { .. } => panic!("suffix probe must not reach SQL"),
    }
}

#[test]
fn suffix_probe_ou() {
    let m = map_cn_mail();
    let suffix = "ou=People,dc=example,dc=com";
    let req = request(suffix, Scope::Base, FilterNode::And(vec![]), &[], 0);
    match plan_search(&req, &m, suffix, "people") {
        SearchPlan::Respond(ms) => {
            let (_, attrs) = entry_of(&ms[0]);
            assert_eq!(attrs[0].vals, vec!["organizationalUnit".to_string()]);
            assert_eq!(attrs[1].atype, "ou");
            assert_eq!(attrs[1].vals, vec!["people".to_string()]);
        },
        SearchPlan::Query { .. } => panic!("suffix probe must not reach SQL"),
    }
}

#[test]
fn suffix_probe_unsupported_rdn_type() {
    let m = map_cn_mail();
    let suffix = "o=Example,c=us";
    let req = request(suffix, Scope::Base, FilterNode::And(vec![]), &[], 0);
    match plan_search(&req, &m, suffix, "people") {
        SearchPlan::Respond(ms) => {
            assert_eq!(ms.len(), 1);
            assert_done(&ms[0], LdapResultCode::Other, "Not implemented");
        },
        SearchPlan::Query { .. } => panic!("unsupported RDN must not reach SQL"),
    }
}

#[test]
fn ancestor_probe_is_empty_success() {
    let m = map_cn_mail();
    let req = request("dc=com", Scope::Base, FilterNode::And(vec![]), &[], 0);
    match plan_search(&req, &m, SUFFIX, "people") {
        SearchPlan::Respond(ms) => {
            assert_eq!(ms.len(), 1);
            assert_done(&ms[0], LdapResultCode::Success, "");
        },
        SearchPlan::Query { .. } => panic!("ancestor probe must not reach SQL"),
    }
}

#[test]
fn base_outside_tree_is_no_such_object() {
    let m = map_cn_mail();
    let req = request("dc=other,dc=org", Scope::Base, FilterNode::And(vec![]), &[], 0);
    match plan_search(&req, &m, SUFFIX, "people") {
        SearchPlan::Respond(ms) => {
            assert_eq!(ms.len(), 1);
            assert_done(&ms[0], LdapResultCode::NoSuchObject, "");
        },
        SearchPlan::Query { .. } => panic!("foreign base must not reach SQL"),
    }
}

#[test]
fn leaf_lookup_builds_single_binding_query() {
    let m = map_cn_mail();
    let req = request(
        "cn=alice,dc=example,dc=com",
        Scope::Base,
        FilterNode::And(vec![]),
        &[],
        0,
    );
    match plan_search(&req, &m, SUFFIX, "people") {
        SearchPlan::Query { sql, bindings } => {
            assert_eq!(
                sql,
                "SELECT name AS cn, mail AS mailaddress FROM people WHERE name = $1 "
            );
            assert_eq!(bindings, vec!["alice".to_string()]);
        },
        SearchPlan::Respond(_) => panic!("leaf lookup must query SQL"),
    }
}

#[test]
fn malformed_leaf_rdn_is_no_such_object() {
    let m = map_cn_mail();
    for base in [
        "uid=alice,dc=example,dc=com",
        "cn=al=ice,dc=example,dc=com",
        "cn=a,b,dc=example,dc=com",
        "cn=,dc=example,dc=com",
    ] {
        let req = request(base, Scope::Base, FilterNode::And(vec![]), &[], 0);
        match plan_search(&req, &m, SUFFIX, "people") {
            SearchPlan::Respond(ms) => {
                assert_done(&ms[0], LdapResultCode::NoSuchObject, "");
            },
            SearchPlan::Query { .. } => panic!("malformed leaf must not reach SQL"),
        }
    }
}

#[test]
fn subtree_scan_uses_filter_and_limit() {
    let m = map_cn_mail();
    let req = request(
        SUFFIX,
        Scope::Subtree,
        FilterNode::Equality("cn".to_string(), "bob".to_string()),
        &[],
        25,
    );
    match plan_search(&req, &m, SUFFIX, "people") {
        SearchPlan::Query { sql, bindings } => {
            assert_eq!(
                sql,
                "SELECT name AS cn, mail AS mailaddress FROM people \
                 WHERE LOWER(name) = LOWER($1) LIMIT 25"
            );
            assert_eq!(bindings, vec!["bob".to_string()]);
        },
        SearchPlan::Respond(_) => panic!("subtree scan must query SQL"),
    }
}

#[test]
fn non_base_scope_away_from_suffix_is_empty_success() {
    let m = map_cn_mail();
    let req = request(
        "ou=x,dc=example,dc=com",
        Scope::OneLevel,
        FilterNode::And(vec![]),
        &[],
        0,
    );
    match plan_search(&req, &m, SUFFIX, "people") {
        SearchPlan::Respond(ms) => {
            assert_eq!(ms.len(), 1);
            assert_done(&ms[0], LdapResultCode::Success, "");
        },
        SearchPlan::Query { .. } => panic!("foreign non-base scope must not reach SQL"),
    }
}

#[test]
fn unsupported_filter_in_subtree_scan() {
    let m = map_cn_mail();
    let req = request(SUFFIX, Scope::Subtree, FilterNode::Unsupported, &[], 0);
    match plan_search(&req, &m, SUFFIX, "people") {
        SearchPlan::Respond(ms) => {
            assert_eq!(ms.len(), 1);
            assert_done(&ms[0], LdapResultCode::Other, "Filter not implemented");
        },
        SearchPlan::Query { .. } => panic!("unsupported filter must not reach SQL"),
    }
}

#[test]
fn select_keeps_cn_for_requested_attributes() {
    let m = map_cn_mail();
    let attrs = vec!["mailAddress".to_string()];
    assert_eq!(build_select(&m, &attrs), "SELECT mail AS mailaddress, name AS cn ");
    let with_cn = vec!["cn".to_string(), "mailAddress".to_string()];
    assert_eq!(build_select(&m, &with_cn), "SELECT name AS cn, mail AS mailaddress ");
    let star = vec!["*".to_string()];
    assert_eq!(build_select(&m, &star), "SELECT name AS cn, mail AS mailaddress ");
    let unknown = vec!["nosuch".to_string()];
    assert_eq!(build_select(&m, &unknown), "SELECT name AS cn ");
}

#[test]
fn classify_base_outcomes() {
    assert!(matches!(classify_base("", Scope::Base, SUFFIX), BaseOutcome::RootDse));
    assert!(matches!(classify_base("dc=Example,dc=COM", Scope::Base, SUFFIX), BaseOutcome::SuffixEntry(..)));
    match classify_base("cn=Alice,dc=example,dc=com", Scope::Base, SUFFIX) {
        BaseOutcome::Leaf(cn) => assert_eq!(cn, "alice"),
        _ => panic!("expected a leaf lookup"),
    }
    assert!(matches!(classify_base(SUFFIX, Scope::Subtree, SUFFIX), BaseOutcome::Subtree));
    assert!(matches!(classify_base("dc=com", Scope::Base, SUFFIX), BaseOutcome::Ancestor));
}

#[test]
fn suffix_parse_check() {
    assert!(suffix_parse_ok(SUFFIX));
    assert!(suffix_parse_ok("ou=People,dc=example,dc=com"));
    assert!(!suffix_parse_ok("dc=example"));
    assert!(!suffix_parse_ok("example,dc=com"));
    assert!(!suffix_parse_ok(""));
}

fn row(cols: &[(&str, Option<&str>)]) -> SqlRow {
    let mut r = SqlRow::new();
    for (alias, v) in cols {
        r.push_col(alias.to_string(), v.map(|s| s.to_string()));
    }
    r
}

#[test]
fn shaped_row_dn_appends_suffix() {
    let m = map_cn_mail();
    let r = row(&[("cn", Some("alice")), ("mailaddress", Some("a@example.com"))]);
    let e = shape_row(&r, &vec![], &m, SUFFIX);
    assert_eq!(e.dn, "cn=alice,dc=example,dc=com");
}

#[test]
fn shaped_row_dn_without_suffix() {
    let m = map_cn_mail();
    let r = row(&[("cn", Some("alice")), ("mailaddress", None)]);
    let e = shape_row(&r, &vec![], &m, "");
    assert_eq!(e.dn, "cn=alice");
}

#[test]
fn shaped_row_skips_null_and_empty_values() {
    let m = map_cn_mail();
    let r = row(&[("cn", Some("alice")), ("mailaddress", None)]);
    let e = shape_row(&r, &vec![], &m, SUFFIX);
    assert_eq!(e.attributes.len(), 1);
    assert_eq!(e.attributes[0].atype, "cn");
    assert_eq!(e.attributes[0].vals, vec!["alice".to_string()]);

    let r2 = row(&[("cn", Some("alice")), ("mailaddress", Some(""))]);
    let e2 = shape_row(&r2, &vec![], &m, SUFFIX);
    assert_eq!(e2.attributes.len(), 1);
}

#[test]
fn shaped_row_uses_canonical_attribute_case() {
    let m = map_cn_mail();
    let r = row(&[("cn", Some("alice")), ("mailaddress", Some("a@example.com"))]);
    let e = shape_row(&r, &vec![], &m, SUFFIX);
    assert_eq!(e.attributes[1].atype, "mailAddress");
}

#[test]
fn shaped_row_respects_requested_attributes() {
    let m = map_cn_mail();
    let r = row(&[("cn", Some("alice")), ("mailaddress", Some("a@example.com"))]);
    let attrs = vec!["MAILADDRESS".to_string(), "nosuch".to_string()];
    let e = shape_row(&r, &attrs, &m, SUFFIX);
    assert_eq!(e.attributes.len(), 1);
    assert_eq!(e.attributes[0].atype, "mailAddress");
}

#[test]
fn shaped_rows_end_with_success() {
    let m = map_cn_mail();
    let rows = vec![
        row(&[("cn", Some("a")), ("mailaddress", None)]),
        row(&[("cn", Some("b")), ("mailaddress", Some("b@x"))]),
    ];
    let ms = shape_rows(&rows, &vec![], &m, SUFFIX);
    assert_eq!(ms.len(), 3);
    let (dn0, _) = entry_of(&ms[0]);
    assert_eq!(dn0, "cn=a,dc=example,dc=com");
    let (dn1, _) = entry_of(&ms[1]);
    assert_eq!(dn1, "cn=b,dc=example,dc=com");
    assert_done(&ms[2], LdapResultCode::Success, "");
}

#[test]
fn non_positive_sizelimit_adds_no_limit() {
    let m = map_cn_mail();
    for lim in [0, -5] {
        let req = request(SUFFIX, Scope::Subtree, FilterNode::And(vec![]), &[], lim);
        match plan_search(&req, &m, SUFFIX, "people") {
            SearchPlan::Query { sql, .. } => {
                assert!(!sql.contains("LIMIT"));
                assert!(sql.ends_with("WHERE "));
            },
            SearchPlan::Respond(_) => panic!("subtree scan must query SQL"),
        }
    }
}
