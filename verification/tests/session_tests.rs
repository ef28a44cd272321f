use sql2ldap::config::Mappings;
use sql2ldap::proto::{FilterNode, LdapMsg, LdapResultCode, Scope, SearchRequest};
use sql2ldap::session::{LdapSession, ServerOp, SessionAction};

const SUFFIX: &str = "dc=example,dc=com";

fn map_cn() -> Mappings {
    let mut m = Mappings::new();
    m.insert("cn".to_string(), "name".to_string());
    m
}

#[test]
fn anonymous_bind_succeeds() {
    let mut s = LdapSession::new();
    assert_eq!(s.dn, "");
    let r = s.do_bind("", "");
    assert!(matches!(r, LdapMsg::BindResponse(LdapResultCode::Success)));
    assert_eq!(s.dn, "Anonymous");
}

#[test]
fn credentialed_bind_is_refused() {
    let mut s = LdapSession::new();
    let r = s.do_bind("u", "p");
    assert!(matches!(r, LdapMsg::BindResponse(LdapResultCode::InvalidCredentials)));
    assert_eq!(s.dn, "");
    let r2 = s.do_bind("cn=admin", "");
    assert!(matches!(r2, LdapMsg::BindResponse(LdapResultCode::InvalidCredentials)));
    let r3 = s.do_bind("", "secret");
    assert!(matches!(r3, LdapMsg::BindResponse(LdapResultCode::InvalidCredentials)));
}

#[test]
fn whoami_reports_bound_dn() {
    let mut s = LdapSession::new();
    match s.do_whoami() {
        LdapMsg::WhoamiResponse(text) => assert_eq!(text, "dn: "),
        _ => panic!("expected a whoami response"),
    }
    s.do_bind("", "");
    match s.do_whoami() {
        LdapMsg::WhoamiResponse(text) => assert_eq!(text, "dn: Anonymous"),
        _ => panic!("expected a whoami response"),
    }
}

#[test]
fn handle_op_dispatches_bind_and_whoami() {
    let m = map_cn();
    let mut s = LdapSession::new();
    let bind = ServerOp::SimpleBind(String::new(), String::new());
    match s.handle_op(&bind, &m, SUFFIX, "people") {
        SessionAction::Send(ms) => {
            assert_eq!(ms.len(), 1);
            assert!(matches!(ms[0], LdapMsg::BindResponse(LdapResultCode::Success)));
        },
        _ => panic!("bind must answer at once"),
    }
    match s.handle_op(&ServerOp::Whoami, &m, SUFFIX, "people") {
        SessionAction::Send(ms) => match &ms[0] {
            LdapMsg::WhoamiResponse(text) => assert_eq!(text, "dn: Anonymous"),
            _ => panic!("expected a whoami response"),
        },
        _ => panic!("whoami must answer at once"),
    }
}

#[test]
fn handle_op_unbind_disconnects() {
    let m = map_cn();
    let mut s = LdapSession::new();
    assert!(matches!(
        s.handle_op(&ServerOp::Unbind, &m, SUFFIX, "people"),
        SessionAction::Disconnect
    ));
}

#[test]
fn handle_op_search_runs_query_or_responds() {
    let m = map_cn();
    let mut s = LdapSession::new();
    let scan = ServerOp::Search(SearchRequest {
        base: SUFFIX.to_string(),
        scope: Scope::Subtree,
        filter: FilterNode::Equality("cn".to_string(), "bob".to_string()),
        attrs: vec![],
        sizelimit: 0,
    });
    match s.handle_op(&scan, &m, SUFFIX, "people") {
        SessionAction::RunQuery { sql, bindings } => {
            assert_eq!(sql, "SELECT name AS cn FROM people WHERE LOWER(name) = LOWER($1) ");
            assert_eq!(bindings, vec!["bob".to_string()]);
        },
        _ => panic!("a subtree scan must run a query"),
    }
    let probe = ServerOp::Search(SearchRequest {
        base: String::new(),
        scope: Scope::Base,
        filter: FilterNode::And(vec![]),
        attrs: vec![],
        sizelimit: 0,
    });
    match s.handle_op(&probe, &m, SUFFIX, "people") {
        SessionAction::Send(ms) => assert_eq!(ms.len(), 2),
        _ => panic!("a root DSE probe must answer at once"),
    }
}
