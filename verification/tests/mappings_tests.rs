use sql2ldap::config::{
    ConfigLdap, ConfigSql, ConfigSqlBackend, Mappings, default_server_debug,
    default_server_port, default_server_seccomp,
};

#[test]
fn lookup_is_case_insensitive() {
    let mut m = Mappings::new();
    m.insert("CN".to_string(), "name_col".to_string());
    let a = m.get("CN").unwrap();
    let b = m.get("cn").unwrap();
    let c = m.get("Cn").unwrap();
    assert_eq!(a, b);
    assert_eq!(b, c);
    assert_eq!(a, ("cn".to_string(), "CN".to_string(), "name_col".to_string()));
}

#[test]
fn canonical_case_is_preserved() {
    let mut m = Mappings::new();
    m.insert("mailAddress".to_string(), "mail".to_string());
    let (lower, canonical, col) = m.get("MAILADDRESS").unwrap();
    assert_eq!(lower, "mailaddress");
    assert_eq!(canonical, "mailAddress");
    assert_eq!(col, "mail");
}

#[test]
fn missing_attribute_is_none() {
    let m = Mappings::new();
    assert!(m.get("cn").is_none());
}

#[test]
fn last_insert_wins() {
    let mut m = Mappings::new();
    m.insert("cn".to_string(), "old_col".to_string());
    m.insert("CN".to_string(), "new_col".to_string());
    assert_eq!(m.len(), 1);
    let (_, canonical, col) = m.get("cn").unwrap();
    assert_eq!(canonical, "CN");
    assert_eq!(col, "new_col");
}

#[test]
fn iter_walks_in_insertion_order() {
    let mut m = Mappings::with_capacity(3);
    m.insert("cn".to_string(), "c1".to_string());
    m.insert("mail".to_string(), "c2".to_string());
    m.insert("sn".to_string(), "c3".to_string());
    let mut it = m.iter();
    assert_eq!(it.len(), 3);
    assert_eq!(it.next().unwrap().2, "c1");
    assert_eq!(it.next().unwrap().2, "c2");
    let last = it.next().unwrap();
    assert_eq!(last.0, "sn");
    assert_eq!(it.len(), 0);
    assert!(it.next().is_none());
}

#[test]
fn defaults_match_documentation() {
    assert_eq!(default_server_port(), 389);
    assert!(!default_server_seccomp());
    assert!(!default_server_debug());
}

fn sql_config(host: &str) -> ConfigSql {
    ConfigSql {
        backend: ConfigSqlBackend::PostgreSQL,
        host: host.to_string(),
        port: None,
        user: "u".to_string(),
        pass: "p".to_string(),
        database: "d".to_string(),
        table: "t".to_string(),
    }
}

#[test]
fn socket_extracts_unix_path() {
    let c = sql_config("unix:///var/run/postgresql");
    assert_eq!(c.socket(), Some("/var/run/postgresql"));
}

#[test]
fn socket_is_none_for_tcp_host() {
    let c = sql_config("db.example.org");
    assert!(c.socket().is_none());
    let short = sql_config("unix:/");
    assert!(short.socket().is_none());
}

#[test]
fn ldap_config_holds_suffix() {
    let l = ConfigLdap { suffix: "dc=example,dc=com".to_string() };
    assert_eq!(l.suffix, "dc=example,dc=com");
}
