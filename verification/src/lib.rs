//! LDAP-to-SQL gateway core: translates LDAP search requests over a single
//! relational table into parameterized SQL, classifies search base DNs
//! against a configured suffix, shapes result rows back into LDAP entries,
//! and drives the per-connection session state machine.
pub mod config;
pub mod dn;
pub mod filter;
pub mod laws;
pub mod projection;
pub mod proto;
pub mod search;
pub mod session;
pub mod strutil;
