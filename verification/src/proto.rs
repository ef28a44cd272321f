//! The LDAP values the core works on, as plain data: search scopes, filter
//! trees, result codes, and the messages a search produces. The wire codec
//! lives outside the library and converts to and from these types.
use vstd::prelude::*;

verus! {

/// LDAP search scope.
#[derive(Clone, Copy, PartialEq, Eq, Structural, Debug)]
pub enum Scope {
    Base,
    OneLevel,
    Subtree,
}

/// The LDAP result codes the gateway emits.
#[derive(Clone, Copy, PartialEq, Eq, Structural, Debug)]
pub enum LdapResultCode {
    Success,
    OperationsError,
    NoSuchObject,
    InvalidCredentials,
    Other,
}

/// The pieces of a substring filter: `initial*any[0]*...*any[n-1]*last`.
pub struct SubstringParts {
    pub initial: Option<String>,
    pub any: Vec<String>,
    pub last: Option<String>,
}

/// An LDAP search filter tree. Filter kinds the gateway does not translate
/// arrive as `Unsupported` and are answered with result code `Other`.
pub enum FilterNode {
    And(Vec<FilterNode>),
    Or(Vec<FilterNode>),
    Not(Box<FilterNode>),
    Equality(String, String),
    Substring(String, SubstringParts),
    Present(String),
    Unsupported,
}

/// One attribute of a search result entry: its type label and its values.
pub struct LdapPartialAttribute {
    pub atype: String,
    pub vals: Vec<String>,
}

/// One search result entry: a DN and its attributes.
pub struct LdapSearchResultEntry {
    pub dn: String,
    pub attributes: Vec<LdapPartialAttribute>,
}

/// A message produced while answering a request.
pub enum LdapMsg {
    BindResponse(LdapResultCode),
    SearchResultEntry(LdapSearchResultEntry),
    SearchResultDone(LdapResultCode, String),
    WhoamiResponse(String),
    DisconnectionNotice(LdapResultCode, String),
}

/// The view of an attribute: its type label and values.
#[verifier::ext_equal]
pub struct AttrV {
    pub atype: Seq<char>,
    pub vals: Seq<Seq<char>>,
}

/// The view of a search result entry.
#[verifier::ext_equal]
pub struct EntryV {
    pub dn: Seq<char>,
    pub attributes: Seq<AttrV>,
}

/// The view of a produced message.
#[verifier::ext_equal]
pub enum MsgV {
    BindResponse(LdapResultCode),
    SearchResultEntry(EntryV),
    SearchResultDone(LdapResultCode, Seq<char>),
    WhoamiResponse(Seq<char>),
    DisconnectionNotice(LdapResultCode, Seq<char>),
}

impl View for LdapPartialAttribute {
    type V = AttrV;

    open spec fn view(&self) -> AttrV {
        AttrV { atype: self.atype@, vals: self.vals.deep_view() }
    }
}

/// The views of a sequence of attributes, in order.
pub open spec fn spec_attrs_view(s: Seq<LdapPartialAttribute>) -> Seq<AttrV> {
    s.map_values(|a: LdapPartialAttribute| a@)
}

impl View for LdapSearchResultEntry {
    type V = EntryV;

    open spec fn view(&self) -> EntryV {
        EntryV { dn: self.dn@, attributes: spec_attrs_view(self.attributes@) }
    }
}

impl View for LdapMsg {
    type V = MsgV;

    open spec fn view(&self) -> MsgV {
        match self {
            LdapMsg::BindResponse(c) => MsgV::BindResponse(*c),
            LdapMsg::SearchResultEntry(e) => MsgV::SearchResultEntry(e@),
            LdapMsg::SearchResultDone(c, m) => MsgV::SearchResultDone(*c, m@),
            LdapMsg::WhoamiResponse(m) => MsgV::WhoamiResponse(m@),
            LdapMsg::DisconnectionNotice(c, m) => MsgV::DisconnectionNotice(*c, m@),
        }
    }
}

/// The views of a sequence of messages, in order.
pub open spec fn spec_msgs_view(s: Seq<LdapMsg>) -> Seq<MsgV> {
    s.map_values(|m: LdapMsg| m@)
}

/// A search request as the core consumes it.
pub struct SearchRequest {
    pub base: String,
    pub scope: Scope,
    pub filter: FilterNode,
    pub attrs: Vec<String>,
    pub sizelimit: i32,
}

} // verus!
