//! SessionStateMachine: the per-connection lifecycle. A session starts
//! unbound, becomes bound through an anonymous simple bind, and answers
//! bind, search and whoami requests until the peer unbinds.
use vstd::prelude::*;
use vstd::string::*;

use crate::config::Mappings;
use crate::dn::suffix_parseable;
use crate::filter::num_bindings;
use crate::projection::has_cn;
use crate::proto::{LdapMsg, LdapResultCode, MsgV, Scope, SearchRequest, spec_msgs_view};
use crate::search::{SearchPlan, SpecPlan, plan_search, spec_plan};
use crate::strutil::lower_seq;

verus! {

/// A decoded request, as the session consumes it.
pub enum ServerOp {
    SimpleBind(String, String),
    Search(SearchRequest),
    Whoami,
    Unbind,
}

/// What the connection loop does next: send messages and keep the session,
/// run a SQL query and stream its rows back as entries, or close.
pub enum SessionAction {
    Send(Vec<LdapMsg>),
    RunQuery { sql: String, bindings: Vec<String> },
    Disconnect,
}

/// The messages `Send` carries for a search answered without SQL.
pub open spec fn search_action_rel(r: SessionAction, s: SpecPlan) -> bool {
    match (r, s) {
        (SessionAction::Send(ms), SpecPlan::Respond(sv)) => spec_msgs_view(ms@) == sv,
        (SessionAction::RunQuery { sql, bindings }, SpecPlan::Query(q, b)) => sql@ == q
            && bindings.deep_view() == b,
        _ => false,
    }
}

/// An anonymous bind: both the DN and the password are empty.
pub open spec fn is_anonymous_bind(dn: Seq<char>, pw: Seq<char>) -> bool {
    dn.len() == 0 && pw.len() == 0
}

/// One client connection's state: the DN it is bound as, empty while
/// unbound.
pub struct LdapSession {
    pub dn: String,
}

impl LdapSession {
    /// A fresh, unbound session.
    pub fn new() -> (r: LdapSession)
        ensures
            r.dn@ == Seq::<char>::empty(),
    {
        LdapSession { dn: String::new() }
    }

    /// A simple bind: only the anonymous bind succeeds and binds the
    /// session as `Anonymous`; anything else is refused and leaves the
    /// session as it was.
    pub fn do_bind(&mut self, dn: &str, pw: &str) -> (r: LdapMsg)
        ensures
            is_anonymous_bind(dn@, pw@) ==> final(self).dn@ == "Anonymous"@ && r@
                == MsgV::BindResponse(LdapResultCode::Success),
            !is_anonymous_bind(dn@, pw@) ==> final(self).dn == old(self).dn && r@
                == MsgV::BindResponse(LdapResultCode::InvalidCredentials),
    {
        if dn.is_empty() && pw.is_empty() {
            self.dn = String::from_str("Anonymous");
            LdapMsg::BindResponse(LdapResultCode::Success)
        } else {
            LdapMsg::BindResponse(LdapResultCode::InvalidCredentials)
        }
    }

    /// Who the session is bound as: `dn: <bound DN>`, empty while unbound.
    pub fn do_whoami(&self) -> (r: LdapMsg)
        ensures
            r@ == MsgV::WhoamiResponse("dn: "@ + self.dn@),
    {
        let mut s = String::from_str("dn: ");
        s.append(self.dn.as_str());
        LdapMsg::WhoamiResponse(s)
    }

    /// Dispatch one decoded request: bind and whoami are answered at once,
    /// a search either answers at once or hands back the SQL query to run,
    /// and an unbind closes the connection.
    pub fn handle_op(
        &mut self,
        op: &ServerOp,
        mappings: &Mappings,
        suffix: &str,
        table: &str,
    ) -> (r: SessionAction)
        requires
            has_cn(mappings@),
            op matches ServerOp::Search(req) ==> num_bindings(req.filter) <= usize::MAX && ((
            req.scope == Scope::Base && req.base@.len() > 0 && lower_seq(req.base@) == lower_seq(
                suffix@,
            )) ==> suffix_parseable(lower_seq(suffix@))),
        ensures
            match *op {
                ServerOp::SimpleBind(ref d, ref p) => {
                    &&& r matches SessionAction::Send(ms) && spec_msgs_view(ms@) == seq![
                        MsgV::BindResponse(
                            if is_anonymous_bind(d@, p@) {
                                LdapResultCode::Success
                            } else {
                                LdapResultCode::InvalidCredentials
                            },
                        ),
                    ]
                    &&& is_anonymous_bind(d@, p@) ==> final(self).dn@ == "Anonymous"@
                    &&& !is_anonymous_bind(d@, p@) ==> final(self).dn == old(self).dn
                },
                ServerOp::Search(ref req) => search_action_rel(
                    r,
                    spec_plan(mappings@, *req, suffix@, table@),
                ) && final(self).dn == old(self).dn,
                ServerOp::Whoami => r matches SessionAction::Send(ms) && spec_msgs_view(ms@)
                    == seq![MsgV::WhoamiResponse("dn: "@ + old(self).dn@)] && final(self).dn == old(
                    self,
                ).dn,
                ServerOp::Unbind => r is Disconnect && final(self).dn == old(self).dn,
            },
    {
        match op {
            ServerOp::SimpleBind(d, p) => {
                let m = self.do_bind(d.as_str(), p.as_str());
                let mut ms: Vec<LdapMsg> = Vec::new();
                ms.push(m);
                proof {
                    assert(spec_msgs_view(ms@) =~~= seq![ms@[0]@]);
                }
                SessionAction::Send(ms)
            },
            ServerOp::Search(req) => {
                match plan_search(req, mappings, suffix, table) {
                    SearchPlan::Respond(ms) => SessionAction::Send(ms),
                    SearchPlan::Query { sql, bindings } => SessionAction::RunQuery {
                        sql,
                        bindings,
                    },
                }
            },
            ServerOp::Whoami => {
                let m = self.do_whoami();
                let mut ms: Vec<LdapMsg> = Vec::new();
                ms.push(m);
                proof {
                    assert(spec_msgs_view(ms@) =~~= seq![ms@[0]@]);
                }
                SessionAction::Send(ms)
            },
            ServerOp::Unbind => SessionAction::Disconnect,
        }
    }
}

} // verus!
