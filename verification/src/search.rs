//! SearchExecutor: turn a classified search into either synthesized
//! entries or a complete SQL query, and shape returned rows into LDAP
//! search result entries with a synthesized DN.
use vstd::prelude::*;
use vstd::string::*;

use crate::config::{Mappings, spec_lookup};
use crate::dn::{BaseOutcome, SpecBaseOutcome, classify_base, spec_classify, suffix_parseable};
use crate::filter::{build_filter, num_bindings, opt_view, spec_filter};
use crate::projection::{all_attrs_mode, attrs_contain_star, build_select, has_cn, spec_select_clause};
use crate::proto::{
    AttrV, EntryV, LdapMsg, LdapPartialAttribute, LdapResultCode, LdapSearchResultEntry, MsgV,
    Scope, SearchRequest, spec_attrs_view, spec_msgs_view,
};
use crate::strutil::{dec_rep, lower_seq, str_eq, u64_to_dec};

verus! {

/// One result row, keyed by column alias; a `None` value is SQL NULL.
pub struct SqlRow {
    cols: Vec<(String, Option<String>)>,
}

impl View for SqlRow {
    type V = Seq<(Seq<char>, Option<Seq<char>>)>;

    closed spec fn view(&self) -> Seq<(Seq<char>, Option<Seq<char>>)> {
        self.cols@.map_values(|e: (String, Option<String>)| (e.0@, opt_view(e.1)))
    }
}

/// The value under `alias`, at its first occurrence: `None` when the row
/// has no such column, `Some(None)` for SQL NULL.
pub open spec fn row_lookup(
    cols: Seq<(Seq<char>, Option<Seq<char>>)>,
    alias: Seq<char>,
) -> Option<Option<Seq<char>>>
    decreases cols.len(),
{
    if cols.len() == 0 {
        None
    } else if cols[0].0 == alias {
        Some(cols[0].1)
    } else {
        row_lookup(cols.drop_first(), alias)
    }
}

proof fn lemma_row_lookup_from_scan(
    cols: Seq<(Seq<char>, Option<Seq<char>>)>,
    alias: Seq<char>,
    i: int,
)
    requires
        0 <= i <= cols.len(),
        forall|j: int| 0 <= j < i ==> (#[trigger] cols[j]).0 != alias,
    ensures
        i < cols.len() && cols[i].0 == alias ==> row_lookup(cols, alias) == Some(cols[i].1),
        i == cols.len() ==> row_lookup(cols, alias) is None,
    decreases cols.len(),
{
    if cols.len() > 0 && i > 0 {
        lemma_row_lookup_from_scan(cols.drop_first(), alias, i - 1);
    }
}

impl SqlRow {
    /// A row with no columns yet.
    pub fn new() -> (r: SqlRow)
        ensures
            r@ == Seq::<(Seq<char>, Option<Seq<char>>)>::empty(),
    {
        let r = SqlRow { cols: Vec::new() };
        proof {
            assert(r@ =~= Seq::<(Seq<char>, Option<Seq<char>>)>::empty());
        }
        r
    }

    /// Add a column value under its alias.
    pub fn push_col(&mut self, alias: String, value: Option<String>)
        ensures
            final(self)@ == old(self)@.push((alias@, opt_view(value))),
    {
        self.cols.push((alias, value));
        proof {
            assert(self@ =~~= old(self)@.push((self.cols@.last().0@, opt_view(
                self.cols@.last().1,
            ))));
        }
    }

    /// The value stored under `alias`, if the column exists.
    pub fn get(&self, alias: &str) -> (r: Option<Option<String>>)
        ensures
            match r {
                Some(v) => row_lookup(self@, alias@) == Some(opt_view(v)),
                None => row_lookup(self@, alias@) is None,
            },
    {
        let mut i: usize = 0;
        let n = self.cols.len();
        while i < n
            invariant
                i <= n,
                n == self.cols@.len(),
                n == self@.len(),
                self@ == self.cols@.map_values(
                    |e: (String, Option<String>)| (e.0@, opt_view(e.1)),
                ),
                forall|j: int| 0 <= j < i ==> (#[trigger] self@[j]).0 != alias@,
            decreases n - i,
        {
            if str_eq(self.cols[i].0.as_str(), alias) {
                proof {
                    lemma_row_lookup_from_scan(self@, alias@, i as int);
                }
                let v = &self.cols[i].1;
                return Some(
                    match v {
                        Some(s) => Some(s.clone()),
                        None => None,
                    },
                );
            }
            i = i + 1;
        }
        proof {
            lemma_row_lookup_from_scan(self@, alias@, n as int);
        }
        None
    }
}

/// The `cn` value of a row that has one.
pub open spec fn row_cn(row: Seq<(Seq<char>, Option<Seq<char>>)>) -> Seq<char> {
    row_lookup(row, "cn"@)->0->0
}

/// The DN of a leaf entry: `cn=<value>,<suffix>`, the comma and suffix
/// dropped when the suffix is empty.
pub open spec fn spec_dn(cn: Seq<char>, suffix: Seq<char>) -> Seq<char> {
    "cn="@ + cn + if suffix.len() > 0 {
        ","@ + suffix
    } else {
        Seq::<char>::empty()
    }
}

/// The attribute emitted for one mapped column: present when the row
/// holds a non-null, non-empty value, labelled with the canonical name.
pub open spec fn spec_attr_read(
    row: Seq<(Seq<char>, Option<Seq<char>>)>,
    lower: Seq<char>,
    canon: Seq<char>,
) -> Seq<AttrV> {
    match row_lookup(row, lower) {
        Some(Some(v)) => if v.len() > 0 {
            seq![AttrV { atype: canon, vals: seq![v] }]
        } else {
            Seq::<AttrV>::empty()
        },
        _ => Seq::<AttrV>::empty(),
    }
}

/// The attributes of an entry in all-attributes mode: every mapped
/// attribute, in map order.
pub open spec fn spec_row_attrs_all(
    m: Seq<(Seq<char>, Seq<char>, Seq<char>)>,
    row: Seq<(Seq<char>, Option<Seq<char>>)>,
) -> Seq<AttrV>
    decreases m.len(),
{
    if m.len() == 0 {
        Seq::empty()
    } else {
        spec_row_attrs_all(m.drop_last(), row) + spec_attr_read(row, m.last().0, m.last().1)
    }
}

/// The attributes of an entry for an explicit request list, in request
/// order; unknown attributes are skipped.
pub open spec fn spec_row_attrs_req(
    m: Seq<(Seq<char>, Seq<char>, Seq<char>)>,
    attrs: Seq<Seq<char>>,
    row: Seq<(Seq<char>, Option<Seq<char>>)>,
) -> Seq<AttrV>
    decreases attrs.len(),
{
    if attrs.len() == 0 {
        Seq::empty()
    } else {
        spec_row_attrs_req(m, attrs.drop_last(), row) + match spec_lookup(
            m,
            lower_seq(attrs.last()),
        ) {
            Some(t) => spec_attr_read(row, t.0, t.1),
            None => Seq::<AttrV>::empty(),
        }
    }
}

/// The attributes of the entry shaped from `row`.
pub open spec fn spec_row_attrs(
    m: Seq<(Seq<char>, Seq<char>, Seq<char>)>,
    attrs: Seq<Seq<char>>,
    row: Seq<(Seq<char>, Option<Seq<char>>)>,
) -> Seq<AttrV> {
    if all_attrs_mode(attrs) {
        spec_row_attrs_all(m, row)
    } else {
        spec_row_attrs_req(m, attrs, row)
    }
}

/// The entry shaped from `row`.
pub open spec fn spec_row_entry(
    m: Seq<(Seq<char>, Seq<char>, Seq<char>)>,
    attrs: Seq<Seq<char>>,
    row: Seq<(Seq<char>, Option<Seq<char>>)>,
    suffix: Seq<char>,
) -> EntryV {
    EntryV { dn: spec_dn(row_cn(row), suffix), attributes: spec_row_attrs(m, attrs, row) }
}

/// Every column the shaping of a row will read is present in it, and the
/// row holds a non-null `cn`.
pub open spec fn row_shapeable(
    m: Seq<(Seq<char>, Seq<char>, Seq<char>)>,
    attrs: Seq<Seq<char>>,
    row: Seq<(Seq<char>, Option<Seq<char>>)>,
) -> bool {
    &&& row_lookup(row, "cn"@) matches Some(v) && v is Some
    &&& all_attrs_mode(attrs) ==> forall|i: int|
        0 <= i < m.len() ==> row_lookup(row, (#[trigger] m[i]).0) is Some
    &&& !all_attrs_mode(attrs) ==> forall|i: int|
        0 <= i < attrs.len() ==> ((#[trigger] spec_lookup(m, lower_seq(attrs[i]))) matches Some(t)
            ==> row_lookup(row, t.0) is Some)
}

/// Shape one result row into an LDAP entry: the requested attributes that
/// the row holds non-empty values for, and the DN `cn=<value>,<suffix>`.
pub fn shape_row(
    row: &SqlRow,
    attrs: &Vec<String>,
    mappings: &Mappings,
    suffix: &str,
) -> (r: LdapSearchResultEntry)
    requires
        row_shapeable(mappings@, attrs.deep_view(), row@),
    ensures
        r@.dn == spec_dn(row_cn(row@), suffix@),
        r@.attributes == spec_row_attrs(mappings@, attrs.deep_view(), row@),
{
    let all = attrs.len() == 0 || attrs_contain_star(attrs);
    let mut attributes: Vec<LdapPartialAttribute> = Vec::new();
    if all {
        let mut i: usize = 0;
        let n = mappings.len();
        while i < n
            invariant
                i <= n,
                n == mappings@.len(),
                row_shapeable(mappings@, attrs.deep_view(), row@),
                all_attrs_mode(attrs.deep_view()),
                spec_attrs_view(attributes@) == spec_row_attrs_all(
                    mappings@.subrange(0, i as int),
                    row@,
                ),
            decreases n - i,
        {
            let ghost mprev = mappings@.subrange(0, i as int);
            proof {
                assert(spec_attrs_view(attributes@).len() == attributes@.len());
            }
            let e = mappings.entry_at(i);
            match row.get(e.0.as_str()) {
                Some(v) => {
                    match v {
                        Some(x) => {
                            if !x.as_str().is_empty() {
                                attributes.push(
                                    LdapPartialAttribute { atype: e.1, vals: vec![x] },
                                );
                            }
                        },
                        None => {},
                    }
                },
                None => {
                    proof {
                        assert(false);
                    }
                },
            }
            i = i + 1;
            proof {
                let mcur = mappings@.subrange(0, i as int);
                assert(mcur.drop_last() =~= mprev);
                assert(mcur.last() == mappings@[i - 1]);
                let want = spec_row_attrs_all(mcur, row@);
                assert(want == spec_row_attrs_all(mprev, row@) + spec_attr_read(
                    row@,
                    mappings@[i - 1].0,
                    mappings@[i - 1].1,
                ));
                assert(spec_attrs_view(attributes@).len() == want.len());
                assert forall|k: int| 0 <= k < want.len() implies spec_attrs_view(attributes@)[k]
                    == want[k] by {
                    if k < spec_row_attrs_all(mprev, row@).len() {
                        assert(spec_attrs_view(attributes@)[k] == spec_row_attrs_all(
                            mprev,
                            row@,
                        )[k]);
                    }
                }
                assert(spec_attrs_view(attributes@) =~~= want);
            }
        }
        proof {
            assert(mappings@.subrange(0, n as int) =~= mappings@);
        }
    } else {
        let mut i: usize = 0;
        let n = attrs.len();
        while i < n
            invariant
                i <= n,
                n == attrs@.len(),
                attrs.deep_view().len() == n,
                row_shapeable(mappings@, attrs.deep_view(), row@),
                !all_attrs_mode(attrs.deep_view()),
                spec_attrs_view(attributes@) == spec_row_attrs_req(
                    mappings@,
                    attrs.deep_view().subrange(0, i as int),
                    row@,
                ),
            decreases n - i,
        {
            let ghost av = attrs.deep_view();
            let ghost aprev = av.subrange(0, i as int);
            proof {
                assert(spec_attrs_view(attributes@).len() == attributes@.len());
                assert(av[i as int] == attrs@[i as int]@);
            }
            match mappings.get(attrs[i].as_str()) {
                Some(t) => {
                    match row.get(t.0.as_str()) {
                        Some(v) => {
                            match v {
                                Some(x) => {
                                    if !x.as_str().is_empty() {
                                        attributes.push(
                                            LdapPartialAttribute { atype: t.1, vals: vec![x] },
                                        );
                                    }
                                },
                                None => {},
                            }
                        },
                        None => {
                            proof {
                                assert(false);
                            }
                        },
                    }
                },
                None => {},
            }
            i = i + 1;
            proof {
                let acur = av.subrange(0, i as int);
                assert(acur.drop_last() =~= aprev);
                assert(acur.last() == av[i - 1]);
                let want = spec_row_attrs_req(mappings@, acur, row@);
                assert(want == spec_row_attrs_req(mappings@, aprev, row@) + match spec_lookup(
                    mappings@,
                    lower_seq(av[i - 1]),
                ) {
                    Some(t) => spec_attr_read(row@, t.0, t.1),
                    None => Seq::<AttrV>::empty(),
                });
                assert(spec_attrs_view(attributes@).len() == want.len());
                assert forall|k: int| 0 <= k < want.len() implies spec_attrs_view(attributes@)[k]
                    == want[k] by {
                    if k < spec_row_attrs_req(mappings@, aprev, row@).len() {
                        assert(spec_attrs_view(attributes@)[k] == spec_row_attrs_req(
                            mappings@,
                            aprev,
                            row@,
                        )[k]);
                    }
                }
                assert(spec_attrs_view(attributes@) =~~= want);
            }
        }
        proof {
            assert(attrs.deep_view().subrange(0, n as int) =~= attrs.deep_view());
        }
    }
    let cnv: String = match row.get("cn") {
        Some(v) => match v {
            Some(x) => x,
            None => {
                proof {
                    assert(false);
                }
                String::new()
            },
        },
        None => {
            proof {
                assert(false);
            }
            String::new()
        },
    };
    let mut dn = String::from_str("cn=");
    dn.append(cnv.as_str());
    if suffix.unicode_len() > 0 {
        dn.append(",");
        dn.append(suffix);
    }
    proof {
        assert(dn@ =~= spec_dn(row_cn(row@), suffix@));
    }
    LdapSearchResultEntry { dn, attributes }
}

/// A `success` search-done message with an empty diagnostic.
pub fn done_success() -> (r: LdapMsg)
    ensures
        r@ == MsgV::SearchResultDone(LdapResultCode::Success, Seq::<char>::empty()),
{
    LdapMsg::SearchResultDone(LdapResultCode::Success, String::new())
}

/// The root DSE entry: empty DN, `objectClass=top`, and the configured
/// naming context.
pub open spec fn root_dse_entry_v(suffix: Seq<char>) -> EntryV {
    EntryV {
        dn: Seq::empty(),
        attributes: seq![
            AttrV { atype: "objectClass"@, vals: seq!["top"@] },
            AttrV { atype: "namingContexts"@, vals: seq![suffix] },
        ],
    }
}

fn root_dse_entry(suffix: &str) -> (r: LdapSearchResultEntry)
    ensures
        r@ == root_dse_entry_v(suffix@),
{
    let r = LdapSearchResultEntry {
        dn: String::new(),
        attributes: vec![
            LdapPartialAttribute {
                atype: String::from_str("objectClass"),
                vals: vec![String::from_str("top")],
            },
            LdapPartialAttribute {
                atype: String::from_str("namingContexts"),
                vals: vec![String::from_str(suffix)],
            },
        ],
    };
    proof {
        assert(r@ =~~= root_dse_entry_v(suffix@));
    }
    r
}

/// The object class answered for the suffix's RDN type.
pub open spec fn suffix_object_class(t: Seq<char>) -> Seq<char> {
    if t == "dc"@ {
        "dcObject"@
    } else {
        "organizationalUnit"@
    }
}

/// The synthesized entry for a base-scope probe of the suffix itself.
pub open spec fn suffix_entry_v(t: Seq<char>, v: Seq<char>, suffix: Seq<char>) -> EntryV {
    EntryV {
        dn: suffix,
        attributes: seq![
            AttrV { atype: "objectClass"@, vals: seq![suffix_object_class(t)] },
            AttrV { atype: t, vals: seq![v] },
            AttrV { atype: "hasSubordinates"@, vals: seq!["TRUE"@] },
            AttrV { atype: "entryDN"@, vals: seq![suffix] },
        ],
    }
}

fn suffix_entry(t: String, v: String, suffix: &str) -> (r: LdapSearchResultEntry)
    requires
        t@ == "dc"@ || t@ == "ou"@,
    ensures
        r@ == suffix_entry_v(t@, v@, suffix@),
{
    let object_class = if str_eq(t.as_str(), "dc") {
        String::from_str("dcObject")
    } else {
        String::from_str("organizationalUnit")
    };
    let r = LdapSearchResultEntry {
        dn: String::from_str(suffix),
        attributes: vec![
            LdapPartialAttribute { atype: String::from_str("objectClass"), vals: vec![object_class] },
            LdapPartialAttribute { atype: t, vals: vec![v] },
            LdapPartialAttribute {
                atype: String::from_str("hasSubordinates"),
                vals: vec![String::from_str("TRUE")],
            },
            LdapPartialAttribute {
                atype: String::from_str("entryDN"),
                vals: vec![String::from_str(suffix)],
            },
        ],
    };
    proof {
        assert(r@ =~~= suffix_entry_v(r.attributes@[1]@.atype, r.attributes@[1]@.vals[0], suffix@));
    }
    r
}

/// The `LIMIT` tail of the query: present only for a positive size limit.
pub open spec fn limit_text(n: i32) -> Seq<char> {
    if n > 0 {
        "LIMIT "@ + dec_rep(n as nat)
    } else {
        Seq::<char>::empty()
    }
}

fn append_limit(q: &mut String, sizelimit: i32)
    ensures
        final(q)@ == old(q)@ + limit_text(sizelimit),
{
    if sizelimit > 0 {
        q.append("LIMIT ");
        let d = u64_to_dec(sizelimit as u64);
        q.append(d.as_str());
        proof {
            assert(q@ =~= old(q)@ + limit_text(sizelimit));
        }
    } else {
        proof {
            assert(q@ =~= old(q)@ + limit_text(sizelimit));
        }
    }
}

/// The column mapped for `cn`.
pub open spec fn spec_cn_col(m: Seq<(Seq<char>, Seq<char>, Seq<char>)>) -> Seq<char> {
    (spec_lookup(m, "cn"@)->0).2
}

/// The WHERE clause of a single-entry lookup.
pub open spec fn spec_leaf_where(m: Seq<(Seq<char>, Seq<char>, Seq<char>)>) -> Seq<char> {
    "WHERE "@ + spec_cn_col(m) + " = $1 "@
}

/// The full SQL text of a query over `table` with WHERE part `w`.
pub open spec fn spec_query_text(
    m: Seq<(Seq<char>, Seq<char>, Seq<char>)>,
    attrs: Seq<Seq<char>>,
    table: Seq<char>,
    w: Seq<char>,
    sizelimit: i32,
) -> Seq<char> {
    spec_select_clause(m, attrs) + "FROM "@ + table + " "@ + w + limit_text(sizelimit)
}

/// How a search is answered: messages ready to send, or a SQL query whose
/// rows are then shaped into entries.
pub enum SearchPlan {
    Respond(Vec<LdapMsg>),
    Query { sql: String, bindings: Vec<String> },
}

/// How a search is answered, as plain data: the messages of a synthesized
/// response, or the SQL text and bindings of a query.
pub enum SpecPlan {
    Respond(Seq<MsgV>),
    Query(Seq<char>, Seq<Seq<char>>),
}

/// The answer owed to a search request: classify the base, then either
/// synthesize the response or assemble the query.
pub open spec fn spec_plan(
    m: Seq<(Seq<char>, Seq<char>, Seq<char>)>,
    req: SearchRequest,
    suffix: Seq<char>,
    table: Seq<char>,
) -> SpecPlan {
    match spec_classify(req.base@, req.scope, suffix) {
        SpecBaseOutcome::RootDse => SpecPlan::Respond(
            seq![
                MsgV::SearchResultEntry(root_dse_entry_v(suffix)),
                MsgV::SearchResultDone(LdapResultCode::Success, Seq::<char>::empty()),
            ],
        ),
        SpecBaseOutcome::SuffixEntry(t, v) => SpecPlan::Respond(
            seq![
                MsgV::SearchResultEntry(suffix_entry_v(t, v, suffix)),
                MsgV::SearchResultDone(LdapResultCode::Success, Seq::<char>::empty()),
            ],
        ),
        SpecBaseOutcome::SuffixRdnUnsupported => SpecPlan::Respond(
            seq![MsgV::SearchResultDone(LdapResultCode::Other, "Not implemented"@)],
        ),
        SpecBaseOutcome::Ancestor => SpecPlan::Respond(
            seq![MsgV::SearchResultDone(LdapResultCode::Success, Seq::<char>::empty())],
        ),
        SpecBaseOutcome::NonBaseElsewhere => SpecPlan::Respond(
            seq![MsgV::SearchResultDone(LdapResultCode::Success, Seq::<char>::empty())],
        ),
        SpecBaseOutcome::NoMatch => SpecPlan::Respond(
            seq![MsgV::SearchResultDone(LdapResultCode::NoSuchObject, Seq::<char>::empty())],
        ),
        SpecBaseOutcome::Leaf(cn) => SpecPlan::Query(
            spec_query_text(m, req.attrs.deep_view(), table, spec_leaf_where(m), req.sizelimit),
            seq![cn],
        ),
        SpecBaseOutcome::Subtree => match spec_filter(m, req.filter, 0) {
            Some(cb) => SpecPlan::Query(
                spec_query_text(m, req.attrs.deep_view(), table, "WHERE "@ + cb.0, req.sizelimit),
                cb.1,
            ),
            None => SpecPlan::Respond(
                seq![MsgV::SearchResultDone(LdapResultCode::Other, "Filter not implemented"@)],
            ),
        },
    }
}

/// The executable plan carries the data the specified one asks for.
pub open spec fn plan_rel(r: SearchPlan, s: SpecPlan) -> bool {
    match (r, s) {
        (SearchPlan::Respond(ms), SpecPlan::Respond(sv)) => spec_msgs_view(ms@) == sv,
        (SearchPlan::Query { sql, bindings }, SpecPlan::Query(q, b)) => sql@ == q
            && bindings.deep_view() == b,
        _ => false,
    }
}

/// Decide a search request: classify its base, and either synthesize the
/// response or assemble the SQL query and its bindings.
pub fn plan_search(
    req: &SearchRequest,
    mappings: &Mappings,
    suffix: &str,
    table: &str,
) -> (r: SearchPlan)
    requires
        has_cn(mappings@),
        num_bindings(req.filter) <= usize::MAX,
        (req.scope == Scope::Base && req.base@.len() > 0 && lower_seq(req.base@) == lower_seq(
            suffix@,
        )) ==> suffix_parseable(lower_seq(suffix@)),
    ensures
        plan_rel(r, spec_plan(mappings@, *req, suffix@, table@)),
{
    let outcome = classify_base(req.base.as_str(), req.scope, suffix);
    match outcome {
        BaseOutcome::RootDse => {
            let e = root_dse_entry(suffix);
            let mut ms: Vec<LdapMsg> = Vec::new();
            ms.push(LdapMsg::SearchResultEntry(e));
            ms.push(done_success());
            proof {
                assert(spec_msgs_view(ms@) =~~= seq![
                    MsgV::SearchResultEntry(root_dse_entry_v(suffix@)),
                    MsgV::SearchResultDone(LdapResultCode::Success, Seq::<char>::empty()),
                ]);
            }
            SearchPlan::Respond(ms)
        },
        BaseOutcome::SuffixEntry(t, v) => {
            let ghost tv = t@;
            let ghost vv = v@;
            let e = suffix_entry(t, v, suffix);
            let mut ms: Vec<LdapMsg> = Vec::new();
            ms.push(LdapMsg::SearchResultEntry(e));
            ms.push(done_success());
            proof {
                assert(spec_msgs_view(ms@) =~~= seq![
                    MsgV::SearchResultEntry(suffix_entry_v(tv, vv, suffix@)),
                    MsgV::SearchResultDone(LdapResultCode::Success, Seq::<char>::empty()),
                ]);
            }
            SearchPlan::Respond(ms)
        },
        BaseOutcome::SuffixRdnUnsupported => {
            let mut ms: Vec<LdapMsg> = Vec::new();
            ms.push(
                LdapMsg::SearchResultDone(
                    LdapResultCode::Other,
                    String::from_str("Not implemented"),
                ),
            );
            proof {
                assert(spec_msgs_view(ms@) =~~= seq![
                    MsgV::SearchResultDone(LdapResultCode::Other, "Not implemented"@),
                ]);
            }
            SearchPlan::Respond(ms)
        },
        BaseOutcome::Ancestor => {
            let mut ms: Vec<LdapMsg> = Vec::new();
            ms.push(done_success());
            proof {
                assert(spec_msgs_view(ms@) =~~= seq![
                    MsgV::SearchResultDone(LdapResultCode::Success, Seq::<char>::empty()),
                ]);
            }
            SearchPlan::Respond(ms)
        },
        BaseOutcome::NonBaseElsewhere => {
            let mut ms: Vec<LdapMsg> = Vec::new();
            ms.push(done_success());
            proof {
                assert(spec_msgs_view(ms@) =~~= seq![
                    MsgV::SearchResultDone(LdapResultCode::Success, Seq::<char>::empty()),
                ]);
            }
            SearchPlan::Respond(ms)
        },
        BaseOutcome::NoMatch => {
            let mut ms: Vec<LdapMsg> = Vec::new();
            ms.push(LdapMsg::SearchResultDone(LdapResultCode::NoSuchObject, String::new()));
            proof {
                assert(spec_msgs_view(ms@) =~~= seq![
                    MsgV::SearchResultDone(LdapResultCode::NoSuchObject, Seq::<char>::empty()),
                ]);
            }
            SearchPlan::Respond(ms)
        },
        BaseOutcome::Leaf(cn) => {
            let mut q = build_select(mappings, &req.attrs);
            q.append("FROM ");
            q.append(table);
            q.append(" ");
            q.append("WHERE ");
            proof {
                reveal_strlit("cn");
                assert(lower_seq("cn"@) =~= "cn"@);
            }
            match mappings.get("cn") {
                Some(t) => {
                    q.append(t.2.as_str());
                },
                None => {
                    proof {
                        assert(false);
                    }
                },
            }
            q.append(" = $1 ");
            append_limit(&mut q, req.sizelimit);
            let mut bindings: Vec<String> = Vec::new();
            bindings.push(cn);
            proof {
                assert(q@ =~= spec_query_text(
                    mappings@,
                    req.attrs.deep_view(),
                    table@,
                    spec_leaf_where(mappings@),
                    req.sizelimit,
                ));
                assert(bindings.deep_view() =~~= seq![
                    spec_classify(req.base@, req.scope, suffix@)->Leaf_0,
                ]);
            }
            SearchPlan::Query { sql: q, bindings }
        },
        BaseOutcome::Subtree => {
            let mut q = build_select(mappings, &req.attrs);
            q.append("FROM ");
            q.append(table);
            q.append(" ");
            match build_filter(mappings, &req.filter) {
                Ok((w, bindings)) => {
                    q.append(w.as_str());
                    append_limit(&mut q, req.sizelimit);
                    proof {
                        let cb = spec_filter(mappings@, req.filter, 0)->Some_0;
                        assert(q@ =~= spec_query_text(
                            mappings@,
                            req.attrs.deep_view(),
                            table@,
                            "WHERE "@ + cb.0,
                            req.sizelimit,
                        ));
                    }
                    SearchPlan::Query { sql: q, bindings }
                },
                Err(e) => {
                    let mut ms: Vec<LdapMsg> = Vec::new();
                    ms.push(LdapMsg::SearchResultDone(e.0, e.1));
                    proof {
                        assert(spec_msgs_view(ms@) =~~= seq![
                            MsgV::SearchResultDone(
                                LdapResultCode::Other,
                                "Filter not implemented"@,
                            ),
                        ]);
                    }
                    SearchPlan::Respond(ms)
                },
            }
        },
    }
}

/// Shape a batch of rows and close with a `success` result, as a streamed
/// search would send them.
pub fn shape_rows(
    rows: &Vec<SqlRow>,
    attrs: &Vec<String>,
    mappings: &Mappings,
    suffix: &str,
) -> (r: Vec<LdapMsg>)
    requires
        forall|i: int|
            0 <= i < rows@.len() ==> row_shapeable(
                mappings@,
                attrs.deep_view(),
                (#[trigger] rows@[i])@,
            ),
    ensures
        spec_msgs_view(r@) == Seq::new(
            rows@.len(),
            |i: int|
                MsgV::SearchResultEntry(
                    spec_row_entry(mappings@, attrs.deep_view(), rows@[i]@, suffix@),
                ),
        ).push(MsgV::SearchResultDone(LdapResultCode::Success, Seq::<char>::empty())),
{
    let mut out: Vec<LdapMsg> = Vec::new();
    let mut i: usize = 0;
    let n = rows.len();
    while i < n
        invariant
            i <= n,
            n == rows@.len(),
            forall|k: int|
                0 <= k < rows@.len() ==> row_shapeable(
                    mappings@,
                    attrs.deep_view(),
                    (#[trigger] rows@[k])@,
                ),
            spec_msgs_view(out@) == Seq::new(
                i as nat,
                |k: int|
                    MsgV::SearchResultEntry(
                        spec_row_entry(mappings@, attrs.deep_view(), rows@[k]@, suffix@),
                    ),
            ),
        decreases n - i,
    {
        proof {
            assert(spec_msgs_view(out@).len() == out@.len());
        }
        let ghost out0 = out@;
        let e = shape_row(&rows[i], attrs, mappings, suffix);
        proof {
            assert(e@ =~~= spec_row_entry(mappings@, attrs.deep_view(), rows@[i as int]@, suffix@));
        }
        out.push(LdapMsg::SearchResultEntry(e));
        i = i + 1;
        proof {
            let want = Seq::new(
                i as nat,
                |k: int|
                    MsgV::SearchResultEntry(
                        spec_row_entry(mappings@, attrs.deep_view(), rows@[k]@, suffix@),
                    ),
            );
            assert(out@ == out0.push(out@.last()));
            assert(spec_msgs_view(out@).len() == want.len());
            assert forall|k: int| 0 <= k < want.len() implies spec_msgs_view(out@)[k] == want[k] by {
                if k < i - 1 {
                    assert(out@[k] == out0[k]);
                    assert(spec_msgs_view(out@)[k] == spec_msgs_view(out0)[k]);
                } else {
                    assert(out@[k] == out@.last());
                }
            }
            assert(spec_msgs_view(out@) =~~= want);
        }
    }
    out.push(done_success());
    proof {
        assert(spec_msgs_view(out@) =~~= Seq::new(
            rows@.len(),
            |k: int|
                MsgV::SearchResultEntry(
                    spec_row_entry(mappings@, attrs.deep_view(), rows@[k]@, suffix@),
                ),
        ).push(MsgV::SearchResultDone(LdapResultCode::Success, Seq::<char>::empty())));
    }
    out
}

} // verus!
