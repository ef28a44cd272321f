//! ProjectionBuilder: the SELECT column list for a search. Every mapped
//! column when all attributes are asked for, else the requested ones —
//! with the `cn` column always present, since the DN is built from it.
use vstd::prelude::*;
use vstd::string::*;

use crate::config::{Mappings, spec_lookup};
use crate::strutil::{lower_seq, spec_join_emit};

verus! {

/// The map has an entry for the attribute `cn`.
pub open spec fn has_cn(m: Seq<(Seq<char>, Seq<char>, Seq<char>)>) -> bool {
    spec_lookup(m, "cn"@) is Some
}

/// The requested attribute list names `*`.
pub open spec fn contains_star(attrs: Seq<Seq<char>>) -> bool {
    exists|i: int| 0 <= i < attrs.len() && attrs[i] == "*"@
}

/// All attributes are projected: nothing was requested, or `*` was.
pub open spec fn all_attrs_mode(attrs: Seq<Seq<char>>) -> bool {
    attrs.len() == 0 || contains_star(attrs)
}

/// The `(column, alias)` pairs for explicitly requested attributes, in
/// request order; unknown attributes are skipped.
pub open spec fn spec_requested_pairs(
    m: Seq<(Seq<char>, Seq<char>, Seq<char>)>,
    attrs: Seq<Seq<char>>,
) -> Seq<(Seq<char>, Seq<char>)>
    decreases attrs.len(),
{
    if attrs.len() == 0 {
        Seq::empty()
    } else {
        spec_requested_pairs(m, attrs.drop_last()) + match spec_lookup(
            m,
            lower_seq(attrs.last()),
        ) {
            Some(t) => seq![(t.2, t.0)],
            None => Seq::<(Seq<char>, Seq<char>)>::empty(),
        }
    }
}

/// Some requested attribute resolves to the `cn` entry.
pub open spec fn requested_has_cn(
    m: Seq<(Seq<char>, Seq<char>, Seq<char>)>,
    attrs: Seq<Seq<char>>,
) -> bool {
    exists|i: int|
        0 <= i < attrs.len() && ((#[trigger] spec_lookup(m, lower_seq(attrs[i]))) matches Some(t)
            && t.0 == "cn"@)
}

/// The `(column, alias)` pairs the SELECT list is rendered from.
pub open spec fn spec_select_pairs(
    m: Seq<(Seq<char>, Seq<char>, Seq<char>)>,
    attrs: Seq<Seq<char>>,
) -> Seq<(Seq<char>, Seq<char>)> {
    if all_attrs_mode(attrs) {
        spec_all_pairs(m)
    } else {
        spec_requested_pairs(m, attrs) + if requested_has_cn(m, attrs) {
            Seq::<(Seq<char>, Seq<char>)>::empty()
        } else {
            match spec_lookup(m, "cn"@) {
                Some(t) => seq![(t.2, "cn"@)],
                None => Seq::<(Seq<char>, Seq<char>)>::empty(),
            }
        }
    }
}

/// A `(column, alias)` pair rendered as SQL.
pub open spec fn spec_pair_text(p: (Seq<char>, Seq<char>)) -> Seq<char> {
    p.0 + " AS "@ + p.1
}

/// Each pair rendered as SQL, in order.
pub open spec fn spec_pairs_text(ps: Seq<(Seq<char>, Seq<char>)>) -> Seq<Seq<char>> {
    ps.map_values(|p: (Seq<char>, Seq<char>)| spec_pair_text(p))
}

/// Every mapped entry as a `(column, alias)` pair, alias the lower name.
pub open spec fn spec_all_pairs(
    m: Seq<(Seq<char>, Seq<char>, Seq<char>)>,
) -> Seq<(Seq<char>, Seq<char>)> {
    m.map_values(|e: (Seq<char>, Seq<char>, Seq<char>)| (e.2, e.0))
}

/// The full clause: `SELECT col AS alias, ... ` with a trailing space.
pub open spec fn spec_select_clause(
    m: Seq<(Seq<char>, Seq<char>, Seq<char>)>,
    attrs: Seq<Seq<char>>,
) -> Seq<char> {
    "SELECT "@ + spec_join_emit(spec_pairs_text(spec_select_pairs(m, attrs)), ", "@) + " "@
}

/// The SELECT list always aliases some column as `cn`, whatever was
/// requested, so a DN can be built for every row.
pub proof fn lemma_cn_projection(
    m: Seq<(Seq<char>, Seq<char>, Seq<char>)>,
    attrs: Seq<Seq<char>>,
)
    requires
        has_cn(m),
    ensures
        exists|i: int|
            0 <= i < spec_select_pairs(m, attrs).len() && (#[trigger] spec_select_pairs(
                m,
                attrs,
            )[i]).1 == "cn"@,
{
    let ps = spec_select_pairs(m, attrs);
    if all_attrs_mode(attrs) {
        let t = spec_lookup(m, "cn"@)->Some_0;
        crate::config::lemma_key_index_found(m, "cn"@);
        let k = crate::config::key_index(m, "cn"@)->Some_0;
        assert(m[k].0 == "cn"@);
        assert(ps[k].1 == "cn"@);
    } else {
        if requested_has_cn(m, attrs) {
            lemma_requested_cn_alias(m, attrs);
        } else {
            assert(ps[ps.len() - 1].1 == "cn"@);
        }
    }
}

/// When some requested attribute resolves to `cn`, the requested pairs
/// hold an alias `cn`.
proof fn lemma_requested_cn_alias(
    m: Seq<(Seq<char>, Seq<char>, Seq<char>)>,
    attrs: Seq<Seq<char>>,
)
    requires
        requested_has_cn(m, attrs),
    ensures
        exists|i: int|
            0 <= i < spec_requested_pairs(m, attrs).len() && (#[trigger] spec_requested_pairs(
                m,
                attrs,
            )[i]).1 == "cn"@,
    decreases attrs.len(),
{
    let w = choose|i: int|
        0 <= i < attrs.len() && ((#[trigger] spec_lookup(m, lower_seq(attrs[i]))) matches Some(t)
            && t.0 == "cn"@);
    if w == attrs.len() - 1 {
        let ps = spec_requested_pairs(m, attrs);
        assert(ps[ps.len() - 1].1 == "cn"@);
    } else {
        assert(attrs.drop_last()[w] == attrs[w]);
        lemma_requested_cn_alias(m, attrs.drop_last());
        let j = choose|i: int|
            0 <= i < spec_requested_pairs(m, attrs.drop_last()).len() && (
            #[trigger] spec_requested_pairs(m, attrs.drop_last())[i]).1 == "cn"@;
        assert(spec_requested_pairs(m, attrs)[j].1 == "cn"@);
    }
}

/// Render one `(column, alias)` pair as `col AS alias`.
fn pair_text(col: &str, alias: &str) -> (r: String)
    ensures
        r@ == spec_pair_text((col@, alias@)),
{
    let mut s = String::from_str(col);
    s.append(" AS ");
    s.append(alias);
    proof {
        assert(s@ =~= spec_pair_text((col@, alias@)));
    }
    s
}

/// Does the request name `*`?
pub fn attrs_contain_star(attrs: &Vec<String>) -> (r: bool)
    ensures
        r == contains_star(attrs.deep_view()),
{
    let mut i: usize = 0;
    let n = attrs.len();
    while i < n
        invariant
            i <= n,
            n == attrs@.len(),
            forall|j: int| 0 <= j < i ==> attrs.deep_view()[j] != "*"@,
        decreases n - i,
    {
        if crate::strutil::str_eq(attrs[i].as_str(), "*") {
            proof {
                assert(attrs.deep_view()[i as int] == "*"@);
            }
            return true;
        }
        i = i + 1;
    }
    false
}

/// Build the SELECT clause for the requested attributes: every mapped
/// column in all-attributes mode, else the requested columns with the `cn`
/// column appended when missing.
pub fn build_select(mappings: &Mappings, attrs: &Vec<String>) -> (r: String)
    requires
        has_cn(mappings@),
    ensures
        r@ == spec_select_clause(mappings@, attrs.deep_view()),
{
    let ghost av = attrs.deep_view();
    let mut cols: Vec<String> = Vec::new();
    let star = attrs_contain_star(attrs);
    if attrs.len() > 0 && !star {
        let mut has_cn_flag = false;
        let mut i: usize = 0;
        let n = attrs.len();
        while i < n
            invariant
                i <= n,
                n == attrs@.len(),
                av == attrs.deep_view(),
                av.len() == n,
                cols.deep_view() == spec_pairs_text(
                    spec_requested_pairs(mappings@, av.subrange(0, i as int)),
                ),
                has_cn_flag == requested_has_cn(mappings@, av.subrange(0, i as int)),
            decreases n - i,
        {
            let ghost prev = av.subrange(0, i as int);
            proof {
                assert(cols.deep_view().len() == spec_pairs_text(
                    spec_requested_pairs(mappings@, prev),
                ).len());
                assert(cols.deep_view().len() == spec_requested_pairs(mappings@, prev).len());
                assert(cols@.len() == cols.deep_view().len());
            }
            match mappings.get(attrs[i].as_str()) {
                Some(t) => {
                    if crate::strutil::str_eq(t.0.as_str(), "cn") {
                        has_cn_flag = true;
                    }
                    let c = pair_text(t.2.as_str(), t.0.as_str());
                    cols.push(c);
                },
                None => {},
            }
            i = i + 1;
            proof {
                let cur = av.subrange(0, i as int);
                assert(cur.drop_last() =~= prev);
                assert(av[i - 1] == attrs@[i - 1]@);
                let pc = spec_requested_pairs(mappings@, cur);
                let pp = spec_requested_pairs(mappings@, prev);
                assert(spec_requested_pairs(mappings@, cur.drop_last()) == pp);
                assert(cur.last() == av[i - 1]);
                assert(pc == pp + match spec_lookup(mappings@, lower_seq(av[i - 1])) {
                    Some(t) => seq![(t.2, t.0)],
                    None => Seq::<(Seq<char>, Seq<char>)>::empty(),
                });
                assert(cols.deep_view().len() == cols@.len());
                assert(cols@.len() == pc.len());
                assert(cols.deep_view().len() == pc.len());
                assert forall|k: int| 0 <= k < pc.len() implies cols.deep_view()[k]
                    == spec_pair_text(pc[k]) by {
                    if k < pp.len() {
                        assert(pc[k] == pp[k]);
                        assert(cols.deep_view()[k] == spec_pairs_text(pp)[k]);
                    }
                }
                assert(cols.deep_view() =~~= spec_pairs_text(pc));
                assert(requested_has_cn(mappings@, cur) == (requested_has_cn(mappings@, prev)
                    || match spec_lookup(mappings@, lower_seq(av[i - 1])) {
                    Some(t) => t.0 == "cn"@,
                    None => false,
                })) by {
                    if requested_has_cn(mappings@, prev) {
                        let w = choose|k: int|
                            0 <= k < prev.len() && ((#[trigger] spec_lookup(
                                mappings@,
                                lower_seq(prev[k]),
                            )) matches Some(t) && t.0 == "cn"@);
                        assert(cur[w] == prev[w]);
                    }
                    if requested_has_cn(mappings@, cur) {
                        let w = choose|k: int|
                            0 <= k < cur.len() && ((#[trigger] spec_lookup(
                                mappings@,
                                lower_seq(cur[k]),
                            )) matches Some(t) && t.0 == "cn"@);
                        if w < i - 1 {
                            assert(prev[w] == cur[w]);
                        }
                    }
                }
            }
        }
        proof {
            assert(av.subrange(0, n as int) =~= av);
        }
        proof {
            reveal_strlit("cn");
            assert(lower_seq("cn"@) =~= "cn"@);
        }
        if !has_cn_flag {
            match mappings.get("cn") {
                Some(t) => {
                    let c = pair_text(t.2.as_str(), "cn");
                    cols.push(c);
                    proof {
                        let pa = spec_requested_pairs(mappings@, av);
                        let ps = spec_select_pairs(mappings@, av);
                        assert(ps == pa + seq![(t.2@, "cn"@)]);
                        assert(cols.deep_view().len() == ps.len());
                        assert forall|k: int| 0 <= k < ps.len() implies cols.deep_view()[k]
                            == spec_pair_text(ps[k]) by {
                            if k < pa.len() {
                                assert(ps[k] == pa[k]);
                                assert(cols.deep_view()[k] == spec_pairs_text(pa)[k]);
                            }
                        }
                        assert(cols.deep_view() =~~= spec_pairs_text(ps));
                    }
                },
                None => {
                    proof {
                        assert(false);
                    }
                },
            }
        } else {
            proof {
                assert(cols.deep_view() =~~= spec_pairs_text(spec_select_pairs(mappings@, av)));
            }
        }
    } else {
        let mut i: usize = 0;
        let n = mappings.len();
        while i < n
            invariant
                i <= n,
                n == mappings@.len(),
                cols.deep_view() == spec_pairs_text(spec_all_pairs(mappings@.subrange(0, i as int))),
            decreases n - i,
        {
            let ghost mprev = mappings@.subrange(0, i as int);
            proof {
                assert(cols.deep_view().len() == spec_pairs_text(spec_all_pairs(mprev)).len());
                assert(cols@.len() == spec_all_pairs(mprev).len());
            }
            let e = mappings.entry_at(i);
            let c = pair_text(e.2.as_str(), e.0.as_str());
            cols.push(c);
            i = i + 1;
            proof {
                let mcur = mappings@.subrange(0, i as int);
                let ps = spec_all_pairs(mcur);
                assert(cols.deep_view().len() == ps.len());
                assert forall|k: int| 0 <= k < ps.len() implies cols.deep_view()[k]
                    == spec_pair_text(ps[k]) by {
                    assert(mcur[k] == mappings@[k]);
                    if k < i - 1 {
                        assert(mprev[k] == mappings@[k]);
                        assert(cols.deep_view()[k] == spec_pairs_text(spec_all_pairs(mprev))[k]);
                    }
                }
                assert(cols.deep_view() =~~= spec_pairs_text(ps));
            }
        }
        proof {
            assert(mappings@.subrange(0, n as int) =~= mappings@);
            assert(cols.deep_view() =~~= spec_pairs_text(spec_select_pairs(mappings@, av)));
        }
    }
    let mut q = String::from_str("SELECT ");
    let joined = crate::strutil::join_with(&cols, ", ");
    q.append(joined.as_str());
    q.append(" ");
    proof {
        assert(q@ =~= spec_select_clause(mappings@, av));
    }
    q
}

} // verus!
