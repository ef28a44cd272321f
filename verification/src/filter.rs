//! FilterTranslator: recursive translation of an LDAP filter tree into a
//! parameterized SQL WHERE fragment plus the ordered list of bind values.
//! Only attribute-to-column names reach the emitted string; every
//! request-supplied value travels in the bindings, sanitized for LIKE.
use vstd::prelude::*;
use vstd::string::*;

use crate::config::{Mappings, spec_lookup};
use crate::proto::{FilterNode, LdapResultCode, SubstringParts};
use crate::strutil::{dec_rep, lower_seq, sanitize, sanitize_seq, u64_to_dec};

verus! {

/// The view of an `Option<String>`.
pub open spec fn opt_view(o: Option<String>) -> Option<Seq<char>> {
    match o {
        Some(s) => Some(s@),
        None => None,
    }
}

/// The SQL text standing for attribute `attr`: its mapped column name, or
/// the empty-string literal `''` when the attribute is unknown (which makes
/// the surrounding comparison vacuous but keeps the query well-formed).
pub open spec fn spec_col(m: Seq<(Seq<char>, Seq<char>, Seq<char>)>, attr: Seq<char>) -> Seq<char> {
    match spec_lookup(m, lower_seq(attr)) {
        Some(t) => t.2,
        None => "''"@,
    }
}

/// The `any` parts of a LIKE pattern: each sanitized and followed by `%`.
pub open spec fn spec_any_parts(any: Seq<Seq<char>>) -> Seq<char>
    decreases any.len(),
{
    if any.len() == 0 {
        Seq::empty()
    } else {
        spec_any_parts(any.drop_last()) + sanitize_seq(any.last()) + "%"@
    }
}

/// The LIKE pattern for a substring filter `{initial, any, last}`.
pub open spec fn spec_substr_pattern(
    initial: Option<Seq<char>>,
    any: Seq<Seq<char>>,
    last: Option<Seq<char>>,
) -> Seq<char> {
    let head = match initial {
        Some(s) => sanitize_seq(s) + "%"@,
        None => Seq::<char>::empty(),
    };
    let head2 = if head.len() == 0 && any.len() > 0 {
        "%"@
    } else {
        head
    };
    let mid = head2 + spec_any_parts(any);
    match last {
        Some(s) => mid + sanitize_seq(s),
        None => mid,
    }
}

/// How many bind values the translation of `f` produces.
pub open spec fn num_bindings(f: FilterNode) -> nat
    decreases f, 0int,
{
    match f {
        FilterNode::And(fs) => num_bindings_group(fs@),
        FilterNode::Or(fs) => num_bindings_group(fs@),
        FilterNode::Not(g) => num_bindings(*g),
        FilterNode::Equality(_, _) => 1,
        FilterNode::Substring(_, _) => 1,
        FilterNode::Present(_) => 0,
        FilterNode::Unsupported => 0,
    }
}

/// How many bind values a group of filters produces.
pub open spec fn num_bindings_group(fs: Seq<FilterNode>) -> nat
    decreases fs, 1int,
{
    if fs.len() == 0 {
        0
    } else {
        num_bindings(fs[0]) + num_bindings_group(fs.drop_first())
    }
}

/// The translation of filter `f` when `nb` bind values are already taken:
/// the emitted fragment and the bind values appended, or `None` for a
/// filter kind the gateway does not support.
pub open spec fn spec_filter(
    m: Seq<(Seq<char>, Seq<char>, Seq<char>)>,
    f: FilterNode,
    nb: nat,
) -> Option<(Seq<char>, Seq<Seq<char>>)>
    decreases f, 0int, 0int,
{
    match f {
        FilterNode::And(fs) => spec_group(m, fs@, nb, "AND "@),
        FilterNode::Or(fs) => spec_group(m, fs@, nb, "OR "@),
        FilterNode::Not(g) => match spec_filter(m, *g, nb) {
            Some((c, bs)) => Some(("(NOT "@ + c + ") "@, bs)),
            None => None,
        },
        FilterNode::Equality(attr, value) => Some(
            (
                "LOWER("@ + spec_col(m, attr@) + ") = LOWER("@ + "$"@ + dec_rep(nb + 1) + ") "@,
                seq![sanitize_seq(value@)],
            ),
        ),
        FilterNode::Substring(attr, parts) => Some(
            (
                "LOWER("@ + spec_col(m, attr@) + ") LIKE LOWER("@ + "$"@ + dec_rep(nb + 1)
                    + ") "@,
                seq![
                    spec_substr_pattern(
                        opt_view(parts.initial),
                        parts.any.deep_view(),
                        opt_view(parts.last),
                    )
                ],
            ),
        ),
        FilterNode::Present(attr) => Some((spec_col(m, attr@) + " <> '' "@, Seq::empty())),
        FilterNode::Unsupported => None,
    }
}

/// The translation of a filter group: nothing for an empty group, else the
/// members' fragments joined by `sep` inside parentheses.
pub open spec fn spec_group(
    m: Seq<(Seq<char>, Seq<char>, Seq<char>)>,
    fs: Seq<FilterNode>,
    nb: nat,
    sep: Seq<char>,
) -> Option<(Seq<char>, Seq<Seq<char>>)>
    decreases fs, 1int, 0int,
{
    if fs.len() == 0 {
        Some((Seq::empty(), Seq::empty()))
    } else {
        match spec_group_inner(m, fs, nb, sep) {
            Some((c, bs)) => Some(("("@ + c + ") "@, bs)),
            None => None,
        }
    }
}

/// The members of a group, translated left to right with `sep` between.
pub open spec fn spec_group_inner(
    m: Seq<(Seq<char>, Seq<char>, Seq<char>)>,
    fs: Seq<FilterNode>,
    nb: nat,
    sep: Seq<char>,
) -> Option<(Seq<char>, Seq<Seq<char>>)>
    decreases fs, 0int, 0int,
{
    if fs.len() == 0 {
        Some((Seq::empty(), Seq::empty()))
    } else {
        match spec_filter(m, fs[0], nb) {
            None => None,
            Some((c0, b0)) => match spec_group_inner(m, fs.drop_first(), nb + b0.len(), sep) {
                None => None,
                Some((c1, b1)) => Some(
                    (
                        c0 + if fs.len() > 1 {
                            sep + c1
                        } else {
                            c1
                        },
                        b0 + b1,
                    ),
                ),
            },
        }
    }
}

/// The translation of `f` yields exactly `num_bindings(f)` bind values.
pub proof fn lemma_filter_num_bindings(
    m: Seq<(Seq<char>, Seq<char>, Seq<char>)>,
    f: FilterNode,
    nb: nat,
)
    ensures
        match spec_filter(m, f, nb) {
            Some(r) => r.1.len() == num_bindings(f),
            None => true,
        },
    decreases f, 2int, 0int,
{
    match f {
        FilterNode::And(fs) => lemma_group_num_bindings(m, fs@, nb, "AND "@),
        FilterNode::Or(fs) => lemma_group_num_bindings(m, fs@, nb, "OR "@),
        FilterNode::Not(g) => lemma_filter_num_bindings(m, *g, nb),
        _ => {},
    }
}

proof fn lemma_group_num_bindings(
    m: Seq<(Seq<char>, Seq<char>, Seq<char>)>,
    fs: Seq<FilterNode>,
    nb: nat,
    sep: Seq<char>,
)
    ensures
        match spec_group_inner(m, fs, nb, sep) {
            Some(r) => r.1.len() == num_bindings_group(fs),
            None => true,
        },
        match spec_group(m, fs, nb, sep) {
            Some(r) => r.1.len() == num_bindings_group(fs),
            None => true,
        },
    decreases fs, 2int, 1int,
{
    if fs.len() > 0 {
        lemma_filter_num_bindings(m, fs[0], nb);
        match spec_filter(m, fs[0], nb) {
            Some((c0, b0)) => {
                lemma_group_num_bindings(m, fs.drop_first(), nb + b0.len(), sep);
            },
            None => {},
        }
    }
}

/// The column text for `attr`: the mapped column, or the literal `''`.
fn get_mapping(m: &Mappings, attr: &str) -> (r: String)
    ensures
        r@ == spec_col(m@, attr@),
{
    match m.get(attr) {
        Some(t) => t.2,
        None => String::from_str("''"),
    }
}

/// The next placeholder token `$k`, `k` one past the bindings taken so far.
fn get_token(n_bindings: usize) -> (r: String)
    requires
        n_bindings < usize::MAX,
    ensures
        r@ == "$"@ + dec_rep((n_bindings + 1) as nat),
{
    let mut s = String::from_str("$");
    let d = u64_to_dec((n_bindings + 1) as u64);
    s.append(d.as_str());
    proof {
        assert(s@ =~= "$"@ + dec_rep((n_bindings + 1) as nat));
    }
    s
}

/// The LIKE pattern for a substring filter, assembled in order.
fn build_substr_pattern(parts: &SubstringParts) -> (r: String)
    ensures
        r@ == spec_substr_pattern(
            opt_view(parts.initial),
            parts.any.deep_view(),
            opt_view(parts.last),
        ),
{
    let ghost head = match opt_view(parts.initial) {
        Some(s) => sanitize_seq(s) + "%"@,
        None => Seq::<char>::empty(),
    };
    let ghost head2 = if head.len() == 0 && parts.any.deep_view().len() > 0 {
        "%"@
    } else {
        head
    };
    let mut p: String = match &parts.initial {
        Some(s) => {
            let mut x = sanitize(s.as_str());
            x.append("%");
            x
        },
        None => String::new(),
    };
    if p.as_str().is_empty() && parts.any.len() > 0 {
        p.append("%");
    }
    proof {
        assert(p@ == head2);
    }
    let mut i: usize = 0;
    while i < parts.any.len()
        invariant
            i <= parts.any@.len(),
            parts.any.deep_view().len() == parts.any@.len(),
            p@ == head2 + spec_any_parts(parts.any.deep_view().subrange(0, i as int)),
        decreases parts.any@.len() - i,
    {
        let s = sanitize(parts.any[i].as_str());
        p.append(s.as_str());
        p.append("%");
        i = i + 1;
        proof {
            let dv = parts.any.deep_view();
            assert(dv[i - 1] == parts.any@[i - 1]@);
            assert(dv.subrange(0, i as int).drop_last() =~= dv.subrange(0, i - 1));
            assert(p@ =~= head2 + spec_any_parts(dv.subrange(0, i as int)));
        }
    }
    proof {
        let dv = parts.any.deep_view();
        assert(dv.subrange(0, dv.len() as int) =~= dv);
    }
    match &parts.last {
        Some(s) => {
            let x = sanitize(s.as_str());
            p.append(x.as_str());
        },
        None => {},
    }
    p
}

/// Translate one filter node, appending its fragment to `query` and its
/// bind values to `bindings`. An unsupported filter kind is refused with
/// result code `Other`; the partly written fragment is then discarded by
/// the caller.
pub fn build_filter_inner(
    m: &Mappings,
    f: &FilterNode,
    query: &mut String,
    bindings: &mut Vec<String>,
) -> (r: Result<(), (LdapResultCode, String)>)
    requires
        old(bindings)@.len() + num_bindings(*f) <= usize::MAX,
    ensures
        match spec_filter(m@, *f, old(bindings)@.len() as nat) {
            Some(cb) => r is Ok && final(query)@ == old(query)@ + cb.0
                && final(bindings).deep_view() == old(bindings).deep_view() + cb.1,
            None => r matches Err(e) && e.0 == LdapResultCode::Other && e.1@
                == "Filter not implemented"@,
        },
    decreases *f, 0int, 0int,
{
    match f {
        FilterNode::And(fs) => {
            proof {
                assert(decreases_to!(*f => f->And_0));
                assert(decreases_to!(f->And_0 => fs@));
            }
            build_group(m, fs, "AND ", query, bindings)
        },
        FilterNode::Or(fs) => {
            proof {
                assert(decreases_to!(*f => f->Or_0));
                assert(decreases_to!(f->Or_0 => fs@));
            }
            build_group(m, fs, "OR ", query, bindings)
        },
        FilterNode::Not(g) => {
            query.append("(NOT ");
            let r = build_filter_inner(m, g, query, bindings);
            match r {
                Ok(()) => {
                    query.append(") ");
                    proof {
                        match spec_filter(m@, *f, old(bindings)@.len() as nat) {
                            Some(cb) => {
                                assert(query@ =~= old(query)@ + cb.0);
                            },
                            None => {},
                        }
                    }
                    Ok(())
                },
                Err(e) => Err(e),
            }
        },
        FilterNode::Equality(attr, value) => {
            let col = get_mapping(m, attr.as_str());
            query.append("LOWER(");
            query.append(col.as_str());
            query.append(") = LOWER(");
            let tok = get_token(bindings.len());
            query.append(tok.as_str());
            query.append(") ");
            bindings.push(sanitize(value.as_str()));
            proof {
                let cb = spec_filter(m@, *f, old(bindings)@.len() as nat)->Some_0;
                assert(query@ =~= old(query)@ + cb.0);
                assert(bindings.deep_view() =~= old(bindings).deep_view() + cb.1);
            }
            Ok(())
        },
        FilterNode::Substring(attr, parts) => {
            let col = get_mapping(m, attr.as_str());
            query.append("LOWER(");
            query.append(col.as_str());
            query.append(") LIKE LOWER(");
            let tok = get_token(bindings.len());
            query.append(tok.as_str());
            query.append(") ");
            bindings.push(build_substr_pattern(parts));
            proof {
                let cb = spec_filter(m@, *f, old(bindings)@.len() as nat)->Some_0;
                assert(query@ =~= old(query)@ + cb.0);
                assert(bindings.deep_view() =~= old(bindings).deep_view() + cb.1);
            }
            Ok(())
        },
        FilterNode::Present(attr) => {
            let col = get_mapping(m, attr.as_str());
            query.append(col.as_str());
            query.append(" <> '' ");
            proof {
                let cb = spec_filter(m@, *f, old(bindings)@.len() as nat)->Some_0;
                assert(query@ =~= old(query)@ + cb.0);
                assert(bindings.deep_view() =~= old(bindings).deep_view() + cb.1);
            }
            Ok(())
        },
        FilterNode::Unsupported => Err(
            (LdapResultCode::Other, String::from_str("Filter not implemented")),
        ),
    }
}

/// Translate a whole group: parentheses around the members when the group
/// is not empty, nothing at all when it is.
fn build_group(
    m: &Mappings,
    fs: &Vec<FilterNode>,
    sep: &str,
    query: &mut String,
    bindings: &mut Vec<String>,
) -> (r: Result<(), (LdapResultCode, String)>)
    requires
        old(bindings)@.len() + num_bindings_group(fs@) <= usize::MAX,
    ensures
        match spec_group(m@, fs@, old(bindings)@.len() as nat, sep@) {
            Some(cb) => r is Ok && final(query)@ == old(query)@ + cb.0
                && final(bindings).deep_view() == old(bindings).deep_view() + cb.1,
            None => r matches Err(e) && e.0 == LdapResultCode::Other && e.1@
                == "Filter not implemented"@,
        },
    decreases fs@, 1int, 0int,
{
    if fs.len() == 0 {
        proof {
            assert(query@ =~= old(query)@ + Seq::<char>::empty());
            assert(bindings.deep_view() =~= old(bindings).deep_view() + Seq::<Seq<char>>::empty());
        }
        return Ok(());
    }
    query.append("(");
    proof {
        assert(fs@.skip(0) =~= fs@);
    }
    let r = build_group_inner(m, fs, 0, sep, query, bindings);
    match r {
        Ok(()) => {
            query.append(") ");
            proof {
                assert(fs@.skip(0) =~= fs@);
                match spec_group(m@, fs@, old(bindings)@.len() as nat, sep@) {
                    Some(cb) => {
                        assert(query@ =~= old(query)@ + cb.0);
                    },
                    None => {},
                }
            }
            Ok(())
        },
        Err(e) => {
            proof {
                assert(fs@.skip(0) =~= fs@);
            }
            Err(e)
        },
    }
}

/// Translate the members of a group from position `start` on, `sep`
/// between consecutive members.
fn build_group_inner(
    m: &Mappings,
    fs: &Vec<FilterNode>,
    start: usize,
    sep: &str,
    query: &mut String,
    bindings: &mut Vec<String>,
) -> (r: Result<(), (LdapResultCode, String)>)
    requires
        start < fs@.len(),
        old(bindings)@.len() + num_bindings_group(fs@.skip(start as int)) <= usize::MAX,
    ensures
        match spec_group_inner(m@, fs@.skip(start as int), old(bindings)@.len() as nat, sep@) {
            Some(cb) => r is Ok && final(query)@ == old(query)@ + cb.0
                && final(bindings).deep_view() == old(bindings).deep_view() + cb.1,
            None => r matches Err(e) && e.0 == LdapResultCode::Other && e.1@
                == "Filter not implemented"@,
        },
    decreases fs@, 0int, fs@.len() - start,
{
    let ghost tail = fs@.skip(start as int);
    proof {
        assert(tail[0] == fs@[start as int]);
        assert(tail.drop_first() =~= fs@.skip(start as int + 1));
        assert(num_bindings_group(tail) == num_bindings(tail[0]) + num_bindings_group(
            tail.drop_first(),
        ));
        assert(decreases_to!(fs@ => fs@[start as int]));
    }
    let r0 = build_filter_inner(m, &fs[start], query, bindings);
    match r0 {
        Err(e) => Err(e),
        Ok(()) => {
            proof {
                lemma_filter_num_bindings(m@, fs@[start as int], old(bindings)@.len() as nat);
                assert(bindings.deep_view().len() == bindings@.len());
                assert(old(bindings).deep_view().len() == old(bindings)@.len());
                assert(bindings@.len() == old(bindings)@.len() + num_bindings(fs@[start as int]));
            }
            if start < fs.len() - 1 {
                query.append(sep);
                let ghost mid_query = query@;
                let ghost mid_bindings = bindings.deep_view();
                let r1 = build_group_inner(m, fs, start + 1, sep, query, bindings);
                match r1 {
                    Err(e) => Err(e),
                    Ok(()) => {
                        proof {
                            match spec_group_inner(
                                m@,
                                tail,
                                old(bindings)@.len() as nat,
                                sep@,
                            ) {
                                Some(cb) => {
                                    assert(query@ =~= old(query)@ + cb.0);
                                    assert(bindings.deep_view() =~= old(bindings).deep_view()
                                        + cb.1);
                                },
                                None => {},
                            }
                        }
                        Ok(())
                    },
                }
            } else {
                proof {
                    assert(tail.len() == 1);
                    match spec_group_inner(m@, tail, old(bindings)@.len() as nat, sep@) {
                        Some(cb) => {
                            assert(spec_group_inner(
                                m@,
                                tail.drop_first(),
                                old(bindings)@.len() as nat + num_bindings(tail[0]),
                                sep@,
                            ) == Some((Seq::<char>::empty(), Seq::<Seq<char>>::empty())));
                            assert(query@ =~= old(query)@ + cb.0);
                            assert(bindings.deep_view() =~= old(bindings).deep_view() + cb.1);
                        },
                        None => {},
                    }
                }
                Ok(())
            }
        },
    }
}

/// Translate the request's filter into a complete WHERE clause and its
/// bind values; refused with result code `Other` for a filter kind the
/// gateway does not support.
pub fn build_filter(m: &Mappings, f: &FilterNode) -> (r: Result<
    (String, Vec<String>),
    (LdapResultCode, String),
>)
    requires
        num_bindings(*f) <= usize::MAX,
    ensures
        match spec_filter(m@, *f, 0) {
            Some(cb) => r matches Ok(qb) && qb.0@ == "WHERE "@ + cb.0 && qb.1.deep_view()
                == cb.1,
            None => r matches Err(e) && e.0 == LdapResultCode::Other && e.1@
                == "Filter not implemented"@,
        },
{
    let mut query = String::from_str("WHERE ");
    let mut bindings: Vec<String> = Vec::new();
    let r = build_filter_inner(m, f, &mut query, &mut bindings);
    match r {
        Ok(()) => {
            proof {
                match spec_filter(m@, *f, 0) {
                    Some(cb) => {
                        assert(bindings.deep_view() =~= cb.1);
                    },
                    None => {},
                }
            }
            Ok((query, bindings))
        },
        Err(e) => Err(e),
    }
}


/// Count the bind values a filter will take; `None` when the count does
/// not fit in a machine word, so callers can test the translator's bound
/// before asking for a translation.
pub fn count_bindings(f: &FilterNode) -> (r: Option<u64>)
    ensures
        match r {
            Some(n) => n as nat == num_bindings(*f),
            None => num_bindings(*f) > u64::MAX,
        },
    decreases *f, 0int, 0int,
{
    match f {
        FilterNode::And(fs) => {
            proof {
                assert(decreases_to!(*f => f->And_0));
                assert(decreases_to!(f->And_0 => fs@));
            }
            count_group_bindings(fs)
        },
        FilterNode::Or(fs) => {
            proof {
                assert(decreases_to!(*f => f->Or_0));
                assert(decreases_to!(f->Or_0 => fs@));
            }
            count_group_bindings(fs)
        },
        FilterNode::Not(g) => count_bindings(g),
        FilterNode::Equality(_, _) => Some(1),
        FilterNode::Substring(_, _) => Some(1),
        FilterNode::Present(_) => Some(0),
        FilterNode::Unsupported => Some(0),
    }
}

fn count_group_bindings(fs: &Vec<FilterNode>) -> (r: Option<u64>)
    ensures
        match r {
            Some(n) => n as nat == num_bindings_group(fs@),
            None => num_bindings_group(fs@) > u64::MAX,
        },
    decreases fs@, 1int, 0int,
{
    proof {
        assert(fs@.skip(0) =~= fs@);
    }
    count_group_bindings_from(fs, 0)
}

fn count_group_bindings_from(fs: &Vec<FilterNode>, start: usize) -> (r: Option<u64>)
    requires
        start <= fs@.len(),
    ensures
        match r {
            Some(n) => n as nat == num_bindings_group(fs@.skip(start as int)),
            None => num_bindings_group(fs@.skip(start as int)) > u64::MAX,
        },
    decreases fs@, 0int, fs@.len() - start,
{
    if start == fs.len() {
        proof {
            assert(fs@.skip(start as int) =~= Seq::<FilterNode>::empty());
        }
        return Some(0);
    }
    proof {
        assert(decreases_to!(fs@ => fs@[start as int]));
        assert(fs@.skip(start as int)[0] == fs@[start as int]);
        assert(fs@.skip(start as int).drop_first() =~= fs@.skip(start as int + 1));
    }
    let a = match count_bindings(&fs[start]) {
        Some(a) => a,
        None => {
            return None;
        },
    };
    let b = match count_group_bindings_from(fs, start + 1) {
        Some(b) => b,
        None => {
            return None;
        },
    };
    if a <= u64::MAX - b {
        Some(a + b)
    } else {
        None
    }
}


} // verus!
