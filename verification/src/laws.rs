//! The properties the library promises, stated and proved over the spec
//! functions its contracts use: case-insensitive lookup, LIKE escaping,
//! empty group elision, and value-independence of the emitted SQL.
use vstd::prelude::*;

use crate::config::spec_lookup;
use crate::filter::{spec_filter, spec_group, spec_group_inner};
use crate::proto::FilterNode;
use crate::strutil::{dec_rep, is_digit, lemma_dec_rep_digits, lower_char, lower_seq, sanitize_char, sanitize_seq, spec_digit};

verus! {

/// Lowercasing twice is lowercasing once.
pub proof fn lemma_lower_idempotent(s: Seq<char>)
    ensures
        lower_seq(lower_seq(s)) == lower_seq(s),
{
    assert forall|i: int| 0 <= i < s.len() implies lower_char(lower_char(s[i])) == lower_char(
        s[i],
    ) by {
        let c = s[i];
        if 'A' <= c && c <= 'Z' {
            assert(!('A' <= lower_char(c) && lower_char(c) <= 'Z'));
        }
    }
    assert(lower_seq(lower_seq(s)) =~= lower_seq(s));
}

/// Lookups are case-insensitive: two names with the same lowercase form
/// give the same entry.
pub proof fn lemma_get_case_insensitive(
    m: Seq<(Seq<char>, Seq<char>, Seq<char>)>,
    a: Seq<char>,
    b: Seq<char>,
)
    requires
        lower_seq(a) == lower_seq(b),
    ensures
        spec_lookup(m, lower_seq(a)) == spec_lookup(m, lower_seq(b)),
{
}

/// Every `%` or `_` in a sanitized value stands right after a `\`: none
/// of them reaches SQL LIKE unescaped.
pub proof fn lemma_sanitize_escapes(s: Seq<char>)
    ensures
        forall|i: int|
            (0 <= i < sanitize_seq(s).len() && ((#[trigger] sanitize_seq(s)[i]) == '%'
                || sanitize_seq(s)[i] == '_')) ==> (i > 0 && sanitize_seq(s)[i - 1] == '\\'),
    decreases s.len(),
{
    if s.len() > 0 {
        lemma_sanitize_escapes(s.drop_last());
        let a = sanitize_seq(s.drop_last());
        let b = sanitize_char(s.last());
        assert(sanitize_seq(s) == a + b);
        assert forall|i: int|
            (0 <= i < sanitize_seq(s).len() && ((#[trigger] sanitize_seq(s)[i]) == '%'
                || sanitize_seq(s)[i] == '_')) implies (i > 0 && sanitize_seq(s)[i - 1]
            == '\\') by {
            if i < a.len() {
                assert(sanitize_seq(s)[i] == a[i]);
                if i > 0 {
                    assert(sanitize_seq(s)[i - 1] == a[i - 1]);
                }
            } else {
                let c = s.last();
                if c == '%' || c == '_' {
                    assert(b == seq!['\\', c]);
                    assert(i == a.len() + 1);
                    assert(sanitize_seq(s)[i - 1] == '\\');
                } else {
                    assert(b == seq![c]);
                    assert(sanitize_seq(s)[i] == c);
                }
            }
        }
    }
}

/// An empty `And` or `Or` group emits nothing: no clause text and no
/// bindings.
pub proof fn lemma_empty_group_elision(
    m: Seq<(Seq<char>, Seq<char>, Seq<char>)>,
    f: FilterNode,
    nb: nat,
)
    requires
        (f matches FilterNode::And(fs) && fs@.len() == 0) || (f matches FilterNode::Or(fs)
            && fs@.len() == 0),
    ensures
        spec_filter(m, f, nb) == Some(
            (Seq::<char>::empty(), Seq::<Seq<char>>::empty()),
        ),
{
    match f {
        FilterNode::And(fs) => {
            assert(spec_group(m, fs@, nb, "AND "@) == Some(
                (Seq::<char>::empty(), Seq::<Seq<char>>::empty()),
            ));
        },
        FilterNode::Or(fs) => {
            assert(spec_group(m, fs@, nb, "OR "@) == Some(
                (Seq::<char>::empty(), Seq::<Seq<char>>::empty()),
            ));
        },
        _ => {},
    }
}

/// Two filters have the same shape when they differ only in the values
/// they test for: same tree of nodes, same attribute names, any values.
pub open spec fn same_shape(f1: FilterNode, f2: FilterNode) -> bool
    decreases f1, 0int,
{
    match (f1, f2) {
        (FilterNode::And(a), FilterNode::And(b)) => same_shape_group(a@, b@),
        (FilterNode::Or(a), FilterNode::Or(b)) => same_shape_group(a@, b@),
        (FilterNode::Not(g1), FilterNode::Not(g2)) => same_shape(*g1, *g2),
        (FilterNode::Equality(a1, _), FilterNode::Equality(a2, _)) => a1@ == a2@,
        (FilterNode::Substring(a1, _), FilterNode::Substring(a2, _)) => a1@ == a2@,
        (FilterNode::Present(a1), FilterNode::Present(a2)) => a1@ == a2@,
        (FilterNode::Unsupported, FilterNode::Unsupported) => true,
        _ => false,
    }
}

/// Pointwise same shape.
pub open spec fn same_shape_group(a: Seq<FilterNode>, b: Seq<FilterNode>) -> bool
    decreases a, 1int,
{
    &&& a.len() == b.len()
    &&& (a.len() == 0 || (same_shape(a[0], b[0]) && same_shape_group(
        a.drop_first(),
        b.drop_first(),
    )))
}

/// Injection safety: the emitted clause depends only on the filter's
/// shape, never on the values in it — two same-shaped filters yield the
/// identical clause text and equally many bindings, however their values
/// differ. Request values can only reach the bindings list.
pub proof fn lemma_injection_safety(
    m: Seq<(Seq<char>, Seq<char>, Seq<char>)>,
    f1: FilterNode,
    f2: FilterNode,
    nb: nat,
)
    requires
        same_shape(f1, f2),
    ensures
        match (spec_filter(m, f1, nb), spec_filter(m, f2, nb)) {
            (Some(r1), Some(r2)) => r1.0 == r2.0 && r1.1.len() == r2.1.len(),
            (None, None) => true,
            _ => false,
        },
    decreases f1, 2int, 0int,
{
    match (f1, f2) {
        (FilterNode::And(a), FilterNode::And(b)) => {
            lemma_injection_safety_group(m, a@, b@, nb, "AND "@);
        },
        (FilterNode::Or(a), FilterNode::Or(b)) => {
            lemma_injection_safety_group(m, a@, b@, nb, "OR "@);
        },
        (FilterNode::Not(g1), FilterNode::Not(g2)) => {
            lemma_injection_safety(m, *g1, *g2, nb);
        },
        _ => {},
    }
}

proof fn lemma_injection_safety_group(
    m: Seq<(Seq<char>, Seq<char>, Seq<char>)>,
    a: Seq<FilterNode>,
    b: Seq<FilterNode>,
    nb: nat,
    sep: Seq<char>,
)
    requires
        same_shape_group(a, b),
    ensures
        match (spec_group_inner(m, a, nb, sep), spec_group_inner(m, b, nb, sep)) {
            (Some(r1), Some(r2)) => r1.0 == r2.0 && r1.1.len() == r2.1.len(),
            (None, None) => true,
            _ => false,
        },
        match (spec_group(m, a, nb, sep), spec_group(m, b, nb, sep)) {
            (Some(r1), Some(r2)) => r1.0 == r2.0 && r1.1.len() == r2.1.len(),
            (None, None) => true,
            _ => false,
        },
    decreases a, 2int, 1int,
{
    if a.len() > 0 {
        lemma_injection_safety(m, a[0], b[0], nb);
        match (spec_filter(m, a[0], nb), spec_filter(m, b[0], nb)) {
            (Some(r1), Some(r2)) => {
                lemma_injection_safety_group(
                    m,
                    a.drop_first(),
                    b.drop_first(),
                    nb + r1.1.len(),
                    sep,
                );
            },
            _ => {},
        }
    }
}


/// The longest run of decimal digits at the front of `s`.
pub open spec fn digits_prefix(s: Seq<char>) -> Seq<char>
    decreases s.len(),
{
    if s.len() > 0 && is_digit(s[0]) {
        seq![s[0]] + digits_prefix(s.drop_first())
    } else {
        Seq::empty()
    }
}

/// The number a digit string denotes.
pub open spec fn dec_val(d: Seq<char>) -> nat
    decreases d.len(),
{
    if d.len() == 0 {
        0
    } else {
        dec_val(d.drop_last()) * 10 + ((d.last() as u32) - 48) as nat
    }
}

/// The placeholder numbers appearing in `s`, in order: each `$` followed
/// by at least one digit contributes the number those digits denote.
pub open spec fn placeholders_of(s: Seq<char>) -> Seq<nat>
    decreases s.len(),
    via placeholders_of_decreases
{
    if s.len() == 0 {
        Seq::empty()
    } else if s[0] == '$' {
        if digits_prefix(s.drop_first()).len() == 0 {
            placeholders_of(s.drop_first())
        } else {
            seq![dec_val(digits_prefix(s.drop_first()))] + placeholders_of(
                s.drop_first().skip(digits_prefix(s.drop_first()).len() as int),
            )
        }
    } else {
        placeholders_of(s.drop_first())
    }
}

#[via_fn]
proof fn placeholders_of_decreases(s: Seq<char>) {
    if s.len() > 0 && s[0] == '$' {
        lemma_digits_prefix_char(s.drop_first());
    }
}

/// The digit run is a prefix of all-digit characters, ended by the first
/// non-digit.
pub proof fn lemma_digits_prefix_char(x: Seq<char>)
    ensures
        digits_prefix(x).len() <= x.len(),
        forall|i: int| 0 <= i < digits_prefix(x).len() ==> is_digit(#[trigger] x[i]),
        forall|i: int|
            0 <= i < digits_prefix(x).len() ==> #[trigger] digits_prefix(x)[i] == x[i],
        digits_prefix(x).len() < x.len() ==> !is_digit(x[digits_prefix(x).len() as int]),
    decreases x.len(),
{
    if x.len() > 0 && is_digit(x[0]) {
        lemma_digits_prefix_char(x.drop_first());
        assert(digits_prefix(x) == seq![x[0]] + digits_prefix(x.drop_first()));
        assert forall|i: int| 0 <= i < digits_prefix(x).len() implies is_digit(
            #[trigger] x[i],
        ) by {
            if i > 0 {
                assert(digits_prefix(x.drop_first())[i - 1] == x.drop_first()[i - 1]);
                assert(x.drop_first()[i - 1] == x[i]);
            }
        }
        assert forall|i: int|
            0 <= i < digits_prefix(x).len() implies #[trigger] digits_prefix(x)[i] == x[i] by {
            if i > 0 {
                assert(digits_prefix(x.drop_first())[i - 1] == x.drop_first()[i - 1]);
                assert(x.drop_first()[i - 1] == x[i]);
            }
        }
        if digits_prefix(x).len() < x.len() {
            assert(x[digits_prefix(x).len() as int] == x.drop_first()[digits_prefix(
                x.drop_first(),
            ).len() as int]);
        }
    } else {
        assert(digits_prefix(x) == Seq::<char>::empty());
        assert(digits_prefix(x).len() == 0);
    }
}

/// A position bounding an all-digit prefix determines the digit run.
pub proof fn lemma_digits_prefix_of(x: Seq<char>, j: int)
    requires
        0 <= j <= x.len(),
        forall|i: int| 0 <= i < j ==> is_digit(#[trigger] x[i]),
        j < x.len() ==> !is_digit(x[j]),
    ensures
        digits_prefix(x) == x.subrange(0, j),
    decreases x.len(),
{
    if j == 0 {
        assert(digits_prefix(x) =~= x.subrange(0, 0));
    } else {
        assert(is_digit(x[0]));
        lemma_digits_prefix_of(x.drop_first(), j - 1);
        assert(digits_prefix(x) == seq![x[0]] + x.drop_first().subrange(0, j - 1));
        assert(digits_prefix(x) =~= x.subrange(0, j));
    }
}

/// `s` holds no `$` at all.
pub open spec fn dollar_free(s: Seq<char>) -> bool {
    forall|i: int| 0 <= i < s.len() ==> (#[trigger] s[i]) != '$'
}

/// A string without `$` holds no placeholder.
pub proof fn lemma_placeholders_none(s: Seq<char>)
    requires
        dollar_free(s),
    ensures
        placeholders_of(s) == Seq::<nat>::empty(),
    decreases s.len(),
{
    if s.len() > 0 {
        assert(s[0] != '$');
        assert forall|i: int| 0 <= i < s.drop_first().len() implies (#[trigger] s.drop_first()[i])
            != '$' by {
            assert(s.drop_first()[i] == s[i + 1]);
        }
        lemma_placeholders_none(s.drop_first());
    }
}

/// Placeholder extraction distributes over concatenation when the left
/// part does not end inside a possible placeholder.
pub proof fn lemma_placeholders_append(a: Seq<char>, b: Seq<char>)
    requires
        a.len() > 0 ==> !is_digit(a.last()) && a.last() != '$',
    ensures
        placeholders_of(a + b) == placeholders_of(a) + placeholders_of(b),
    decreases a.len(),
{
    if a.len() == 0 {
        assert(a + b =~= b);
        assert(placeholders_of(a) + placeholders_of(b) =~= placeholders_of(b));
    } else {
        let s = a + b;
        assert(s[0] == a[0]);
        let ra = a.drop_first();
        assert(s.drop_first() =~= ra + b);
        if a[0] == '$' {
            assert(a.len() >= 2) by {
                if a.len() == 1 {
                    assert(a.last() == a[0]);
                }
            }
            assert(ra.len() > 0 && ra.last() == a.last());
            lemma_digits_prefix_char(ra);
            let d = digits_prefix(ra);
            assert(d.len() < ra.len()) by {
                if d.len() == ra.len() {
                    assert(d[d.len() - 1] == ra[d.len() - 1]);
                    assert(is_digit(ra[ra.len() - 1]));
                }
            }
            assert(!is_digit(ra[d.len() as int]));
            assert forall|i: int| 0 <= i < d.len() implies is_digit(#[trigger] (ra + b)[i]) by {
                assert(d[i] == ra[i]);
                assert((ra + b)[i] == ra[i]);
            }
            assert((ra + b)[d.len() as int] == ra[d.len() as int]);
            lemma_digits_prefix_of(
                ra + b,
                d.len() as int,
            );
            assert(digits_prefix(ra + b) =~= d) by {
                assert(digits_prefix(ra + b) == (ra + b).subrange(0, d.len() as int));
            }
            if d.len() == 0 {
                lemma_placeholders_append(ra, b);
                assert(placeholders_of(s) == placeholders_of(ra + b));
                assert(placeholders_of(a) == placeholders_of(ra));
                assert(placeholders_of(a) + placeholders_of(b) =~= placeholders_of(ra)
                    + placeholders_of(b));
            } else {
                let ra2 = ra.skip(d.len() as int);
                assert((ra + b).skip(d.len() as int) =~= ra2 + b);
                assert(ra2.len() > 0 && ra2.last() == ra.last());
                lemma_placeholders_append(ra2, b);
                assert(placeholders_of(s) == seq![dec_val(d)] + (placeholders_of(ra2)
                    + placeholders_of(b)));
                assert(placeholders_of(a) == seq![dec_val(d)] + placeholders_of(ra2));
                assert(placeholders_of(a + b) =~= placeholders_of(a) + placeholders_of(b));
            }
        } else {
            lemma_placeholders_append(ra, b);
            assert(placeholders_of(s) == placeholders_of(ra) + placeholders_of(b));
            assert(placeholders_of(a) == placeholders_of(ra));
        }
    }
}

/// Rendering a number and reading it back is the identity.
pub proof fn lemma_dec_val_rep(n: nat)
    ensures
        dec_val(dec_rep(n)) == n,
    decreases n,
{
    if n < 10 {
        assert(dec_rep(n) == seq![spec_digit(n)]);
        assert(dec_rep(n).drop_last() =~= Seq::<char>::empty());
        assert(dec_val(Seq::<char>::empty()) == 0);
        assert(dec_rep(n).last() == spec_digit(n));
        assert((spec_digit(n) as u32) == 48 + n);
        assert(dec_val(dec_rep(n)) == dec_val(dec_rep(n).drop_last()) * 10 + ((dec_rep(
            n,
        ).last() as u32) - 48) as nat);
    } else {
        lemma_dec_val_rep(n / 10);
        assert(dec_rep(n) == dec_rep(n / 10).push(spec_digit(n % 10)));
        assert(dec_rep(n).drop_last() =~= dec_rep(n / 10));
        assert(dec_rep(n).last() == spec_digit(n % 10));
        assert((spec_digit(n % 10) as u32) == 48 + n % 10);
        assert(dec_val(dec_rep(n)) == dec_val(dec_rep(n).drop_last()) * 10 + ((dec_rep(
            n,
        ).last() as u32) - 48) as nat);
        assert(dec_val(dec_rep(n)) == (n / 10) * 10 + n % 10);
    }
}

/// A `$` directly followed by a rendered number, with no digit after it,
/// is read back as exactly that placeholder.
pub proof fn lemma_placeholder_token(k: nat, tail: Seq<char>)
    requires
        tail.len() > 0 ==> !is_digit(tail[0]),
    ensures
        placeholders_of(seq!['$'] + dec_rep(k) + tail) == seq![k] + placeholders_of(tail),
{
    let rep = dec_rep(k);
    let s = seq!['$'] + rep + tail;
    lemma_dec_rep_digits(k);
    lemma_dec_val_rep(k);
    let s1 = s.drop_first();
    assert(s1 =~= rep + tail);
    assert forall|i: int| 0 <= i < rep.len() implies is_digit(#[trigger] (rep + tail)[i]) by {
        assert((rep + tail)[i] == rep[i]);
    }
    if tail.len() > 0 {
        assert((rep + tail)[rep.len() as int] == tail[0]);
    }
    lemma_digits_prefix_of(rep + tail, rep.len() as int);
    assert((rep + tail).subrange(0, rep.len() as int) =~= rep);
    assert(s[0] == '$');
    assert(digits_prefix(s1) == rep);
    assert(rep.len() > 0);
    assert(s1.skip(rep.len() as int) =~= tail);
    assert(placeholders_of(s) == seq![dec_val(digits_prefix(s1))] + placeholders_of(
        s1.skip(digits_prefix(s1).len() as int),
    ));
    assert(placeholders_of(s) == seq![k] + placeholders_of(tail));
}


/// The placeholder numbers `nb+1 .. nb+n`, in order.
pub open spec fn ph_range(nb: nat, n: nat) -> Seq<nat> {
    Seq::new(n, |i: int| (nb + 1 + i) as nat)
}

proof fn lemma_ph_range_concat(nb: nat, n0: nat, n1: nat)
    ensures
        ph_range(nb, n0) + ph_range(nb + n0, n1) == ph_range(nb, (n0 + n1) as nat),
{
    assert(ph_range(nb, n0) + ph_range(nb + n0, n1) =~= ph_range(nb, (n0 + n1) as nat));
}

/// No mapped column name holds a `$`.
pub open spec fn cols_dollar_free(m: Seq<(Seq<char>, Seq<char>, Seq<char>)>) -> bool {
    forall|i: int| 0 <= i < m.len() ==> dollar_free((#[trigger] m[i]).2)
}

proof fn lemma_dollar_free_append(a: Seq<char>, b: Seq<char>)
    requires
        dollar_free(a),
        dollar_free(b),
    ensures
        dollar_free(a + b),
{
    assert forall|i: int| 0 <= i < (a + b).len() implies (#[trigger] (a + b)[i]) != '$' by {
        if i < a.len() {
            assert((a + b)[i] == a[i]);
        } else {
            assert((a + b)[i] == b[i - a.len()]);
        }
    }
}

/// The SQL text standing for any attribute is `$`-free when all column
/// names are.
proof fn lemma_col_dollar_free(m: Seq<(Seq<char>, Seq<char>, Seq<char>)>, attr: Seq<char>)
    requires
        cols_dollar_free(m),
    ensures
        dollar_free(crate::filter::spec_col(m, attr)),
{
    reveal_strlit("''");
    match spec_lookup(m, lower_seq(attr)) {
        Some(t) => {
            crate::config::lemma_key_index_found(m, lower_seq(attr));
        },
        None => {
            assert(forall|i: int|
                0 <= i < "''"@.len() ==> (#[trigger] "''"@[i]) != '$');
        },
    }
}

/// The character facts of the emitted SQL text pieces.
proof fn lemma_sql_literals()
    ensures
        dollar_free("LOWER("@),
        "LOWER("@.len() == 6,
        "LOWER("@.last() == '(',
        dollar_free(") = LOWER("@),
        ") = LOWER("@.len() == 10,
        ") = LOWER("@.last() == '(',
        dollar_free(") LIKE LOWER("@),
        ") LIKE LOWER("@.len() == 13,
        ") LIKE LOWER("@.last() == '(',
        dollar_free(") "@),
        ") "@.len() == 2,
        ") "@[0] == ')',
        ") "@.last() == ' ',
        dollar_free(" <> '' "@),
        " <> '' "@.len() == 7,
        " <> '' "@.last() == ' ',
        dollar_free("(NOT "@),
        "(NOT "@.len() == 5,
        "(NOT "@.last() == ' ',
        dollar_free("("@),
        "("@.len() == 1,
        "("@.last() == '(',
        dollar_free("AND "@),
        "AND "@.len() == 4,
        "AND "@.last() == ' ',
        dollar_free("OR "@),
        "OR "@.len() == 3,
        "OR "@.last() == ' ',
        dollar_free("WHERE "@),
        "WHERE "@.len() == 6,
        "WHERE "@.last() == ' ',
        "$"@ == seq!['$'],
{
    reveal_strlit("LOWER(");
    reveal_strlit(") = LOWER(");
    reveal_strlit(") LIKE LOWER(");
    reveal_strlit(") ");
    reveal_strlit(" <> '' ");
    reveal_strlit("(NOT ");
    reveal_strlit("(");
    reveal_strlit("AND ");
    reveal_strlit("OR ");
    reveal_strlit("WHERE ");
    reveal_strlit("$");
    assert("$"@ =~= seq!['$']);
}

/// Placeholder density: a translated fragment holds exactly one
/// placeholder per binding it takes, numbered `$nb+1 .. $nb+len` from left
/// to right; and every fragment ends in a space unless it is empty.
pub proof fn lemma_placeholder_density(
    m: Seq<(Seq<char>, Seq<char>, Seq<char>)>,
    f: FilterNode,
    nb: nat,
)
    requires
        cols_dollar_free(m),
    ensures
        match spec_filter(m, f, nb) {
            Some(cb) => placeholders_of(cb.0) == ph_range(nb, cb.1.len()) && (cb.0.len() == 0
                || cb.0.last() == ' '),
            None => true,
        },
    decreases f, 2int, 0int,
{
    lemma_sql_literals();
    match f {
        FilterNode::And(fs) => {
            lemma_placeholder_density_group(m, fs@, nb, "AND "@);
        },
        FilterNode::Or(fs) => {
            lemma_placeholder_density_group(m, fs@, nb, "OR "@);
        },
        FilterNode::Not(g) => {
            lemma_placeholder_density(m, *g, nb);
            match spec_filter(m, *g, nb) {
                Some((c0, bs)) => {
                    lemma_placeholders_none("(NOT "@);
                    lemma_placeholders_none(") "@);
                    lemma_placeholders_append("(NOT "@, c0);
                    let left = "(NOT "@ + c0;
                    assert(left.len() > 0);
                    if c0.len() == 0 {
                        assert(left.last() == "(NOT "@[4]);
                    } else {
                        assert(left.last() == c0.last());
                    }
                    lemma_placeholders_append(left, ") "@);
                    let c = left + ") "@;
                    assert(placeholders_of(c) =~= ph_range(nb, bs.len()));
                    assert(c.last() == ") "@[1]);
                },
                None => {},
            }
        },
        FilterNode::Equality(attr, value) => {
            lemma_col_dollar_free(m, attr@);
            let col = crate::filter::spec_col(m, attr@);
            let p1 = "LOWER("@ + col;
            let p2 = p1 + ") = LOWER("@;
            let rep = dec_rep(nb + 1);
            let c = p2 + "$"@ + rep + ") "@;
            assert(c =~= p2 + (seq!['$'] + rep + ") "@));
            lemma_dollar_free_append("LOWER("@, col);
            lemma_dollar_free_append(p1, ") = LOWER("@);
            lemma_placeholders_none(p2);
            assert(p2.last() == ") = LOWER("@[9]);
            assert(!is_digit(") "@[0]));
            lemma_placeholder_token(nb + 1, ") "@);
            lemma_placeholders_none(") "@);
            lemma_placeholders_append(p2, seq!['$'] + rep + ") "@);
            assert(placeholders_of(p2 + (seq!['$'] + rep + ") "@)) =~= ph_range(nb, 1));
            assert(placeholders_of(c) == ph_range(nb, 1));
            assert(c.last() == ") "@[1]);
        },
        FilterNode::Substring(attr, parts) => {
            lemma_col_dollar_free(m, attr@);
            let col = crate::filter::spec_col(m, attr@);
            let p1 = "LOWER("@ + col;
            let p2 = p1 + ") LIKE LOWER("@;
            let rep = dec_rep(nb + 1);
            let c = p2 + "$"@ + rep + ") "@;
            assert(c =~= p2 + (seq!['$'] + rep + ") "@));
            lemma_dollar_free_append("LOWER("@, col);
            lemma_dollar_free_append(p1, ") LIKE LOWER("@);
            lemma_placeholders_none(p2);
            assert(p2.last() == ") LIKE LOWER("@[12]);
            assert(!is_digit(") "@[0]));
            lemma_placeholder_token(nb + 1, ") "@);
            lemma_placeholders_none(") "@);
            lemma_placeholders_append(p2, seq!['$'] + rep + ") "@);
            assert(placeholders_of(p2 + (seq!['$'] + rep + ") "@)) =~= ph_range(nb, 1));
            assert(placeholders_of(c) == ph_range(nb, 1));
            assert(c.last() == ") "@[1]);
        },
        FilterNode::Present(attr) => {
            lemma_col_dollar_free(m, attr@);
            let col = crate::filter::spec_col(m, attr@);
            lemma_dollar_free_append(col, " <> '' "@);
            let c = col + " <> '' "@;
            lemma_placeholders_none(c);
            assert(placeholders_of(c) =~= ph_range(nb, 0));
            assert(c.last() == " <> '' "@[6]);
        },
        FilterNode::Unsupported => {},
    }
}

proof fn lemma_placeholder_density_group(
    m: Seq<(Seq<char>, Seq<char>, Seq<char>)>,
    fs: Seq<FilterNode>,
    nb: nat,
    sep: Seq<char>,
)
    requires
        cols_dollar_free(m),
        dollar_free(sep),
        sep.len() > 0,
        sep.last() == ' ',
    ensures
        match spec_group_inner(m, fs, nb, sep) {
            Some(cb) => placeholders_of(cb.0) == ph_range(nb, cb.1.len()) && (cb.0.len() == 0
                || cb.0.last() == ' '),
            None => true,
        },
        match spec_group(m, fs, nb, sep) {
            Some(cb) => placeholders_of(cb.0) == ph_range(nb, cb.1.len()) && (cb.0.len() == 0
                || cb.0.last() == ' '),
            None => true,
        },
    decreases fs, 2int, 1int,
{
    lemma_sql_literals();
    if fs.len() == 0 {
        assert(placeholders_of(Seq::<char>::empty()) =~= ph_range(nb, 0));
    } else {
        lemma_placeholder_density(m, fs[0], nb);
        match spec_filter(m, fs[0], nb) {
            Some((c0, b0)) => {
                lemma_placeholder_density_group(m, fs.drop_first(), nb + b0.len(), sep);
                match spec_group_inner(m, fs.drop_first(), nb + b0.len(), sep) {
                    Some((c1, b1)) => {
                        let cbi = spec_group_inner(m, fs, nb, sep)->0;
                        let ci = cbi.0;
                        let bi = cbi.1;
                        assert(bi == b0 + b1);
                        if fs.len() > 1 {
                            assert(ci == c0 + (sep + c1));
                            lemma_placeholders_none(sep);
                            lemma_placeholders_append(sep, c1);
                            lemma_placeholders_append(c0, sep + c1);
                            lemma_ph_range_concat(nb, b0.len(), b1.len());
                            assert(placeholders_of(ci) =~= ph_range(nb, bi.len()));
                            if c1.len() == 0 {
                                assert(ci.last() == sep.last());
                            } else {
                                assert(ci.last() == c1.last());
                            }
                        } else {
                            assert(c1 == Seq::<char>::empty() && b1 == Seq::<Seq<char>>::empty());
                            assert(ci == c0 + c1);
                            assert(ci =~= c0);
                            assert(bi =~= b0);
                            assert(placeholders_of(ci) == ph_range(nb, bi.len()));
                        }
                        // the wrapped group
                        let gc = (spec_group(m, fs, nb, sep)->0).0;
                        assert(gc == "("@ + ci + ") "@);
                        lemma_placeholders_none("("@);
                        lemma_placeholders_append("("@, ci);
                        let left = "("@ + ci;
                        assert(left.len() > 0);
                        if ci.len() == 0 {
                            assert(left.last() == "("@[0]);
                        } else {
                            assert(left.last() == ci.last());
                        }
                        lemma_placeholders_none(") "@);
                        lemma_placeholders_append(left, ") "@);
                        assert(placeholders_of(gc) =~= ph_range(nb, bi.len()));
                        assert(gc.last() == ") "@[1]);
                    },
                    None => {},
                }
            },
            None => {},
        }
    }
}

/// Placeholder density of the whole clause: `WHERE ` followed by the
/// translated filter holds exactly the placeholders `$1 .. $N`, `N` the
/// number of bindings, in left-to-right order.
pub proof fn lemma_placeholder_density_clause(
    m: Seq<(Seq<char>, Seq<char>, Seq<char>)>,
    f: FilterNode,
)
    requires
        cols_dollar_free(m),
    ensures
        match spec_filter(m, f, 0) {
            Some(cb) => placeholders_of("WHERE "@ + cb.0) == ph_range(0, cb.1.len()),
            None => true,
        },
{
    lemma_sql_literals();
    lemma_placeholder_density(m, f, 0);
    match spec_filter(m, f, 0) {
        Some(cb) => {
            lemma_placeholders_none("WHERE "@);
            lemma_placeholders_append("WHERE "@, cb.0);
            assert(placeholders_of("WHERE "@ + cb.0) =~= ph_range(0, cb.1.len()));
        },
        None => {},
    }
}


} // verus!
