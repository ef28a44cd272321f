//! DNResolver: classify the search base DN against the configured suffix.
//! The outcome decides whether a search is answered from synthesized
//! entries, a single-row lookup, a filtered scan, or an error.
use vstd::prelude::*;
use vstd::string::*;

use crate::proto::Scope;
use crate::strutil::{ascii_lowercase, ends_with_seq, find_char, lower_seq, str_ends_with, str_eq};

verus! {

/// `base` names an ancestor of the suffix: the suffix ends with `,base`.
pub open spec fn spec_is_ancestor(base_l: Seq<char>, suffix_l: Seq<char>) -> bool {
    ends_with_seq(suffix_l, ","@ + base_l)
}

/// `base` lies directly beneath the suffix: it ends with `,suffix`.
pub open spec fn leaf_region(base_l: Seq<char>, suffix_l: Seq<char>) -> bool {
    ends_with_seq(base_l, ","@ + suffix_l)
}

/// What stands before `,suffix` in the base.
pub open spec fn leaf_ident(base_l: Seq<char>, suffix_l: Seq<char>) -> Seq<char> {
    base_l.subrange(0, base_l.len() - suffix_l.len() - 1)
}

/// A well-formed leaf RDN: `cn=<value>` with a non-empty value holding
/// neither `,` nor a second `=`.
pub open spec fn leaf_ident_ok(ident: Seq<char>) -> bool {
    &&& ident.len() > 3
    &&& ident.subrange(0, 3) == "cn="@
    &&& forall|k: int| 3 <= k < ident.len() ==> ident[k] != ',' && ident[k] != '='
}

/// The value of a well-formed leaf RDN.
pub open spec fn leaf_value_of(ident: Seq<char>) -> Seq<char> {
    ident.subrange(3, ident.len() as int)
}

/// The lowered suffix can be parsed into its first RDN: it holds a `=`,
/// and a `,` somewhere after the first `=`.
pub open spec fn suffix_parseable(suffix_l: Seq<char>) -> bool {
    &&& suffix_l.index_of_first('=') is Some
    &&& suffix_l.index_of_first(',') is Some
    &&& suffix_l.index_of_first('=')->0 < suffix_l.index_of_first(',')->0
}

/// The type of the suffix's first RDN: what stands before the first `=`.
pub open spec fn spec_rdn_type(suffix_l: Seq<char>) -> Seq<char> {
    suffix_l.subrange(0, suffix_l.index_of_first('=')->0)
}

/// The value of the suffix's first RDN: between the first `=` and the
/// first `,`.
pub open spec fn spec_rdn_value(suffix_l: Seq<char>) -> Seq<char> {
    suffix_l.subrange(suffix_l.index_of_first('=')->0 + 1, suffix_l.index_of_first(',')->0)
}

/// The classification of a search base, as plain data.
pub enum SpecBaseOutcome {
    RootDse,
    SuffixEntry(Seq<char>, Seq<char>),
    SuffixRdnUnsupported,
    Ancestor,
    Leaf(Seq<char>),
    NoMatch,
    Subtree,
    NonBaseElsewhere,
}

/// How a base-scope or non-base search at `base` is classified against the
/// configured `suffix`, compared case-insensitively.
pub open spec fn spec_classify(base: Seq<char>, scope: Scope, suffix: Seq<char>) -> SpecBaseOutcome {
    let base_l = lower_seq(base);
    let suffix_l = lower_seq(suffix);
    if scope == Scope::Base {
        if base.len() == 0 {
            SpecBaseOutcome::RootDse
        } else if spec_is_ancestor(base_l, suffix_l) {
            SpecBaseOutcome::Ancestor
        } else if base_l == suffix_l {
            if suffix_parseable(suffix_l) {
                let t = spec_rdn_type(suffix_l);
                if t == "dc"@ || t == "ou"@ {
                    SpecBaseOutcome::SuffixEntry(t, spec_rdn_value(suffix_l))
                } else {
                    SpecBaseOutcome::SuffixRdnUnsupported
                }
            } else {
                SpecBaseOutcome::SuffixRdnUnsupported
            }
        } else if leaf_region(base_l, suffix_l) {
            let ident = leaf_ident(base_l, suffix_l);
            if leaf_ident_ok(ident) {
                SpecBaseOutcome::Leaf(leaf_value_of(ident))
            } else {
                SpecBaseOutcome::NoMatch
            }
        } else {
            SpecBaseOutcome::NoMatch
        }
    } else {
        if base_l == suffix_l {
            SpecBaseOutcome::Subtree
        } else {
            SpecBaseOutcome::NonBaseElsewhere
        }
    }
}

/// The classification as the executor consumes it.
pub enum BaseOutcome {
    RootDse,
    SuffixEntry(String, String),
    SuffixRdnUnsupported,
    Ancestor,
    Leaf(String),
    NoMatch,
    Subtree,
    NonBaseElsewhere,
}

/// The executable outcome carries the same data as the specified one.
pub open spec fn outcome_rel(r: BaseOutcome, s: SpecBaseOutcome) -> bool {
    match (r, s) {
        (BaseOutcome::RootDse, SpecBaseOutcome::RootDse) => true,
        (BaseOutcome::SuffixEntry(t, v), SpecBaseOutcome::SuffixEntry(st, sv)) => t@ == st && v@
            == sv,
        (BaseOutcome::SuffixRdnUnsupported, SpecBaseOutcome::SuffixRdnUnsupported) => true,
        (BaseOutcome::Ancestor, SpecBaseOutcome::Ancestor) => true,
        (BaseOutcome::Leaf(cn), SpecBaseOutcome::Leaf(scn)) => cn@ == scn,
        (BaseOutcome::NoMatch, SpecBaseOutcome::NoMatch) => true,
        (BaseOutcome::Subtree, SpecBaseOutcome::Subtree) => true,
        (BaseOutcome::NonBaseElsewhere, SpecBaseOutcome::NonBaseElsewhere) => true,
        _ => false,
    }
}

/// The leaf value when the identifier is a well-formed `cn=<value>` RDN.
fn leaf_value(ident: &str) -> (r: Option<String>)
    ensures
        match r {
            Some(v) => leaf_ident_ok(ident@) && v@ == leaf_value_of(ident@),
            None => !leaf_ident_ok(ident@),
        },
{
    let n = ident.unicode_len();
    if n <= 3 {
        return None;
    }
    let head = ident.substring_char(0, 3);
    if !str_eq(head, "cn=") {
        return None;
    }
    let mut k: usize = 3;
    while k < n
        invariant
            3 <= k <= n,
            n == ident@.len(),
            forall|j: int| 3 <= j < k ==> ident@[j] != ',' && ident@[j] != '=',
        decreases n - k,
    {
        let c = ident.get_char(k);
        if c == ',' || c == '=' {
            return None;
        }
        k = k + 1;
    }
    Some(String::from_str(ident.substring_char(3, n)))
}

/// Classify the search base against the suffix, as the lowered strings
/// compare. The suffix must be parseable when a base-scope search names it
/// exactly, since its first RDN is then read out.
pub fn classify_base(base: &str, scope: Scope, suffix: &str) -> (r: BaseOutcome)
    requires
        (scope == Scope::Base && base@.len() > 0 && lower_seq(base@) == lower_seq(suffix@))
            ==> suffix_parseable(lower_seq(suffix@)),
    ensures
        outcome_rel(r, spec_classify(base@, scope, suffix@)),
{
    let base_l = ascii_lowercase(base);
    let suffix_l = ascii_lowercase(suffix);
    if scope == Scope::Base {
        if base.unicode_len() == 0 {
            return BaseOutcome::RootDse;
        }
        let mut comma_base = String::from_str(",");
        comma_base.append(base_l.as_str());
        proof {
            assert(comma_base@ =~= ","@ + lower_seq(base@));
        }
        if str_ends_with(suffix_l.as_str(), comma_base.as_str()) {
            return BaseOutcome::Ancestor;
        }
        if str_eq(base_l.as_str(), suffix_l.as_str()) {
            let eq_ix = find_char(suffix_l.as_str(), '=');
            let comma_ix = find_char(suffix_l.as_str(), ',');
            match (eq_ix, comma_ix) {
                (Some(i), Some(j)) => {
                    if i < j {
                        proof {
                            suffix_l@.index_of_first_ensures('=');
                            suffix_l@.index_of_first_ensures(',');
                        }
                        let t = suffix_l.as_str().substring_char(0, i);
                        let v = suffix_l.as_str().substring_char(i + 1, j);
                        if str_eq(t, "dc") || str_eq(t, "ou") {
                            return BaseOutcome::SuffixEntry(
                                String::from_str(t),
                                String::from_str(v),
                            );
                        } else {
                            return BaseOutcome::SuffixRdnUnsupported;
                        }
                    } else {
                        proof {
                            assert(false);
                        }
                        return BaseOutcome::SuffixRdnUnsupported;
                    }
                },
                _ => {
                    proof {
                        assert(false);
                    }
                    return BaseOutcome::SuffixRdnUnsupported;
                },
            }
        }
        let mut comma_suffix = String::from_str(",");
        comma_suffix.append(suffix_l.as_str());
        proof {
            assert(comma_suffix@ =~= ","@ + lower_seq(suffix@));
        }
        if str_ends_with(base_l.as_str(), comma_suffix.as_str()) {
            let bl = base_l.as_str().unicode_len();
            let sl = suffix_l.as_str().unicode_len();
            proof {
                reveal_strlit(",");
                assert(ends_with_seq(base_l@, comma_suffix@));
                assert(comma_suffix@.len() == 1 + suffix_l@.len());
                assert(bl >= sl + 1);
            }
            let ident = base_l.as_str().substring_char(0, bl - sl - 1);
            match leaf_value(ident) {
                Some(v) => BaseOutcome::Leaf(v),
                None => BaseOutcome::NoMatch,
            }
        } else {
            BaseOutcome::NoMatch
        }
    } else {
        if str_eq(base_l.as_str(), suffix_l.as_str()) {
            BaseOutcome::Subtree
        } else {
            BaseOutcome::NonBaseElsewhere
        }
    }
}

/// The configured suffix can serve a base-scope probe of itself: its first
/// RDN parses. Checked once at configuration load.
pub fn suffix_parse_ok(suffix: &str) -> (r: bool)
    ensures
        r == suffix_parseable(lower_seq(suffix@)),
{
    let suffix_l = ascii_lowercase(suffix);
    let eq_ix = find_char(suffix_l.as_str(), '=');
    let comma_ix = find_char(suffix_l.as_str(), ',');
    match (eq_ix, comma_ix) {
        (Some(i), Some(j)) => i < j,
        _ => false,
    }
}

} // verus!
