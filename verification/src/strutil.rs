//! Character and string helpers shared by the whole crate: ASCII
//! lowercasing, LIKE-metacharacter escaping, decimal rendering, and the
//! exact searching and slicing primitives the DN parser needs.
use vstd::prelude::*;
use vstd::string::*;

verus! {

/// ASCII lowercasing of a single character; every other character is kept.
pub open spec fn lower_char(c: char) -> char {
    if 'A' <= c && c <= 'Z' {
        ((c as u32) + 32) as char
    } else {
        c
    }
}

/// ASCII lowercasing of a whole string.
pub open spec fn lower_seq(s: Seq<char>) -> Seq<char> {
    s.map_values(|c: char| lower_char(c))
}

/// How one character is escaped before it is handed to SQL LIKE:
/// `%` and `_` get a leading backslash, everything else passes through.
pub open spec fn sanitize_char(c: char) -> Seq<char> {
    if c == '%' {
        seq!['\\', c]
    } else if c == '_' {
        seq!['\\', c]
    } else {
        seq![c]
    }
}

/// Escaping of a whole value: each character in order, escaped.
pub open spec fn sanitize_seq(s: Seq<char>) -> Seq<char>
    decreases s.len(),
{
    if s.len() == 0 {
        Seq::empty()
    } else {
        sanitize_seq(s.drop_last()) + sanitize_char(s.last())
    }
}

/// `s` ends with the suffix `t`.
pub open spec fn ends_with_seq(s: Seq<char>, t: Seq<char>) -> bool {
    t.len() <= s.len() && s.subrange(s.len() - t.len(), s.len() as int) == t
}

/// The decimal digit character for `d` (meaningful for `d < 10`).
pub open spec fn spec_digit(d: nat) -> char {
    (48 + d) as char
}

/// The decimal rendering of `n`, without leading zeros.
pub open spec fn dec_rep(n: nat) -> Seq<char>
    decreases n,
{
    if n < 10 {
        seq![spec_digit(n)]
    } else {
        dec_rep(n / 10).push(spec_digit(n % 10))
    }
}

pub open spec fn is_digit(c: char) -> bool {
    '0' <= c && c <= '9'
}

/// Every character of a decimal rendering is a digit.
pub proof fn lemma_dec_rep_digits(n: nat)
    ensures
        dec_rep(n).len() >= 1,
        forall|i: int| 0 <= i < dec_rep(n).len() ==> is_digit(#[trigger] dec_rep(n)[i]),
    decreases n,
{
    if n >= 10 {
        lemma_dec_rep_digits(n / 10);
    }
}

/// Relies on `String: FromIterator<char>`: collecting an iterator of
/// characters yields the string of exactly those characters in order.
#[verifier::external_body]
pub fn chars_to_string(v: &Vec<char>) -> (r: String)
    ensures
        r@ == v@,
{
    v.iter().collect()
}

/// The characters of `s`, in order, as a vector.
pub fn str_to_chars(s: &str) -> (r: Vec<char>)
    ensures
        r@ == s@,
{
    let n = s.unicode_len();
    let mut v: Vec<char> = Vec::new();
    let mut i: usize = 0;
    while i < n
        invariant
            i <= n,
            n == s@.len(),
            v@ == s@.subrange(0, i as int),
        decreases n - i,
    {
        v.push(s.get_char(i));
        i = i + 1;
        proof {
            assert(v@ =~= s@.subrange(0, i as int));
        }
    }
    proof {
        assert(v@ =~= s@);
    }
    v
}

fn lower_char_exec(c: char) -> (r: char)
    ensures
        r == lower_char(c),
{
    if 'A' <= c && c <= 'Z' {
        let u: u32 = c as u32;
        let l: u32 = u + 32;
        let b: u8 = l as u8;
        assert((l as u8) as u32 == l) by (bit_vector)
            requires
                l <= 122,
        ;
        b as char
    } else {
        c
    }
}

/// ASCII lowercase of a string.
pub fn ascii_lowercase(s: &str) -> (r: String)
    ensures
        r@ == lower_seq(s@),
{
    let cs = str_to_chars(s);
    let mut out: Vec<char> = Vec::new();
    let mut i: usize = 0;
    while i < cs.len()
        invariant
            i <= cs@.len(),
            cs@ == s@,
            out@ == lower_seq(s@.subrange(0, i as int)),
        decreases cs@.len() - i,
    {
        out.push(lower_char_exec(cs[i]));
        i = i + 1;
        proof {
            assert(out@ =~= lower_seq(s@.subrange(0, i as int)));
        }
    }
    proof {
        assert(out@ =~= lower_seq(s@));
    }
    chars_to_string(&out)
}

/// Escape `%` and `_` for use inside a LIKE pattern or equality binding.
pub fn sanitize(s: &str) -> (r: String)
    ensures
        r@ == sanitize_seq(s@),
{
    let cs = str_to_chars(s);
    let mut out: Vec<char> = Vec::new();
    let mut i: usize = 0;
    while i < cs.len()
        invariant
            i <= cs@.len(),
            cs@ == s@,
            out@ == sanitize_seq(s@.subrange(0, i as int)),
        decreases cs@.len() - i,
    {
        let c = cs[i];
        if c == '%' || c == '_' {
            out.push('\\');
            out.push(c);
        } else {
            out.push(c);
        }
        i = i + 1;
        proof {
            let pre = s@.subrange(0, i as int);
            assert(pre.drop_last() =~= s@.subrange(0, i - 1));
            assert(out@ =~= sanitize_seq(pre.drop_last()) + sanitize_char(pre.last()));
        }
    }
    proof {
        assert(s@.subrange(0, cs@.len() as int) =~= s@);
    }
    chars_to_string(&out)
}

/// Character-wise string equality.
pub fn str_eq(a: &str, b: &str) -> (r: bool)
    ensures
        r == (a@ == b@),
{
    let na = a.unicode_len();
    let nb = b.unicode_len();
    if na != nb {
        return false;
    }
    let mut i: usize = 0;
    while i < na
        invariant
            i <= na,
            na == a@.len(),
            na == b@.len(),
            forall|j: int| 0 <= j < i ==> a@[j] == b@[j],
        decreases na - i,
    {
        if a.get_char(i) != b.get_char(i) {
            return false;
        }
        i = i + 1;
    }
    proof {
        assert(a@ =~= b@);
    }
    true
}

/// Does `s` end with `t`?
pub fn str_ends_with(s: &str, t: &str) -> (r: bool)
    ensures
        r == ends_with_seq(s@, t@),
{
    let ns = s.unicode_len();
    let nt = t.unicode_len();
    if nt > ns {
        return false;
    }
    let off = ns - nt;
    let mut i: usize = 0;
    while i < nt
        invariant
            i <= nt,
            ns == s@.len(),
            nt == t@.len(),
            off == ns - nt,
            forall|j: int| 0 <= j < i ==> s@[off + j] == t@[j],
        decreases nt - i,
    {
        if s.get_char(off + i) != t.get_char(i) {
            proof {
                assert(s@.subrange(s@.len() - t@.len(), s@.len() as int)[i as int] != t@[i as int]);
            }
            return false;
        }
        i = i + 1;
    }
    proof {
        assert(s@.subrange(s@.len() - t@.len(), s@.len() as int) =~= t@);
    }
    true
}

/// Index of the first occurrence of `c` in `s`, if any.
pub fn find_char(s: &str, c: char) -> (r: Option<usize>)
    ensures
        match r {
            Some(i) => s@.index_of_first(c) == Some(i as int),
            None => s@.index_of_first(c) is None,
        },
{
    let n = s.unicode_len();
    let mut i: usize = 0;
    while i < n
        invariant
            i <= n,
            n == s@.len(),
            forall|j: int| 0 <= j < i ==> s@[j] != c,
        decreases n - i,
    {
        if s.get_char(i) == c {
            proof {
                s@.index_of_first_ensures(c);
            }
            return Some(i);
        }
        i = i + 1;
    }
    proof {
        s@.index_of_first_ensures(c);
        assert(!s@.contains(c)) by {
            if s@.contains(c) {
                let w = choose|w: int| 0 <= w < s@.len() && s@[w] == c;
            }
        }
    }
    None
}

fn digit_exec(d: u8) -> (r: char)
    requires
        d < 10,
    ensures
        r == spec_digit(d as nat),
{
    let b: u8 = 48 + d;
    b as char
}

fn push_dec(n: u64, v: &mut Vec<char>)
    ensures
        final(v)@ == old(v)@ + dec_rep(n as nat),
    decreases n,
{
    if n < 10 {
        v.push(digit_exec(n as u8));
    } else {
        push_dec(n / 10, v);
        v.push(digit_exec((n % 10) as u8));
        proof {
            assert(v@ =~= old(v)@ + dec_rep(n as nat));
        }
    }
}

/// The decimal rendering of `n`.
pub fn u64_to_dec(n: u64) -> (r: String)
    ensures
        r@ == dec_rep(n as nat),
{
    let mut v: Vec<char> = Vec::new();
    push_dec(n, &mut v);
    proof {
        assert(v@ =~= dec_rep(n as nat));
    }
    chars_to_string(&v)
}


/// The parts joined with `sep` between consecutive parts.
pub open spec fn spec_join_emit(parts: Seq<Seq<char>>, sep: Seq<char>) -> Seq<char>
    decreases parts.len(),
{
    if parts.len() == 0 {
        Seq::empty()
    } else if parts.len() == 1 {
        parts[0]
    } else {
        spec_join_emit(parts.drop_last(), sep) + sep + parts.last()
    }
}

/// Join strings with a separator.
pub fn join_with(parts: &Vec<String>, sep: &str) -> (r: String)
    ensures
        r@ == spec_join_emit(parts.deep_view(), sep@),
{
    let mut out = String::new();
    let mut i: usize = 0;
    let n = parts.len();
    while i < n
        invariant
            i <= n,
            n == parts@.len(),
            out@ == spec_join_emit(parts.deep_view().subrange(0, i as int), sep@),
        decreases n - i,
    {
        if i > 0 {
            out.append(sep);
        }
        out.append(parts[i].as_str());
        i = i + 1;
        proof {
            let dv = parts.deep_view();
            let cur = dv.subrange(0, i as int);
            assert(dv[i - 1] == parts@[i - 1]@);
            assert(cur.drop_last() =~= dv.subrange(0, i - 1));
            assert(cur.last() == dv[i - 1]);
            if i == 1 {
                assert(out@ =~= cur[0]);
            } else {
                assert(out@ =~= spec_join_emit(cur.drop_last(), sep@) + sep@ + cur.last());
            }
        }
    }
    proof {
        assert(parts.deep_view().subrange(0, n as int) =~= parts.deep_view());
    }
    out
}

} // verus!
