//! Configuration data carried by the gateway: SQL connection settings, the
//! LDAP naming context, and the case-insensitive attribute-to-column map.
use vstd::prelude::*;
use vstd::string::*;

use crate::strutil::{ascii_lowercase, lower_seq, str_eq};

verus! {

/// Default LDAP port.
pub fn default_server_port() -> (r: u16)
    ensures
        r == 389,
{
    389
}

/// Syscall filtering is off unless asked for.
pub fn default_server_seccomp() -> (r: bool)
    ensures
        !r,
{
    false
}

/// Query logging is off unless asked for.
pub fn default_server_debug() -> (r: bool)
    ensures
        !r,
{
    false
}

/// The SQL backends the gateway speaks to.
#[derive(Clone, Copy, PartialEq, Eq, Structural, Debug)]
pub enum ConfigSqlBackend {
    PostgreSQL,
}

/// SQL connection settings.
pub struct ConfigSql {
    pub backend: ConfigSqlBackend,
    pub host: String,
    pub port: Option<u16>,
    pub user: String,
    pub pass: String,
    pub database: String,
    pub table: String,
}

impl ConfigSql {
    /// The Unix socket path, when `host` is of the form `unix://<path>`.
    pub fn socket(&self) -> (r: Option<&str>)
        ensures
            match r {
                Some(s) => self.host@.len() >= 7 && self.host@.subrange(0, 7) == "unix://"@
                    && s@ == self.host@.subrange(7, self.host@.len() as int),
                None => !(self.host@.len() >= 7 && self.host@.subrange(0, 7) == "unix://"@),
            },
    {
        let h: &str = self.host.as_str();
        let n = h.unicode_len();
        if n >= 7 {
            let p = h.substring_char(0, 7);
            if str_eq(p, "unix://") {
                return Some(h.substring_char(7, n));
            }
        }
        None
    }
}

/// LDAP-side settings: the naming context this gateway serves.
pub struct ConfigLdap {
    pub suffix: String,
}

/// The first position in `m` whose lowered key is `key`.
pub open spec fn key_index(
    m: Seq<(Seq<char>, Seq<char>, Seq<char>)>,
    key: Seq<char>,
) -> Option<int>
    decreases m.len(),
{
    if m.len() == 0 {
        None
    } else if m[0].0 == key {
        Some(0)
    } else {
        match key_index(m.drop_first(), key) {
            Some(i) => Some(i + 1),
            None => None,
        }
    }
}

/// Lookup by lowered key: the stored `(lower, canonical, column)` triple.
pub open spec fn spec_lookup(
    m: Seq<(Seq<char>, Seq<char>, Seq<char>)>,
    key: Seq<char>,
) -> Option<(Seq<char>, Seq<char>, Seq<char>)> {
    match key_index(m, key) {
        Some(i) => Some(m[i]),
        None => None,
    }
}

/// What `insert` does: replace the triple at the key's position, or append.
pub open spec fn spec_insert(
    m: Seq<(Seq<char>, Seq<char>, Seq<char>)>,
    attr: Seq<char>,
    col: Seq<char>,
) -> Seq<(Seq<char>, Seq<char>, Seq<char>)> {
    let t = (lower_seq(attr), attr, col);
    match key_index(m, lower_seq(attr)) {
        Some(i) => m.update(i, t),
        None => m.push(t),
    }
}

/// Every key appears once, and is the ASCII lowercase of its canonical name.
pub open spec fn wf_entries(m: Seq<(Seq<char>, Seq<char>, Seq<char>)>) -> bool {
    &&& forall|i: int, j: int| 0 <= i < j < m.len() ==> (#[trigger] m[i]).0 != (#[trigger] m[j]).0
    &&& forall|i: int| 0 <= i < m.len() ==> (#[trigger] m[i]).0 == lower_seq(m[i].1)
}

/// Bidirectional, case-insensitive mapping between LDAP attribute names and
/// SQL column names, preserving the canonical casing of attribute names.
pub struct Mappings {
    entries: Vec<(String, String, String)>,
}

impl View for Mappings {
    type V = Seq<(Seq<char>, Seq<char>, Seq<char>)>;

    closed spec fn view(&self) -> Seq<(Seq<char>, Seq<char>, Seq<char>)> {
        self.entries@.map_values(|e: (String, String, String)| (e.0@, e.1@, e.2@))
    }
}

proof fn lemma_key_index_from_scan(
    m: Seq<(Seq<char>, Seq<char>, Seq<char>)>,
    key: Seq<char>,
    i: int,
)
    requires
        0 <= i <= m.len(),
        forall|j: int| 0 <= j < i ==> (#[trigger] m[j]).0 != key,
    ensures
        i < m.len() && m[i].0 == key ==> key_index(m, key) == Some(i),
        i == m.len() ==> key_index(m, key) is None,
    decreases m.len(),
{
    if m.len() > 0 && i > 0 {
        lemma_key_index_from_scan(m.drop_first(), key, i - 1);
    }
}

impl Mappings {
    /// An empty map.
    pub fn new() -> (r: Mappings)
        ensures
            r@ == Seq::<(Seq<char>, Seq<char>, Seq<char>)>::empty(),
            wf_entries(r@),
    {
        let r = Mappings { entries: Vec::new() };
        proof {
            assert(r@ =~= Seq::<(Seq<char>, Seq<char>, Seq<char>)>::empty());
        }
        r
    }

    /// An empty map with room for `capacity` entries.
    pub fn with_capacity(capacity: usize) -> (r: Mappings)
        ensures
            r@ == Seq::<(Seq<char>, Seq<char>, Seq<char>)>::empty(),
            wf_entries(r@),
    {
        let r = Mappings { entries: Vec::with_capacity(capacity) };
        proof {
            assert(r@ =~= Seq::<(Seq<char>, Seq<char>, Seq<char>)>::empty());
        }
        r
    }

    /// Number of mapped attributes.
    pub fn len(&self) -> (r: usize)
        ensures
            r == self@.len(),
    {
        self.entries.len()
    }

    fn scan_key(&self, key: &str) -> (r: Option<usize>)
        ensures
            match r {
                Some(i) => i < self@.len() && key_index(self@, key@) == Some(i as int),
                None => key_index(self@, key@) is None,
            },
    {
        let mut i: usize = 0;
        let n = self.entries.len();
        while i < n
            invariant
                i <= n,
                n == self@.len(),
                n == self.entries@.len(),
                self@ == self.entries@.map_values(
                    |e: (String, String, String)| (e.0@, e.1@, e.2@),
                ),
                forall|j: int| 0 <= j < i ==> (#[trigger] self@[j]).0 != key@,
            decreases n - i,
        {
            if str_eq(self.entries[i].0.as_str(), key) {
                proof {
                    lemma_key_index_from_scan(self@, key@, i as int);
                }
                return Some(i);
            }
            i = i + 1;
        }
        proof {
            lemma_key_index_from_scan(self@, key@, n as int);
        }
        None
    }

    /// Store `(attr, col)` under the lowercased attribute name; a later
    /// insert with the same lowered name wins.
    pub fn insert(&mut self, attr: String, col: String)
        ensures
            final(self)@ == spec_insert(old(self)@, attr@, col@),
            wf_entries(old(self)@) ==> wf_entries(final(self)@),
    {
        let key = ascii_lowercase(attr.as_str());
        let t = (key, attr, col);
        let found = self.scan_key(t.0.as_str());
        match found {
            Some(i) => {
                self.entries.remove(i);
                self.entries.insert(i, t);
                proof {
                    assert(self.entries@ =~= old(self).entries@.update(i as int, t));
                    assert(self@ =~~= spec_insert(old(self)@, attr@, col@));
                }
            },
            None => {
                self.entries.push(t);
                proof {
                    assert(self.entries@ =~= old(self).entries@.push(t));
                    assert(self@ =~~= spec_insert(old(self)@, attr@, col@));
                }
            },
        }
        proof {
            if wf_entries(old(self)@) {
                lemma_insert_wf(old(self)@, attr@, col@);
            }
        }
    }

    /// Case-insensitive lookup: the `(lower, canonical, column)` triple for
    /// the attribute called `attr` in any casing.
    pub fn get(&self, attr: &str) -> (r: Option<(String, String, String)>)
        ensures
            match r {
                Some(t) => spec_lookup(self@, lower_seq(attr@)) == Some((t.0@, t.1@, t.2@)),
                None => spec_lookup(self@, lower_seq(attr@)) is None,
            },
    {
        let key = ascii_lowercase(attr);
        match self.scan_key(key.as_str()) {
            Some(i) => {
                let e = &self.entries[i];
                proof {
                    assert(self@[i as int] == (e.0@, e.1@, e.2@));
                }
                Some((e.0.clone(), e.1.clone(), e.2.clone()))
            },
            None => None,
        }
    }

    /// Walk the entries in insertion order.
    pub fn iter<'a>(&'a self) -> (r: MappingsIter<'a>)
        ensures
            r.entries() == self@,
            r.position() == 0,
            r.wf(),
    {
        MappingsIter { m: self, pos: 0 }
    }

    /// The entry at `i`, cloned.
    pub fn entry_at(&self, i: usize) -> (r: (String, String, String))
        requires
            i < self@.len(),
        ensures
            (r.0@, r.1@, r.2@) == self@[i as int],
    {
        let e = &self.entries[i];
        (e.0.clone(), e.1.clone(), e.2.clone())
    }
}

proof fn lemma_insert_wf(
    m: Seq<(Seq<char>, Seq<char>, Seq<char>)>,
    attr: Seq<char>,
    col: Seq<char>,
)
    requires
        wf_entries(m),
    ensures
        wf_entries(spec_insert(m, attr, col)),
{
    let key = lower_seq(attr);
    let t = (lower_seq(attr), attr, col);
    lemma_key_index_found(m, key);
    lemma_key_index_none(m, key);
    let r = spec_insert(m, attr, col);
    match key_index(m, key) {
        Some(i) => {
            assert(r == m.update(i, t));
            assert forall|p: int, q: int| 0 <= p < q < r.len() implies (#[trigger] r[p]).0 != (
            #[trigger] r[q]).0 by {
                if p != i && q != i {
                    assert(r[p] == m[p] && r[q] == m[q]);
                } else if p == i {
                    assert(r[q] == m[q]);
                    if m[q].0 == key {
                        assert(m[i].0 == m[q].0);
                    }
                } else {
                    assert(r[p] == m[p]);
                    if m[p].0 == key {
                        assert(false);
                    }
                }
            }
            assert forall|p: int| 0 <= p < r.len() implies (#[trigger] r[p]).0 == lower_seq(
                r[p].1,
            ) by {
                if p != i {
                    assert(r[p] == m[p]);
                }
            }
        },
        None => {
            assert(r == m.push(t));
            assert forall|p: int, q: int| 0 <= p < q < r.len() implies (#[trigger] r[p]).0 != (
            #[trigger] r[q]).0 by {
                if q == m.len() {
                    assert(r[p] == m[p]);
                }
            }
            assert forall|p: int| 0 <= p < r.len() implies (#[trigger] r[p]).0 == lower_seq(
                r[p].1,
            ) by {
                if p < m.len() {
                    assert(r[p] == m[p]);
                }
            }
        },
    }
}

/// When `key_index` finds a position, it is in range and holds the key, and
/// no earlier position does.
pub proof fn lemma_key_index_found(
    m: Seq<(Seq<char>, Seq<char>, Seq<char>)>,
    key: Seq<char>,
)
    ensures
        match key_index(m, key) {
            Some(i) => 0 <= i < m.len() && m[i].0 == key && forall|j: int|
                0 <= j < i ==> (#[trigger] m[j]).0 != key,
            None => true,
        },
    decreases m.len(),
{
    if m.len() > 0 && m[0].0 != key {
        let tail = m.drop_first();
        lemma_key_index_found(tail, key);
        match key_index(tail, key) {
            Some(ti) => {
                assert(key_index(m, key) == Some(ti + 1));
                assert(m[ti + 1] == tail[ti]);
                assert forall|j: int| 0 <= j < ti + 1 implies (#[trigger] m[j]).0 != key by {
                    if j > 0 {
                        assert(tail[j - 1] == m[j]);
                    }
                }
            },
            None => {},
        }
    }
}

/// When `key_index` finds nothing, no position holds the key.
pub proof fn lemma_key_index_none(
    m: Seq<(Seq<char>, Seq<char>, Seq<char>)>,
    key: Seq<char>,
)
    ensures
        key_index(m, key) is None ==> forall|j: int|
            0 <= j < m.len() ==> (#[trigger] m[j]).0 != key,
    decreases m.len(),
{
    if m.len() > 0 && key_index(m, key) is None {
        let tail = m.drop_first();
        lemma_key_index_none(tail, key);
        assert(key_index(tail, key) is None);
        assert forall|j: int| 0 <= j < m.len() implies (#[trigger] m[j]).0 != key by {
            if j > 0 {
                assert(tail[j - 1] == m[j]);
            }
        }
    }
}

/// A cursor over the entries of a `Mappings`, in stored order.
pub struct MappingsIter<'a> {
    m: &'a Mappings,
    pos: usize,
}

impl<'a> MappingsIter<'a> {
    /// The entries walked over.
    pub closed spec fn entries(&self) -> Seq<(Seq<char>, Seq<char>, Seq<char>)> {
        self.m@
    }

    /// How many entries were already handed out.
    pub closed spec fn position(&self) -> int {
        self.pos as int
    }

    pub open spec fn wf(&self) -> bool {
        0 <= self.position() <= self.entries().len()
    }

    /// The next `(lower, canonical, column)` triple, if any is left.
    pub fn next(&mut self) -> (r: Option<(String, String, String)>)
        requires
            old(self).wf(),
        ensures
            final(self).wf(),
            final(self).entries() == old(self).entries(),
            match r {
                Some(t) => old(self).position() < old(self).entries().len()
                    && (t.0@, t.1@, t.2@) == old(self).entries()[old(self).position()]
                    && final(self).position() == old(self).position() + 1,
                None => old(self).position() == old(self).entries().len()
                    && final(self).position() == old(self).position(),
            },
    {
        if self.pos < self.m.entries.len() {
            let e = &self.m.entries[self.pos];
            self.pos = self.pos + 1;
            Some((e.0.clone(), e.1.clone(), e.2.clone()))
        } else {
            None
        }
    }

    /// How many entries are left.
    pub fn len(&self) -> (r: usize)
        requires
            self.wf(),
        ensures
            r == self.entries().len() - self.position(),
    {
        self.m.entries.len() - self.pos
    }
}

} // verus!
