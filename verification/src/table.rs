//! The shared key-value table.
//!
//! One logical mapping from byte-string keys to byte-string values, the
//! only state the commands touch.  Its model is a `Map<Seq<u8>, Seq<u8>>`
//! and `get`/`insert` follow that model exactly.  The table itself is a
//! plain value: the connection driver wraps it in the process's one
//! mutual-exclusion lock and hands the dispatcher exclusive access for
//! one command at a time, so each command reads or writes it atomically.
use vstd::prelude::*;
use vstd::slice::slice_index_get;

verus! {

/// The mapping that an entry list denotes: each entry inserted in order,
/// so a later entry shadows an earlier one with the same key.
pub open spec fn assoc_map(s: Seq<(Vec<u8>, Vec<u8>)>) -> Map<Seq<u8>, Seq<u8>>
    decreases s.len(),
{
    if s.len() == 0 {
        Map::empty()
    } else {
        assoc_map(s.drop_last()).insert(s.last().0@, s.last().1@)
    }
}

/// The key-value table, stored as its insertion history; lookups read
/// the newest entry for a key.
pub struct Table {
    entries: Vec<(Vec<u8>, Vec<u8>)>,
}

impl View for Table {
    type V = Map<Seq<u8>, Seq<u8>>;

    closed spec fn view(&self) -> Map<Seq<u8>, Seq<u8>> {
        assoc_map(self.entries@)
    }
}

/// A key present at `j` and nowhere later is what the map holds for it.
proof fn lemma_assoc_lookup(s: Seq<(Vec<u8>, Vec<u8>)>, k: Seq<u8>, j: int)
    requires
        0 <= j < s.len(),
        s[j].0@ == k,
        forall|l: int| j < l < s.len() ==> (#[trigger] s[l]).0@ != k,
    ensures
        assoc_map(s).contains_key(k),
        assoc_map(s)[k] == s[j].1@,
    decreases s.len(),
{
    if j == s.len() - 1 {
        assert(s.last() == s[j]);
    } else {
        let t = s.drop_last();
        assert(t[j] == s[j]);
        assert(forall|l: int| j < l < t.len() ==> (#[trigger] t[l]).0@ != k);
        lemma_assoc_lookup(t, k, j);
        assert(s.last().0@ != k);
    }
}

/// A key on no entry at all is not in the map.
proof fn lemma_assoc_absent(s: Seq<(Vec<u8>, Vec<u8>)>, k: Seq<u8>)
    requires
        forall|l: int| 0 <= l < s.len() ==> (#[trigger] s[l]).0@ != k,
    ensures
        !assoc_map(s).contains_key(k),
    decreases s.len(),
{
    if s.len() > 0 {
        let t = s.drop_last();
        assert(forall|l: int| 0 <= l < t.len() ==> (#[trigger] t[l]).0@ != k);
        lemma_assoc_absent(t, k);
        assert(s.last() == s[s.len() - 1]);
    }
}

/// Compares two byte strings for equality.
#[verifier::loop_isolation(false)]
pub fn bytes_eq(a: &[u8], b: &[u8]) -> (r: bool)
    ensures
        r == (a@ == b@),
{
    let n = a.len();
    if n != b.len() {
        return false;
    }
    let mut k: usize = 0;
    while k < n
        invariant
            0 <= k <= n,
            forall|j: int| 0 <= j < k ==> a@[j] == b@[j],
        decreases n - k,
    {
        if *slice_index_get(a, k) != *slice_index_get(b, k) {
            return false;
        }
        k = k + 1;
    }
    proof {
        assert(a@ =~= b@);
    }
    true
}

/// Copies a byte vector.
pub fn copy_bytes_vec(v: &Vec<u8>) -> (r: Vec<u8>)
    ensures
        r@ == v@,
{
    let mut out: Vec<u8> = Vec::new();
    crate::types::extend_from(&mut out, v.as_slice());
    proof {
        assert(out@ =~= v@);
    }
    out
}

impl Table {
    /// An empty table.
    pub fn new() -> (r: Table)
        ensures
            r@ == Map::<Seq<u8>, Seq<u8>>::empty(),
    {
        Table { entries: Vec::new() }
    }

    /// Looks a key up: `Some` of its value exactly when the key is in
    /// the mapping, `None` exactly when it is not.
    #[verifier::loop_isolation(false)]
    pub fn get(&self, key: &[u8]) -> (r: Option<Vec<u8>>)
        ensures
            match r {
                Some(v) => self@.contains_key(key@) && v@ == self@[key@],
                None => !self@.contains_key(key@),
            },
    {
        let n = self.entries.len();
        let mut j: usize = n;
        while j > 0
            invariant
                0 <= j <= n,
                forall|l: int| j <= l < n ==> (#[trigger] self.entries@[l]).0@ != key@,
            decreases j,
        {
            j = j - 1;
            let e = slice_index_get(self.entries.as_slice(), j);
            if bytes_eq(e.0.as_slice(), key) {
                proof {
                    lemma_assoc_lookup(self.entries@, key@, j as int);
                }
                return Some(copy_bytes_vec(&e.1));
            }
        }
        proof {
            lemma_assoc_absent(self.entries@, key@);
        }
        None
    }

    /// Inserts or overwrites the key in one step, returning the previous
    /// value exactly when the key was already present.
    pub fn insert(&mut self, key: Vec<u8>, value: Vec<u8>) -> (r: Option<Vec<u8>>)
        ensures
            final(self)@ == old(self)@.insert(key@, value@),
            match r {
                Some(v) => old(self)@.contains_key(key@) && v@ == old(self)@[key@],
                None => !old(self)@.contains_key(key@),
            },
    {
        let prev = self.get(key.as_slice());
        self.entries.push((key, value));
        proof {
            assert(self.entries@.drop_last() =~= old(self).entries@);
        }
        prev
    }
}

} // verus!
