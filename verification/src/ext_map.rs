//! The executable extension histogram: an association list from extension
//! string to cumulative byte count, viewed as a `Map<Seq<char>, int>`.
//!
//! The walker only ever adds bytes under a key, so the list keeps one entry
//! per distinct key and entries are never removed.

use vstd::prelude::*;
use crate::fs_tree::{ext_val, merge_exts};

verus! {

/// Distinctness of the keys of an association list, by character content.
pub open spec fn distinct_keys(s: Seq<(String, u64)>) -> bool {
    forall|i: int, j: int| 0 <= i < j < s.len() ==> s[i].0@ != s[j].0@
}

/// The map described by the first `k` entries of an association list.
pub open spec fn exts_of(s: Seq<(String, u64)>, k: int) -> Map<Seq<char>, int>
    decreases k,
{
    if k <= 0 || k > s.len() {
        Map::empty()
    } else {
        exts_of(s, k - 1).insert(s[k - 1].0@, s[k - 1].1 as int)
    }
}

/// A key is in the map of the first `k` entries exactly when some entry
/// among them carries it.
pub proof fn lemma_exts_of_contains(s: Seq<(String, u64)>, k: int, x: Seq<char>)
    requires
        k <= s.len(),
    ensures
        exts_of(s, k).contains_key(x) <==> exists|i: int| 0 <= i < k && s[i].0@ == x,
    decreases k,
{
    if k > 0 {
        lemma_exts_of_contains(s, k - 1, x);
        if s[k - 1].0@ == x {
            assert(exists|i: int| 0 <= i < k && s[i].0@ == x);
        }
    }
}

/// With distinct keys, the map's value under a key is the byte count of the
/// entry that carries it.
pub proof fn lemma_exts_of_value(s: Seq<(String, u64)>, k: int, i: int)
    requires
        k <= s.len(),
        distinct_keys(s),
        0 <= i < k,
    ensures
        exts_of(s, k).contains_key(s[i].0@),
        exts_of(s, k)[s[i].0@] == s[i].1 as int,
    decreases k,
{
    if i < k - 1 {
        lemma_exts_of_value(s, k - 1, i);
    }
}

/// Appending entries leaves the map of a shorter prefix unchanged.
pub proof fn lemma_exts_of_push(s: Seq<(String, u64)>, t: (String, u64), k: int)
    requires
        0 <= k <= s.len(),
    ensures
        exts_of(s.push(t), k) == exts_of(s, k),
    decreases k,
{
    if k > 0 {
        lemma_exts_of_push(s, t, k - 1);
        assert(s.push(t)[k - 1] == s[k - 1]);
    }
}

/// Replacing the entry at `i` by one with the same key rewrites exactly that
/// key's value in the map of any prefix that covers `i`.
pub proof fn lemma_exts_of_update(s: Seq<(String, u64)>, i: int, t: (String, u64), k: int)
    requires
        k <= s.len(),
        distinct_keys(s),
        0 <= i < s.len(),
        t.0@ == s[i].0@,
    ensures
        i < k ==> exts_of(s.update(i, t), k) == exts_of(s, k).insert(t.0@, t.1 as int),
        i >= k ==> exts_of(s.update(i, t), k) == exts_of(s, k),
    decreases k,
{
    if k > 0 {
        lemma_exts_of_update(s, i, t, k - 1);
        if i == k - 1 {
            assert(exts_of(s.update(i, t), k) =~= exts_of(s, k).insert(t.0@, t.1 as int));
        } else if i < k - 1 {
            assert(s.update(i, t)[k - 1] == s[k - 1]);
            assert(s[k - 1].0@ != s[i].0@);
            assert(exts_of(s.update(i, t), k) =~= exts_of(s, k).insert(t.0@, t.1 as int));
        } else {
            assert(s.update(i, t)[k - 1] == s[k - 1]);
        }
    }
}

/// Cumulative bytes per lowercase file extension, keyed by extension string
/// (the empty string for extensionless files).
#[derive(Debug)]
pub struct ExtMap {
    pub entries: Vec<(String, u64)>,
}

impl View for ExtMap {
    type V = Map<Seq<char>, int>;

    open spec fn view(&self) -> Map<Seq<char>, int> {
        exts_of(self.entries@, self.entries@.len() as int)
    }
}

impl ExtMap {
    /// One entry per key.
    pub open spec fn wf(&self) -> bool {
        distinct_keys(self.entries@)
    }

    /// The empty histogram.
    pub fn new() -> (r: ExtMap)
        ensures
            r.wf(),
            r@ == Map::<Seq<char>, int>::empty(),
    {
        ExtMap { entries: Vec::new() }
    }

    /// The byte count recorded under `key`, if any.
    #[verifier::loop_isolation(false)]
    pub fn get(&self, key: &String) -> (r: Option<u64>)
        requires
            self.wf(),
        ensures
            match r {
                Some(v) => self@.contains_key(key@) && self@[key@] == v as int,
                None => !self@.contains_key(key@),
            },
    {
        let n = self.entries.len();
        let mut i: usize = 0;
        while i < n
            invariant
                n == self.entries@.len(),
                i <= n,
                self.wf(),
                forall|j: int| 0 <= j < i ==> self.entries@[j].0@ != key@,
            decreases n - i,
        {
            if self.entries[i].0 == *key {
                proof {
                    lemma_exts_of_value(self.entries@, n as int, i as int);
                }
                return Some(self.entries[i].1);
            }
            i = i + 1;
        }
        proof {
            lemma_exts_of_contains(self.entries@, n as int, key@);
        }
        None
    }

    /// Adds `add` bytes under `key`, creating the entry when absent.
    #[verifier::loop_isolation(false)]
    pub fn bump(&mut self, key: String, add: u64) -> (nothing: ())
        requires
            old(self).wf(),
            old(self)@.contains_key(key@) ==> old(self)@[key@] + add <= u64::MAX,
        ensures
            final(self).wf(),
            final(self)@ == old(self)@.insert(key@, ext_val(old(self)@, key@) + add),
    {
        let n = self.entries.len();
        let mut i: usize = 0;
        while i < n
            invariant
                n == self.entries@.len(),
                i <= n,
                self == old(self),
                forall|j: int| 0 <= j < i ==> self.entries@[j].0@ != key@,
            decreases n - i,
        {
            if self.entries[i].0 == key {
                proof {
                    lemma_exts_of_value(self.entries@, n as int, i as int);
                }
                let stored = self.entries[i].0.clone();
                let newv = self.entries[i].1 + add;
                let ghost s0 = self.entries@;
                self.entries[i] = (stored, newv);
                proof {
                    lemma_exts_of_update(s0, i as int, (self.entries@[i as int]), n as int);
                    assert(self@ =~= old(self)@.insert(key@, ext_val(old(self)@, key@) + add));
                }
                return ;
            }
            i = i + 1;
        }
        proof {
            lemma_exts_of_contains(self.entries@, n as int, key@);
        }
        let ghost s0 = self.entries@;
        self.entries.push((key, add));
        proof {
            lemma_exts_of_push(s0, self.entries@[n as int], n as int);
            assert(forall|j: int| 0 <= j < n ==> self.entries@[j] == s0[j]);
            assert(self.wf());
            assert(self@ =~= old(self)@.insert(
                self.entries@[n as int].0@,
                ext_val(old(self)@, self.entries@[n as int].0@) + add,
            ));
        }
    }

    /// Adds every entry of `other` into this histogram, entry-wise.
    #[verifier::loop_isolation(false)]
    pub fn merge_from(&mut self, other: &ExtMap) -> (nothing: ())
        requires
            old(self).wf(),
            other.wf(),
            forall|k: Seq<char>|
                ext_val(old(self)@, k) + ext_val(other@, k) <= u64::MAX,
        ensures
            final(self).wf(),
            final(self)@ == merge_exts(old(self)@, other@),
    {
        let m = other.entries.len();
        let mut j: usize = 0;
        while j < m
            invariant
                m == other.entries@.len(),
                j <= m,
                other.wf(),
                self.wf(),
                self@ == merge_exts(old(self)@, exts_of(other.entries@, j as int)),
                forall|k: Seq<char>|
                    ext_val(old(self)@, k) + ext_val(other@, k) <= u64::MAX,
            decreases m - j,
        {
            let key = other.entries[j].0.clone();
            let add = other.entries[j].1;
            proof {
                lemma_exts_of_value(other.entries@, m as int, j as int);
                lemma_exts_of_contains(other.entries@, j as int, key@);
                assert(!exts_of(other.entries@, j as int).contains_key(key@));
                if self@.contains_key(key@) {
                    assert(self@[key@] == ext_val(old(self)@, key@) + ext_val(
                        exts_of(other.entries@, j as int),
                        key@,
                    ));
                    assert(ext_val(other@, key@) == add as int);
                }
            }
            self.bump(key, add);
            proof {
                assert(self@ =~= merge_exts(old(self)@, exts_of(other.entries@, j as int + 1)));
            }
            j = j + 1;
        }
        proof {
            assert(self@ =~= merge_exts(old(self)@, other@));
        }
    }
}

} // verus!
