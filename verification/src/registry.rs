//! The scan registry: one aggregate per visited subdirectory, keyed by the
//! subdirectory's path string, viewed as a `Map<Seq<char>, AggModel>`.

use vstd::prelude::*;
use crate::aggregate::DirInfo;
use crate::fs_tree::AggModel;

verus! {

/// Distinctness of the path keys of a registry list.
pub open spec fn distinct_reg_keys(s: Seq<(String, DirInfo)>) -> bool {
    forall|i: int, j: int| 0 <= i < j < s.len() ==> s[i].0@ != s[j].0@
}

/// The map described by the first `k` registry entries.
pub open spec fn regs_of(s: Seq<(String, DirInfo)>, k: int) -> Map<Seq<char>, AggModel>
    decreases k,
{
    if k <= 0 || k > s.len() {
        Map::empty()
    } else {
        regs_of(s, k - 1).insert(s[k - 1].0@, s[k - 1].1@)
    }
}

/// A key is in the registry map exactly when some entry carries it.
pub proof fn lemma_regs_of_contains(s: Seq<(String, DirInfo)>, k: int, x: Seq<char>)
    requires
        k <= s.len(),
    ensures
        regs_of(s, k).contains_key(x) <==> exists|i: int| 0 <= i < k && s[i].0@ == x,
    decreases k,
{
    if k > 0 {
        lemma_regs_of_contains(s, k - 1, x);
        if s[k - 1].0@ == x {
            assert(exists|i: int| 0 <= i < k && s[i].0@ == x);
        }
    }
}

/// With distinct keys, the registry's value under a key is the aggregate of
/// the entry that carries it.
pub proof fn lemma_regs_of_value(s: Seq<(String, DirInfo)>, k: int, i: int)
    requires
        k <= s.len(),
        distinct_reg_keys(s),
        0 <= i < k,
    ensures
        regs_of(s, k).contains_key(s[i].0@),
        regs_of(s, k)[s[i].0@] == s[i].1@,
    decreases k,
{
    if i < k - 1 {
        lemma_regs_of_value(s, k - 1, i);
    }
}

/// Appending entries leaves the map of a shorter prefix unchanged.
pub proof fn lemma_regs_of_push(s: Seq<(String, DirInfo)>, t: (String, DirInfo), k: int)
    requires
        0 <= k <= s.len(),
    ensures
        regs_of(s.push(t), k) == regs_of(s, k),
    decreases k,
{
    if k > 0 {
        lemma_regs_of_push(s, t, k - 1);
        assert(s.push(t)[k - 1] == s[k - 1]);
    }
}

/// Replacing the entry at `i` by one with the same key rewrites exactly
/// that key's aggregate in the map of any prefix that covers `i`.
pub proof fn lemma_regs_of_update(s: Seq<(String, DirInfo)>, i: int, t: (String, DirInfo), k: int)
    requires
        k <= s.len(),
        distinct_reg_keys(s),
        0 <= i < s.len(),
        t.0@ == s[i].0@,
    ensures
        i < k ==> regs_of(s.update(i, t), k) == regs_of(s, k).insert(t.0@, t.1@),
        i >= k ==> regs_of(s.update(i, t), k) == regs_of(s, k),
    decreases k,
{
    if k > 0 {
        lemma_regs_of_update(s, i, t, k - 1);
        if i == k - 1 {
            assert(regs_of(s.update(i, t), k) =~= regs_of(s, k).insert(t.0@, t.1@));
        } else if i < k - 1 {
            assert(s.update(i, t)[k - 1] == s[k - 1]);
            assert(s[k - 1].0@ != s[i].0@);
            assert(regs_of(s.update(i, t), k) =~= regs_of(s, k).insert(t.0@, t.1@));
        } else {
            assert(s.update(i, t)[k - 1] == s[k - 1]);
        }
    }
}

/// The registry of one scan: a mapping from subdirectory path to that
/// subdirectory's finished aggregate. Populated solely by the walker; the
/// scanned root itself is never inserted.
#[derive(Debug)]
pub struct ScanRegistry {
    pub entries: Vec<(String, DirInfo)>,
}

impl View for ScanRegistry {
    type V = Map<Seq<char>, AggModel>;

    open spec fn view(&self) -> Map<Seq<char>, AggModel> {
        regs_of(self.entries@, self.entries@.len() as int)
    }
}

impl ScanRegistry {
    /// One entry per path, each holding a well-formed aggregate.
    pub open spec fn wf(&self) -> bool {
        &&& distinct_reg_keys(self.entries@)
        &&& forall|i: int| 0 <= i < self.entries@.len() ==> (#[trigger] self.entries@[i].1).wf()
    }

    /// The empty registry.
    pub fn new() -> (r: ScanRegistry)
        ensures
            r.wf(),
            r@ == Map::<Seq<char>, AggModel>::empty(),
    {
        ScanRegistry { entries: Vec::new() }
    }

    /// Records `info` under `key`, overwriting any earlier aggregate
    /// recorded under the same path.
    #[verifier::loop_isolation(false)]
    pub fn insert(&mut self, key: String, info: DirInfo) -> (nothing: ())
        requires
            old(self).wf(),
            info.wf(),
        ensures
            final(self).wf(),
            final(self)@ == old(self)@.insert(key@, info@),
    {
        let n = self.entries.len();
        let mut i: usize = 0;
        while i < n
            invariant
                n == self.entries@.len(),
                i <= n,
                self == old(self),
                forall|j: int| 0 <= j < i ==> self.entries@[j].0@ != key@,
            decreases n - i,
        {
            if self.entries[i].0 == key {
                let ghost s0 = self.entries@;
                self.entries[i] = (key, info);
                proof {
                    lemma_regs_of_update(s0, i as int, (self.entries@[i as int]), n as int);
                }
                return ;
            }
            i = i + 1;
        }
        proof {
            lemma_regs_of_contains(self.entries@, n as int, key@);
        }
        let ghost s0 = self.entries@;
        self.entries.push((key, info));
        proof {
            lemma_regs_of_push(s0, self.entries@[n as int], n as int);
            assert(forall|j: int| 0 <= j < n ==> self.entries@[j] == s0[j]);
            assert(self.wf());
        }
    }

    /// The aggregate recorded under `key`, if any.
    #[verifier::loop_isolation(false)]
    pub fn get(&self, key: &String) -> (r: Option<&DirInfo>)
        requires
            self.wf(),
        ensures
            match r {
                Some(info) => self@.contains_key(key@) && info@ == self@[key@] && info.wf(),
                None => !self@.contains_key(key@),
            },
    {
        let n = self.entries.len();
        let mut i: usize = 0;
        while i < n
            invariant
                n == self.entries@.len(),
                i <= n,
                forall|j: int| 0 <= j < i ==> self.entries@[j].0@ != key@,
            decreases n - i,
        {
            if self.entries[i].0 == *key {
                proof {
                    lemma_regs_of_value(self.entries@, n as int, i as int);
                }
                return Some(&self.entries[i].1);
            }
            i = i + 1;
        }
        proof {
            lemma_regs_of_contains(self.entries@, n as int, key@);
        }
        None
    }

    /// The number of registered subdirectories.
    pub fn len(&self) -> (r: usize)
        ensures
            r == self.entries@.len(),
    {
        self.entries.len()
    }
}

} // verus!
