//! The executable per-directory aggregate and its invariant-preserving
//! update operations.

use vstd::prelude::*;
use crate::ext_map::ExtMap;
use crate::fs_tree::{AggModel, empty_model, ext_val, file_model, merge_model};
use crate::text::extension_key;

verus! {

/// The accumulated statistics of one directory subtree: cumulative size,
/// file count, largest contained file and bytes per lowercase extension.
#[derive(Debug)]
pub struct DirInfo {
    pub size: u64,
    pub file_count: usize,
    pub largest_file: Option<(String, u64)>,
    pub file_types: ExtMap,
}

impl View for DirInfo {
    type V = AggModel;

    open spec fn view(&self) -> AggModel {
        AggModel {
            total: self.size as int,
            count: self.file_count as int,
            largest: match self.largest_file {
                Option::Some((p, s)) => Option::Some((p@, s)),
                Option::None => Option::None,
            },
            exts: self.file_types@,
        }
    }
}

impl DirInfo {
    /// The histogram keys are distinct and no extension ever holds more
    /// bytes than the whole subtree.
    pub open spec fn wf(&self) -> bool {
        &&& self.file_types.wf()
        &&& forall|k: Seq<char>| 0 <= #[trigger] ext_val(self.file_types@, k) <= self.size as int
    }

    /// The empty aggregate: no bytes, no files, no largest file, an empty
    /// histogram.
    pub fn new() -> (r: DirInfo)
        ensures
            r.wf(),
            r@ == empty_model(),
    {
        let r = DirInfo {
            size: 0,
            file_count: 0,
            largest_file: None,
            file_types: ExtMap::new(),
        };
        proof {
            assert(r@ =~= empty_model());
        }
        r
    }

    /// Accounts one readable file of the directory: adds its size, counts
    /// it, keeps it as largest file when strictly larger than the current
    /// one, and adds its size under its lowercase extension key.
    pub fn add_file(&mut self, path: &String, name: &String, size: u64) -> (nothing: ())
        requires
            old(self).wf(),
            old(self)@.total + size <= u64::MAX,
            old(self)@.count + 1 <= usize::MAX,
        ensures
            final(self).wf(),
            final(self)@ == merge_model(old(self)@, file_model(path@, name@, size)),
    {
        let key = extension_key(name.as_str());
        self.size = self.size + size;
        self.file_count = self.file_count + 1;
        let replace = match &self.largest_file {
            Option::None => true,
            Option::Some(pair) => size > pair.1,
        };
        if replace {
            self.largest_file = Some((path.clone(), size));
        }
        proof {
            assert(ext_val(old(self).file_types@, key@) <= old(self).size as int);
        }
        self.file_types.bump(key, size);
        proof {
            assert(self@.exts =~= merge_model(old(self)@, file_model(path@, name@, size)).exts);
            assert(self@ =~= merge_model(old(self)@, file_model(path@, name@, size)));
        }
    }

    /// Merges a child directory's finished aggregate into this one: totals
    /// and counts add, the child's largest file wins only when strictly
    /// larger, histograms add entry-wise.
    pub fn merge_child(&mut self, child: &DirInfo) -> (nothing: ())
        requires
            old(self).wf(),
            child.wf(),
            old(self)@.total + child@.total <= u64::MAX,
            old(self)@.count + child@.count <= usize::MAX,
        ensures
            final(self).wf(),
            final(self)@ == merge_model(old(self)@, child@),
    {
        proof {
            assert forall|k: Seq<char>|
                ext_val(old(self).file_types@, k) + ext_val(child.file_types@, k)
                    <= u64::MAX by {}
        }
        self.size = self.size + child.size;
        self.file_count = self.file_count + child.file_count;
        let replace = match (&self.largest_file, &child.largest_file) {
            (_, Option::None) => false,
            (Option::None, Option::Some(_)) => true,
            (Option::Some(cur), Option::Some(cand)) => cand.1 > cur.1,
        };
        if replace {
            match &child.largest_file {
                Option::Some(pair) => {
                    self.largest_file = Some((pair.0.clone(), pair.1));
                },
                Option::None => {},
            }
        }
        self.file_types.merge_from(&child.file_types);
        proof {
            assert(self@.exts =~= merge_model(old(self)@, child@).exts);
            assert(self@ =~= merge_model(old(self)@, child@));
        }
    }
}

} // verus!
