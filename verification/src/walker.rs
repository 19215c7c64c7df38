//! The walker: a depth-first traversal of a filesystem snapshot that
//! aggregates every directory bottom-up and registers each visited
//! subdirectory — never the scan root — in the registry.

use vstd::prelude::*;
use crate::aggregate::DirInfo;
use crate::fs_tree::{
    FsNode, empty_model, entries_listable, entries_model, entries_reg,
    lemma_entries_model_monotone, lemma_entries_model_nonneg, lemma_model_nonneg,
    lemma_unlistable_propagates, listable_of, merge_model, model_of, reg_of, scan_model,
};
use crate::registry::ScanRegistry;

verus! {

/// The one fatal scan failure: a directory whose contents cannot be
/// enumerated. It aborts the whole scan; no partial result is exposed.
/// (Unreadable files, by contrast, are silently skipped.)
#[derive(Clone, Copy, Debug, PartialEq, Eq, Structural)]
pub enum ScanError {
    DirectoryUnlistable,
}

/// Scans one snapshot node, merging its registry entries into `reg`.
///
/// Returns the node's aggregate: empty for a file target, the merged
/// contents for a listable directory, and `DirectoryUnlistable` as soon as
/// any directory of the subtree cannot be enumerated.
#[verifier::loop_isolation(false)]
fn scan_node(n: &FsNode, reg: &mut ScanRegistry) -> (r: Result<DirInfo, ScanError>)
    requires
        old(reg).wf(),
        model_of(*n).total <= u64::MAX,
        model_of(*n).count <= usize::MAX,
    ensures
        final(reg).wf(),
        match r {
            Result::Ok(info) => {
                &&& listable_of(*n)
                &&& info.wf()
                &&& info@ == scan_model(*n)
                &&& final(reg)@ == old(reg)@.union_prefer_right(reg_of(*n))
            },
            Result::Err(e) => !listable_of(*n) && e == ScanError::DirectoryUnlistable,
        },
    decreases *n,
{
    match n {
        FsNode::File { .. } => {
            proof {
                assert(old(reg)@.union_prefer_right(reg_of(*n)) =~= old(reg)@);
            }
            Ok(DirInfo::new())
        },
        FsNode::Dir { path: _, entries: Option::None } => Err(ScanError::DirectoryUnlistable),
        FsNode::Dir { path: _, entries: Option::Some(es) } => {
            let mut info = DirInfo::new();
            let ghost reg0 = reg@;
            let count = es.len();
            proof {
                assert(model_of(*n) == entries_model(*es, count as int));
                assert(reg_of(*n) == entries_reg(*es, count as int));
                assert(listable_of(*n) == entries_listable(*es, count as int));
            }
            let mut i: usize = 0;
            while i < count
                invariant
                    i <= count,
                    info.wf(),
                    info@ == entries_model(*es, i as int),
                    reg.wf(),
                    reg@ == reg0.union_prefer_right(entries_reg(*es, i as int)),
                    entries_listable(*es, i as int),
                decreases count - i,
            {
                proof {
                    lemma_entries_model_nonneg(*es, i as int);
                    lemma_model_nonneg(es@[i as int]);
                    lemma_entries_model_monotone(*es, i as int + 1, count as int);
                }
                match &es[i] {
                    FsNode::File { path, name, size } => {
                        match size {
                            Option::Some(sz) => {
                                info.add_file(path, name, *sz);
                            },
                            Option::None => {
                                proof {
                                    assert(merge_model(
                                        entries_model(*es, i as int),
                                        empty_model(),
                                    ) =~= entries_model(*es, i as int));
                                }
                            },
                        }
                    },
                    FsNode::Dir { path, entries: _ } => {
                        let child = match scan_node(&es[i], reg) {
                            Result::Ok(c) => c,
                            Result::Err(e) => {
                                proof {
                                    lemma_unlistable_propagates(*es, i as int, count as int);
                                }
                                return Err(e);
                            },
                        };
                        info.merge_child(&child);
                        match path {
                            Option::Some(p) => {
                                reg.insert(p.clone(), child);
                                proof {
                                    assert(reg@ =~= reg0.union_prefer_right(
                                        entries_reg(*es, i as int + 1),
                                    ));
                                }
                            },
                            Option::None => {
                                proof {
                                    assert(reg@ =~= reg0.union_prefer_right(
                                        entries_reg(*es, i as int + 1),
                                    ));
                                }
                            },
                        }
                    },
                }
                proof {
                    assert(listable_of(es@[i as int]));
                    assert(entries_listable(*es, i as int + 1));
                }
                i = i + 1;
            }
            Ok(info)
        },
    }
}

/// Scans a filesystem snapshot.
///
/// A target that is not a directory yields the empty aggregate and an empty
/// registry. A listable directory yields its aggregate together with one
/// registry entry per descendant subdirectory whose path is representable,
/// keyed by that path — the scanned root itself is never registered. As
/// soon as any directory of the subtree cannot be enumerated the whole scan
/// fails and no partial registry is exposed.
///
/// The bounds required of the snapshot only say that the true totals fit
/// the machine's integers.
pub fn scan_directory(root: &FsNode) -> (r: Result<(DirInfo, ScanRegistry), ScanError>)
    requires
        model_of(*root).total <= u64::MAX,
        model_of(*root).count <= usize::MAX,
    ensures
        match r {
            Result::Ok(pair) => {
                &&& listable_of(*root)
                &&& pair.0.wf()
                &&& pair.0@ == scan_model(*root)
                &&& pair.1.wf()
                &&& pair.1@ == reg_of(*root)
            },
            Result::Err(e) => !listable_of(*root) && e == ScanError::DirectoryUnlistable,
        },
{
    let mut reg = ScanRegistry::new();
    match scan_node(root, &mut reg) {
        Result::Ok(info) => {
            proof {
                assert(reg@ =~= reg_of(*root));
            }
            Ok((info, reg))
        },
        Result::Err(e) => Err(e),
    }
}

} // verus!
