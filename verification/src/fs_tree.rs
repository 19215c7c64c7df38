//! In-memory snapshot of a filesystem subtree, and the mathematical model of
//! what scanning it must produce.
//!
//! The caller (tests, or the thin I/O shell around this library) describes
//! the tree it read from disk as an `FsNode`. The model functions below say,
//! for such a snapshot, what the aggregate of every directory is, which
//! directories are listable, and which registry entries a scan records.

use vstd::prelude::*;
use crate::text::ext_key;

verus! {

/// One entry of a filesystem snapshot.
///
/// A file whose metadata could not be read carries `size: None` and
/// contributes nothing to any statistic. A directory whose contents could
/// not be enumerated carries `entries: None` and aborts the whole scan.
/// A directory whose path cannot be represented as a string carries
/// `path: None`; its totals still merge into its parent, but it receives no
/// registry entry of its own.
#[allow(inconsistent_fields)]
pub enum FsNode {
    File { path: String, name: String, size: Option<u64> },
    Dir { path: Option<String>, entries: Option<Vec<FsNode>> },
}

/// The mathematical aggregate of one subtree: cumulative byte total, file
/// count, largest file (path and size) and bytes per lowercase extension.
/// Totals are unbounded integers here; the executable aggregate is proved
/// equal to this model only where the caller guarantees the machine bounds.
#[verifier::ext_equal]
pub ghost struct AggModel {
    pub total: int,
    pub count: int,
    pub largest: Option<(Seq<char>, u64)>,
    pub exts: Map<Seq<char>, int>,
}

/// The aggregate of an empty subtree.
pub open spec fn empty_model() -> AggModel {
    AggModel { total: 0, count: 0, largest: None, exts: Map::empty() }
}

/// The bytes a histogram records under key `k`, zero when the key is absent.
pub open spec fn ext_val(m: Map<Seq<char>, int>, k: Seq<char>) -> int {
    if m.contains_key(k) {
        m[k]
    } else {
        0
    }
}

/// Entry-wise addition of two extension histograms.
pub open spec fn merge_exts(a: Map<Seq<char>, int>, b: Map<Seq<char>, int>) -> Map<
    Seq<char>,
    int,
> {
    Map::new(
        |k: Seq<char>| a.contains_key(k) || b.contains_key(k),
        |k: Seq<char>| ext_val(a, k) + ext_val(b, k),
    )
}

/// The larger of two candidate largest files. The right candidate wins only
/// when it is strictly larger, so on a tie the candidate encountered first
/// in traversal order is retained.
pub open spec fn combine_largest(
    a: Option<(Seq<char>, u64)>,
    b: Option<(Seq<char>, u64)>,
) -> Option<(Seq<char>, u64)> {
    match (a, b) {
        (Option::None, _) => b,
        (_, Option::None) => a,
        (Option::Some((_, sa)), Option::Some((_, sb))) => if sb > sa {
            b
        } else {
            a
        },
    }
}

/// Merging a later aggregate `b` into an earlier aggregate `a`: totals and
/// counts add, the largest file is replaced only when strictly larger, and
/// histograms add entry-wise.
pub open spec fn merge_model(a: AggModel, b: AggModel) -> AggModel {
    AggModel {
        total: a.total + b.total,
        count: a.count + b.count,
        largest: combine_largest(a.largest, b.largest),
        exts: merge_exts(a.exts, b.exts),
    }
}

/// The aggregate of a single readable file.
pub open spec fn file_model(path: Seq<char>, name: Seq<char>, size: u64) -> AggModel {
    AggModel {
        total: size as int,
        count: 1,
        largest: Some((path, size)),
        exts: Map::empty().insert(ext_key(name), size as int),
    }
}

/// The aggregate of one snapshot node: empty for unreadable files and for
/// anything that is not a listable directory's content, the file's own
/// contribution for a readable file, and the left-to-right merge of the
/// children for a listable directory.
pub open spec fn model_of(n: FsNode) -> AggModel
    decreases n, 0int,
{
    match n {
        FsNode::File { path, name, size } => match size {
            Option::Some(s) => file_model(path@, name@, s),
            Option::None => empty_model(),
        },
        FsNode::Dir { path: _, entries } => match entries {
            Option::Some(es) => entries_model(es, es.len() as int),
            Option::None => empty_model(),
        },
    }
}

/// The merged aggregate of the first `k` entries of a directory.
pub open spec fn entries_model(es: Vec<FsNode>, k: int) -> AggModel
    decreases es, k,
{
    if k <= 0 || k > es.len() {
        empty_model()
    } else {
        merge_model(entries_model(es, k - 1), model_of(es[k - 1]))
    }
}

/// What a scan of `n` itself returns: a scan target that is not a directory
/// yields the empty aggregate, a directory yields its merged contents.
pub open spec fn scan_model(n: FsNode) -> AggModel {
    match n {
        FsNode::File { .. } => empty_model(),
        FsNode::Dir { .. } => model_of(n),
    }
}

/// Whether every directory in the subtree (including `n` itself) can be
/// enumerated. A scan succeeds exactly on listable subtrees.
pub open spec fn listable_of(n: FsNode) -> bool
    decreases n, 0int,
{
    match n {
        FsNode::File { .. } => true,
        FsNode::Dir { path: _, entries } => match entries {
            Option::Some(es) => entries_listable(es, es.len() as int),
            Option::None => false,
        },
    }
}

/// Whether the first `k` entries of a directory are all listable subtrees.
pub open spec fn entries_listable(es: Vec<FsNode>, k: int) -> bool
    decreases es, k,
{
    k <= 0 || k > es.len() || (entries_listable(es, k - 1) && listable_of(es[k - 1]))
}

/// The registry entries a scan of `n` records: one entry per descendant
/// directory with a representable path, keyed by that path, holding that
/// directory's aggregate. `n` itself is never included. Later entries
/// overwrite earlier ones when paths collide.
pub open spec fn reg_of(n: FsNode) -> Map<Seq<char>, AggModel>
    decreases n, 0int,
{
    match n {
        FsNode::File { .. } => Map::empty(),
        FsNode::Dir { path: _, entries } => match entries {
            Option::Some(es) => entries_reg(es, es.len() as int),
            Option::None => Map::empty(),
        },
    }
}

/// The registry entries recorded while scanning the first `k` entries of a
/// directory: for each child directory, first its own subtree's entries,
/// then the child itself (when its path is representable).
pub open spec fn entries_reg(es: Vec<FsNode>, k: int) -> Map<Seq<char>, AggModel>
    decreases es, k,
{
    if k <= 0 || k > es.len() {
        Map::empty()
    } else {
        let prev = entries_reg(es, k - 1);
        match es[k - 1] {
            FsNode::File { .. } => prev,
            FsNode::Dir { path, entries: _ } => {
                let with_sub = prev.union_prefer_right(reg_of(es[k - 1]));
                match path {
                    Option::Some(p) => with_sub.insert(p@, model_of(es[k - 1])),
                    Option::None => with_sub,
                }
            },
        }
    }
}

/// Whether some strict descendant directory of `n` has the representable
/// path `p`.
pub open spec fn dir_path_in(n: FsNode, p: Seq<char>) -> bool
    decreases n, 0int,
{
    match n {
        FsNode::File { .. } => false,
        FsNode::Dir { path: _, entries } => match entries {
            Option::Some(es) => entries_path_in(es, es.len() as int, p),
            Option::None => false,
        },
    }
}

/// Whether, among the first `k` entries, some entry is a directory with
/// path `p` or contains such a directory.
pub open spec fn entries_path_in(es: Vec<FsNode>, k: int, p: Seq<char>) -> bool
    decreases es, k,
{
    if k <= 0 || k > es.len() {
        false
    } else {
        entries_path_in(es, k - 1, p) || dir_path_in(es[k - 1], p) || (match es[k - 1] {
            FsNode::Dir { path: Option::Some(q), entries: _ } => q@ == p,
            _ => false,
        })
    }
}

/// Totals and counts of every aggregate in the model are nonnegative.
pub proof fn lemma_model_nonneg(n: FsNode)
    ensures
        model_of(n).total >= 0,
        model_of(n).count >= 0,
    decreases n, 0int,
{
    match n {
        FsNode::File { .. } => {},
        FsNode::Dir { path: _, entries } => match entries {
            Option::Some(es) => lemma_entries_model_nonneg(es, es.len() as int),
            Option::None => {},
        },
    }
}

pub proof fn lemma_entries_model_nonneg(es: Vec<FsNode>, k: int)
    ensures
        entries_model(es, k).total >= 0,
        entries_model(es, k).count >= 0,
    decreases es, k,
{
    if 0 < k && k <= es.len() {
        lemma_entries_model_nonneg(es, k - 1);
        lemma_model_nonneg(es[k - 1]);
    }
}

/// Prefix aggregates grow with the prefix: the totals and counts of the
/// first `i` entries never exceed those of the first `j`.
pub proof fn lemma_entries_model_monotone(es: Vec<FsNode>, i: int, j: int)
    requires
        i <= j <= es.len(),
    ensures
        entries_model(es, i).total <= entries_model(es, j).total,
        entries_model(es, i).count <= entries_model(es, j).count,
    decreases j - i,
{
    if i < j {
        lemma_entries_model_monotone(es, i, j - 1);
        lemma_model_nonneg(es[j - 1]);
    }
}

/// An unlistable subtree anywhere among the first `k` entries makes the
/// whole prefix unlistable: the failure propagates to the enclosing scan.
pub proof fn lemma_unlistable_propagates(es: Vec<FsNode>, i: int, k: int)
    requires
        0 <= i < k <= es.len(),
        !listable_of(es[i]),
    ensures
        !entries_listable(es, k),
    decreases k,
{
    if i < k - 1 {
        lemma_unlistable_propagates(es, i, k - 1);
    }
}

/// The bytes of the readable files that stand directly among the first `k`
/// entries (subdirectory contents not included).
pub open spec fn files_sum(es: Vec<FsNode>, k: int) -> int
    decreases k,
{
    if k <= 0 || k > es.len() {
        0
    } else {
        files_sum(es, k - 1) + (match es[k - 1] {
            FsNode::File { path: _, name: _, size: Option::Some(s) } => s as int,
            _ => 0,
        })
    }
}

/// The number of readable files that stand directly among the first `k`
/// entries.
pub open spec fn files_count(es: Vec<FsNode>, k: int) -> int
    decreases k,
{
    if k <= 0 || k > es.len() {
        0
    } else {
        files_count(es, k - 1) + (match es[k - 1] {
            FsNode::File { path: _, name: _, size: Option::Some(_) } => 1int,
            _ => 0int,
        })
    }
}

/// The summed aggregate totals of the immediate subdirectories among the
/// first `k` entries.
pub open spec fn subdirs_total(es: Vec<FsNode>, k: int) -> int
    decreases k,
{
    if k <= 0 || k > es.len() {
        0
    } else {
        subdirs_total(es, k - 1) + (match es[k - 1] {
            FsNode::Dir { .. } => model_of(es[k - 1]).total,
            _ => 0,
        })
    }
}

/// The summed aggregate file counts of the immediate subdirectories among
/// the first `k` entries.
pub open spec fn subdirs_count(es: Vec<FsNode>, k: int) -> int
    decreases k,
{
    if k <= 0 || k > es.len() {
        0
    } else {
        subdirs_count(es, k - 1) + (match es[k - 1] {
            FsNode::Dir { .. } => model_of(es[k - 1]).count,
            _ => 0,
        })
    }
}

/// Sum and count invariants over a directory's entries: the aggregate of a
/// prefix equals the bytes (and number) of its immediate readable files plus
/// the aggregate totals (and counts) of its immediate subdirectories.
pub proof fn lemma_entries_sum_invariant(es: Vec<FsNode>, k: int)
    requires
        0 <= k <= es.len(),
    ensures
        entries_model(es, k).total == files_sum(es, k) + subdirs_total(es, k),
        entries_model(es, k).count == files_count(es, k) + subdirs_count(es, k),
    decreases k,
{
    if k > 0 {
        lemma_entries_sum_invariant(es, k - 1);
    }
}

/// Sum invariant of a directory: its `total_bytes` is the sum of its
/// immediate file sizes plus the `total_bytes` of its immediate
/// subdirectories, and its `file_count` is the number of its immediate files
/// plus the `file_count` of its immediate subdirectories.
pub proof fn lemma_dir_sum_invariant(n: FsNode)
    ensures
        n matches FsNode::Dir { path: _, entries: Option::Some(es) } ==> {
            &&& model_of(n).total == files_sum(es, es.len() as int) + subdirs_total(
                es,
                es.len() as int,
            )
            &&& model_of(n).count == files_count(es, es.len() as int) + subdirs_count(
                es,
                es.len() as int,
            )
        },
{
    match n {
        FsNode::Dir { path: _, entries: Option::Some(es) } => {
            lemma_entries_sum_invariant(es, es.len() as int);
        },
        _ => {},
    }
}

/// Scanning a directory registers each of its immediate subdirectories that
/// has a representable path.
pub proof fn lemma_registry_includes_subdir(es: Vec<FsNode>, i: int, k: int, p: Seq<char>)
    requires
        0 <= i < k <= es.len(),
        es[i] matches FsNode::Dir { path: Option::Some(q), entries: _ } && q@ == p,
    ensures
        entries_reg(es, k).contains_key(p),
    decreases k,
{
    if i < k - 1 {
        lemma_registry_includes_subdir(es, i, k - 1, p);
    }
}

/// Every registry key of a scan of `n` is the path of a strict descendant
/// directory of `n`; in particular the scanned root itself is never
/// registered under a path no descendant carries.
pub proof fn lemma_registry_only_descendants(n: FsNode, p: Seq<char>)
    ensures
        reg_of(n).contains_key(p) ==> dir_path_in(n, p),
    decreases n, 0int,
{
    match n {
        FsNode::File { .. } => {},
        FsNode::Dir { path: _, entries } => match entries {
            Option::Some(es) => lemma_entries_reg_only_descendants(es, es.len() as int, p),
            Option::None => {},
        },
    }
}

pub proof fn lemma_entries_reg_only_descendants(es: Vec<FsNode>, k: int, p: Seq<char>)
    ensures
        entries_reg(es, k).contains_key(p) ==> entries_path_in(es, k, p),
    decreases es, k,
{
    if 0 < k && k <= es.len() {
        lemma_entries_reg_only_descendants(es, k - 1, p);
        lemma_registry_only_descendants(es[k - 1], p);
    }
}

/// Registry exclusion of the scan root: a path carried by no descendant
/// directory — such as the root's own path in a well-formed snapshot — is
/// absent from the registry.
pub proof fn lemma_root_not_registered(n: FsNode, p: Seq<char>)
    requires
        !dir_path_in(n, p),
    ensures
        !reg_of(n).contains_key(p),
{
    lemma_registry_only_descendants(n, p);
}

} // verus!
