//! Report-layer computations over finished aggregates: the threshold and
//! substring checks behind the optimization tips.
//!
//! The thresholds and the path substrings are the fixed configuration
//! constants of the report; rendering the advisory text is presentation and
//! stays outside the library.

use vstd::prelude::*;
use crate::aggregate::DirInfo;
use crate::ext_map::ExtMap;
use crate::fs_tree::{ext_val, merge_exts};
use crate::registry::ScanRegistry;
use crate::text::{chars_of, lower_of, lowercase};

verus! {

/// One gibibyte.
pub const GIB: u64 = 1073741824;

/// The directory-size threshold for the log-cleanup tip.
pub const LOG_DIR_LIMIT: u64 = 104857600;

/// The per-extension threshold for the media-file tip.
pub const MEDIA_LIMIT: u64 = 524288000;

/// Whether `needle` occurs contiguously inside `hay`.
pub open spec fn is_substring(hay: Seq<char>, needle: Seq<char>) -> bool {
    exists|i: int|
        0 <= i <= hay.len() - needle.len() && #[trigger] hay.subrange(i, i + needle.len() as int)
            == needle
}

/// Substring search over character vectors.
#[verifier::loop_isolation(false)]
pub fn contains_sub(hay: &Vec<char>, needle: &Vec<char>) -> (r: bool)
    ensures
        r == is_substring(hay@, needle@),
{
    let nl = needle.len();
    let hl = hay.len();
    if nl > hl {
        return false;
    }
    if nl == 0 {
        proof {
            assert(hay@.subrange(0, 0 + needle@.len() as int) =~= needle@);
        }
        return true;
    }
    let mut i: usize = 0;
    while i <= hl - nl
        invariant
            nl <= hl,
            i <= hl - nl + 1,
            forall|s: int|
                0 <= s < i ==> #[trigger] hay@.subrange(s, s + nl as int) != needle@,
        decreases hl - nl - i + 1,
    {
        let mut j: usize = 0;
        let mut mismatch = false;
        while j < nl && !mismatch
            invariant
                i + nl <= hl,
                j <= nl,
                !mismatch ==> forall|t: int| 0 <= t < j ==> hay@[i + t] == needle@[t],
                mismatch ==> hay@.subrange(i as int, i + nl as int) != needle@,
            decreases nl - j + (if mismatch { 0int } else { 1int }),
        {
            if hay[i + j] != needle[j] {
                proof {
                    assert(hay@.subrange(i as int, i + nl as int)[j as int] == hay@[i + j]);
                }
                mismatch = true;
            } else {
                j = j + 1;
            }
        }
        if !mismatch {
            proof {
                assert(hay@.subrange(i as int, i + nl as int) =~= needle@);
            }
            return true;
        }
        i = i + 1;
    }
    return false;
}

/// The advisory flags the report derives from the ranked directories and
/// the ranked largest files.
pub struct TipFlags {
    pub big_top_dir: bool,
    pub large_logs: bool,
    pub large_media: bool,
    pub downloads: bool,
    pub big_file: bool,
}

/// Whether the directory ranked at `i` triggers the log-cleanup tip.
pub open spec fn log_tip_at(dirs: Seq<(String, DirInfo)>, i: int) -> bool {
    is_substring(lower_of(dirs[i].0@), "log"@) && dirs[i].1@.total > LOG_DIR_LIMIT
}

/// Whether the directory ranked at `i` triggers the downloads tip.
pub open spec fn download_tip_at(dirs: Seq<(String, DirInfo)>, i: int) -> bool {
    is_substring(lower_of(dirs[i].0@), "download"@)
}

/// Whether the directory ranked at `i` holds enough video bytes to trigger
/// the media tip.
pub open spec fn media_tip_at(dirs: Seq<(String, DirInfo)>, i: int) -> bool {
    exists|k: Seq<char>|
        (k == "mp4"@ || k == "mov"@ || k == "avi"@) && dirs[i].1@.exts.contains_key(k)
            && dirs[i].1@.exts[k] > MEDIA_LIMIT
}

/// How many of the top-ranked directories the tips inspect.
pub open spec fn tip_window(dirs: Seq<(String, DirInfo)>) -> int {
    if dirs.len() < 5 {
        dirs.len() as int
    } else {
        5
    }
}

/// Computes the advisory flags from the directories ranked by size and the
/// largest files ranked by size: an oversized top directory, log-heavy or
/// download directories or large video extensions among the top five, and
/// an oversized single largest file.
#[verifier::loop_isolation(false)]
pub fn compute_tips(dirs: &Vec<(String, DirInfo)>, largest: &Vec<(String, u64)>) -> (r: TipFlags)
    requires
        forall|i: int| 0 <= i < dirs@.len() ==> (#[trigger] dirs@[i].1).wf(),
    ensures
        r.big_top_dir == (dirs@.len() > 0 && dirs@[0].1@.total > GIB),
        r.large_logs == (exists|i: int| 0 <= i < tip_window(dirs@) && #[trigger] log_tip_at(dirs@, i)),
        r.downloads == (exists|i: int|
            0 <= i < tip_window(dirs@) && #[trigger] download_tip_at(dirs@, i)),
        r.large_media == (exists|i: int|
            0 <= i < tip_window(dirs@) && #[trigger] media_tip_at(dirs@, i)),
        r.big_file == (largest@.len() > 0 && largest@[0].1 > GIB),
{
    let big_top_dir = dirs.len() > 0 && dirs[0].1.size > GIB;
    let big_file = largest.len() > 0 && largest[0].1 > GIB;
    let window = if dirs.len() < 5 {
        dirs.len()
    } else {
        5
    };
    let log_pat = chars_of("log");
    let download_pat = chars_of("download");
    let key_mp4: String = "mp4".to_owned();
    let key_mov: String = "mov".to_owned();
    let key_avi: String = "avi".to_owned();
    let mut large_logs = false;
    let mut downloads = false;
    let mut large_media = false;
    let mut i: usize = 0;
    while i < window
        invariant
            window == tip_window(dirs@),
            i <= window,
            large_logs == (exists|t: int| 0 <= t < i && #[trigger] log_tip_at(dirs@, t)),
            downloads == (exists|t: int| 0 <= t < i && #[trigger] download_tip_at(dirs@, t)),
            large_media == (exists|t: int| 0 <= t < i && #[trigger] media_tip_at(dirs@, t)),
            key_mp4@ == "mp4"@ && key_mov@ == "mov"@ && key_avi@ == "avi"@,
            log_pat@ == "log"@ && download_pat@ == "download"@,
        decreases window - i,
    {
        let low = lowercase(dirs[i].0.as_str());
        let low_chars = chars_of(low.as_str());
        if dirs[i].1.size > LOG_DIR_LIMIT && contains_sub(&low_chars, &log_pat) {
            large_logs = true;
            proof {
                assert(log_tip_at(dirs@, i as int));
            }
        }
        if contains_sub(&low_chars, &download_pat) {
            downloads = true;
            proof {
                assert(download_tip_at(dirs@, i as int));
            }
        }
        let mut media_here = false;
        match dirs[i].1.file_types.get(&key_mp4) {
            Option::Some(v) => if v > MEDIA_LIMIT {
                media_here = true;
                proof {
                    assert(dirs@[i as int].1@.exts.contains_key("mp4"@));
                    assert(media_tip_at(dirs@, i as int));
                }
            },
            Option::None => {},
        }
        match dirs[i].1.file_types.get(&key_mov) {
            Option::Some(v) => if v > MEDIA_LIMIT {
                media_here = true;
                proof {
                    assert(dirs@[i as int].1@.exts.contains_key("mov"@));
                    assert(media_tip_at(dirs@, i as int));
                }
            },
            Option::None => {},
        }
        match dirs[i].1.file_types.get(&key_avi) {
            Option::Some(v) => if v > MEDIA_LIMIT {
                media_here = true;
                proof {
                    assert(dirs@[i as int].1@.exts.contains_key("avi"@));
                    assert(media_tip_at(dirs@, i as int));
                }
            },
            Option::None => {},
        }
        if media_here {
            large_media = true;
        } else {
            proof {
                assert(!media_tip_at(dirs@, i as int));
            }
        }
        i = i + 1;
    }
    TipFlags { big_top_dir, large_logs, large_media, downloads, big_file }
}


/// The entry-wise sum of the histograms of the first `k` registry entries:
/// the report's global extension histogram. A file below several registered
/// directories is counted once per enclosing directory, as the report has
/// always summed it.
pub open spec fn global_exts(s: Seq<(String, DirInfo)>, k: int) -> Map<Seq<char>, int>
    decreases k,
{
    if k <= 0 || k > s.len() {
        Map::empty()
    } else {
        merge_exts(global_exts(s, k - 1), s[k - 1].1@.exts)
    }
}

/// The summed sizes of the first `k` registry entries.
pub open spec fn sizes_sum(s: Seq<(String, DirInfo)>, k: int) -> int
    decreases k,
{
    if k <= 0 || k > s.len() {
        0
    } else {
        sizes_sum(s, k - 1) + s[k - 1].1@.total
    }
}

/// No key of the merged histogram of a prefix holds more bytes than the
/// prefix's summed sizes.
pub proof fn lemma_global_exts_bound(s: Seq<(String, DirInfo)>, k: int)
    requires
        k <= s.len(),
        forall|i: int| 0 <= i < s.len() ==> (#[trigger] s[i].1).wf(),
    ensures
        forall|x: Seq<char>| 0 <= #[trigger] ext_val(global_exts(s, k), x) <= sizes_sum(s, k),
    decreases k,
{
    if k > 0 {
        lemma_global_exts_bound(s, k - 1);
        assert forall|x: Seq<char>|
            0 <= #[trigger] ext_val(global_exts(s, k), x) <= sizes_sum(s, k) by {
            assert(0 <= ext_val(global_exts(s, k - 1), x));
            assert(0 <= ext_val(s[k - 1].1.file_types@, x) <= s[k - 1].1.size as int);
        }
    }
}

/// Sums of prefixes of the registry sizes grow with the prefix.
pub proof fn lemma_sizes_sum_monotone(s: Seq<(String, DirInfo)>, i: int, j: int)
    requires
        i <= j <= s.len(),
    ensures
        sizes_sum(s, i) <= sizes_sum(s, j),
    decreases j - i,
{
    if i < j {
        lemma_sizes_sum_monotone(s, i, j - 1);
    }
}

/// Merges the histograms of every registered directory into the report's
/// one global extension histogram. The bound required of the registry only
/// says that the summed bytes fit a 64-bit total.
#[verifier::loop_isolation(false)]
pub fn global_histogram(reg: &ScanRegistry) -> (r: ExtMap)
    requires
        reg.wf(),
        sizes_sum(reg.entries@, reg.entries@.len() as int) <= u64::MAX,
    ensures
        r.wf(),
        r@ == global_exts(reg.entries@, reg.entries@.len() as int),
{
    let n = reg.entries.len();
    let mut acc = ExtMap::new();
    let mut i: usize = 0;
    while i < n
        invariant
            n == reg.entries@.len(),
            i <= n,
            acc.wf(),
            acc@ == global_exts(reg.entries@, i as int),
        decreases n - i,
    {
        proof {
            lemma_global_exts_bound(reg.entries@, i as int);
            lemma_sizes_sum_monotone(reg.entries@, i as int + 1, n as int);
            assert forall|x: Seq<char>|
                ext_val(acc@, x) + ext_val(reg.entries@[i as int].1.file_types@, x)
                    <= u64::MAX by {
                assert(ext_val(reg.entries@[i as int].1.file_types@, x) <= reg.entries@[
                    i as int
                ].1.size as int);
            }
        }
        acc.merge_from(&reg.entries[i].1.file_types);
        i = i + 1;
    }
    acc
}

} // verus!
