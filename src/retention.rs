//! Retention of clip artifacts: of the eligible files in a directory only
//! the newest few are kept.
use vstd::prelude::*;

verus! {

/// How many unique clips (and, separately, recordings) are kept.
pub const DEFAULT_KEEP: usize = 5;

/// A directory entry as the retention policy sees it.
#[derive(Debug, Clone)]
pub struct ClipFile {
    /// File name within the directory.
    pub name: String,
    /// Modification time, in any unit that orders later times higher;
    /// absent when it could not be read.
    pub modified: Option<u64>,
}

/// `c` and `d` are the same character up to ASCII case.
pub open spec fn same_ignoring_ascii_case(c: char, d: char) -> bool {
    c == d || (65 <= c as u32 <= 90 && c as u32 + 32 == d as u32) || (65 <= d as u32 <= 90 && d as u32 + 32
        == c as u32)
}

/// The name starts with `latest` in any ASCII case, as `latest.wav` and
/// `latest_mic.wav` do: files that are overwritten on every cut.
pub open spec fn is_latest_name(n: Seq<char>) -> bool {
    n.len() >= "latest"@.len() && forall|i: int|
        0 <= i < "latest"@.len() ==> same_ignoring_ascii_case(#[trigger] n[i], "latest"@[i])
}

/// The name has a non-empty stem and the extension `wav`.
pub open spec fn has_wav_extension(n: Seq<char>) -> bool {
    n.len() >= 5 && n.subrange(n.len() - 4, n.len() as int) == ".wav"@
}

/// Entry `i` takes part in retention: its time is known, it is a WAV
/// file, it is not a "latest" file and it is not excluded.
pub open spec fn eligible(files: Seq<ClipFile>, excluded: Seq<String>, i: int) -> bool {
    &&& files[i].modified is Some
    &&& has_wav_extension(files[i].name@)
    &&& !is_latest_name(files[i].name@)
    &&& forall|k: int| 0 <= k < excluded.len() ==> (#[trigger] excluded[k])@ != files[i].name@
}

/// Number of eligible entries among the first `n`.
pub open spec fn eligible_count(files: Seq<ClipFile>, excluded: Seq<String>, n: int) -> nat
    decreases n,
{
    if n <= 0 {
        0
    } else {
        eligible_count(files, excluded, n - 1) + if eligible(files, excluded, n - 1) {
            1nat
        } else {
            0nat
        }
    }
}

/// Entry `i` comes before entry `j` newest first: it is strictly newer, or
/// equally new and listed earlier.
pub open spec fn newer(files: Seq<ClipFile>, i: int, j: int) -> bool {
    let a = files[i].modified->Some_0;
    let b = files[j].modified->Some_0;
    a > b || (a == b && i < j)
}

/// `s` lists entries strictly newest first.
pub open spec fn newest_first(files: Seq<ClipFile>, s: Seq<usize>) -> bool {
    forall|a: int, b: int| 0 <= a < b < s.len() ==> newer(files, #[trigger] s[a] as int, #[trigger] s[b] as int)
}

/// `s` lists exactly the eligible entries, newest first.
pub open spec fn eligible_newest_first(files: Seq<ClipFile>, excluded: Seq<String>, s: Seq<usize>) -> bool {
    &&& newest_first(files, s)
    &&& forall|k: int| 0 <= k < s.len() ==> #[trigger] s[k] < files.len() && eligible(files, excluded, s[k] as int)
    &&& forall|i: int| 0 <= i < files.len() && eligible(files, excluded, i) ==> s.contains(i as usize)
    &&& s.len() == eligible_count(files, excluded, files.len() as int)
}

/// Which entries to keep and which to delete.
#[derive(Debug, Clone)]
pub struct RetentionPlan {
    /// Indices of the eligible entries that stay, newest first.
    pub kept: Vec<usize>,
    /// Indices of the eligible entries to delete, newest first.
    pub removed: Vec<usize>,
}

fn has_wav_ext(name: &String) -> (r: bool)
    ensures
        r == has_wav_extension(name@),
{
    let s = name.as_str();
    let n = s.unicode_len();
    if n < 5 {
        return false;
    }
    let ext = ".wav";
    proof {
        reveal_strlit(".wav");
    }
    let mut k: usize = 0;
    while k < 4
        invariant
            n == name@.len(),
            s@ == name@,
            n >= 5,
            ext@ == ".wav"@,
            ".wav"@.len() == 4,
            k <= 4,
            forall|j: int| 0 <= j < k ==> name@[n - 4 + j] == ".wav"@[j],
        decreases 4 - k,
    {
        if s.get_char(n - 4 + k) != ext.get_char(k) {
            assert(name@.subrange(n - 4, n as int)[k as int] != ".wav"@[k as int]);
            return false;
        }
        k = k + 1;
    }
    assert(name@.subrange(n - 4, n as int) =~= ".wav"@);
    true
}

fn same_char_ignoring_case(c: char, d: char) -> (r: bool)
    ensures
        r == same_ignoring_ascii_case(c, d),
{
    let a = c as u32;
    let b = d as u32;
    a == b || (65 <= a && a <= 90 && a + 32 == b) || (65 <= b && b <= 90 && b + 32 == a)
}

fn is_latest(name: &String) -> (r: bool)
    ensures
        r == is_latest_name(name@),
{
    let s = name.as_str();
    let t = "latest";
    proof {
        reveal_strlit("latest");
    }
    let n = s.unicode_len();
    let m = t.unicode_len();
    if n < m {
        return false;
    }
    let mut k: usize = 0;
    while k < m
        invariant
            n == name@.len(),
            s@ == name@,
            t@ == "latest"@,
            m == t@.len(),
            m <= n,
            "latest"@.len() == 6,
            k <= m,
            forall|j: int| 0 <= j < k ==> same_ignoring_ascii_case(#[trigger] name@[j], "latest"@[j]),
        decreases m - k,
    {
        if !same_char_ignoring_case(s.get_char(k), t.get_char(k)) {
            return false;
        }
        k = k + 1;
    }
    true
}

fn time_of(files: &Vec<ClipFile>, i: usize) -> (r: u64)
    requires
        i < files@.len(),
        files@[i as int].modified is Some,
    ensures
        r == files@[i as int].modified->Some_0,
{
    files[i].modified.unwrap()
}

/// Whether entry `i` takes part in retention.
pub fn is_eligible(files: &Vec<ClipFile>, excluded: &Vec<String>, i: usize) -> (r: bool)
    requires
        i < files@.len(),
    ensures
        r == eligible(files@, excluded@, i as int),
{
    let f = &files[i];
    if f.modified.is_none() || !has_wav_ext(&f.name) || is_latest(&f.name) {
        return false;
    }
    let mut k: usize = 0;
    while k < excluded.len()
        invariant
            k <= excluded@.len(),
            f == files@[i as int],
            forall|j: int| 0 <= j < k ==> (#[trigger] excluded@[j])@ != f.name@,
        decreases excluded@.len() - k,
    {
        if excluded[k] == f.name {
            return false;
        }
        k = k + 1;
    }
    true
}

/// Decides which eligible entries of a directory listing stay: the `keep`
/// newest (ties broken by listing order). Everything else that is eligible
/// is removed; ineligible entries are neither kept nor removed.
pub fn retention_plan(files: &Vec<ClipFile>, keep: usize, excluded: &Vec<String>) -> (r: RetentionPlan)
    ensures
        eligible_newest_first(files@, excluded@, r.kept@ + r.removed@),
        r.kept@.len() == if keep < eligible_count(files@, excluded@, files@.len() as int) {
            keep as nat
        } else {
            eligible_count(files@, excluded@, files@.len() as int)
        },
{
    let mut order: Vec<usize> = Vec::new();
    let mut i: usize = 0;
    while i < files.len()
        invariant
            i <= files@.len(),
            newest_first(files@, order@),
            forall|k: int|
                0 <= k < order@.len() ==> #[trigger] order@[k] < i && eligible(files@, excluded@, order@[k] as int),
            forall|j: int| 0 <= j < i && eligible(files@, excluded@, j) ==> order@.contains(j as usize),
            order@.len() == eligible_count(files@, excluded@, i as int),
        decreases files@.len() - i,
    {
        if is_eligible(files, excluded, i) {
            let ti = files[i].modified.unwrap();
            let mut p: usize = 0;
            while p < order.len() && time_of(files, order[p]) >= ti
                invariant
                    p <= order@.len(),
                    i < files@.len(),
                    ti == files@[i as int].modified->Some_0,
                    forall|k: int|
                        0 <= k < order@.len() ==> #[trigger] order@[k] < i && eligible(files@, excluded@, order@[k] as int),
                    forall|k: int| 0 <= k < p ==> newer(files@, #[trigger] order@[k] as int, i as int),
                decreases order@.len() - p,
            {
                p = p + 1;
            }
            let ghost before = order@;
            order.insert(p, i);
            proof {
                assert forall|k: int| 0 <= k < p implies order@[k] == before[k] by {}
                assert forall|k: int| p < k < order@.len() implies order@[k] == before[k - 1] by {}
                assert forall|a: int, b: int| 0 <= a < b < order@.len() implies newer(
                    files@,
                    #[trigger] order@[a] as int,
                    #[trigger] order@[b] as int,
                ) by {
                    if b == p {
                    } else if a == p {
                        assert(newer(files@, i as int, before[p as int] as int));
                        if b - 1 > p {
                            assert(newer(files@, before[p as int] as int, before[b - 1] as int));
                        }
                    } else if a < p && b > p {
                        assert(newer(files@, before[a] as int, before[b - 1] as int));
                    } else if a > p {
                        assert(newer(files@, before[a - 1] as int, before[b - 1] as int));
                    }
                }
                assert forall|j: int| 0 <= j < i + 1 && eligible(files@, excluded@, j) implies order@.contains(
                    j as usize,
                ) by {
                    if j == i {
                        assert(order@[p as int] == i);
                    } else {
                        assert(before.contains(j as usize));
                        let k = choose|k: int| 0 <= k < before.len() && before[k] == j as usize;
                        if k < p {
                            assert(order@[k] == j as usize);
                        } else {
                            assert(order@[k + 1] == j as usize);
                        }
                    }
                }
            }
        } else {
            proof {
                assert forall|j: int| 0 <= j < i + 1 && eligible(files@, excluded@, j) implies order@.contains(
                    j as usize,
                ) by {}
            }
        }
        i = i + 1;
    }
    let n = order.len();
    let cut = if keep < n {
        keep
    } else {
        n
    };
    let mut kept: Vec<usize> = Vec::new();
    let mut removed: Vec<usize> = Vec::new();
    let mut k: usize = 0;
    while k < n
        invariant
            n == order@.len(),
            cut <= n,
            k <= n,
            kept@ == order@.subrange(0, if k < cut { k as int } else { cut as int }),
            removed@ == if k < cut { Seq::<usize>::empty() } else { order@.subrange(cut as int, k as int) },
        decreases n - k,
    {
        if k < cut {
            kept.push(order[k]);
            assert(kept@ =~= order@.subrange(0, if k + 1 < cut { k + 1 } else { cut as int }));
        } else {
            removed.push(order[k]);
            assert(removed@ =~= order@.subrange(cut as int, k + 1));
        }
        k = k + 1;
    }
    proof {
        assert(kept@ + removed@ =~= order@);
        assert forall|j: int| 0 <= j < files@.len() && eligible(files@, excluded@, j) implies order@.contains(
            j as usize,
        ) by {}
    }
    RetentionPlan { kept, removed }
}

/// Retention with `keep` on a listing with more eligible entries than
/// `keep` leaves exactly `keep` of them, the newest; entries that are not
/// eligible (excluded, latest-named, not WAV) are never removed.
pub proof fn lemma_retention_keeps_newest(
    files: Seq<ClipFile>,
    excluded: Seq<String>,
    keep: usize,
    kept: Seq<usize>,
    removed: Seq<usize>,
)
    requires
        eligible_newest_first(files, excluded, kept + removed),
        kept.len() == if keep < eligible_count(files, excluded, files.len() as int) {
            keep as nat
        } else {
            eligible_count(files, excluded, files.len() as int)
        },
        eligible_count(files, excluded, files.len() as int) > keep,
        files.len() <= usize::MAX,
    ensures
        kept.len() == keep,
        forall|i: int|
            0 <= i < files.len() ==> (#[trigger] kept.contains(i as usize) <==> (eligible(files, excluded, i)
                && !removed.contains(i as usize))),
        forall|i: int| 0 <= i < files.len() && removed.contains(i as usize) ==> eligible(files, excluded, i),
        forall|a: int, b: int|
            0 <= a < kept.len() && 0 <= b < removed.len() ==> newer(files, #[trigger] kept[a] as int, #[trigger] removed[b] as int),
{
    let all = kept + removed;
    assert forall|a: int, b: int|
        0 <= a < kept.len() && 0 <= b < removed.len() implies newer(files, #[trigger] kept[a] as int, #[trigger] removed[b] as int) by {
        assert(all[a] == kept[a] && all[kept.len() + b] == removed[b]);
    }
    assert forall|i: int| 0 <= i < files.len() && removed.contains(i as usize) implies eligible(files, excluded, i) by {
        let b = choose|b: int| 0 <= b < removed.len() && removed[b] == i as usize;
        assert(all[kept.len() + b] == removed[b]);
    }
    assert forall|i: int|
        0 <= i < files.len() implies (#[trigger] kept.contains(i as usize) <==> (eligible(files, excluded, i)
            && !removed.contains(i as usize))) by {
        if kept.contains(i as usize) {
            let a = choose|a: int| 0 <= a < kept.len() && kept[a] == i as usize;
            assert(all[a] == kept[a]);
            if removed.contains(i as usize) {
                let b = choose|b: int| 0 <= b < removed.len() && removed[b] == i as usize;
                assert(all[kept.len() + b] == removed[b]);
                assert(newer(files, all[a] as int, all[kept.len() + b] as int));
            }
        }
        if eligible(files, excluded, i) && !removed.contains(i as usize) {
            assert(all.contains(i as usize));
            let k = choose|k: int| 0 <= k < all.len() && all[k] == i as usize;
            if k >= kept.len() {
                assert(removed[k - kept.len()] == all[k]);
            } else {
                assert(kept[k] == all[k]);
            }
        }
    }
}

} // verus!
