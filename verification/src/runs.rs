//! The runs that are kept: their list, their size and the names of their files in a download.
use vstd::prelude::*;
use vstd::string::*;
use crate::text::{
    cat3, is_text_before, join, joined, lemma_text_before_irreflexive, lemma_text_before_transitive,
    lemma_text_total, text_before, texts,
};

verus! {

/// A run that is kept.
#[derive(Debug)]
pub struct RunEntry {
    /// The name of its directory.
    pub id: String,
    /// When it last changed; empty where that is not known.
    pub modified: String,
    pub has_report: bool,
    /// Whether the report can be made again.
    pub has_rows: bool,
    pub has_xlsx: bool,
    /// How many bytes a download takes.
    pub bytes: u64,
}

/// Where a run goes among the first `k` that are placed: behind all whose names do not come before
/// its own.
pub open spec fn run_slot(placed: Seq<RunEntry>, run: RunEntry, k: int) -> int
    decreases k,
{
    if k <= 0 {
        0
    } else if !text_before(placed[k - 1].id@, run.id@, 0) {
        k
    } else {
        run_slot(placed, run, k - 1)
    }
}

/// The first `n` runs, the last names first.
pub open spec fn newest_to(runs: Seq<RunEntry>, n: int) -> Seq<RunEntry>
    decreases n,
{
    if n <= 0 {
        Seq::empty()
    } else {
        let placed = newest_to(runs, n - 1);
        placed.insert(run_slot(placed, runs[n - 1], placed.len() as int), runs[n - 1])
    }
}

/// The runs with the newest first: their names start with the time at which they started.
pub fn newest_first(runs: Vec<RunEntry>) -> (r: Vec<RunEntry>)
    ensures
        r@ == newest_to(runs@, runs@.len() as int),
{
    let ghost all = runs@;
    let mut placed: Vec<RunEntry> = Vec::new();
    for run in it: runs
        invariant
            it.seq() == all,
            placed@ == newest_to(all, it.index@ as int),
    {
        let ghost before = placed@;
        let mut k: usize = placed.len();
        while k > 0 && is_text_before(placed[k - 1].id.as_str(), run.id.as_str())
            invariant
                k <= placed@.len(),
                before == placed@,
                run_slot(before, run, before.len() as int) == run_slot(before, run, k as int),
            decreases k,
        {
            k -= 1;
        }
        placed.insert(k, run);
    }
    placed
}

proof fn lemma_run_slot(placed: Seq<RunEntry>, run: RunEntry, k: int)
    requires
        0 <= k <= placed.len(),
    ensures
        0 <= run_slot(placed, run, k) <= k,
        run_slot(placed, run, k) > 0 ==> !text_before(
            placed[run_slot(placed, run, k) - 1].id@,
            run.id@,
            0,
        ),
        forall|i: int|
            run_slot(placed, run, k) <= i < k ==> text_before(
                (#[trigger] placed[i]).id@,
                run.id@,
                0,
            ),
    decreases k,
{
    if k > 0 && text_before(placed[k - 1].id@, run.id@, 0) {
        lemma_run_slot(placed, run, k - 1);
    }
}

proof fn lemma_not_before(a: Seq<char>, b: Seq<char>, c: Seq<char>)
    requires
        !text_before(a, b, 0),
        !text_before(b, c, 0),
    ensures
        !text_before(a, c, 0),
{
    if text_before(a, c, 0) {
        lemma_text_total(a, b, 0);
        lemma_text_total(b, c, 0);
        if a != b {
            lemma_text_before_transitive(b, a, c, 0);
        }
    }
}

proof fn lemma_newest_to(runs: Seq<RunEntry>, n: int)
    requires
        0 <= n <= runs.len(),
    ensures
        newest_to(runs, n).len() == n,
        forall|i: int, j: int|
            0 <= i < j < n ==> !text_before(
                (#[trigger] newest_to(runs, n)[i]).id@,
                (#[trigger] newest_to(runs, n)[j]).id@,
                0,
            ),
        newest_to(runs, n).to_multiset() =~= runs.take(n).to_multiset(),
    decreases n,
{
    if n > 0 {
        lemma_newest_to(runs, n - 1);
        let placed = newest_to(runs, n - 1);
        let run = runs[n - 1];
        lemma_run_slot(placed, run, placed.len() as int);
        let at = run_slot(placed, run, placed.len() as int);
        let all = newest_to(runs, n);
        assert(all == placed.insert(at, run));
        assert forall|i: int, j: int| 0 <= i < j < n implies !text_before(
            (#[trigger] all[i]).id@,
            (#[trigger] all[j]).id@,
            0,
        ) by {
            let a = if i < at {
                i
            } else {
                i - 1
            };
            let b = if j < at {
                j
            } else {
                j - 1
            };
            if i != at && j != at {
                assert(all[i] == placed[a] && all[j] == placed[b]);
            } else if j == at {
                assert(all[i] == placed[i]);
                if i < at - 1 {
                    assert(!text_before(placed[i].id@, placed[at - 1].id@, 0));
                    lemma_not_before(placed[i].id@, placed[at - 1].id@, run.id@);
                }
            } else {
                assert(all[j] == placed[j - 1]);
                assert(text_before(placed[j - 1].id@, run.id@, 0));
                lemma_text_before_irreflexive(placed[j - 1].id@, run.id@, 0);
            }
        }
        assert(runs.take(n) =~= runs.take(n - 1).push(run));
        vstd::seq_lib::to_multiset_insert(placed, at, run);
        vstd::seq_lib::to_multiset_build(runs.take(n - 1), run);
    } else {
        assert(runs.take(0) =~= Seq::<RunEntry>::empty());
    }
}

/// In the list no run stands before one whose name comes later, and it holds the same runs.
pub proof fn lemma_newest_come_first(runs: Seq<RunEntry>)
    ensures
        ({
            let list = newest_to(runs, runs.len() as int);
            &&& forall|i: int, j: int|
                0 <= i < j < list.len() ==> !text_before(
                    (#[trigger] list[i]).id@,
                    (#[trigger] list[j]).id@,
                    0,
                )
            &&& list.to_multiset() == runs.to_multiset()
        }),
{
    lemma_newest_to(runs, runs.len() as int);
    assert(runs.take(runs.len() as int) =~= runs);
}

/// The sum of the first `n` sizes.
pub open spec fn size_to(sizes: Seq<u64>, n: int) -> int
    decreases n,
{
    if n <= 0 {
        0
    } else {
        size_to(sizes, n - 1) + sizes[n - 1]
    }
}

proof fn lemma_size_grows(sizes: Seq<u64>, n: int, m: int)
    requires
        n <= m,
    ensures
        0 <= size_to(sizes, n) <= size_to(sizes, m),
    decreases m,
{
    if m > 0 {
        if n < m {
            lemma_size_grows(sizes, n, m - 1);
        } else {
            lemma_size_grows(sizes, n - 1, m - 1);
        }
    }
}

/// The size of a directory, from those of its files and directories; the largest number where the
/// sum is larger.
pub fn dir_size(sizes: &Vec<u64>) -> (r: u64)
    ensures
        r == if size_to(sizes@, sizes@.len() as int) > u64::MAX {
            u64::MAX as int
        } else {
            size_to(sizes@, sizes@.len() as int)
        },
{
    let mut total: u64 = 0;
    let mut i: usize = 0;
    while i < sizes.len()
        invariant
            i <= sizes@.len(),
            total == if size_to(sizes@, i as int) > u64::MAX {
                u64::MAX as int
            } else {
                size_to(sizes@, i as int)
            },
        decreases sizes@.len() - i,
    {
        proof {
            lemma_size_grows(sizes@, i as int, i + 1);
        }
        let size: u64 = sizes[i];
        total = if size > u64::MAX - total {
            u64::MAX
        } else {
            total + size
        };
        i += 1;
    }
    total
}

/// The name of a file in the download of a run: under a directory named like the run, with slashes
/// on every system.
pub fn bundle_entry(run_id: &str, path: &Vec<String>) -> (r: String)
    ensures
        r@ == run_id@ + "/"@ + joined(texts(path@), "/"@),
{
    let name = join(path, "/");
    cat3(run_id, "/", name.as_str())
}

} // verus!
