//! The report index: per-file line totals, and the numeric-aware order in
//! which files are listed.
use vstd::prelude::*;
use vstd::multiset::Multiset;
use std::cmp::Ordering;
use crate::aggregate::LineCoverage;

verus! {

/// How the natural (numeric-aware) comparison orders two paths.
pub uninterp spec fn natural_order(a: Seq<char>, b: Seq<char>) -> Ordering;

/// The opposite ordering.
pub open spec fn reversed(o: Ordering) -> Ordering {
    match o {
        Ordering::Less => Ordering::Greater,
        Ordering::Equal => Ordering::Equal,
        Ordering::Greater => Ordering::Less,
    }
}

/// Relies on `natord::compare`: runs of digits compare by their numeric
/// value, and the comparison treats its two arguments alike, so swapping them
/// reverses the result.
#[verifier::external_body]
fn natural_cmp(a: &str, b: &str) -> (r: Ordering)
    ensures
        r == natural_order(a@, b@),
        reversed(r) == natural_order(b@, a@),
{
    natord::compare(a, b)
}

/// One row of the index.
#[derive(Debug)]
pub struct FileSummary {
    pub path: String,
    /// Lines on which some block was declared.
    pub lines_instrumented: u64,
    /// Instrumented lines executed at least once.
    pub lines_hit: u64,
}

/// Whether rows `k` and `k + 1` are in natural order of their paths.
pub open spec fn in_order_at(s: Seq<FileSummary>, k: int) -> bool {
    natural_order(s[k].path@, s[k + 1].path@) != Ordering::Greater
}

/// Whether the rows are listed in natural order of their paths.
pub open spec fn naturally_sorted(s: Seq<FileSummary>) -> bool {
    forall|k: int| 0 <= k < s.len() - 1 ==> #[trigger] in_order_at(s, k)
}

/// Number of instrumented lines below `k`.
pub open spec fn instrumented_below(c: LineCoverage, k: int) -> int
    decreases k,
{
    if k <= 0 {
        0
    } else {
        instrumented_below(c, k - 1) + if c.entry(k - 1) is Some {
            1int
        } else {
            0
        }
    }
}

/// Number of instrumented lines below `k` executed at least once.
pub open spec fn hit_below(c: LineCoverage, k: int) -> int
    decreases k,
{
    if k <= 0 {
        0
    } else {
        hit_below(c, k - 1) + if c.entry(k - 1) matches Some(v) && v > 0 {
            1int
        } else {
            0
        }
    }
}

/// Sums up one file's coverage for the index. Lines that are not
/// instrumentable count in neither total.
pub fn summarize(path: String, cov: &LineCoverage) -> (r: FileSummary)
    requires
        cov.wf(),
    ensures
        r.path == path,
        forall|k: int| k >= cov.line_bound_spec() ==> r.lines_instrumented == instrumented_below(*cov, k)
            && r.lines_hit == hit_below(*cov, k),
        r.lines_hit <= r.lines_instrumented,
{
    let bound = cov.line_bound();
    let mut instrumented: u64 = 0;
    let mut hit: u64 = 0;
    let mut l: usize = 0;
    while l < bound
        invariant
            l <= bound,
            bound == cov.line_bound_spec(),
            cov.wf(),
            instrumented == instrumented_below(*cov, l as int),
            hit == hit_below(*cov, l as int),
            hit <= instrumented <= l,
        decreases bound - l,
    {
        match cov.count_at(l) {
            Some(v) => {
                instrumented = instrumented + 1;
                if v > 0 {
                    hit = hit + 1;
                }
            },
            None => {},
        }
        l = l + 1;
    }
    proof {
        assert forall|k: int| k >= bound implies instrumented == instrumented_below(*cov, k)
            && hit == hit_below(*cov, k) by {
            lemma_no_lines_beyond(*cov, bound as int, k);
        }
    }
    FileSummary { path, lines_instrumented: instrumented, lines_hit: hit }
}

proof fn lemma_no_lines_beyond(c: LineCoverage, b: int, k: int)
    requires
        b >= 0,
        k >= b,
        forall|l: int| l >= b ==> c.entry(l) == None::<int>,
    ensures
        instrumented_below(c, k) == instrumented_below(c, b),
        hit_below(c, k) == hit_below(c, b),
    decreases k - b,
{
    if k > b {
        lemma_no_lines_beyond(c, b, k - 1);
    }
}

/// The share of instrumented lines that were hit, in whole percent rounded
/// down; `None` for a file with no instrumentable line.
pub fn percent(hit: u64, total: u64) -> (r: Option<u64>)
    requires
        hit <= total,
    ensures
        total == 0 ==> r == None::<u64>,
        total > 0 ==> r == Some(((hit as int) * 100 / (total as int)) as u64),
{
    if total == 0 {
        None
    } else {
        let p = (hit as u128) * 100 / (total as u128);
        proof {
            assert((hit as int) * 100 / (total as int) <= 100) by (nonlinear_arith)
                requires
                    hit <= total,
                    total > 0,
            ;
        }
        Some(p as u64)
    }
}

proof fn lemma_take_one(a: Multiset<FileSummary>, b: Multiset<FileSummary>, x: FileSummary)
    requires
        b.count(x) > 0,
    ensures
        a.add(b.remove(x)) =~= a.add(b).remove(x),
        a.add(b).count(x) > 0,
{
    broadcast use vstd::multiset::group_multiset_axioms;

}

proof fn lemma_put_back(a: Multiset<FileSummary>, b: Multiset<FileSummary>, all: Multiset<FileSummary>, x: FileSummary)
    requires
        a.add(b) == all.remove(x),
        all.count(x) > 0,
    ensures
        a.insert(x).add(b) == all,
{
    broadcast use vstd::multiset::group_multiset_axioms;

    assert forall|y: FileSummary| #[trigger] a.insert(x).add(b).count(y) == all.count(y) by {
        assert(a.add(b).count(y) == all.remove(x).count(y));
        assert(a.insert(x).add(b).count(y) == a.insert(x).count(y) + b.count(y));
        if y == x {
            assert(a.insert(x).count(y) == a.count(y) + 1);
            assert(all.remove(x).count(y) == all.count(y) - 1);
        } else {
            assert(a.insert(x).count(y) == a.count(y));
            assert(all.remove(x).count(y) == all.count(y));
        }
    }
    assert(a.insert(x).add(b) =~= all);
}

proof fn lemma_no_rows(s: Seq<FileSummary>, m: Multiset<FileSummary>)
    requires
        s.len() == 0,
    ensures
        s.to_multiset().add(m) == m,
{
    broadcast use vstd::multiset::group_multiset_axioms;

    s.to_multiset_ensures();
    vstd::multiset::lemma_multiset_empty_len(s.to_multiset());
    assert(s.to_multiset().add(m) =~= m);
}

proof fn lemma_insert_sorted(o: Seq<FileSummary>, pos: int, x: FileSummary)
    requires
        naturally_sorted(o),
        0 <= pos <= o.len(),
        pos > 0 ==> natural_order(o[pos - 1].path@, x.path@) != Ordering::Greater,
        pos < o.len() ==> natural_order(x.path@, o[pos].path@) == Ordering::Less,
    ensures
        naturally_sorted(o.insert(pos, x)),
{
    let n = o.insert(pos, x);
    o.insert_ensures(pos, x);
    assert forall|k: int| 0 <= k < n.len() - 1 implies #[trigger] in_order_at(n, k) by {
        if k + 1 < pos {
            assert(n[k] == o[k] && n[k + 1] == o[k + 1]);
            assert(in_order_at(o, k));
        } else if k > pos {
            assert(n[k] == o[k - 1] && n[k + 1] == o[k]);
            assert(in_order_at(o, k - 1));
        } else if k + 1 == pos {
            assert(n[k] == o[k] && n[k + 1] == x);
        } else {
            assert(n[k] == x && n[k + 1] == o[k]);
        }
    }
}

/// Lists the rows in natural order of their paths (`a2` before `a10`);
/// rows of equal paths keep their order.
pub fn sort_index(files: Vec<FileSummary>) -> (r: Vec<FileSummary>)
    ensures
        r@.to_multiset() == files@.to_multiset(),
        naturally_sorted(r@),
{
    let mut rest = files;
    let mut out: Vec<FileSummary> = Vec::new();
    proof {
        lemma_no_rows(out@, files@.to_multiset());
    }
    while rest.len() > 0
        invariant
            out@.to_multiset().add(rest@.to_multiset()) == files@.to_multiset(),
            naturally_sorted(out@),
        decreases rest@.len(),
    {
        let ghost r0 = rest@;
        let x = rest.remove(0);
        proof {
            vstd::seq_lib::to_multiset_remove(r0, 0);
            assert(r0.remove(0) =~= rest@);
            r0.to_multiset_ensures();
            assert(r0.to_multiset().count(x) > 0);
            lemma_take_one(out@.to_multiset(), r0.to_multiset(), x);
        }
        let mut pos: usize = out.len();
        let mut stop = false;
        while pos > 0 && !stop
            invariant
                pos <= out@.len(),
                naturally_sorted(out@),
                out@.to_multiset().add(rest@.to_multiset()) == files@.to_multiset().remove(x),
                files@.to_multiset().count(x) > 0,
                pos < out@.len() ==> natural_order(x.path@, out@[pos as int].path@) == Ordering::Less,
                stop ==> pos > 0 && natural_order(out@[pos - 1].path@, x.path@) != Ordering::Greater,
            decreases pos, if stop { 0int } else { 1int },
        {
            match natural_cmp(out[pos - 1].path.as_str(), x.path.as_str()) {
                Ordering::Greater => {
                    pos = pos - 1;
                },
                _ => {
                    stop = true;
                },
            }
        }
        let ghost o0 = out@;
        let ghost x0 = x;
        proof {
            vstd::seq_lib::to_multiset_insert(o0, pos as int, x0);
            lemma_insert_sorted(o0, pos as int, x0);
        }
        out.insert(pos, x);
        proof {
            lemma_put_back(o0.to_multiset(), rest@.to_multiset(), files@.to_multiset(), x0);
        }
    }
    proof {
        rest@.to_multiset_ensures();
        vstd::multiset::lemma_multiset_empty_len(rest@.to_multiset());
        assert(out@.to_multiset().add(rest@.to_multiset()) =~= out@.to_multiset()) by {
            broadcast use vstd::multiset::group_multiset_axioms;
        }
    }
    out
}

} // verus!
