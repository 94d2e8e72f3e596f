//! Per-line coverage, accumulated over every merged (graph, counts) pair.
use vstd::prelude::*;
use crate::decode::{counts_spec, decode_counts, DecodeError, GraphFile};

verus! {

/// Sum of the counts of the blocks, among `lines`, that lie on line `l`
/// (`counts` is read positionally).
pub open spec fn line_sum(lines: Seq<u32>, counts: Seq<u64>, l: int) -> int
    decreases lines.len(),
{
    if lines.len() == 0 {
        0
    } else {
        line_sum(lines.drop_last(), counts, l) + if lines.last() == l {
            counts[lines.len() - 1] as int
        } else {
            0
        }
    }
}

/// Whether some block among `lines` lies on line `l`.
pub open spec fn declares(lines: Seq<u32>, l: int) -> bool {
    exists|i: int| 0 <= i < lines.len() && lines[i] == l
}

/// What line `l` holds after one pair is merged into `prior`: unchanged when
/// the pair declares no block there, else the prior count (0 if none) plus
/// the pair's count for the line.
pub open spec fn merge_entry(prior: Option<int>, lines: Seq<u32>, counts: Seq<u64>, l: int) -> Option<int> {
    if declares(lines, l) {
        Some(
            match prior {
                Some(v) => v,
                None => 0,
            } + line_sum(lines, counts, l),
        )
    } else {
        prior
    }
}

/// Whether merging the pair into `prior` would push line `l` past `u64::MAX`.
pub open spec fn overflows(prior: Option<int>, lines: Seq<u32>, counts: Seq<u64>, l: int) -> bool {
    match merge_entry(prior, lines, counts, l) {
        Some(v) => v > u64::MAX,
        None => false,
    }
}

/// The entry of line `l` in a model stored as counts and declared flags.
pub open spec fn entry_of(c: Seq<u64>, d: Seq<bool>, l: int) -> Option<int> {
    if 0 <= l < d.len() && l < c.len() && d[l] {
        Some(c[l] as int)
    } else {
        None
    }
}

/// Why a pair could not be merged.
#[derive(Debug, Clone, Copy, PartialEq, Eq, Structural)]
pub enum MergeError {
    /// The artifacts could not be decoded.
    Decode(DecodeError),
    /// A line's count would exceed `u64::MAX`.
    CountOverflow,
}

/// Per-line coverage of one source file. Line `l` is instrumented when some
/// merged pair declared a block on it; its count is then the sum of the
/// contributions of all merged pairs.
#[derive(Debug)]
pub struct LineCoverage {
    counts: Vec<u64>,
    declared: Vec<bool>,
}

impl LineCoverage {
    pub closed spec fn wf(&self) -> bool {
        self.counts@.len() == self.declared@.len()
    }

    /// The count of line `l`, or `None` where the line is not instrumentable.
    pub closed spec fn entry(&self, l: int) -> Option<int> {
        entry_of(self.counts@, self.declared@, l)
    }

    /// A model in which no line is instrumented.
    pub fn new() -> (r: LineCoverage)
        ensures
            r.wf(),
            forall|l: int| r.entry(l) == None::<int>,
    {
        LineCoverage { counts: Vec::new(), declared: Vec::new() }
    }

    /// The count of line `line`, or `None` where no merged pair declared a
    /// block on it.
    pub fn line_count(&self, line: u32) -> (r: Option<u64>)
        requires
            self.wf(),
        ensures
            self.entry(line as int) == match r {
                Some(c) => Some(c as int),
                None => None::<int>,
            },
    {
        let l = line as usize;
        if l < self.declared.len() && self.declared[l] {
            Some(self.counts[l])
        } else {
            None
        }
    }

    /// The count held in slot `l`, or `None` where the line is not instrumentable.
    pub fn count_at(&self, l: usize) -> (r: Option<u64>)
        requires
            self.wf(),
        ensures
            self.entry(l as int) == match r {
                Some(c) => Some(c as int),
                None => None::<int>,
            },
    {
        if l < self.declared.len() && self.declared[l] {
            Some(self.counts[l])
        } else {
            None
        }
    }

    /// Number of line slots held.
    pub closed spec fn line_bound_spec(&self) -> int {
        self.declared@.len() as int
    }

    /// Number of line slots held: every line at or beyond it is not instrumentable.
    pub fn line_bound(&self) -> (r: usize)
        requires
            self.wf(),
        ensures
            r == self.line_bound_spec(),
            forall|l: int| l >= r ==> self.entry(l) == None::<int>,
    {
        self.declared.len()
    }

    /// Adds one pair's counts: `lines` holds the line of each block and
    /// `counts` the counter of each block, positionally. Counts sum, never
    /// overwrite. On overflow of a line's count nothing is changed.
    pub fn merge(&mut self, lines: &Vec<u32>, counts: &Vec<u64>) -> (r: Result<(), MergeError>)
        requires
            old(self).wf(),
            lines@.len() == counts@.len(),
        ensures
            final(self).wf(),
            r is Ok ==> forall|l: int|
                #![trigger final(self).entry(l)]
                final(self).entry(l) == merge_entry(old(self).entry(l), lines@, counts@, l),
            r is Err ==> r == Err::<(), MergeError>(MergeError::CountOverflow) && *final(self)
                == *old(self) && exists|l: int| overflows(old(self).entry(l), lines@, counts@, l),
    {
        let mut nc = self.counts.clone();
        let mut nd = self.declared.clone();
        proof {
            assert(nc@ =~= self.counts@);
            assert(nd@ =~= self.declared@);
        }
        let n = lines.len();
        let mut i: usize = 0;
        while i < n
            invariant
                i <= n,
                n == lines@.len(),
                n == counts@.len(),
                nc@.len() == nd@.len(),
                self.wf(),
                forall|x: int|
                    #![trigger entry_of(nc@, nd@, x)]
                    entry_of(nc@, nd@, x) == merge_entry(
                        self.entry(x),
                        lines@.take(i as int),
                        counts@,
                        x,
                    ),
            decreases n - i,
        {
            let l = lines[i];
            let lu = l as usize;
            let c = counts[i];
            let ghost pre_c = nc@;
            let ghost pre_d = nd@;
            while nd.len() <= lu
                invariant
                    nc@.len() == nd@.len(),
                    nd@.len() >= pre_d.len(),
                    forall|x: int|
                        #![trigger entry_of(nc@, nd@, x)]
                        entry_of(nc@, nd@, x) == entry_of(pre_c, pre_d, x),
                decreases lu + 1 - nd@.len(),
            {
                let ghost c0 = nc@;
                let ghost d0 = nd@;
                nc.push(0);
                nd.push(false);
                proof {
                    assert forall|x: int| #[trigger]
                        entry_of(nc@, nd@, x) == entry_of(c0, d0, x) by {
                        if 0 <= x < d0.len() {
                            assert(nd@[x] == d0[x]);
                            assert(nc@[x] == c0[x]);
                        }
                    }
                }
            }
            let ghost prev = lines@.take(i as int);
            let ghost next = lines@.take(i + 1);
            proof {
                assert(next.drop_last() =~= prev);
                assert(declares(next, l as int)) by {
                    assert(next[i as int] == l);
                }
                assert forall|x: int| x != l implies #[trigger] line_sum(next, counts@, x)
                    == line_sum(prev, counts@, x) && declares(next, x) == declares(prev, x) by {
                    if declares(next, x) {
                        let j = choose|j: int| 0 <= j < next.len() && next[j] == x;
                        assert(prev[j] == x);
                    }
                    if declares(prev, x) {
                        let j = choose|j: int| 0 <= j < prev.len() && prev[j] == x;
                        assert(next[j] == x);
                    }
                }
                if !declares(prev, l as int) {
                    lemma_sum_undeclared(prev, counts@, l as int);
                }
                assert(line_sum(next, counts@, l as int) == line_sum(prev, counts@, l as int) + c);
                assert(entry_of(nc@, nd@, l as int) == entry_of(pre_c, pre_d, l as int));
                assert(entry_of(pre_c, pre_d, l as int) == merge_entry(
                    self.entry(l as int),
                    prev,
                    counts@,
                    l as int,
                ));
            }
            let ghost mid_c = nc@;
            let ghost mid_d = nd@;
            let cur = if nd[lu] {
                nc[lu]
            } else {
                0
            };
            match cur.checked_add(c) {
                Some(v) => {
                    nc.set(lu, v);
                    nd.set(lu, true);
                },
                None => {
                    proof {
                        let x = l as int;
                        let m = merge_entry(self.entry(x), lines@, counts@, x);
                        lemma_sum_prefix(lines@, counts@, x, i + 1);
                        assert(lines@.take(n as int) =~= lines@);
                        assert(declares(lines@, x)) by {
                            assert(lines@[i as int] == l);
                        }
                        assert(overflows(self.entry(x), lines@, counts@, x));
                    }
                    return Err(MergeError::CountOverflow);
                },
            }
            proof {
                assert forall|x: int|
                    #![trigger entry_of(nc@, nd@, x)]
                    entry_of(nc@, nd@, x) == merge_entry(self.entry(x), next, counts@, x) by {
                    if x != l {
                        if 0 <= x < nd@.len() {
                            assert(nd@[x] == mid_d[x]);
                            assert(nc@[x] == mid_c[x]);
                        }
                        assert(entry_of(nc@, nd@, x) == entry_of(mid_c, mid_d, x));
                        assert(entry_of(mid_c, mid_d, x) == entry_of(pre_c, pre_d, x));
                    }
                }
            }
            i = i + 1;
        }
        proof {
            assert(lines@.take(n as int) =~= lines@);
        }
        self.counts = nc;
        self.declared = nd;
        Ok(())
    }
}

/// The counters of one run, or nothing where its file does not decode.
pub open spec fn decoded_run(stamp: u32, n: nat, b: Seq<u8>) -> Seq<u64> {
    match counts_spec(stamp, n, b) {
        Ok(c) => c,
        Err(_) => Seq::empty(),
    }
}

/// The lines and counters of the blocks, among all, that lie in source `file`,
/// in declaration order.
pub open spec fn select(files: Seq<u32>, lines: Seq<u32>, counts: Seq<u64>, file: u32) -> (Seq<u32>, Seq<u64>)
    decreases lines.len(),
{
    if lines.len() == 0 {
        (Seq::empty(), Seq::empty())
    } else {
        let n = lines.len() - 1;
        let (l, c) = select(files.take(n), lines.take(n), counts.take(n), file);
        if files[n] == file {
            (l.push(lines[n]), c.push(counts[n]))
        } else {
            (l, c)
        }
    }
}

/// The (block lines, counters) pair, restricted to source `file`, of each run of one graph.
pub open spec fn run_pairs(files: Seq<u32>, lines: Seq<u32>, stamp: u32, file: u32, runs: Seq<Seq<u8>>) -> Seq<
    (Seq<u32>, Seq<u64>),
> {
    Seq::new(runs.len(), |k: int| select(files, lines, decoded_run(stamp, lines.len(), runs[k]), file))
}

/// The pairs of a graph and each of its recorded runs.
pub open spec fn graph_runs(g: GraphFile, file: u32, runs: Seq<Vec<u8>>) -> Seq<(Seq<u32>, Seq<u64>)> {
    run_pairs(g.block_files@, g.block_lines@, g.stamp, file, runs.map_values(|v: Vec<u8>| v@))
}

/// Line `l` after merging `pairs` one after another into an empty model.
pub open spec fn folded(pairs: Seq<(Seq<u32>, Seq<u64>)>, l: int) -> Option<int>
    decreases pairs.len(),
{
    if pairs.len() == 0 {
        None
    } else {
        let p = pairs.last();
        merge_entry(folded(pairs.drop_last(), l), p.0, p.1, l)
    }
}

/// Sum over all pairs of what each contributes to line `l`.
pub open spec fn total(pairs: Seq<(Seq<u32>, Seq<u64>)>, l: int) -> int
    decreases pairs.len(),
{
    if pairs.len() == 0 {
        0
    } else {
        let p = pairs.last();
        total(pairs.drop_last(), l) + line_sum(p.0, p.1, l)
    }
}

/// Whether some pair declares a block on line `l`.
pub open spec fn declared_by_any(pairs: Seq<(Seq<u32>, Seq<u64>)>, l: int) -> bool {
    exists|k: int| 0 <= k < pairs.len() && declares(pairs[k].0, l)
}

/// A line reached by any number of pairs holds the sum of their counts;
/// a line that no pair declares is not instrumentable.
pub proof fn lemma_merged_sum(pairs: Seq<(Seq<u32>, Seq<u64>)>, l: int)
    ensures
        folded(pairs, l) == if declared_by_any(pairs, l) {
            Some(total(pairs, l))
        } else {
            None::<int>
        },
    decreases pairs.len(),
{
    if pairs.len() > 0 {
        let s = pairs.drop_last();
        let p = pairs.last();
        lemma_merged_sum(s, l);
        if !declares(p.0, l) {
            lemma_sum_undeclared(p.0, p.1, l);
        }
        if !declared_by_any(s, l) {
            assert forall|k: int| 0 <= k < s.len() implies !declares(#[trigger] s[k].0, l) by {}
            lemma_total_undeclared(s, l);
        }
        if declared_by_any(pairs, l) {
            let k = choose|k: int| 0 <= k < pairs.len() && declares(pairs[k].0, l);
            if k < s.len() {
                assert(s[k] == pairs[k]);
            }
        } else {
            assert(!declares(pairs[pairs.len() - 1].0, l));
        }
        if declared_by_any(s, l) {
            let k = choose|k: int| 0 <= k < s.len() && declares(s[k].0, l);
            assert(pairs[k] == s[k]);
        }
    }
}

/// Counts are non-negative: merging more pairs never lowers a line.
proof fn lemma_folded_prefix(pairs: Seq<(Seq<u32>, Seq<u64>)>, k: int, l: int)
    requires
        0 <= k <= pairs.len(),
    ensures
        folded(pairs.take(k), l) matches Some(v) ==> folded(pairs, l) matches Some(w) && v <= w,
    decreases pairs.len(),
{
    if k < pairs.len() {
        let s = pairs.drop_last();
        assert(s.take(k) =~= pairs.take(k));
        lemma_folded_prefix(s, k, l);
        lemma_sum_nonneg(pairs.last().0, pairs.last().1, l);
    } else {
        assert(pairs.take(k) =~= pairs);
    }
}

proof fn lemma_sum_nonneg(lines: Seq<u32>, counts: Seq<u64>, l: int)
    ensures
        line_sum(lines, counts, l) >= 0,
    decreases lines.len(),
{
    if lines.len() > 0 {
        lemma_sum_nonneg(lines.drop_last(), counts, l);
    }
}

proof fn lemma_total_undeclared(pairs: Seq<(Seq<u32>, Seq<u64>)>, l: int)
    requires
        forall|k: int| 0 <= k < pairs.len() ==> !declares(#[trigger] pairs[k].0, l),
    ensures
        total(pairs, l) == 0,
    decreases pairs.len(),
{
    if pairs.len() > 0 {
        let s = pairs.drop_last();
        assert forall|k: int| 0 <= k < s.len() implies !declares(#[trigger] s[k].0, l) by {
            assert(s[k] == pairs[k]);
        }
        lemma_total_undeclared(s, l);
        lemma_sum_undeclared(pairs.last().0, pairs.last().1, l);
    }
}

/// The lines and counters of the blocks that lie in source `file`.
pub fn select_file(files: &Vec<u32>, lines: &Vec<u32>, counts: &Vec<u64>, file: u32) -> (r: (Vec<u32>, Vec<u64>))
    requires
        files@.len() == lines@.len(),
        counts@.len() == lines@.len(),
    ensures
        (r.0@, r.1@) == select(files@, lines@, counts@, file),
        r.0@.len() == r.1@.len(),
{
    let mut out_l: Vec<u32> = Vec::new();
    let mut out_c: Vec<u64> = Vec::new();
    let n = lines.len();
    let mut i: usize = 0;
    while i < n
        invariant
            i <= n,
            n == lines@.len(),
            files@.len() == n,
            counts@.len() == n,
            out_l@.len() == out_c@.len(),
            (out_l@, out_c@) == select(
                files@.take(i as int),
                lines@.take(i as int),
                counts@.take(i as int),
                file,
            ),
        decreases n - i,
    {
        proof {
            let j = i + 1;
            assert(files@.take(j).take(i as int) =~= files@.take(i as int));
            assert(lines@.take(j).take(i as int) =~= lines@.take(i as int));
            assert(counts@.take(j).take(i as int) =~= counts@.take(i as int));
        }
        if files[i] == file {
            out_l.push(lines[i]);
            out_c.push(counts[i]);
        }
        i = i + 1;
    }
    proof {
        assert(files@.take(n as int) =~= files@);
        assert(lines@.take(n as int) =~= lines@);
        assert(counts@.take(n as int) =~= counts@);
    }
    (out_l, out_c)
}

/// Aggregates, for source `file` of one graph, every run recorded for the
/// graph: each count file is decoded against the graph, then the counts of
/// the blocks in that source are summed per line. Any run that does not
/// decode fails the whole call.
pub fn aggregate(graph: &GraphFile, file: u32, runs: &Vec<Vec<u8>>) -> (r: Result<LineCoverage, MergeError>)
    requires
        graph.block_files@.len() == graph.block_lines@.len(),
    ensures
        (forall|k: int|
            0 <= k < runs@.len() ==> #[trigger] counts_spec(
                graph.stamp,
                graph.block_lines@.len(),
                runs@[k]@,
            ) is Ok) <==> !(r matches Err(MergeError::Decode(_))),
        r matches Err(MergeError::Decode(e)) ==> exists|k: int|
            0 <= k < runs@.len() && #[trigger] counts_spec(
                graph.stamp,
                graph.block_lines@.len(),
                runs@[k]@,
            ) == Err::<Seq<u64>, DecodeError>(e),
        r matches Err(MergeError::CountOverflow) ==> exists|l: int|
            #[trigger] folded(graph_runs(*graph, file, runs@), l) matches Some(v) && v > u64::MAX,
        r matches Ok(m) ==> m.wf() && forall|l: int|
            #![trigger m.entry(l)]
            m.entry(l) == folded(graph_runs(*graph, file, runs@), l),
{
    let ghost views = runs@.map_values(|v: Vec<u8>| v@);
    let ghost n = graph.block_lines@.len();
    let mut decoded: Vec<Vec<u64>> = Vec::new();
    let mut selected: Vec<Vec<u32>> = Vec::new();
    let mut k: usize = 0;
    while k < runs.len()
        invariant
            k <= runs@.len(),
            views == runs@.map_values(|v: Vec<u8>| v@),
            n == graph.block_lines@.len(),
            graph.block_files@.len() == n,
            decoded@.len() == k,
            selected@.len() == k,
            forall|j: int|
                0 <= j < k ==> #[trigger] counts_spec(graph.stamp, n, runs@[j]@) is Ok,
            forall|j: int|
                0 <= j < k ==> (#[trigger] selected@[j]@, decoded@[j]@) == select(
                    graph.block_files@,
                    graph.block_lines@,
                    decoded_run(graph.stamp, n, runs@[j]@),
                    file,
                ) && selected@[j]@.len() == decoded@[j]@.len(),
        decreases runs@.len() - k,
    {
        match decode_counts(graph, runs[k].as_slice()) {
            Ok(c) => {
                let (l, c) = select_file(&graph.block_files, &graph.block_lines, &c, file);
                selected.push(l);
                decoded.push(c);
            },
            Err(e) => {
                return Err(MergeError::Decode(e));
            },
        }
        k = k + 1;
    }
    let ghost pairs = run_pairs(graph.block_files@, graph.block_lines@, graph.stamp, file, views);
    let mut model = LineCoverage::new();
    let mut j: usize = 0;
    while j < decoded.len()
        invariant
            j <= decoded@.len(),
            decoded@.len() == runs@.len(),
            selected@.len() == runs@.len(),
            pairs == run_pairs(graph.block_files@, graph.block_lines@, graph.stamp, file, views),
            views == runs@.map_values(|v: Vec<u8>| v@),
            n == graph.block_lines@.len(),
            forall|i: int|
                0 <= i < runs@.len() ==> (#[trigger] selected@[i]@, decoded@[i]@) == select(
                    graph.block_files@,
                    graph.block_lines@,
                    decoded_run(graph.stamp, n, runs@[i]@),
                    file,
                ) && selected@[i]@.len() == decoded@[i]@.len(),
            forall|i: int|
                0 <= i < runs@.len() ==> #[trigger] counts_spec(graph.stamp, n, runs@[i]@) is Ok,
            model.wf(),
            forall|l: int| #![trigger model.entry(l)] model.entry(l) == folded(pairs.take(j as int), l),
        decreases decoded@.len() - j,
    {
        let ghost before = model;
        let ghost pj = pairs[j as int];
        proof {
            assert(views[j as int] == runs@[j as int]@);
            assert(selected@[j as int]@.len() == decoded@[j as int]@.len());
            assert(pairs.take(j + 1).drop_last() =~= pairs.take(j as int));
            assert(pairs[j as int] == (selected@[j as int]@, decoded@[j as int]@));
        }
        match model.merge(&selected[j], &decoded[j]) {
            Ok(()) => {},
            Err(_) => {
                proof {
                    let l = choose|l: int| overflows(before.entry(l), pj.0, pj.1, l);
                    assert(before.entry(l) == folded(pairs.take(j as int), l));
                    assert(folded(pairs.take(j + 1), l) == merge_entry(before.entry(l), pj.0, pj.1, l));
                    lemma_folded_prefix(pairs, j + 1, l);
                    assert(folded(pairs, l) matches Some(v) && v > u64::MAX);
                }
                return Err(MergeError::CountOverflow);
            },
        }
        proof {
            assert forall|l: int| #![trigger model.entry(l)]
                model.entry(l) == folded(pairs.take(j + 1), l) by {
                assert(before.entry(l) == folded(pairs.take(j as int), l));
            }
        }
        j = j + 1;
    }
    proof {
        assert(pairs.take(j as int) =~= pairs);
    }
    Ok(model)
}

/// A line on which no block lies gets nothing from the pair.
proof fn lemma_sum_undeclared(lines: Seq<u32>, counts: Seq<u64>, l: int)
    requires
        !declares(lines, l),
    ensures
        line_sum(lines, counts, l) == 0,
    decreases lines.len(),
{
    if lines.len() > 0 {
        let s = lines.drop_last();
        assert(!declares(s, l)) by {
            if declares(s, l) {
                let j = choose|j: int| 0 <= j < s.len() && s[j] == l;
                assert(lines[j] == l);
            }
        }
        assert(lines[lines.len() - 1] != l);
        lemma_sum_undeclared(s, counts, l);
    }
}

/// Counts are non-negative, so a prefix of the blocks never sums to more.
proof fn lemma_sum_prefix(lines: Seq<u32>, counts: Seq<u64>, l: int, k: int)
    requires
        0 <= k <= lines.len(),
    ensures
        line_sum(lines.take(k), counts, l) <= line_sum(lines, counts, l),
    decreases lines.len(),
{
    if k == lines.len() {
        assert(lines.take(k) =~= lines);
    } else {
        let s = lines.drop_last();
        assert(s.take(k) =~= lines.take(k));
        lemma_sum_prefix(s, counts, l, k);
    }
}

} // verus!
