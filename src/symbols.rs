//! Display names of functions, and the merging of compiler-duplicated
//! instances of one source function.
use vstd::prelude::*;

verus! {

/// The display name that the demangler gives a raw symbol.
pub uninterp spec fn demangled(raw: Seq<char>) -> Seq<char>;

/// Relies on `rustc_demangle::demangle`, printed in its alternate form (no
/// trailing hash): a name that does not look mangled is written back as it
/// was given.
#[verifier::external_body]
fn demangle_name(raw: &str) -> (r: String)
    ensures
        r@ == demangled(raw@),
{
    format!("{:#}", rustc_demangle::demangle(raw))
}

/// One compiled instance of a function, as the graph file declares it.
#[derive(Debug)]
pub struct FunctionInstance {
    pub raw_name: String,
    pub file: String,
    pub line: u32,
    pub count: u64,
}

/// One logical source function: instances with the same display name,
/// declared file and starting line, with their counts summed.
#[derive(Debug)]
pub struct FunctionRecord {
    pub name: String,
    pub file: String,
    pub line: u32,
    pub count: u64,
}

/// The plain values of a record: name, file, line, count.
pub type RecordView = (Seq<char>, Seq<char>, u32, u64);

pub open spec fn record_view(r: FunctionRecord) -> RecordView {
    (r.name@, r.file@, r.line, r.count)
}

pub open spec fn same_key(a: RecordView, b: RecordView) -> bool {
    a.0 == b.0 && a.1 == b.1 && a.2 == b.2
}

/// Counts saturate at `u64::MAX`.
pub open spec fn sat_add(a: u64, b: u64) -> u64 {
    if a + b > u64::MAX {
        u64::MAX
    } else {
        (a + b) as u64
    }
}

/// No two records share a key.
pub open spec fn keys_distinct(s: Seq<RecordView>) -> bool {
    forall|i: int, j: int| 0 <= i < s.len() && 0 <= j < s.len() && i != j ==> !same_key(s[i], s[j])
}

/// `acc` with `x` added: summed into the record of the same key, or appended.
pub open spec fn absorb(acc: Seq<RecordView>, x: RecordView) -> Seq<RecordView> {
    if exists|j: int| 0 <= j < acc.len() && same_key(acc[j], x) {
        let j = choose|j: int| 0 <= j < acc.len() && same_key(acc[j], x);
        acc.update(j, (acc[j].0, acc[j].1, acc[j].2, sat_add(acc[j].3, x.3)))
    } else {
        acc.push(x)
    }
}

/// The records that `xs` merge into, in order of first appearance.
pub open spec fn merged(xs: Seq<RecordView>) -> Seq<RecordView>
    decreases xs.len(),
{
    if xs.len() == 0 {
        Seq::empty()
    } else {
        absorb(merged(xs.drop_last()), xs.last())
    }
}

/// Merges records that share name, file and line, summing their counts (up
/// to `u64::MAX`); records keep the order of their first appearance.
pub fn merge_records(xs: &Vec<FunctionRecord>) -> (r: Vec<FunctionRecord>)
    ensures
        r@.map_values(|x: FunctionRecord| record_view(x)) == merged(
            xs@.map_values(|x: FunctionRecord| record_view(x)),
        ),
        keys_distinct(r@.map_values(|x: FunctionRecord| record_view(x))),
{
    let ghost views = xs@.map_values(|x: FunctionRecord| record_view(x));
    let mut out: Vec<FunctionRecord> = Vec::new();
    let n = xs.len();
    let mut i: usize = 0;
    while i < n
        invariant
            i <= n,
            n == views.len(),
            views == xs@.map_values(|x: FunctionRecord| record_view(x)),
            out@.map_values(|x: FunctionRecord| record_view(x)) == merged(views.take(i as int)),
            keys_distinct(out@.map_values(|x: FunctionRecord| record_view(x))),
        decreases n - i,
    {
        let y = &xs[i];
        let x = FunctionRecord { name: y.name.clone(), file: y.file.clone(), line: y.line, count: y.count };
        let ghost acc = out@.map_values(|y: FunctionRecord| record_view(y));
        let ghost xv = record_view(x);
        proof {
            assert(xv == views[i as int]);
            assert(views.take(i + 1).drop_last() =~= views.take(i as int));
        }
        let mut j: usize = 0;
        let mut found = false;
        while j < out.len() && !found
            invariant
                j <= out@.len(),
                acc == out@.map_values(|y: FunctionRecord| record_view(y)),
                xv == record_view(x),
                found ==> j < out@.len() && same_key(acc[j as int], xv),
                !found ==> forall|k: int| 0 <= k < j ==> !same_key(#[trigger] acc[k], xv),
            decreases out@.len() - j, if found { 0int } else { 1int },
        {
            if out[j].name == x.name && out[j].file == x.file && out[j].line == x.line {
                found = true;
            } else {
                j = j + 1;
            }
        }
        proof {
            assert(views.take(i + 1).last() == views[i as int]);
        }
        if found {
            proof {
                assert(exists|k: int| 0 <= k < acc.len() && same_key(acc[k], xv));
                let jj = choose|k: int| 0 <= k < acc.len() && same_key(acc[k], xv);
                if jj != j {
                    assert(!same_key(acc[jj], acc[j as int]));
                }
            }
            let c = out[j].count.saturating_add(x.count);
            out[j].count = c;
            proof {
                let want = acc.update(j as int, (acc[j as int].0, acc[j as int].1, acc[j as int].2, c));
                assert(out@.map_values(|y: FunctionRecord| record_view(y)) =~= want);
                assert(want == absorb(acc, xv));
                assert forall|p: int, q: int|
                    0 <= p < want.len() && 0 <= q < want.len() && p != q implies !same_key(
                    #[trigger] want[p],
                    #[trigger] want[q],
                ) by {
                    assert(!same_key(acc[p], acc[q]));
                }
            }
        } else {
            out.push(x);
            proof {
                let want = acc.push(xv);
                assert(out@.map_values(|y: FunctionRecord| record_view(y)) =~= want);
                assert(!exists|k: int| 0 <= k < acc.len() && same_key(acc[k], xv));
                assert forall|p: int, q: int|
                    0 <= p < want.len() && 0 <= q < want.len() && p != q implies !same_key(
                    #[trigger] want[p],
                    #[trigger] want[q],
                ) by {
                    if p < acc.len() && q < acc.len() {
                        assert(!same_key(acc[p], acc[q]));
                    } else if p < acc.len() {
                        assert(!same_key(acc[p], xv));
                    } else {
                        assert(!same_key(acc[q], xv));
                    }
                }
            }
        }
        i = i + 1;
    }
    proof {
        assert(views.take(n as int) =~= views);
    }
    out
}

/// Gives each instance its display name, then merges the instances of one
/// source function.
pub fn resolve_functions(instances: Vec<FunctionInstance>) -> (r: Vec<FunctionRecord>)
    ensures
        r@.map_values(|x: FunctionRecord| record_view(x)) == merged(
            instances@.map_values(
                |f: FunctionInstance| (demangled(f.raw_name@), f.file@, f.line, f.count),
            ),
        ),
{
    let ghost want = instances@.map_values(
        |f: FunctionInstance| (demangled(f.raw_name@), f.file@, f.line, f.count),
    );
    let mut records: Vec<FunctionRecord> = Vec::new();
    let mut i: usize = 0;
    while i < instances.len()
        invariant
            i <= instances@.len(),
            want == instances@.map_values(
                |f: FunctionInstance| (demangled(f.raw_name@), f.file@, f.line, f.count),
            ),
            records@.map_values(|x: FunctionRecord| record_view(x)) == want.take(i as int),
        decreases instances@.len() - i,
    {
        let f = &instances[i];
        let name = demangle_name(f.raw_name.as_str());
        let file = f.file.clone();
        let ghost before = records@.map_values(|x: FunctionRecord| record_view(x));
        let rec = FunctionRecord { name, file, line: f.line, count: f.count };
        proof {
            assert(record_view(rec) == want[i as int]);
        }
        records.push(rec);
        proof {
            assert(records@.map_values(|x: FunctionRecord| record_view(x)) =~= before.push(want[i as int]));
            assert(records@.map_values(|x: FunctionRecord| record_view(x)) =~= want.take(i + 1));
        }
        i = i + 1;
    }
    proof {
        assert(want.take(i as int) =~= want);
    }
    merge_records(&records)
}

} // verus!
