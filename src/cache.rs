//! The report cache: a content fingerprint over every input artifact, the
//! template name and the inclusion filter, and the index of reports already
//! produced per fingerprint.
use vstd::prelude::*;
use vstd::arithmetic::power::pow;
use crate::classify::SourceFilter;

verus! {

/// The MD5 digest of `data`.
pub uninterp spec fn md5_of(data: Seq<u8>) -> Seq<u8>;

/// Relies on `md5::compute`: the 16-byte MD5 digest of the bytes given.
#[verifier::external_body]
fn md5_digest(data: &[u8]) -> (r: Vec<u8>)
    ensures
        r@ == md5_of(data@),
        r@.len() == 16,
{
    md5::compute(data).0.to_vec()
}

/// Byte `i` of the little-endian encoding of `n`.
pub open spec fn byte_at(n: nat, i: nat) -> u8 {
    ((n as int / pow(256, i)) % 256) as u8
}

/// `bytes` preceded by its length as eight little-endian bytes, so that
/// concatenated frames can be told apart.
pub open spec fn frame(bytes: Seq<u8>) -> Seq<u8> {
    Seq::new(8, |i: int| byte_at(bytes.len(), i as nat)) + bytes
}

/// The frames of all `arts`, in order.
pub open spec fn frames(arts: Seq<Seq<u8>>) -> Seq<u8>
    decreases arts.len(),
{
    if arts.len() == 0 {
        Seq::empty()
    } else {
        frames(arts.drop_last()) + frame(arts.last())
    }
}

/// One byte that names the filter: a bit per admitted provenance.
pub open spec fn filter_byte(f: SourceFilter) -> u8 {
    ((if f.local { 1int } else { 0 }) + (if f.macros { 2int } else { 0 }) + (if f.rustsrc { 4int } else { 0 })
        + (if f.crates { 8int } else { 0 }) + (if f.unknown { 16int } else { 0 })) as u8
}

/// Everything the fingerprint is taken over.
pub open spec fn fingerprint_input(arts: Seq<Seq<u8>>, template: Seq<u8>, f: SourceFilter) -> Seq<u8> {
    frames(arts) + frame(template) + seq![filter_byte(f)]
}

/// Appends the frame of `bytes` to `out`.
fn push_frame(out: &mut Vec<u8>, bytes: &[u8])
    ensures
        final(out)@ == old(out)@ + frame(bytes@),
{
    let n = bytes.len();
    let mut v: u64 = n as u64;
    let mut i: usize = 0;
    let ghost o0 = out@;
    proof {
        vstd::arithmetic::power::lemma_pow0(256);
        assert(out@ =~= o0 + Seq::new(0, |k: int| byte_at(n as nat, k as nat)));
    }
    while i < 8
        invariant
            i <= 8,
            n == bytes@.len(),
            v == n as int / pow(256, i as nat),
            out@ == o0 + Seq::new(i as nat, |k: int| byte_at(n as nat, k as nat)),
        decreases 8 - i,
    {
        proof {
            vstd::arithmetic::power::lemma_pow_positive(256, i as nat);
            vstd::arithmetic::div_mod::lemma_div_denominator(n as int, pow(256, i as nat), 256);
            vstd::arithmetic::power::lemma_pow_adds(256, i as nat, 1);
            vstd::arithmetic::power::lemma_pow1(256);
            assert(pow(256, (i + 1) as nat) == pow(256, i as nat) * 256);
        }
        out.push((v % 256) as u8);
        v = v / 256;
        proof {
            assert(out@ =~= o0 + Seq::new((i + 1) as nat, |k: int| byte_at(n as nat, k as nat)));
        }
        i = i + 1;
    }
    let mut j: usize = 0;
    let ghost o1 = out@;
    while j < n
        invariant
            j <= n,
            n == bytes@.len(),
            out@ == o1 + bytes@.take(j as int),
        decreases n - j,
    {
        out.push(bytes[j]);
        proof {
            assert(bytes@.take(j + 1) =~= bytes@.take(j as int).push(bytes@[j as int]));
            assert(out@ =~= o1 + bytes@.take(j + 1));
        }
        j = j + 1;
    }
    proof {
        assert(bytes@.take(n as int) =~= bytes@);
        assert(out@ =~= old(out)@ + frame(bytes@));
    }
}

/// The bit of each admitted provenance.
pub fn filter_bits(f: SourceFilter) -> (r: u8)
    ensures
        r == filter_byte(f),
{
    let mut b: u8 = 0;
    if f.local {
        b = b + 1;
    }
    if f.macros {
        b = b + 2;
    }
    if f.rustsrc {
        b = b + 4;
    }
    if f.crates {
        b = b + 8;
    }
    if f.unknown {
        b = b + 16;
    }
    b
}

/// The bytes the fingerprint is taken over: each artifact framed by its
/// length, then the template name framed likewise, then the filter.
pub fn fingerprint_bytes(artifacts: &Vec<Vec<u8>>, template: &[u8], filter: SourceFilter) -> (r: Vec<u8>)
    ensures
        r@ == fingerprint_input(artifacts@.map_values(|a: Vec<u8>| a@), template@, filter),
{
    let ghost arts = artifacts@.map_values(|a: Vec<u8>| a@);
    let mut out: Vec<u8> = Vec::new();
    let mut k: usize = 0;
    while k < artifacts.len()
        invariant
            k <= artifacts@.len(),
            arts == artifacts@.map_values(|a: Vec<u8>| a@),
            out@ == frames(arts.take(k as int)),
        decreases artifacts@.len() - k,
    {
        push_frame(&mut out, artifacts[k].as_slice());
        proof {
            assert(arts.take(k + 1).drop_last() =~= arts.take(k as int));
        }
        k = k + 1;
    }
    proof {
        assert(arts.take(k as int) =~= arts);
    }
    push_frame(&mut out, template);
    out.push(filter_bits(filter));
    out
}

/// The fingerprint of a report's inputs and configuration.
pub fn fingerprint(artifacts: &Vec<Vec<u8>>, template: &[u8], filter: SourceFilter) -> (r: Vec<u8>)
    ensures
        r@ == md5_of(fingerprint_input(artifacts@.map_values(|a: Vec<u8>| a@), template@, filter)),
{
    let bytes = fingerprint_bytes(artifacts, template, filter);
    md5_digest(bytes.as_slice())
}

/// One produced report: the fingerprint of its inputs and its entry page.
#[derive(Debug)]
pub struct CacheEntry {
    pub fingerprint: Vec<u8>,
    pub entry: String,
}

/// The entry page recorded last for `fp` among `s`, if any.
pub open spec fn cached(s: Seq<(Seq<u8>, Seq<char>)>, fp: Seq<u8>) -> Option<Seq<char>>
    decreases s.len(),
{
    if s.len() == 0 {
        None
    } else if s.last().0 == fp {
        Some(s.last().1)
    } else {
        cached(s.drop_last(), fp)
    }
}

/// The reports produced so far, by fingerprint.
#[derive(Debug)]
pub struct ReportCache {
    pub entries: Vec<CacheEntry>,
}

impl ReportCache {
    pub open spec fn view_entries(&self) -> Seq<(Seq<u8>, Seq<char>)> {
        self.entries@.map_values(|e: CacheEntry| (e.fingerprint@, e.entry@))
    }

    /// A cache that holds no report.
    pub fn new() -> (r: ReportCache)
        ensures
            forall|fp: Seq<u8>| cached(r.view_entries(), fp) == None::<Seq<char>>,
    {
        let r = ReportCache { entries: Vec::new() };
        proof {
            assert(r.view_entries() =~= Seq::empty());
        }
        r
    }

    /// The entry page of the report produced for `fp`, if one was.
    pub fn lookup(&self, fp: &Vec<u8>) -> (r: Option<String>)
        ensures
            match cached(self.view_entries(), fp@) {
                Some(e) => r matches Some(s) && s@ == e,
                None => r == None::<String>,
            },
    {
        let ghost v = self.view_entries();
        let mut k: usize = self.entries.len();
        proof {
            assert(v.take(k as int) =~= v);
        }
        while k > 0
            invariant
                k <= self.entries@.len(),
                v == self.view_entries(),
                cached(v, fp@) == cached(v.take(k as int), fp@),
            decreases k,
        {
            proof {
                assert(v.take(k as int).drop_last() =~= v.take(k - 1));
            }
            if bytes_equal(self.entries[k - 1].fingerprint.as_slice(), fp.as_slice()) {
                return Some(self.entries[k - 1].entry.clone());
            }
            k = k - 1;
        }
        None
    }

    /// Records that the report for `fp` has its entry page at `entry`.
    pub fn record(&mut self, fp: Vec<u8>, entry: String)
        ensures
            final(self).view_entries() == old(self).view_entries().push((fp@, entry@)),
    {
        let ghost f = fp@;
        let ghost e = entry@;
        self.entries.push(CacheEntry { fingerprint: fp, entry });
        proof {
            assert(final(self).view_entries() =~= old(self).view_entries().push((f, e)));
        }
    }
}

/// Bytewise equality.
fn bytes_equal(a: &[u8], b: &[u8]) -> (r: bool)
    ensures
        r == (a@ == b@),
{
    if a.len() != b.len() {
        return false;
    }
    let mut i: usize = 0;
    while i < a.len()
        invariant
            i <= a@.len(),
            a@.len() == b@.len(),
            forall|j: int| 0 <= j < i ==> a@[j] == b@[j],
        decreases a@.len() - i,
    {
        if a[i] != b[i] {
            return false;
        }
        i = i + 1;
    }
    proof {
        assert(a@ =~= b@);
    }
    true
}

/// Once a report is recorded for a fingerprint, looking that fingerprint up
/// again hits and gives its entry page; other fingerprints are unaffected.
pub proof fn lemma_recorded_hits(s: Seq<(Seq<u8>, Seq<char>)>, fp: Seq<u8>, entry: Seq<char>, other: Seq<u8>)
    ensures
        cached(s.push((fp, entry)), fp) == Some(entry),
        other != fp ==> cached(s.push((fp, entry)), other) == cached(s, other),
{
    assert(s.push((fp, entry)).drop_last() =~= s);
}

/// Equal inputs and configuration give equal fingerprints, so an unchanged
/// rerun finds the report it recorded.
pub proof fn lemma_same_inputs_same_fingerprint(
    a: Seq<Seq<u8>>,
    t: Seq<u8>,
    f: SourceFilter,
    b: Seq<Seq<u8>>,
    u: Seq<u8>,
    g: SourceFilter,
)
    requires
        a == b,
        t == u,
        f == g,
    ensures
        md5_of(fingerprint_input(a, t, f)) == md5_of(fingerprint_input(b, u, g)),
{
}

} // verus!
