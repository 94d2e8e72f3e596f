//! Provenance of source paths, and the inclusion filter over provenances.
use vstd::prelude::*;

verus! {

/// Where a source file comes from.
#[derive(Debug, Clone, Copy, PartialEq, Eq, Structural)]
pub enum SourceType {
    /// Under the project's own source root.
    Local,
    /// A pseudo-file synthesized by macro expansion, written `<...>`.
    Macros,
    /// Under the toolchain's distributed source root.
    RustSrc,
    /// Under the cache root of fetched dependencies.
    Crates,
    /// None of the above.
    Unknown,
}

/// The roots against which paths are classified. An empty root matches nothing.
#[derive(Debug)]
pub struct SourceRoots {
    pub local: Vec<u8>,
    pub rustsrc: Vec<u8>,
    pub crates: Vec<u8>,
}

/// Whether `root` is non-empty and `path` starts with it.
pub open spec fn under(path: Seq<u8>, root: Seq<u8>) -> bool {
    root.len() > 0 && root.len() <= path.len() && path.take(root.len() as int) == root
}

/// Whether `path` names a macro-expansion pseudo-file, `<...>`.
pub open spec fn is_macro_path(path: Seq<u8>) -> bool {
    path.len() >= 2 && path[0] == 0x3c && path.last() == 0x3e
}

/// The provenance of `path`: a macro pseudo-file first, then the toolchain
/// root, the dependency root and the project root, in that order.
pub open spec fn classify_spec(path: Seq<u8>, local: Seq<u8>, rustsrc: Seq<u8>, crates: Seq<u8>) -> SourceType {
    if is_macro_path(path) {
        SourceType::Macros
    } else if under(path, rustsrc) {
        SourceType::RustSrc
    } else if under(path, crates) {
        SourceType::Crates
    } else if under(path, local) {
        SourceType::Local
    } else {
        SourceType::Unknown
    }
}

/// Whether `path` starts with the non-empty `root`.
pub fn starts_with_root(path: &[u8], root: &[u8]) -> (r: bool)
    ensures
        r == under(path@, root@),
{
    let n = root.len();
    if n == 0 || n > path.len() {
        return false;
    }
    let mut i: usize = 0;
    while i < n
        invariant
            i <= n,
            n == root@.len(),
            n <= path@.len(),
            forall|j: int| 0 <= j < i ==> path@[j] == root@[j],
        decreases n - i,
    {
        if path[i] != root[i] {
            proof {
                assert(path@.take(n as int)[i as int] != root@[i as int]);
            }
            return false;
        }
        i = i + 1;
    }
    proof {
        assert(path@.take(n as int) =~= root@);
    }
    true
}

/// Classifies a source path as recorded in a graph file.
pub fn classify(path: &[u8], roots: &SourceRoots) -> (r: SourceType)
    ensures
        r == classify_spec(path@, roots.local@, roots.rustsrc@, roots.crates@),
{
    let n = path.len();
    if n >= 2 && path[0] == 0x3c && path[n - 1] == 0x3e {
        SourceType::Macros
    } else if starts_with_root(path, roots.rustsrc.as_slice()) {
        SourceType::RustSrc
    } else if starts_with_root(path, roots.crates.as_slice()) {
        SourceType::Crates
    } else if starts_with_root(path, roots.local.as_slice()) {
        SourceType::Local
    } else {
        SourceType::Unknown
    }
}

/// The set of provenances admitted into the report.
#[derive(Debug, Clone, Copy, PartialEq, Eq, Structural)]
pub struct SourceFilter {
    pub local: bool,
    pub macros: bool,
    pub rustsrc: bool,
    pub crates: bool,
    pub unknown: bool,
}

/// Whether `f` admits files of provenance `t`.
pub open spec fn admits_spec(f: SourceFilter, t: SourceType) -> bool {
    match t {
        SourceType::Local => f.local,
        SourceType::Macros => f.macros,
        SourceType::RustSrc => f.rustsrc,
        SourceType::Crates => f.crates,
        SourceType::Unknown => f.unknown,
    }
}

/// What one word of the inclusion option adds to a filter: a provenance, or
/// every provenance for `all`.
pub open spec fn word_spec(w: Seq<u8>) -> Option<SourceFilter> {
    if w == seq![0x6cu8, 0x6f, 0x63, 0x61, 0x6c] {
        Some(SourceFilter::none().with_spec(SourceType::Local))
    } else if w == seq![0x6du8, 0x61, 0x63, 0x72, 0x6f, 0x73] {
        Some(SourceFilter::none().with_spec(SourceType::Macros))
    } else if w == seq![0x72u8, 0x75, 0x73, 0x74, 0x73, 0x72, 0x63] {
        Some(SourceFilter::none().with_spec(SourceType::RustSrc))
    } else if w == seq![0x63u8, 0x72, 0x61, 0x74, 0x65, 0x73] {
        Some(SourceFilter::none().with_spec(SourceType::Crates))
    } else if w == seq![0x75u8, 0x6e, 0x6b, 0x6e, 0x6f, 0x77, 0x6e] {
        Some(SourceFilter::none().with_spec(SourceType::Unknown))
    } else if w == seq![0x61u8, 0x6c, 0x6c] {
        Some(SourceFilter::all())
    } else {
        None
    }
}

/// Bytewise equality of an input word with a fixed word.
fn word_is(w: &[u8], expect: &[u8]) -> (r: bool)
    ensures
        r == (w@ == expect@),
{
    if w.len() != expect.len() {
        return false;
    }
    let mut i: usize = 0;
    while i < w.len()
        invariant
            i <= w@.len(),
            w@.len() == expect@.len(),
            forall|j: int| 0 <= j < i ==> w@[j] == expect@[j],
        decreases w@.len() - i,
    {
        if w[i] != expect[i] {
            return false;
        }
        i = i + 1;
    }
    proof {
        assert(w@ =~= expect@);
    }
    true
}

impl SourceFilter {
    /// Admits nothing.
    pub open spec fn none() -> SourceFilter {
        SourceFilter { local: false, macros: false, rustsrc: false, crates: false, unknown: false }
    }

    /// Admits everything.
    pub open spec fn all() -> SourceFilter {
        SourceFilter { local: true, macros: true, rustsrc: true, crates: true, unknown: true }
    }

    /// `self` with `t` admitted too.
    pub open spec fn with_spec(self, t: SourceType) -> SourceFilter {
        match t {
            SourceType::Local => SourceFilter { local: true, ..self },
            SourceType::Macros => SourceFilter { macros: true, ..self },
            SourceType::RustSrc => SourceFilter { rustsrc: true, ..self },
            SourceType::Crates => SourceFilter { crates: true, ..self },
            SourceType::Unknown => SourceFilter { unknown: true, ..self },
        }
    }

    /// The union of two filters.
    pub open spec fn union_spec(self, o: SourceFilter) -> SourceFilter {
        SourceFilter {
            local: self.local || o.local,
            macros: self.macros || o.macros,
            rustsrc: self.rustsrc || o.rustsrc,
            crates: self.crates || o.crates,
            unknown: self.unknown || o.unknown,
        }
    }

    /// The filter that admits nothing.
    pub fn empty() -> (r: SourceFilter)
        ensures
            r == SourceFilter::none(),
    {
        SourceFilter { local: false, macros: false, rustsrc: false, crates: false, unknown: false }
    }

    /// The filter that admits every provenance.
    pub fn everything() -> (r: SourceFilter)
        ensures
            r == SourceFilter::all(),
    {
        SourceFilter { local: true, macros: true, rustsrc: true, crates: true, unknown: true }
    }

    /// The filter used when none is given: the project's own files.
    pub fn default_filter() -> (r: SourceFilter)
        ensures
            r == SourceFilter::none().with_spec(SourceType::Local),
    {
        SourceFilter::empty().with(SourceType::Local)
    }

    /// `self` with `t` admitted too.
    pub fn with(self, t: SourceType) -> (r: SourceFilter)
        ensures
            r == self.with_spec(t),
    {
        match t {
            SourceType::Local => SourceFilter { local: true, ..self },
            SourceType::Macros => SourceFilter { macros: true, ..self },
            SourceType::RustSrc => SourceFilter { rustsrc: true, ..self },
            SourceType::Crates => SourceFilter { crates: true, ..self },
            SourceType::Unknown => SourceFilter { unknown: true, ..self },
        }
    }

    /// Admits what either filter admits.
    pub fn union(self, o: SourceFilter) -> (r: SourceFilter)
        ensures
            r == self.union_spec(o),
    {
        SourceFilter {
            local: self.local || o.local,
            macros: self.macros || o.macros,
            rustsrc: self.rustsrc || o.rustsrc,
            crates: self.crates || o.crates,
            unknown: self.unknown || o.unknown,
        }
    }

    /// Whether files of provenance `t` are admitted.
    pub fn admits(&self, t: SourceType) -> (r: bool)
        ensures
            r == admits_spec(*self, t),
    {
        match t {
            SourceType::Local => self.local,
            SourceType::Macros => self.macros,
            SourceType::RustSrc => self.rustsrc,
            SourceType::Crates => self.crates,
            SourceType::Unknown => self.unknown,
        }
    }

    /// Parses one word of the inclusion option (`local`, `macros`,
    /// `rustsrc`, `crates`, `unknown` or `all`) into the filter it stands for.
    pub fn from_word(w: &[u8]) -> (r: Option<SourceFilter>)
        ensures
            r == word_spec(w@),
    {
        let local: [u8; 5] = [0x6c, 0x6f, 0x63, 0x61, 0x6c];
        let macros: [u8; 6] = [0x6d, 0x61, 0x63, 0x72, 0x6f, 0x73];
        let rustsrc: [u8; 7] = [0x72, 0x75, 0x73, 0x74, 0x73, 0x72, 0x63];
        let crates: [u8; 6] = [0x63, 0x72, 0x61, 0x74, 0x65, 0x73];
        let unknown: [u8; 7] = [0x75, 0x6e, 0x6b, 0x6e, 0x6f, 0x77, 0x6e];
        let all: [u8; 3] = [0x61, 0x6c, 0x6c];
        proof {
            assert(local@ =~= seq![0x6cu8, 0x6f, 0x63, 0x61, 0x6c]);
            assert(macros@ =~= seq![0x6du8, 0x61, 0x63, 0x72, 0x6f, 0x73]);
            assert(rustsrc@ =~= seq![0x72u8, 0x75, 0x73, 0x74, 0x73, 0x72, 0x63]);
            assert(crates@ =~= seq![0x63u8, 0x72, 0x61, 0x74, 0x65, 0x73]);
            assert(unknown@ =~= seq![0x75u8, 0x6e, 0x6b, 0x6e, 0x6f, 0x77, 0x6e]);
            assert(all@ =~= seq![0x61u8, 0x6c, 0x6c]);
        }
        if word_is(w, &local) {
            Some(SourceFilter::empty().with(SourceType::Local))
        } else if word_is(w, &macros) {
            Some(SourceFilter::empty().with(SourceType::Macros))
        } else if word_is(w, &rustsrc) {
            Some(SourceFilter::empty().with(SourceType::RustSrc))
        } else if word_is(w, &crates) {
            Some(SourceFilter::empty().with(SourceType::Crates))
        } else if word_is(w, &unknown) {
            Some(SourceFilter::empty().with(SourceType::Unknown))
        } else if word_is(w, &all) {
            Some(SourceFilter::everything())
        } else {
            None
        }
    }
}

/// Every path has exactly one provenance, and the filter `all` admits every
/// provenance.
pub proof fn lemma_classification_total(path: Seq<u8>, local: Seq<u8>, rustsrc: Seq<u8>, crates: Seq<u8>)
    ensures
        ({
            let c = classify_spec(path, local, rustsrc, crates);
            (if c == SourceType::Local { 1int } else { 0 }) + (if c == SourceType::Macros { 1int } else { 0 })
                + (if c == SourceType::RustSrc { 1int } else { 0 }) + (if c == SourceType::Crates { 1int } else { 0 })
                + (if c == SourceType::Unknown { 1int } else { 0 }) == 1
        }),
        forall|t: SourceType| admits_spec(SourceFilter::all(), t),
{
}

} // verus!
