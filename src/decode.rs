//! Decoding of graph files (per compilation unit: the declared blocks and
//! their source lines) and count files (per execution: one counter per block,
//! positionally).
//!
//! All integers are little endian. A graph file starts with a 12-byte header
//! (magic, version, stamp) followed by records, each a tag, a payload length
//! in bytes, and the payload. A source record names a source path; a block
//! record carries the line of a block in the latest named source; records
//! with any other tag are skipped by their length. A count file starts with a
//! 16-byte header (magic, version, counter width in bytes, stamp) followed by
//! one counter per declared block, in declaration order.
use vstd::prelude::*;

verus! {

/// Magic number of a graph file (`"gcno"` read little endian).
pub const GRAPH_MAGIC: u32 = 0x6f6e6367;

/// Magic number of a count file (`"gcda"` read little endian).
pub const COUNT_MAGIC: u32 = 0x61646367;

/// The one supported format version.
pub const FORMAT_VERSION: u32 = 0x3430_3741;

/// Tag of a source record: its payload is a source path. The blocks that
/// follow it, up to the next source record, lie in that source.
pub const TAG_SOURCE: u32 = 0x0100_0000;

/// Tag of a block record: its payload is the block's line (4 bytes).
pub const TAG_BLOCK: u32 = 0x0141_0000;

/// Length of a graph file header.
pub const GRAPH_HEADER_LEN: usize = 12;

/// Length of a count file header.
pub const COUNT_HEADER_LEN: usize = 16;

/// Why an artifact could not be decoded.
#[derive(Debug, Clone, Copy, PartialEq, Eq, Structural)]
pub enum DecodeError {
    /// Bad magic number, unsupported version or counter width, or a malformed record.
    FormatError,
    /// The count file's stamp differs from its graph file's stamp.
    ChecksumMismatch,
    /// The artifact is shorter than its own declared lengths imply.
    Truncated,
}

/// One compilation unit's structure: its stamp, the source paths it names,
/// and for each declared block, in declaration order, the index of its source
/// path and its line.
#[derive(Debug)]
pub struct GraphFile {
    pub stamp: u32,
    pub sources: Vec<Vec<u8>>,
    pub block_files: Vec<u32>,
    pub block_lines: Vec<u32>,
}

/// The little-endian value of the four bytes at `i`.
pub open spec fn le32(b: Seq<u8>, i: int) -> int {
    b[i] as int + b[i + 1] as int * 0x100 + b[i + 2] as int * 0x1_0000 + b[i + 3] as int * 0x100_0000
}

/// The little-endian value of the eight bytes at `i`.
pub open spec fn le64(b: Seq<u8>, i: int) -> int {
    le32(b, i) + le32(b, i + 4) * 0x1_0000_0000
}

/// What the records from `pos` on declare: the source paths, and for each
/// block the index of the source it belongs to (the latest source record
/// before it) and its line. `nsrc` sources were declared before `pos`.
pub open spec fn graph_records(b: Seq<u8>, pos: int, nsrc: nat) -> Result<
    (Seq<Seq<u8>>, Seq<u32>, Seq<u32>),
    DecodeError,
>
    decreases b.len() - pos,
{
    if pos < 0 || pos >= b.len() {
        Ok((Seq::empty(), Seq::empty(), Seq::empty()))
    } else if b.len() - pos < 8 {
        Err(DecodeError::Truncated)
    } else {
        let tag = le32(b, pos);
        let len = le32(b, pos + 4);
        if b.len() - pos - 8 < len {
            Err(DecodeError::Truncated)
        } else if tag == TAG_BLOCK && (len != 4 || nsrc == 0) {
            Err(DecodeError::FormatError)
        } else if tag == TAG_SOURCE && nsrc > u32::MAX {
            Err(DecodeError::FormatError)
        } else {
            let next = if tag == TAG_SOURCE {
                nsrc + 1
            } else {
                nsrc
            };
            match graph_records(b, pos + 8 + len, next) {
                Ok((s, f, l)) => Ok(
                    if tag == TAG_BLOCK {
                        (s, seq![(nsrc - 1) as u32] + f, seq![le32(b, pos + 8) as u32] + l)
                    } else if tag == TAG_SOURCE {
                        (seq![b.subrange(pos + 8, pos + 8 + len)] + s, f, l)
                    } else {
                        (s, f, l)
                    },
                ),
                Err(e) => Err(e),
            }
        }
    }
}

/// What a graph file decodes to: its stamp, its source paths, and the source
/// index and line of each block.
pub open spec fn graph_spec(b: Seq<u8>) -> Result<(u32, Seq<Seq<u8>>, Seq<u32>, Seq<u32>), DecodeError> {
    if b.len() < GRAPH_HEADER_LEN {
        Err(DecodeError::Truncated)
    } else if le32(b, 0) != GRAPH_MAGIC || le32(b, 4) != FORMAT_VERSION {
        Err(DecodeError::FormatError)
    } else {
        match graph_records(b, GRAPH_HEADER_LEN as int, 0) {
            Ok((s, f, l)) => Ok((le32(b, 8) as u32, s, f, l)),
            Err(e) => Err(e),
        }
    }
}

/// The `k`-th counter of a count file whose counters are `width` bytes wide.
pub open spec fn counter_at(b: Seq<u8>, width: int, k: int) -> int {
    if width == 4 {
        le32(b, COUNT_HEADER_LEN + 4 * k)
    } else {
        le64(b, COUNT_HEADER_LEN + 8 * k)
    }
}

/// What a count file decodes to against a graph of stamp `stamp` with `n` blocks.
pub open spec fn counts_spec(stamp: u32, n: nat, b: Seq<u8>) -> Result<Seq<u64>, DecodeError> {
    if b.len() < COUNT_HEADER_LEN {
        Err(DecodeError::Truncated)
    } else if le32(b, 0) != COUNT_MAGIC || le32(b, 4) != FORMAT_VERSION || (le32(b, 8) != 4
        && le32(b, 8) != 8) {
        Err(DecodeError::FormatError)
    } else if le32(b, 12) != stamp {
        Err(DecodeError::ChecksumMismatch)
    } else if b.len() < COUNT_HEADER_LEN + n * le32(b, 8) {
        Err(DecodeError::Truncated)
    } else {
        Ok(Seq::new(n, |k: int| counter_at(b, le32(b, 8), k) as u64))
    }
}

/// Reads the little-endian `u32` at `i`.
pub fn read_u32(b: &[u8], i: usize) -> (r: u32)
    requires
        i + 4 <= b@.len(),
    ensures
        r == le32(b@, i as int),
{
    let b0 = b[i] as u32;
    let b1 = b[i + 1] as u32;
    let b2 = b[i + 2] as u32;
    let b3 = b[i + 3] as u32;
    assert(b0 + b1 * 0x100 + b2 * 0x1_0000 + b3 * 0x100_0000 <= 0xffff_ffff) by (nonlinear_arith)
        requires
            b0 <= 255,
            b1 <= 255,
            b2 <= 255,
            b3 <= 255,
    ;
    b0 + b1 * 0x100 + b2 * 0x1_0000 + b3 * 0x100_0000
}

/// Reads the little-endian `u64` at `i`.
pub fn read_u64(b: &[u8], i: usize) -> (r: u64)
    requires
        i + 8 <= b@.len(),
    ensures
        r == le64(b@, i as int),
{
    let n = b.len();
    let lo = read_u32(b, i) as u64;
    let hi = read_u32(b, i + 4) as u64;
    assert(lo + hi * 0x1_0000_0000 <= 0xffff_ffff_ffff_ffff) by (nonlinear_arith)
        requires
            lo <= 0xffff_ffff,
            hi <= 0xffff_ffff,
    ;
    lo + hi * 0x1_0000_0000
}

/// The bytes of `b` from `start` up to `end`.
fn copy_range(b: &[u8], start: usize, end: usize) -> (r: Vec<u8>)
    requires
        start <= end <= b@.len(),
    ensures
        r@ == b@.subrange(start as int, end as int),
{
    let mut out: Vec<u8> = Vec::new();
    let mut i: usize = start;
    while i < end
        invariant
            start <= i <= end,
            end <= b@.len(),
            out@ == b@.subrange(start as int, i as int),
        decreases end - i,
    {
        out.push(b[i]);
        proof {
            assert(out@ =~= b@.subrange(start as int, i + 1));
        }
        i = i + 1;
    }
    out
}

/// Decodes a graph file: its stamp, the source paths it names, and for each
/// block, in declaration order, the index of its source and its line.
/// Records of unknown tags are skipped.
pub fn decode_graph(b: &[u8]) -> (r: Result<GraphFile, DecodeError>)
    ensures
        match graph_spec(b@) {
            Ok((stamp, srcs, files, lines)) => r matches Ok(g) && g.stamp == stamp
                && g.sources@.map_values(|v: Vec<u8>| v@) == srcs && g.block_files@ == files
                && g.block_lines@ == lines,
            Err(e) => r == Err::<GraphFile, DecodeError>(e),
        },
        r matches Ok(g) ==> g.block_files@.len() == g.block_lines@.len(),
{
    if b.len() < GRAPH_HEADER_LEN {
        return Err(DecodeError::Truncated);
    }
    if read_u32(b, 0) != GRAPH_MAGIC || read_u32(b, 4) != FORMAT_VERSION {
        return Err(DecodeError::FormatError);
    }
    let stamp = read_u32(b, 8);
    let mut sources: Vec<Vec<u8>> = Vec::new();
    let mut files: Vec<u32> = Vec::new();
    let mut lines: Vec<u32> = Vec::new();
    let mut pos: usize = GRAPH_HEADER_LEN;
    while pos < b.len()
        invariant
            GRAPH_HEADER_LEN <= pos <= b@.len(),
            le32(b@, 0) == GRAPH_MAGIC,
            le32(b@, 4) == FORMAT_VERSION,
            stamp == le32(b@, 8),
            files@.len() == lines@.len(),
            graph_records(b@, GRAPH_HEADER_LEN as int, 0) == match graph_records(
                b@,
                pos as int,
                sources@.len(),
            ) {
                Ok((s, f, l)) => Ok((sources@.map_values(|v: Vec<u8>| v@) + s, files@ + f, lines@ + l)),
                Err(e) => Err(e),
            },
        decreases b@.len() - pos,
    {
        if b.len() - pos < 8 {
            proof {
                assert(graph_records(b@, pos as int, sources@.len()) == Err::<
                    (Seq<Seq<u8>>, Seq<u32>, Seq<u32>),
                    DecodeError,
                >(DecodeError::Truncated));
            }
            return Err(DecodeError::Truncated);
        }
        let tag = read_u32(b, pos);
        let len = read_u32(b, pos + 4) as usize;
        if b.len() - pos - 8 < len {
            proof {
                assert(graph_records(b@, pos as int, sources@.len()) == Err::<
                    (Seq<Seq<u8>>, Seq<u32>, Seq<u32>),
                    DecodeError,
                >(DecodeError::Truncated));
            }
            return Err(DecodeError::Truncated);
        }
        if tag == TAG_BLOCK && (len != 4 || sources.len() == 0) {
            return Err(DecodeError::FormatError);
        }
        if tag == TAG_SOURCE && sources.len() > u32::MAX as usize {
            return Err(DecodeError::FormatError);
        }
        let next = pos + 8 + len;
        let ghost sv = sources@.map_values(|v: Vec<u8>| v@);
        let ghost fv = files@;
        let ghost lv = lines@;
        if tag == TAG_BLOCK {
            let line = read_u32(b, pos + 8);
            let file = (sources.len() - 1) as u32;
            lines.push(line);
            files.push(file);
            proof {
                assert(sources@.map_values(|v: Vec<u8>| v@) == sv);
                match graph_records(b@, next as int, sources@.len()) {
                    Ok((s, f, l)) => {
                        assert(fv + (seq![file] + f) =~= files@ + f);
                        assert(lv + (seq![line] + l) =~= lines@ + l);
                    },
                    Err(_) => {},
                }
            }
        } else if tag == TAG_SOURCE {
            let path = copy_range(b, pos + 8, next);
            let ghost pv = path@;
            sources.push(path);
            proof {
                assert(sources@.map_values(|v: Vec<u8>| v@) =~= sv.push(pv));
                match graph_records(b@, next as int, sources@.len()) {
                    Ok((s, f, l)) => {
                        assert(sv + (seq![pv] + s) =~= sv.push(pv) + s);
                    },
                    Err(_) => {},
                }
            }
        } else {
            proof {
                assert(sources@.map_values(|v: Vec<u8>| v@) == sv);
            }
        }
        pos = next;
    }
    proof {
        assert(sources@.map_values(|v: Vec<u8>| v@) + Seq::<Seq<u8>>::empty() =~= sources@.map_values(
            |v: Vec<u8>| v@,
        ));
        assert(files@ + Seq::<u32>::empty() =~= files@);
        assert(lines@ + Seq::<u32>::empty() =~= lines@);
    }
    Ok(GraphFile { stamp, sources, block_files: files, block_lines: lines })
}

/// Decodes a count file against the graph it was recorded for: one counter
/// per declared block, in declaration order. A stamp that differs from the
/// graph's is refused.
pub fn decode_counts(graph: &GraphFile, b: &[u8]) -> (r: Result<Vec<u64>, DecodeError>)
    ensures
        match counts_spec(graph.stamp, graph.block_lines@.len(), b@) {
            Ok(counts) => r matches Ok(c) && c@ == counts,
            Err(e) => r == Err::<Vec<u64>, DecodeError>(e),
        },
{
    let n_bytes = b.len();
    if n_bytes < COUNT_HEADER_LEN {
        return Err(DecodeError::Truncated);
    }
    let width = read_u32(b, 8);
    if read_u32(b, 0) != COUNT_MAGIC || read_u32(b, 4) != FORMAT_VERSION || (width != 4 && width
        != 8) {
        return Err(DecodeError::FormatError);
    }
    if read_u32(b, 12) != graph.stamp {
        return Err(DecodeError::ChecksumMismatch);
    }
    let n = graph.block_lines.len();
    let w = width as usize;
    if (n_bytes - COUNT_HEADER_LEN) / w < n {
        proof {
            assert((n_bytes - COUNT_HEADER_LEN) < n * w) by (nonlinear_arith)
                requires
                    (n_bytes - COUNT_HEADER_LEN) / (w as int) < n,
                    w > 0,
            ;
        }
        return Err(DecodeError::Truncated);
    }
    proof {
        assert(n * w <= n_bytes - COUNT_HEADER_LEN) by (nonlinear_arith)
            requires
                (n_bytes - COUNT_HEADER_LEN) / (w as int) >= n,
                w > 0,
        ;
    }
    let mut counts: Vec<u64> = Vec::new();
    let mut k: usize = 0;
    while k < n
        invariant
            k <= n,
            n == graph.block_lines@.len(),
            w == width,
            width == le32(b@, 8),
            w == 4 || w == 8,
            n_bytes == b@.len(),
            COUNT_HEADER_LEN + n * w <= n_bytes,
            counts@.len() == k,
            forall|j: int| 0 <= j < k ==> counts@[j] == counter_at(b@, w as int, j) as u64,
        decreases n - k,
    {
        proof {
            assert(k * w + w <= n * w) by (nonlinear_arith)
                requires
                    k < n,
                    w > 0,
            ;
        }
        let c = if w == 4 {
            read_u32(b, COUNT_HEADER_LEN + 4 * k) as u64
        } else {
            read_u64(b, COUNT_HEADER_LEN + 8 * k)
        };
        counts.push(c);
        k = k + 1;
    }
    proof {
        let want = Seq::new(n as nat, |j: int| counter_at(b@, w as int, j) as u64);
        assert(counts@ =~= want);
    }
    Ok(counts)
}

/// A well-formed count file whose stamp differs from the graph's stamp is
/// always refused with `ChecksumMismatch`: none of its counters is read.
pub proof fn lemma_stamp_mismatch_refused(stamp: u32, n: nat, b: Seq<u8>)
    requires
        b.len() >= COUNT_HEADER_LEN,
        le32(b, 0) == COUNT_MAGIC,
        le32(b, 4) == FORMAT_VERSION,
        le32(b, 8) == 4 || le32(b, 8) == 8,
        le32(b, 12) != stamp,
    ensures
        counts_spec(stamp, n, b) == Err::<Seq<u64>, DecodeError>(DecodeError::ChecksumMismatch),
{
}

} // verus!
