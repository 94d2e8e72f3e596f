use cargo_cov::aggregate::{aggregate, select_file, LineCoverage, MergeError};
use cargo_cov::cache::{fingerprint, fingerprint_bytes, ReportCache};
use cargo_cov::classify::{classify, SourceFilter, SourceRoots, SourceType};
use cargo_cov::decode::{
    decode_counts, decode_graph, read_u32, read_u64, DecodeError, GraphFile, COUNT_MAGIC, FORMAT_VERSION,
    GRAPH_MAGIC, TAG_BLOCK, TAG_SOURCE,
};
use cargo_cov::index::{percent, sort_index, summarize, FileSummary};
use cargo_cov::symbols::{merge_records, resolve_functions, FunctionInstance, FunctionRecord};

fn put32(out: &mut Vec<u8>, v: u32) {
    out.extend_from_slice(&v.to_le_bytes());
}

fn put_source(out: &mut Vec<u8>, path: &str) {
    put32(out, TAG_SOURCE);
    put32(out, path.len() as u32);
    out.extend_from_slice(path.as_bytes());
}

fn put_block(out: &mut Vec<u8>, line: u32) {
    put32(out, TAG_BLOCK);
    put32(out, 4);
    put32(out, line);
}

fn graph_bytes(stamp: u32, lines: &[u32]) -> Vec<u8> {
    let mut b = Vec::new();
    put32(&mut b, GRAPH_MAGIC);
    put32(&mut b, FORMAT_VERSION);
    put32(&mut b, stamp);
    put_source(&mut b, "src/lib.rs");
    for &l in lines {
        put32(&mut b, TAG_BLOCK);
        put32(&mut b, 4);
        put32(&mut b, l);
    }
    b
}

fn count_bytes(stamp: u32, width: u32, counts: &[u64]) -> Vec<u8> {
    let mut b = Vec::new();
    put32(&mut b, COUNT_MAGIC);
    put32(&mut b, FORMAT_VERSION);
    put32(&mut b, width);
    put32(&mut b, stamp);
    for &c in counts {
        if width == 4 {
            put32(&mut b, c as u32);
        } else {
            b.extend_from_slice(&c.to_le_bytes());
        }
    }
    b
}

fn graph(stamp: u32, lines: &[u32]) -> GraphFile {
    decode_graph(&graph_bytes(stamp, lines)).unwrap()
}

#[test]
fn reads_little_endian_integers() {
    let b = [0x78, 0x56, 0x34, 0x12, 0xff, 0, 0, 0, 1];
    assert_eq!(read_u32(&b, 0), 0x1234_5678);
    assert_eq!(read_u64(&b, 0), 0xff_1234_5678);
    assert_eq!(read_u32(&b, 4), 0xff);
}

#[test]
fn decodes_graph_blocks_in_order() {
    let g = graph(77, &[10, 12, 10]);
    assert_eq!(g.stamp, 77);
    assert_eq!(g.sources, vec![b"src/lib.rs".to_vec()]);
    assert_eq!(g.block_files, vec![0, 0, 0]);
    assert_eq!(g.block_lines, vec![10, 12, 10]);
}

#[test]
fn graph_skips_unknown_records() {
    let mut b = graph_bytes(5, &[3]);
    put32(&mut b, 0x0123_0000);
    put32(&mut b, 6);
    b.extend_from_slice(&[9, 9, 9, 9, 9, 9]);
    put32(&mut b, TAG_BLOCK);
    put32(&mut b, 4);
    put32(&mut b, 8);
    let g = decode_graph(&b).unwrap();
    assert_eq!(g.block_lines, vec![3, 8]);
}

#[test]
fn graph_errors() {
    let mut bad = graph_bytes(1, &[1]);
    bad[0] = 0;
    assert_eq!(decode_graph(&bad).unwrap_err(), DecodeError::FormatError);
    let mut version = graph_bytes(1, &[1]);
    version[4] ^= 1;
    assert_eq!(decode_graph(&version).unwrap_err(), DecodeError::FormatError);
    assert_eq!(decode_graph(&[0x67, 0x63]).unwrap_err(), DecodeError::Truncated);
    let full = graph_bytes(1, &[1, 2]);
    assert_eq!(decode_graph(&full[..full.len() - 1]).unwrap_err(), DecodeError::Truncated);
    assert_eq!(decode_graph(&full[..full.len() - 10]).unwrap_err(), DecodeError::Truncated);
    let mut wide = graph_bytes(1, &[]);
    put32(&mut wide, TAG_BLOCK);
    put32(&mut wide, 8);
    wide.extend_from_slice(&[0; 8]);
    assert_eq!(decode_graph(&wide).unwrap_err(), DecodeError::FormatError);
    let mut orphan = Vec::new();
    put32(&mut orphan, GRAPH_MAGIC);
    put32(&mut orphan, FORMAT_VERSION);
    put32(&mut orphan, 1);
    put_block(&mut orphan, 3);
    assert_eq!(decode_graph(&orphan).unwrap_err(), DecodeError::FormatError);
}

#[test]
fn blocks_are_attributed_to_their_source() {
    let mut b = Vec::new();
    put32(&mut b, GRAPH_MAGIC);
    put32(&mut b, FORMAT_VERSION);
    put32(&mut b, 6);
    put_source(&mut b, "a.rs");
    put_block(&mut b, 1);
    put_block(&mut b, 2);
    put_source(&mut b, "<std macros>");
    put_block(&mut b, 1);
    let g = decode_graph(&b).unwrap();
    assert_eq!(g.sources, vec![b"a.rs".to_vec(), b"<std macros>".to_vec()]);
    assert_eq!(g.block_files, vec![0, 0, 1]);
    assert_eq!(g.block_lines, vec![1, 2, 1]);
    let runs = vec![count_bytes(6, 4, &[5, 6, 7])];
    let a = aggregate(&g, 0, &runs).unwrap();
    assert_eq!((a.line_count(1), a.line_count(2)), (Some(5), Some(6)));
    let m = aggregate(&g, 1, &runs).unwrap();
    assert_eq!((m.line_count(1), m.line_count(2)), (Some(7), None));
    let (l, c) = select_file(&g.block_files, &g.block_lines, &vec![5, 6, 7], 0);
    assert_eq!((l, c), (vec![1, 2], vec![5, 6]));
}

#[test]
fn decodes_counts_of_both_widths() {
    let g = graph(9, &[1, 2, 3]);
    assert_eq!(decode_counts(&g, &count_bytes(9, 4, &[4, 0, 7])).unwrap(), vec![4, 0, 7]);
    let big = 5_000_000_000u64;
    assert_eq!(decode_counts(&g, &count_bytes(9, 8, &[big, 1, 2])).unwrap(), vec![big, 1, 2]);
}

#[test]
fn count_errors() {
    let g = graph(9, &[1, 2]);
    assert_eq!(decode_counts(&g, &count_bytes(8, 4, &[1, 2])).unwrap_err(), DecodeError::ChecksumMismatch);
    assert_eq!(decode_counts(&g, &count_bytes(9, 3, &[])).unwrap_err(), DecodeError::FormatError);
    assert_eq!(decode_counts(&g, &count_bytes(9, 4, &[1])).unwrap_err(), DecodeError::Truncated);
    assert_eq!(decode_counts(&g, &[1, 2, 3]).unwrap_err(), DecodeError::Truncated);
    let mut magic = count_bytes(9, 4, &[1, 2]);
    magic[3] = 0;
    assert_eq!(decode_counts(&g, &magic).unwrap_err(), DecodeError::FormatError);
}

#[test]
fn synthetic_pair_round_trips_into_lines() {
    let g = graph(3, &[4, 6, 4, 9]);
    let runs = vec![count_bytes(3, 8, &[2, 5, 1, 0])];
    let m = aggregate(&g, 0, &runs).unwrap();
    assert_eq!(m.line_count(4), Some(3));
    assert_eq!(m.line_count(6), Some(5));
    assert_eq!(m.line_count(9), Some(0));
    assert_eq!(m.line_count(5), None);
    assert_eq!(m.line_count(1000), None);
}

#[test]
fn stamp_mismatch_is_never_merged() {
    let g = graph(3, &[10]);
    let runs = vec![count_bytes(3, 4, &[1]), count_bytes(4, 4, &[100])];
    assert_eq!(
        aggregate(&g, 0, &runs).unwrap_err(),
        MergeError::Decode(DecodeError::ChecksumMismatch)
    );
}

#[test]
fn two_runs_sum_on_line_ten() {
    let g = graph(11, &[10]);
    let runs = vec![count_bytes(11, 4, &[3]), count_bytes(11, 4, &[0])];
    let m = aggregate(&g, 0, &runs).unwrap();
    assert_eq!(m.line_count(10), Some(3));
}

#[test]
fn k_runs_sum_and_zero_runs_leave_line_absent() {
    let g = graph(2, &[7, 8]);
    let runs = vec![
        count_bytes(2, 4, &[1, 0]),
        count_bytes(2, 8, &[20, 0]),
        count_bytes(2, 4, &[300, 0]),
    ];
    let m = aggregate(&g, 0, &runs).unwrap();
    assert_eq!(m.line_count(7), Some(321));
    assert_eq!(m.line_count(8), Some(0));
    let none = aggregate(&g, 0, &Vec::new()).unwrap();
    assert_eq!(none.line_count(7), None);
}

#[test]
fn merge_from_several_graphs_sums() {
    let mut m = LineCoverage::new();
    m.merge(&vec![5, 5], &vec![1, 2]).unwrap();
    m.merge(&vec![5, 6], &vec![10, 0]).unwrap();
    assert_eq!(m.line_count(5), Some(13));
    assert_eq!(m.line_count(6), Some(0));
    assert_eq!(m.line_count(4), None);
    assert_eq!(m.count_at(5), Some(13));
    assert!(m.line_bound() >= 7);
}

#[test]
fn merge_overflow_leaves_model_unchanged() {
    let mut m = LineCoverage::new();
    m.merge(&vec![2], &vec![u64::MAX]).unwrap();
    assert_eq!(m.merge(&vec![1, 2], &vec![4, 1]), Err(MergeError::CountOverflow));
    assert_eq!(m.line_count(2), Some(u64::MAX));
    assert_eq!(m.line_count(1), None);
}

fn roots() -> SourceRoots {
    SourceRoots {
        local: b"/home/u/proj/".to_vec(),
        rustsrc: b"/rustc/".to_vec(),
        crates: b"/home/u/.cargo/registry/".to_vec(),
    }
}

#[test]
fn classifies_each_provenance() {
    let r = roots();
    assert_eq!(classify(b"/home/u/proj/src/main.rs", &r), SourceType::Local);
    assert_eq!(classify(b"<std macros>", &r), SourceType::Macros);
    assert_eq!(classify(b"/rustc/src/libcore/option.rs", &r), SourceType::RustSrc);
    assert_eq!(classify(b"/home/u/.cargo/registry/src/x/lib.rs", &r), SourceType::Crates);
    assert_eq!(classify(b"/tmp/other.rs", &r), SourceType::Unknown);
    assert_eq!(classify(b"", &r), SourceType::Unknown);
    let empty = SourceRoots { local: Vec::new(), rustsrc: Vec::new(), crates: Vec::new() };
    assert_eq!(classify(b"/home/u/proj/src/main.rs", &empty), SourceType::Unknown);
}

#[test]
fn filter_all_admits_every_provenance() {
    let all = SourceFilter::from_word(b"all").unwrap();
    assert_eq!(all, SourceFilter::everything());
    for t in [SourceType::Local, SourceType::Macros, SourceType::RustSrc, SourceType::Crates, SourceType::Unknown] {
        assert!(all.admits(t));
        assert!(!SourceFilter::empty().admits(t));
    }
}

#[test]
fn filter_words() {
    let local = SourceFilter::from_word(b"local").unwrap();
    assert!(local.admits(SourceType::Local));
    assert!(!local.admits(SourceType::Crates));
    assert_eq!(local, SourceFilter::default_filter());
    let crates = SourceFilter::from_word(b"crates").unwrap();
    assert!(crates.admits(SourceType::Crates) && !crates.admits(SourceType::Local));
    assert!(SourceFilter::from_word(b"macros").unwrap().admits(SourceType::Macros));
    assert!(SourceFilter::from_word(b"rustsrc").unwrap().admits(SourceType::RustSrc));
    assert!(SourceFilter::from_word(b"unknown").unwrap().admits(SourceType::Unknown));
    assert_eq!(SourceFilter::from_word(b"bogus"), None);
    assert_eq!(SourceFilter::from_word(b""), None);
    let u = local.union(crates);
    assert!(u.admits(SourceType::Local) && u.admits(SourceType::Crates) && !u.admits(SourceType::Unknown));
    let both = local.with(SourceType::Macros);
    assert!(both.admits(SourceType::Local) && both.admits(SourceType::Macros));
}

fn rec(name: &str, file: &str, line: u32, count: u64) -> FunctionRecord {
    FunctionRecord { name: name.to_string(), file: file.to_string(), line, count }
}

#[test]
fn duplicate_instances_merge() {
    let xs = vec![
        rec("f", "a.rs", 3, 2),
        rec("g", "a.rs", 9, 1),
        rec("f", "a.rs", 3, 5),
        rec("f", "b.rs", 3, 1),
        rec("g", "a.rs", 9, u64::MAX),
    ];
    let r = merge_records(&xs);
    assert_eq!(r.len(), 3);
    assert_eq!((r[0].name.as_str(), r[0].file.as_str(), r[0].line, r[0].count), ("f", "a.rs", 3, 7));
    assert_eq!((r[1].name.as_str(), r[1].count), ("g", u64::MAX));
    assert_eq!((r[2].file.as_str(), r[2].count), ("b.rs", 1));
}

#[test]
fn resolve_demangles_and_merges() {
    let inst = |raw: &str, count: u64| FunctionInstance {
        raw_name: raw.to_string(),
        file: "src/lib.rs".to_string(),
        line: 4,
        count,
    };
    let r = resolve_functions(vec![
        inst("_ZN3foo3barE", 2),
        inst("_ZN3foo3bar17h0123456789abcdefE", 3),
        inst("plain_name", 1),
    ]);
    assert_eq!(r.len(), 2);
    assert_eq!(r[0].name, "foo::bar");
    assert_eq!(r[0].count, 5);
    assert_eq!(r[1].name, "plain_name");
}

fn row(p: &str) -> FileSummary {
    FileSummary { path: p.to_string(), lines_instrumented: 1, lines_hit: 0 }
}

#[test]
fn index_order_is_numeric_aware() {
    let r = sort_index(vec![row("a10.rs"), row("a2.rs"), row("a1.rs")]);
    let paths: Vec<&str> = r.iter().map(|f| f.path.as_str()).collect();
    assert_eq!(paths, vec!["a1.rs", "a2.rs", "a10.rs"]);
    assert!(sort_index(Vec::new()).is_empty());
}

#[test]
fn summary_of_deleted_source_still_counts() {
    let g = graph(1, &[1, 2, 2, 5]);
    let m = aggregate(&g, 0, &vec![count_bytes(1, 4, &[0, 4, 0, 9])]).unwrap();
    let s = summarize("src/gone.rs".to_string(), &m);
    assert_eq!(s.path, "src/gone.rs");
    assert_eq!(s.lines_instrumented, 3);
    assert_eq!(s.lines_hit, 2);
    assert_eq!(percent(s.lines_hit, s.lines_instrumented), Some(66));
}

#[test]
fn percentages() {
    assert_eq!(percent(0, 0), None);
    assert_eq!(percent(1, 4), Some(25));
    assert_eq!(percent(u64::MAX, u64::MAX), Some(100));
}

#[test]
fn unchanged_inputs_hit_the_cache() {
    let arts = vec![vec![1u8, 2, 3], vec![4u8]];
    let fp = fingerprint(&arts, b"html", SourceFilter::default_filter());
    assert_eq!(fp.len(), 16);
    let mut cache = ReportCache::new();
    assert_eq!(cache.lookup(&fp), None);
    cache.record(fp.clone(), "report/index.html".to_string());
    let again = fingerprint(&arts, b"html", SourceFilter::default_filter());
    assert_eq!(again, fp);
    assert_eq!(cache.lookup(&again), Some("report/index.html".to_string()));
    let other = fingerprint(&arts, b"html", SourceFilter::everything());
    assert_ne!(other, fp);
    assert_eq!(cache.lookup(&other), None);
    let other_template = fingerprint(&arts, b"text", SourceFilter::default_filter());
    assert_ne!(other_template, fp);
}

#[test]
fn fingerprint_input_frames_each_artifact() {
    let b = fingerprint_bytes(&vec![vec![7u8]], b"ab", SourceFilter::everything());
    assert_eq!(b, vec![1, 0, 0, 0, 0, 0, 0, 0, 7, 2, 0, 0, 0, 0, 0, 0, 0, b'a', b'b', 31]);
    assert_ne!(fingerprint(&vec![vec![1u8], vec![2u8]], b"", SourceFilter::empty()),
        fingerprint(&vec![vec![1u8, 2u8]], b"", SourceFilter::empty()));
    // md5 of the empty framing differs from the framing itself
    let fp = fingerprint(&Vec::new(), b"", SourceFilter::empty());
    assert_ne!(fp, fingerprint_bytes(&Vec::new(), b"", SourceFilter::empty()));
}
