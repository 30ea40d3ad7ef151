use ngs_tools::bases::{stat_seq, Bases};
use ngs_tools::fasta::{parse_fasta, FastaScanner, FastaStats};
use ngs_tools::nx::{
    calculate_nx, find_breakpoints, total_length, NxError, NxPoint, NxReport, BREAKPOINTS,
};
use ngs_tools::sorting::sort_descending;

fn lines(text: &[&str]) -> Vec<String> {
    text.iter().map(|s| s.to_string()).collect()
}

fn point(percent: u8, rank: usize, length: usize) -> NxPoint {
    NxPoint { percent, rank, length }
}

#[test]
fn bases_start_at_zero() {
    let bases = Bases::new();
    assert_eq!(bases, Bases { a: 0, t: 0, c: 0, g: 0, n: 0 });
    assert_eq!(bases.gc_fraction(), (0, 0));
}

#[test]
fn stat_seq_counts_symbols_and_segments() {
    let mut bases = Bases::new();
    let stat = stat_seq("chr1", "ACGTNNNACGT", &mut bases).unwrap();
    assert_eq!(bases, Bases { a: 2, t: 2, c: 2, g: 2, n: 3 });
    assert_eq!(stat.scaffold_len, 11);
    assert_eq!(stat.gapless_scaffold_len, 8);
    assert_eq!(stat.ctg_lens, vec![4, 4]);
    assert_eq!(stat.warning, None);
    assert_eq!(bases.gc_fraction(), (4, 8));
}

#[test]
fn stat_seq_is_case_insensitive_and_accumulates() {
    let mut bases = Bases { a: 10, t: 20, c: 30, g: 40, n: 50 };
    let stat = stat_seq("s", "nacgtNacgtaAn", &mut bases).unwrap();
    assert_eq!(bases, Bases { a: 14, t: 22, c: 32, g: 42, n: 53 });
    assert_eq!(stat.scaffold_len, 13);
    assert_eq!(stat.gapless_scaffold_len, 10);
    assert_eq!(stat.ctg_lens, vec![4, 6]);
    assert_eq!(stat.warning, None);
}

#[test]
fn stat_seq_warns_of_other_characters() {
    let mut bases = Bases::new();
    let stat = stat_seq("scaffold_7", "ACRYN-xT", &mut bases).unwrap();
    assert_eq!(bases, Bases { a: 1, t: 1, c: 1, g: 0, n: 1 });
    assert_eq!(stat.scaffold_len, 8);
    assert_eq!(stat.gapless_scaffold_len, 7);
    assert_eq!(stat.ctg_lens, vec![4, 3]);
    assert_eq!(
        stat.warning,
        Some("Seq scaffold_7 has base(s) not in A, T, C, G, N".to_string())
    );
}

#[test]
fn stat_seq_of_edge_sequences() {
    let mut bases = Bases::new();
    let empty = stat_seq("e", "", &mut bases).unwrap();
    assert_eq!((empty.scaffold_len, empty.gapless_scaffold_len), (0, 0));
    assert_eq!(empty.ctg_lens, Vec::<usize>::new());
    let gaps = stat_seq("g", "NNNN", &mut bases).unwrap();
    assert_eq!((gaps.scaffold_len, gaps.gapless_scaffold_len), (4, 0));
    assert_eq!(gaps.ctg_lens, Vec::<usize>::new());
    let solid = stat_seq("s", "ACGTAC", &mut bases).unwrap();
    assert_eq!(solid.ctg_lens, vec![6]);
    let edges = stat_seq("x", "NACNNGTN", &mut bases).unwrap();
    assert_eq!(edges.ctg_lens, vec![2, 2]);
    assert_eq!(bases, Bases { a: 3, t: 2, c: 3, g: 2, n: 8 });
}

#[test]
fn stat_seq_refuses_to_overflow() {
    let mut bases = Bases { a: usize::MAX, t: 1, c: 2, g: 3, n: 4 };
    assert_eq!(stat_seq("big", "CCAG", &mut bases), None);
    assert_eq!(bases, Bases { a: usize::MAX, t: 1, c: 2, g: 3, n: 4 });
    assert!(stat_seq("fine", "CCGT", &mut bases).is_some());
    assert_eq!(bases, Bases { a: usize::MAX, t: 2, c: 4, g: 4, n: 4 });
    let other = Bases { a: 0, t: usize::MAX - 1, c: 0, g: 0, n: 0 };
    assert!(!bases.accumulate(&other));
    assert_eq!(bases.t, 2);
}

#[test]
fn fasta_sequences_are_joined_over_lines() {
    let text = lines(&[">one first", "ACGT", "NNAC", "", "gt", ">two", "NNNN", ">three", "AC-T"]);
    let stats = parse_fasta(&text).unwrap();
    assert_eq!(stats.scaffold_lens, vec![10, 4, 4]);
    assert_eq!(stats.gapless_scaffold_lens, vec![8, 0, 4]);
    assert_eq!(stats.ctg_lens, vec![4, 4, 4]);
    assert_eq!(stats.bases, Bases { a: 3, t: 3, c: 3, g: 2, n: 6 });
    assert_eq!(stats.warnings, vec!["Seq three has base(s) not in A, T, C, G, N".to_string()]);
}

#[test]
fn fasta_names_without_data_are_skipped_except_at_the_end() {
    let stats = parse_fasta(&lines(&[">empty", ">full", "ACGT", ">last"])).unwrap();
    assert_eq!(stats.scaffold_lens, vec![4, 0]);
    assert_eq!(stats.gapless_scaffold_lens, vec![4, 0]);
    assert_eq!(stats.ctg_lens, vec![4]);
    let only_a_name = parse_fasta(&lines(&[">alone"])).unwrap();
    assert_eq!(only_a_name.scaffold_lens, vec![0]);
    assert_eq!(only_a_name.gapless_scaffold_lens, vec![0]);
    assert_eq!(only_a_name.ctg_lens, Vec::<usize>::new());
}

#[test]
fn empty_fasta_text_holds_no_sequence() {
    let nothing = parse_fasta(&Vec::new()).unwrap();
    assert_eq!(nothing.scaffold_lens, Vec::<usize>::new());
    assert_eq!(nothing.gapless_scaffold_lens, Vec::<usize>::new());
    assert_eq!(nothing.ctg_lens, Vec::<usize>::new());
    assert_eq!(nothing.bases, Bases::new());
    assert_eq!(nothing.warnings, Vec::<String>::new());
    assert_eq!(nothing, FastaStats::new());
    assert_eq!(parse_fasta(&lines(&["", "", ""])).unwrap(), FastaStats::new());
    assert_eq!(FastaScanner::new().finish().unwrap(), FastaStats::new());
}

#[test]
fn populations_of_an_empty_fasta_text_are_insufficient_data() {
    let nothing = parse_fasta(&Vec::new()).unwrap();
    assert_eq!(calculate_nx(nothing.scaffold_lens), Err(NxError::InsufficientData));
    assert_eq!(calculate_nx(nothing.gapless_scaffold_lens), Err(NxError::InsufficientData));
    assert_eq!(calculate_nx(nothing.ctg_lens), Err(NxError::InsufficientData));
}

#[test]
fn fasta_data_before_a_name_is_a_sequence() {
    let stats = parse_fasta(&lines(&["AC?", "GT", ">named", "A"])).unwrap();
    assert_eq!(stats.scaffold_lens, vec![5, 1]);
    assert_eq!(stats.warnings, vec!["Seq  has base(s) not in A, T, C, G, N".to_string()]);
}

#[test]
fn fasta_scanner_takes_one_line_at_a_time() {
    let mut scanner = FastaScanner::new();
    for line in [">s1", "ACNNG", "T", ">s2", "GGCC"] {
        assert!(scanner.feed(line));
    }
    let stats = scanner.finish().unwrap();
    assert_eq!(stats.scaffold_lens, vec![6, 4]);
    assert_eq!(stats.gapless_scaffold_lens, vec![4, 4]);
    assert_eq!(stats.ctg_lens, vec![2, 2, 4]);
    assert_eq!(stats.bases.gc_fraction(), (6, 8));
}

#[test]
fn fasta_stats_record_refuses_to_overflow() {
    let mut stats = FastaStats::new();
    stats.bases.g = usize::MAX - 1;
    assert!(stats.record("ok", "ACGT"));
    assert!(!stats.record("over", "ACGT"));
    assert_eq!(stats.scaffold_lens, vec![4]);
    assert_eq!(stats.bases.g, usize::MAX);
    assert_eq!(stats.bases.a, 1);
}

#[test]
fn sorting_puts_the_longest_first() {
    assert_eq!(sort_descending(&vec![3, 9, 1, 9, 0, 7]), vec![9, 9, 7, 3, 1, 0]);
    assert_eq!(sort_descending(&Vec::new()), Vec::<usize>::new());
    assert_eq!(sort_descending(&vec![5]), vec![5]);
    let mut many: Vec<usize> = (0..1000).map(|i| (i * 7919) % 1009).collect();
    let sorted = sort_descending(&many);
    many.sort_by(|a, b| b.cmp(a));
    assert_eq!(sorted, many);
}

#[test]
fn breakpoints_of_a_small_population() {
    let report = calculate_nx(vec![60, 20, 100, 40, 80]).unwrap();
    assert_eq!(
        report.points,
        vec![
            point(10, 1, 100),
            point(20, 1, 100),
            point(30, 1, 100),
            point(40, 2, 80),
            point(50, 2, 80),
            point(60, 2, 80),
            point(70, 3, 60),
            point(80, 3, 60),
            point(90, 4, 40),
        ]
    );
    assert_eq!(report.longest, 100);
    assert_eq!(report.shortest, 20);
    assert_eq!(report.count, 5);
    assert_eq!(report.total, 300);
    assert!(report.has_data());
    assert_eq!(report.points.len(), BREAKPOINTS);
}

#[test]
fn breakpoint_is_reached_at_exactly_the_share() {
    let report = calculate_nx(vec![5, 5]).unwrap();
    assert_eq!(report.points[4], point(50, 1, 5));
    assert_eq!(report.points[5], point(60, 2, 5));
    let report = calculate_nx(vec![1, 1, 1, 1, 1, 1, 1, 1, 1, 1]).unwrap();
    for k in 0..9 {
        assert_eq!(report.points[k], point(10 * (k as u8 + 1), k + 1, 1));
    }
}

#[test]
fn single_length_is_every_breakpoint() {
    let report = calculate_nx(vec![42]).unwrap();
    for k in 0..9 {
        assert_eq!(report.points[k], point(10 * (k as u8 + 1), 1, 42));
    }
    assert_eq!((report.longest, report.shortest, report.count, report.total), (42, 42, 1, 42));
}

#[test]
fn empty_population_is_insufficient_data() {
    assert_eq!(calculate_nx(Vec::new()), Err(NxError::InsufficientData));
    assert_eq!(NxError::InsufficientData.message(), "insufficient data");
}

#[test]
fn population_that_sums_to_zero_has_no_breakpoints() {
    let report = calculate_nx(vec![0, 0, 0]).unwrap();
    assert_eq!(
        report,
        NxReport { points: Vec::new(), longest: 0, shortest: 0, count: 3, total: 0 }
    );
    assert!(!report.has_data());
}

#[test]
fn zero_lengths_never_carry_a_breakpoint() {
    let report = calculate_nx(vec![0, 10, 0]).unwrap();
    for k in 0..9 {
        assert_eq!(report.points[k], point(10 * (k as u8 + 1), 1, 10));
    }
    assert_eq!((report.longest, report.shortest, report.count), (10, 0, 3));
}

#[test]
fn huge_lengths_do_not_overflow() {
    let report = calculate_nx(vec![usize::MAX, usize::MAX, usize::MAX]).unwrap();
    assert_eq!(report.total, 3 * (usize::MAX as u128));
    assert_eq!(report.points[2], point(30, 1, usize::MAX));
    assert_eq!(report.points[3], point(40, 2, usize::MAX));
    assert_eq!(report.points[5], point(60, 2, usize::MAX));
    assert_eq!(report.points[6], point(70, 3, usize::MAX));
    assert_eq!(total_length(&vec![usize::MAX, 1]), usize::MAX as u128 + 1);
}

#[test]
fn breakpoints_of_a_sorted_population() {
    let sorted = vec![9, 1];
    assert_eq!(
        find_breakpoints(&sorted),
        vec![
            point(10, 1, 9),
            point(20, 1, 9),
            point(30, 1, 9),
            point(40, 1, 9),
            point(50, 1, 9),
            point(60, 1, 9),
            point(70, 1, 9),
            point(80, 1, 9),
            point(90, 1, 9),
        ]
    );
    assert_eq!(find_breakpoints(&vec![0]), Vec::<NxPoint>::new());
}
