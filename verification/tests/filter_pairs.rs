use ngs_tools::assembler::{parse_bam, FilterRun, PairAssembler, Phase, Step};
use ngs_tools::filter::{pair_passes, passes_mapping_quality, FilterConfig};
use ngs_tools::record::FilterError;

fn config(mapq_cutoff: u8, single_end: bool) -> FilterConfig {
    FilterConfig {
        mapq_cutoff,
        single_end,
        edit_distance_cutoff: None,
        remove_duplicates: false,
        remove_singletons: false,
    }
}

fn lines(text: &[&str]) -> Vec<String> {
    text.iter().map(|s| s.to_string()).collect()
}

fn record(name: &str, mapq: &str, tags: &str) -> String {
    format!("{name}\t99\tchr1\t100\t{mapq}\t50M\t=\t300\t250\tACGT\tIIII{tags}")
}

#[test]
fn paired_mode_drops_pair_with_one_low_mate() {
    let input = lines(&["r1\t99\tchr1\t100\t30\t50M", "r1\t147\tchr1\t300\t10\t50M"]);
    let run: FilterRun = parse_bam(config(20, false), &input);
    assert_eq!(run.emitted, Vec::<String>::new());
    assert_eq!(run.error, None);
    assert_eq!(run.unpaired, None);
}

#[test]
fn single_end_mode_keeps_pair_with_one_high_mate() {
    let input = lines(&["r1\t99\tchr1\t100\t30\t50M", "r1\t147\tchr1\t300\t10\t50M"]);
    let run = parse_bam(config(20, true), &input);
    assert_eq!(run.emitted, input);
    assert_eq!(run.error, None);
}

#[test]
fn mapping_quality_modes_on_numbers() {
    assert!(!passes_mapping_quality(&config(20, false), 30, 10));
    assert!(passes_mapping_quality(&config(20, true), 30, 10));
    assert!(passes_mapping_quality(&config(20, false), 20, 20));
    assert!(!passes_mapping_quality(&config(20, true), 19, 19));
    assert!(passes_mapping_quality(&config(0, false), 0, 0));
}

#[test]
fn cutoff_is_inclusive() {
    let a = record("r1", "20", "");
    let b = record("r1", "20", "");
    assert_eq!(pair_passes(&config(20, false), &a, &b), Ok(true));
    assert_eq!(pair_passes(&config(21, false), &a, &b), Ok(false));
}

#[test]
fn headers_pass_through_and_survivors_keep_their_order() {
    let input = vec![
        "@HD\tVN:1.6".to_string(),
        "@SQ\tSN:chr1\tLN:1000".to_string(),
        record("r1", "40", ""),
        record("r1", "41", ""),
        record("r2", "3", ""),
        record("r2", "50", ""),
        record("r3", "60", ""),
        record("r3", "60", ""),
    ];
    let run = parse_bam(config(30, false), &input);
    let expected = vec![
        input[0].clone(),
        input[1].clone(),
        input[2].clone(),
        input[3].clone(),
        input[6].clone(),
        input[7].clone(),
    ];
    assert_eq!(run.emitted, expected);
    assert_eq!(run.error, None);
}

#[test]
fn no_filter_is_identity() {
    let input = vec![
        "@HD\tVN:1.6".to_string(),
        record("r1", "0", "\tNM:i:9"),
        record("r1", "255", "\tNM:i:0"),
        record("r2", "7", ""),
        record("r2", "+8", ""),
    ];
    let run = parse_bam(config(0, false), &input);
    assert_eq!(run.emitted, input);
    assert_eq!(run.error, None);
    assert_eq!(run.unpaired, None);
}

#[test]
fn single_end_keeps_whatever_paired_mode_keeps() {
    let input = vec![
        record("r1", "40", ""),
        record("r1", "10", ""),
        record("r2", "40", ""),
        record("r2", "40", ""),
        record("r3", "1", ""),
        record("r3", "2", ""),
    ];
    let paired = parse_bam(config(30, false), &input);
    let single = parse_bam(config(30, true), &input);
    assert_eq!(paired.emitted, vec![input[2].clone(), input[3].clone()]);
    assert_eq!(
        single.emitted,
        vec![input[0].clone(), input[1].clone(), input[2].clone(), input[3].clone()]
    );
    for line in &paired.emitted {
        assert!(single.emitted.contains(line));
    }
}

#[test]
fn edit_distance_filter_drops_pair_at_cutoff() {
    let mut cfg = config(0, false);
    cfg.edit_distance_cutoff = Some(5);
    let a = record("r1", "60", "\tNM:i:4");
    let b = record("r1", "60", "\tNM:i:5");
    let c = record("r1", "60", "\tNM:i:0");
    assert_eq!(pair_passes(&cfg, &a, &b), Ok(false));
    assert_eq!(pair_passes(&cfg, &b, &a), Ok(false));
    assert_eq!(pair_passes(&cfg, &a, &c), Ok(true));
}

#[test]
fn edit_distance_filter_is_skipped_when_a_tag_is_missing() {
    let mut cfg = config(0, false);
    cfg.edit_distance_cutoff = Some(1);
    let tagged = record("r1", "60", "\tNM:i:40");
    let bare = record("r1", "60", "");
    assert_eq!(pair_passes(&cfg, &tagged, &bare), Ok(true));
    assert_eq!(pair_passes(&cfg, &bare, &tagged), Ok(true));
    assert_eq!(pair_passes(&cfg, &bare, &bare), Ok(true));
}

#[test]
fn edit_distance_tags_are_not_read_without_a_cutoff() {
    let a = record("r1", "60", "\tNM:i:99999999999999");
    let b = record("r1", "60", "\tNM:i:1");
    assert_eq!(pair_passes(&config(0, false), &a, &b), Ok(true));
}

#[test]
fn oversized_edit_distance_is_fatal() {
    let mut cfg = config(0, false);
    cfg.edit_distance_cutoff = Some(5);
    let a = record("r1", "60", "\tNM:i:4294967296");
    let b = record("r1", "60", "\tNM:i:1");
    assert_eq!(pair_passes(&cfg, &a, &b), Err(FilterError::MalformedEditDistance));
    assert_eq!(pair_passes(&cfg, &b, &a), Err(FilterError::MalformedEditDistance));
    let largest = record("r1", "60", "\tNM:i:4294967295");
    assert_eq!(pair_passes(&cfg, &largest, &b), Ok(false));
}

#[test]
fn mapping_quality_is_read_only_after_the_edit_distance_filter() {
    let mut cfg = config(10, false);
    cfg.edit_distance_cutoff = Some(2);
    let a = record("r1", "oops", "\tNM:i:7");
    let b = record("r1", "60", "\tNM:i:0");
    assert_eq!(pair_passes(&cfg, &a, &b), Ok(false));
    cfg.edit_distance_cutoff = Some(8);
    assert_eq!(pair_passes(&cfg, &a, &b), Err(FilterError::MalformedMappingQuality));
}

#[test]
fn malformed_mapping_quality_is_fatal() {
    let input = vec![
        record("r1", "60", ""),
        record("r1", "60", ""),
        record("r2", "256", ""),
        record("r2", "60", ""),
        record("r3", "60", ""),
        record("r3", "60", ""),
    ];
    let run = parse_bam(config(0, false), &input);
    assert_eq!(run.emitted, vec![input[0].clone(), input[1].clone()]);
    assert_eq!(run.error, Some(FilterError::MalformedMappingQuality));
}

#[test]
fn missing_mapping_quality_is_fatal() {
    let input = lines(&["r1\t99\tchr1\t100", "r1\t147\tchr1\t300\t10"]);
    let run = parse_bam(config(0, false), &input);
    assert_eq!(run.emitted, Vec::<String>::new());
    assert_eq!(run.error, Some(FilterError::MissingMappingQuality));
}

#[test]
fn singleton_aborts_without_removal() {
    let input = vec![
        "@HD\tVN:1.6".to_string(),
        record("r1", "60", ""),
        record("r1", "60", ""),
        record("lonely", "60", ""),
        record("r2", "60", ""),
        record("r2", "60", ""),
    ];
    let run = parse_bam(config(0, false), &input);
    assert_eq!(run.emitted, vec![input[0].clone(), input[1].clone(), input[2].clone()]);
    assert_eq!(run.error, Some(FilterError::OrderingViolation));
}

#[test]
fn singleton_is_dropped_with_removal() {
    let mut cfg = config(0, false);
    cfg.remove_singletons = true;
    let input = vec![
        record("r1", "60", ""),
        record("r1", "60", ""),
        record("lonely", "60", ""),
        record("r2", "60", ""),
        record("r2", "60", ""),
        record("r3", "60", ""),
    ];
    let run = parse_bam(cfg, &input);
    assert_eq!(
        run.emitted,
        vec![input[0].clone(), input[1].clone(), input[3].clone(), input[4].clone()]
    );
    assert_eq!(run.error, None);
    assert_eq!(run.unpaired, Some(input[5].clone()));
}

#[test]
fn two_singletons_in_a_row_are_both_dropped() {
    let mut cfg = config(0, false);
    cfg.remove_singletons = true;
    let input = vec![
        record("a", "60", ""),
        record("b", "60", ""),
        record("c", "60", ""),
        record("c", "60", ""),
    ];
    let run = parse_bam(cfg, &input);
    assert_eq!(run.emitted, vec![input[2].clone(), input[3].clone()]);
    assert_eq!(run.error, None);
}

#[test]
fn unpaired_tail_is_not_written() {
    let input = vec![record("r1", "60", ""), record("r1", "60", ""), record("r2", "60", "")];
    let run = parse_bam(config(0, false), &input);
    assert_eq!(run.emitted, vec![input[0].clone(), input[1].clone()]);
    assert_eq!(run.error, None);
    assert_eq!(run.unpaired, Some(input[2].clone()));
}

#[test]
fn empty_stream_gives_nothing() {
    let run = parse_bam(config(0, false), &Vec::new());
    assert_eq!(run.emitted, Vec::<String>::new());
    assert_eq!(run.error, None);
    assert_eq!(run.unpaired, None);
}

#[test]
fn assembler_walks_through_its_states() {
    let mut assembler = PairAssembler::new(config(30, false));
    assert_eq!(assembler.phase(), Phase::AwaitingFirst);
    assert_eq!(assembler.feed("@HD\tVN:1.6".to_string()), Step::Header("@HD\tVN:1.6".to_string()));
    assert_eq!(assembler.phase(), Phase::AwaitingFirst);
    let first = record("r1", "40", "");
    let second = record("r1", "50", "");
    assert_eq!(assembler.feed(first.clone()), Step::Nothing);
    assert_eq!(assembler.phase(), Phase::HaveFirstAwaitingSecond);
    assert_eq!(assembler.feed(second.clone()), Step::Pair(first, second));
    assert_eq!(assembler.phase(), Phase::AwaitingFirst);
    assert_eq!(assembler.feed(record("r2", "40", "")), Step::Nothing);
    assert_eq!(assembler.feed(record("r2", "4", "")), Step::Nothing);
    assert_eq!(assembler.phase(), Phase::AwaitingFirst);
    assert_eq!(assembler.feed(record("r3", "40", "")), Step::Nothing);
    assert_eq!(
        assembler.feed(record("r4", "40", "")),
        Step::Abort(FilterError::OrderingViolation)
    );
    assert_eq!(assembler.phase(), Phase::Done);
    assert_eq!(assembler.feed(record("r4", "40", "")), Step::Nothing);
    assert_eq!(assembler.feed("@CO\tlate".to_string()), Step::Nothing);
    assert_eq!(assembler.phase(), Phase::Done);
    assert_eq!(assembler.finish(), None);
}

#[test]
fn assembler_hands_back_the_unpaired_tail() {
    let mut assembler = PairAssembler::new(config(0, false));
    let tail = record("r9", "40", "");
    assert_eq!(assembler.feed(tail.clone()), Step::Nothing);
    assert_eq!(assembler.finish(), Some(tail));
}

#[test]
fn second_line_is_taken_as_a_record_even_if_it_looks_like_a_header() {
    let mut assembler = PairAssembler::new(config(0, false));
    assert_eq!(assembler.feed(record("r1", "40", "")), Step::Nothing);
    assert_eq!(
        assembler.feed("@HD\tVN:1.6".to_string()),
        Step::Abort(FilterError::OrderingViolation)
    );
}

#[test]
fn error_messages_tell_the_remedy() {
    assert_eq!(
        FilterError::OrderingViolation.message(),
        "BAM may be coord-sorted or has singletons. Sort it by read name or try --remove-singletons"
    );
    assert!(FilterError::MalformedMappingQuality.message().contains("mapping quality"));
    assert!(FilterError::MissingMappingQuality.message().contains("fewer than five fields"));
    assert!(FilterError::MalformedEditDistance.message().contains("edit distance"));
}
