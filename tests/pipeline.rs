use std::path::PathBuf;

use trigger_finder::alphabet::Alphabet;
use trigger_finder::args::{trg_validate, Cli};
use trigger_finder::coverage::{check_coverage, Coverage};
use trigger_finder::reader::{split_records, RecordReader};
use trigger_finder::windows::{collect_windows, make_windows, TriggerPool};

fn settings(trg_len: usize, include_non_standard: bool) -> Cli {
    Cli {
        trg_len,
        input_sequence: vec![PathBuf::from("query.fasta")],
        include_non_standard,
        nproc: None,
        library_path: None,
        save_trg_list: false,
        save_trg_genome_tab: false,
        output_suffix: String::from("_output"),
    }
}

fn strings(items: &[&str]) -> Vec<String> {
    items.iter().map(|s| s.to_string()).collect()
}

fn sorted(mut v: Vec<String>) -> Vec<String> {
    v.sort();
    v
}

fn count_of(table: &[(String, usize)], trigger: &str) -> usize {
    table.iter().find(|(t, _)| t == trigger).map(|(_, c)| *c).unwrap()
}

#[test]
fn window_count_is_length_minus_len_plus_one() {
    let w = make_windows("ATGCATGCATGC", 10);
    assert_eq!(w.len(), 3);
    assert_eq!(w, strings(&["ATGCATGCAT", "TGCATGCATG", "GCATGCATGC"]));
    assert!(w.iter().all(|t| t.len() == 10));
}

#[test]
fn window_count_when_length_equals_sequence() {
    assert_eq!(make_windows("ATGCATGCAT", 10), strings(&["ATGCATGCAT"]));
}

#[test]
fn no_windows_when_sequence_is_shorter() {
    assert!(make_windows("ATGCATGCA", 10).is_empty());
    assert!(make_windows("", 10).is_empty());
}

#[test]
fn windows_are_upper_cased() {
    assert_eq!(make_windows("atgcAtgcatg", 10), strings(&["ATGCATGCAT", "TGCATGCATG"]));
}

#[test]
fn single_ten_mer_gives_one_trigger() {
    let r = collect_windows(&strings(&["ATGCATGCAT"]), &settings(10, false));
    assert_eq!(r, strings(&["ATGCATGCAT"]));
}

#[test]
fn identical_sequences_give_one_trigger() {
    let r = collect_windows(&strings(&["AAAAAAAAAA", "AAAAAAAAAA"]), &settings(10, false));
    assert_eq!(r, strings(&["AAAAAAAAAA"]));
}

#[test]
fn window_with_n_dropped_in_standard_mode() {
    let seqs = strings(&["ATGCANGCATG"]);
    assert_eq!(make_windows("ATGCANGCATG", 10).len(), 2);
    assert!(collect_windows(&seqs, &settings(10, false)).is_empty());
    let extended = collect_windows(&seqs, &settings(10, true));
    assert_eq!(sorted(extended), strings(&["ATGCANGCAT", "TGCANGCATG"]));
}

#[test]
fn letters_outside_every_alphabet_are_dropped() {
    let seqs = strings(&["ATGCAXGCATGCATGCAT"]);
    let r = sorted(collect_windows(&seqs, &settings(10, true)));
    assert_eq!(r, strings(&["ATGCATGCAT", "CATGCATGCA", "GCATGCATGC"]));
    for t in &r {
        assert!(t.chars().all(|c| "ATGC".contains(c)));
    }
}

#[test]
fn generation_is_repeatable() {
    let seqs = strings(&["ATGCATGCATGGCCA", "TTGCATGCATGCAAC", "GGGGCCCCAAAATT"]);
    let cli = settings(10, false);
    let a = sorted(collect_windows(&seqs, &cli));
    let b = sorted(collect_windows(&seqs, &cli));
    assert_eq!(a, b);
    let mut dedup = a.clone();
    dedup.dedup();
    assert_eq!(dedup, a);
}

#[test]
fn pool_keeps_each_window_once() {
    let mut pool = TriggerPool::new();
    pool.add_windows(&strings(&["AAAAAAAAAA", "CCCCCCCCCC"]));
    pool.add_windows(&strings(&["AAAAAAAAAA"]));
    let r = sorted(pool.into_triggers(Alphabet::Standard));
    assert_eq!(r, strings(&["AAAAAAAAAA", "CCCCCCCCCC"]));
}

#[test]
fn coverage_of_trigger_in_two_of_three() {
    let library = strings(&["GGATGCATGCATGG", "CCCCCCCCCCCCCC", "ATGCATGCATTT"]);
    let (total, table) = check_coverage(strings(&["ATGCATGCAT"]), &library);
    assert_eq!(total, 3);
    assert_eq!(table.len(), 1);
    assert_eq!(count_of(&table, "ATGCATGCAT"), 2);
}

#[test]
fn repeated_occurrences_count_once() {
    let genome = "ATGCATGCAT".repeat(5);
    let (total, table) = check_coverage(strings(&["ATGCATGCAT"]), &vec![genome]);
    assert_eq!(total, 1);
    assert_eq!(count_of(&table, "ATGCATGCAT"), 1);
}

#[test]
fn counts_never_exceed_total() {
    let library = strings(&["AAAAAAAAAAAA", "AAAAAAAAAACC", "CCCCCCCCCCCC", ""]);
    let (total, table) =
        check_coverage(strings(&["AAAAAAAAAA", "CCCCCCCCCC", "GGGGGGGGGG"]), &library);
    assert_eq!(total, 4);
    assert_eq!(table.len(), 3);
    for (_, c) in &table {
        assert!(*c <= total);
    }
    assert_eq!(count_of(&table, "AAAAAAAAAA"), 2);
    assert_eq!(count_of(&table, "CCCCCCCCCC"), 1);
    assert_eq!(count_of(&table, "GGGGGGGGGG"), 0);
}

#[test]
fn library_matched_after_upper_casing() {
    let (_, table) = check_coverage(strings(&["ATGCATGCAT"]), &strings(&["ttatgcatgcattt"]));
    assert_eq!(count_of(&table, "ATGCATGCAT"), 1);
}

#[test]
fn empty_trigger_set_and_empty_library() {
    let (total, table) = check_coverage(Vec::new(), &strings(&["ATGC"]));
    assert_eq!(total, 1);
    assert!(table.is_empty());
    let (total, table) = check_coverage(strings(&["ATGCATGCAT"]), &Vec::new());
    assert_eq!(total, 0);
    assert_eq!(count_of(&table, "ATGCATGCAT"), 0);
}

#[test]
fn empty_or_header_only_library_counts_zero() {
    for lines in [Vec::new(), strings(&[">only_header\n"])] {
        let library = split_records(&lines);
        let (total, table) = check_coverage(strings(&["ATGCATGCAT"]), &library);
        assert_eq!(total, 0);
        assert_eq!(table, vec![(String::from("ATGCATGCAT"), 0)]);
    }
}

#[test]
fn tabulate_counts_presence_per_sequence() {
    let mut cov = Coverage::new(&strings(&["ATGCATGCAT", "GGGGGGGGGG"]));
    cov.tabulate("ATGCATGCATGCATGCAT");
    cov.tabulate("gggggggggg");
    let (total, table) = cov.into_counts();
    assert_eq!(total, 2);
    assert_eq!(count_of(&table, "ATGCATGCAT"), 1);
    assert_eq!(count_of(&table, "GGGGGGGGGG"), 1);
}

#[test]
fn reader_splits_records_at_headers() {
    let lines = strings(&[">one\n", "ATGC\n", "GGCC  \n", ">two\n", "TTAA\n"]);
    assert_eq!(split_records(&lines), strings(&["ATGCGGCC", "TTAA"]));
}

#[test]
fn reader_skips_lines_with_other_characters() {
    let lines = strings(&[">one", "ATGC", "atgc", "AT-G", "NNRY", "", ">two", ">three", "ACGU"]);
    assert_eq!(split_records(&lines), strings(&["ATGCNNRY", "ACGU"]));
}

#[test]
fn reader_without_header_gives_one_record() {
    assert_eq!(split_records(&strings(&["ATGC", "TTGG"])), strings(&["ATGCTTGG"]));
}

#[test]
fn reader_on_empty_or_header_only_input() {
    assert!(split_records(&Vec::new()).is_empty());
    assert!(split_records(&strings(&[">a", ">b"])).is_empty());
    assert_eq!(split_records(&strings(&[">a", "ACGT", ">b"])), strings(&["ACGT"]));
}

#[test]
fn reader_streams_one_record_at_a_time() {
    let mut reader = RecordReader::new();
    assert_eq!(reader.feed(">x"), None);
    assert_eq!(reader.feed("ATGC\r\n"), None);
    assert_eq!(reader.feed(">y"), Some(String::from("ATGC")));
    assert_eq!(reader.feed("GG"), None);
    assert_eq!(reader.finish(), Some(String::from("GG")));
    assert_eq!(RecordReader::new().finish(), None);
}

#[test]
fn trigger_length_in_range_is_accepted() {
    assert_eq!(trg_validate("10"), Ok(10));
    assert_eq!(trg_validate("100"), Ok(100));
    assert_eq!(trg_validate("+42"), Ok(42));
}

#[test]
fn trigger_length_out_of_range_is_refused() {
    let msg = String::from("Trigger length not in range considered: 10 - 100");
    assert_eq!(trg_validate("9"), Err(msg.clone()));
    assert_eq!(trg_validate("101"), Err(msg));
}

#[test]
fn trigger_length_not_a_number_is_default() {
    assert_eq!(trg_validate("abc"), Ok(36));
    assert_eq!(trg_validate(""), Ok(36));
    assert_eq!(trg_validate("-5"), Ok(36));
}

#[test]
fn alphabet_from_flag() {
    assert_eq!(Alphabet::from_flag(false), Alphabet::Standard);
    assert_eq!(Alphabet::from_flag(true), Alphabet::Extended);
    assert_eq!(Alphabet::Standard.chars(), vec!['A', 'T', 'G', 'C']);
    assert_eq!(Alphabet::Extended.chars().len(), 16);
}

#[test]
fn short_sequence_changes_no_trigger() {
    let cli = settings(10, false);
    let with_short = sorted(collect_windows(&strings(&["ATGCATGCATG", "ATG", "CCCCCCCCCCC"]), &cli));
    let without = sorted(collect_windows(&strings(&["ATGCATGCATG", "CCCCCCCCCCC"]), &cli));
    assert_eq!(with_short, without);
}

#[test]
fn ascii_windows_keep_their_length() {
    for w in make_windows("acgtnACGTNacgtn-x", 10) {
        assert_eq!(w.chars().count(), 10);
    }
}

#[test]
fn reader_trims_unicode_trailing_white_space() {
    let lines = strings(&[">r", "ACGT\t \u{a0}\u{3000}\n", "GG"]);
    assert_eq!(split_records(&lines), strings(&["ACGTGG"]));
}
