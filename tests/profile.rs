use cargo_profiler::metric::Metric;
use cargo_profiler::parse::{parse_report, ParseError, ProfilerMode};
use cargo_profiler::report::{profile, sort_spec_from_name, SortSpec};
use cargo_profiler::select::Selection;

const CALLGRIND: &str = "\
--------------------------------------------------------------------------------
Profile data file 'callgrind.out' (creator: callgrind-3.11.0)
--------------------------------------------------------------------------------
Events recorded:  Ir
--------------------------------------------------------------------------------
Ir
--------------------------------------------------------------------------------
1,500,000  PROGRAM TOTALS

--------------------------------------------------------------------------------
Ir  file:function
--------------------------------------------------------------------------------
1,000,000  foo::bar
500,000  baz
";

const CACHEGRIND: &str = "\
--------------------------------------------------------------------------------
I1 cache:         32768 B, 64 B, 8-way associative
--------------------------------------------------------------------------------
       Ir I1mr        Dr  file:function
--------------------------------------------------------------------------------
   10,000    7     2,000  ???:alpha
   30,000    1     2,000  ???:beta
   20,000    4     5,000  ???:gamma
";

fn mismatch_line(e: ParseError) -> (usize, usize, usize) {
    match e {
        ParseError::ColumnMismatch { line, expected, found } => (line, expected, found),
        other => panic!("unexpected error {:?}", other),
    }
}

#[test]
fn instruction_count_top_one_default_sort() {
    let r = profile(ProfilerMode::InstructionCount, CALLGRIND, Selection::Top(1), SortSpec::Default).unwrap();
    assert_eq!(r, "Functions: 2\nTotal Ir: 1,500,000\n\n1,000,000  foo::bar\n");
}

#[test]
fn instruction_count_sorts_descending_by_cost() {
    let text = "Ir  file:function\n5  small\n700  large\n60  medium\n";
    let r = profile(ProfilerMode::InstructionCount, text, Selection::All, SortSpec::Default).unwrap();
    assert_eq!(
        r,
        "Functions: 3\nTotal Ir: 765\n\n700  large\n 60  medium\n  5  small\n"
    );
}

#[test]
fn cache_column_mismatch() {
    let text = "Ir Dr  file:function\n1 2 3 foo\n";
    let e = profile(ProfilerMode::CacheBehavior, text, Selection::All, SortSpec::Default).unwrap_err();
    assert_eq!(mismatch_line(e), (2, 2, 3));
}

#[test]
fn banners_only_is_empty_output() {
    let text = "--------------\n==============\n\n   \nProfile data file 'x'\n--------------\n";
    assert_eq!(
        profile(ProfilerMode::InstructionCount, text, Selection::All, SortSpec::Default),
        Err(ParseError::EmptyOutput)
    );
    assert_eq!(
        profile(ProfilerMode::CacheBehavior, text, Selection::All, SortSpec::Default),
        Err(ParseError::EmptyOutput)
    );
    assert_eq!(
        profile(ProfilerMode::CacheBehavior, "", Selection::All, SortSpec::Default),
        Err(ParseError::EmptyOutput)
    );
}

#[test]
fn header_without_rows_is_empty_output() {
    let text = "Ir  file:function\n----\n1,000  PROGRAM TOTALS\n";
    assert_eq!(
        profile(ProfilerMode::InstructionCount, text, Selection::All, SortSpec::Default),
        Err(ParseError::EmptyOutput)
    );
}

#[test]
fn data_before_header_is_malformed() {
    let text = "banner\n100  foo\nIr  file:function\n";
    assert_eq!(
        profile(ProfilerMode::InstructionCount, text, Selection::All, SortSpec::Default),
        Err(ParseError::MalformedHeader { line: 2 })
    );
}

#[test]
fn instruction_mode_needs_cost_column() {
    let text = "Dr  file:function\n100  foo\n";
    assert_eq!(
        profile(ProfilerMode::InstructionCount, text, Selection::All, SortSpec::Default),
        Err(ParseError::MalformedHeader { line: 2 })
    );
    let r = profile(ProfilerMode::CacheBehavior, text, Selection::All, SortSpec::Default).unwrap();
    assert_eq!(r, "Functions: 1\nTotal Dr: 100\n\n100  foo\n");
}

#[test]
fn oversized_count_is_unparseable() {
    let text = "Ir  file:function\n99,999,999,999,999,999,999  foo\n";
    assert_eq!(
        profile(ProfilerMode::InstructionCount, text, Selection::All, SortSpec::Default),
        Err(ParseError::UnparseableNumber { line: 2, text: "99,999,999,999,999,999,999".to_string() })
    );
}

#[test]
fn cache_full_report_totals_and_order() {
    let r = profile(ProfilerMode::CacheBehavior, CACHEGRIND, Selection::All, SortSpec::Default).unwrap();
    assert_eq!(
        r,
        "Functions: 3\nTotal Ir: 60,000\nTotal I1mr: 12\nTotal Dr: 9,000\n\n\
         10,000  7  2,000  ???:alpha\n\
         30,000  1  2,000  ???:beta\n\
         20,000  4  5,000  ???:gamma\n"
    );
}

#[test]
fn cache_top_n_by_metric_is_stable() {
    let r = profile(ProfilerMode::CacheBehavior, CACHEGRIND, Selection::Top(2), SortSpec::By(Metric::Dr)).unwrap();
    assert_eq!(
        r,
        "Functions: 3\nTotal Ir: 60,000\nTotal I1mr: 12\nTotal Dr: 9,000\n\n\
         20,000  4  5,000  ???:gamma\n\
         10,000  7  2,000  ???:alpha\n"
    );
}

#[test]
fn top_n_at_least_count_is_all() {
    let all = profile(ProfilerMode::CacheBehavior, CACHEGRIND, Selection::All, SortSpec::By(Metric::Ir)).unwrap();
    let ten = profile(ProfilerMode::CacheBehavior, CACHEGRIND, Selection::Top(10), SortSpec::By(Metric::Ir)).unwrap();
    let three = profile(ProfilerMode::CacheBehavior, CACHEGRIND, Selection::Top(3), SortSpec::By(Metric::Ir)).unwrap();
    assert_eq!(all, ten);
    assert_eq!(all, three);
    assert!(all.ends_with("???:beta\n20,000  4  5,000  ???:gamma\n10,000  7  2,000  ???:alpha\n"));
}

#[test]
fn top_zero_lists_no_rows() {
    let r = profile(ProfilerMode::InstructionCount, CALLGRIND, Selection::Top(0), SortSpec::Default).unwrap();
    assert_eq!(r, "Functions: 2\nTotal Ir: 1,500,000\n\n");
}

#[test]
fn sort_by_absent_metric_fails() {
    assert_eq!(
        profile(ProfilerMode::CacheBehavior, CACHEGRIND, Selection::All, SortSpec::By(Metric::D1mr)),
        Err(ParseError::UnknownMetric { name: "D1mr".to_string() })
    );
}

#[test]
fn same_text_gives_same_report() {
    let a = profile(ProfilerMode::CacheBehavior, CACHEGRIND, Selection::Top(2), SortSpec::Default).unwrap();
    let b = profile(ProfilerMode::CacheBehavior, CACHEGRIND, Selection::Top(2), SortSpec::Default).unwrap();
    assert_eq!(a, b);
}

#[test]
fn call_counts_and_names_with_spaces() {
    let text = "Ir  file:function\n  2,500 (12)  std::vec::Vec<T> as Clone>::clone  \n";
    let r = profile(ProfilerMode::InstructionCount, text, Selection::All, SortSpec::Default).unwrap();
    assert_eq!(r, "Functions: 1\nTotal Ir: 2,500\n\n2,500  (12x) std::vec::Vec<T> as Clone>::clone\n");
}

#[test]
fn percentage_columns_are_ignored() {
    let text = "Ir Dr  file:function\n1,000 (50.0%)  20 (10.0%)  foo\n";
    let p = parse_report(ProfilerMode::CacheBehavior, text).unwrap();
    assert_eq!(p.columns, vec![Metric::Ir, Metric::Dr]);
    assert_eq!(p.rows.len(), 1);
    assert_eq!(p.rows[0].values, vec![1000, 20]);
    assert_eq!(p.rows[0].name, "foo");
    assert_eq!(p.rows[0].calls, None);
}

#[test]
fn dot_grouping_and_large_values() {
    let text = "Ir  file:function\n1.234.567.890.123  big\n";
    let r = profile(ProfilerMode::InstructionCount, text, Selection::All, SortSpec::Default).unwrap();
    assert_eq!(r, "Functions: 1\nTotal Ir: 1,234,567,890,123\n\n1,234,567,890,123  big\n");
}

#[test]
fn totals_sum_past_sixty_four_bits() {
    let text = "Ir  file:function\n18,446,744,073,709,551,615  a\n18,446,744,073,709,551,615  b\n";
    let r = profile(ProfilerMode::InstructionCount, text, Selection::Top(0), SortSpec::Default).unwrap();
    assert_eq!(r, "Functions: 2\nTotal Ir: 36,893,488,147,419,103,230\n\n");
}

#[test]
fn sort_names_resolve() {
    assert_eq!(sort_spec_from_name("D1mr"), Ok(SortSpec::By(Metric::D1mr)));
    assert_eq!(
        sort_spec_from_name("bogus"),
        Err(ParseError::UnknownMetric { name: "bogus".to_string() })
    );
    assert_eq!(Metric::from_name("Bim"), Some(Metric::Bim));
    assert_eq!(Metric::from_name("ir"), None);
    assert_eq!(Metric::ILmr.label(), vec!['I', 'L', 'm', 'r']);
}

#[test]
fn parsed_rows_keep_text_order() {
    let p = parse_report(ProfilerMode::CacheBehavior, CACHEGRIND).unwrap();
    let names: Vec<&str> = p.rows.iter().map(|r| r.name.as_str()).collect();
    assert_eq!(names, vec!["???:alpha", "???:beta", "???:gamma"]);
    assert_eq!(p.rows[2].values, vec![20000, 4, 5000]);
}

#[test]
fn columns_align_to_widest_count() {
    let text = "Ir  file:function\n5  b\n1,000,000  a\n";
    let r = profile(ProfilerMode::InstructionCount, text, Selection::All, SortSpec::Default).unwrap();
    assert_eq!(r, "Functions: 2\nTotal Ir: 1,000,005\n\n1,000,000  a\n        5  b\n");
}
