use tc::aggregate::Aggregator;
use tc::cli::SortBy;
use tc::report::report;
use tc::tally::Tally;

fn tally_with_total(total: u64) -> Tally {
    let mut t = Tally::zero(0, 0);
    t.total = total;
    t
}

fn aggregate(entries: &[(&str, u64)]) -> Aggregator {
    let mut agg = Aggregator::new(0, 0);
    for (key, total) in entries {
        agg.add(key.to_string(), tally_with_total(*total));
    }
    agg
}

fn keys(rows: &[tc::report::ReportRow]) -> Vec<String> {
    rows.iter().map(|r| r.key.clone()).collect()
}

#[test]
fn sort_by_tokens_descends_with_key_tiebreak() {
    let agg = aggregate(&[("b", 5), ("a", 5), ("c", 9)]);
    let rows = report(agg.groups(), SortBy::Tokens, false);
    assert_eq!(keys(&rows), vec!["c", "a", "b"]);
}

#[test]
fn sort_by_group_ascends_by_key() {
    let agg = aggregate(&[("rust", 1), ("go", 2), ("ada", 3)]);
    let rows = report(agg.groups(), SortBy::Group, false);
    assert_eq!(keys(&rows), vec!["ada", "go", "rust"]);
}

#[test]
fn sort_by_numfiles_descends() {
    let mut agg = Aggregator::new(0, 0);
    for _ in 0..3 {
        agg.add("go".to_string(), tally_with_total(1));
    }
    for _ in 0..5 {
        agg.add("rust".to_string(), tally_with_total(1));
    }
    let rows = report(agg.groups(), SortBy::NumFiles, false);
    assert_eq!(keys(&rows), vec!["rust", "go"]);
    assert_eq!(rows[0].num_files, 5);
    assert_eq!(rows[1].num_files, 3);
}

#[test]
fn sorting_is_reproducible() {
    let one = aggregate(&[("b", 4), ("a", 4), ("c", 4)]);
    let two = aggregate(&[("c", 4), ("a", 4), ("b", 4)]);
    let rows_one = report(one.groups(), SortBy::Tokens, false);
    let rows_two = report(two.groups(), SortBy::Tokens, false);
    assert_eq!(keys(&rows_one), vec!["a", "b", "c"]);
    assert_eq!(keys(&rows_one), keys(&rows_two));
}

#[test]
fn totals_row_sums_groups_after_sorting() {
    let agg = aggregate(&[("go", 3), ("rust", 5)]);
    let rows = report(agg.groups(), SortBy::Tokens, true);
    assert_eq!(rows.len(), 3);
    assert_eq!(rows[0].key, "rust");
    assert_eq!(rows[1].key, "go");
    assert_eq!(rows[2].key, "total");
    assert_eq!(rows[2].tokens, 8);
    assert_eq!(rows[2].num_files, 2);
}

#[test]
fn report_of_nothing_is_empty() {
    let agg = Aggregator::new(0, 0);
    let rows = report(agg.groups(), SortBy::Tokens, false);
    assert!(rows.is_empty());
    let with_totals = report(agg.groups(), SortBy::Tokens, true);
    assert_eq!(with_totals.len(), 1);
    assert_eq!(with_totals[0].tokens, 0);
}
