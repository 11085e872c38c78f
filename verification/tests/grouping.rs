use tc::aggregate::Aggregator;
use tc::aggregate::Group;
use tc::aggregate::counts;
use tc::matcher::MatcherSet;
use tc::tally::Tally;
use tc::tree::Node;

fn leaf(kind: &str) -> Node {
    Node { kind: kind.to_string(), children: Vec::new() }
}

fn flat_tree(leaves: usize) -> Node {
    let children = (0..leaves).map(|_| leaf("token")).collect();
    Node { kind: "root".to_string(), children }
}

fn unfiltered() -> MatcherSet {
    MatcherSet::new(Vec::new(), Vec::new()).ok().unwrap()
}

fn group<'a>(groups: &'a [Group], key: &str) -> &'a Group {
    groups.iter().find(|g| g.key == key).expect("the group must exist")
}

#[test]
fn tallies_merge_within_a_group() {
    let m = unfiltered();
    let files = vec![
        ("rust".to_string(), flat_tree(10)),
        ("rust".to_string(), flat_tree(7)),
    ];
    let agg = counts(files, &m);
    let groups = agg.groups();
    assert_eq!(groups.len(), 1);
    assert_eq!(groups[0].key, "rust");
    assert_eq!(groups[0].tally.total, 17);
    assert_eq!(groups[0].num_files, 2);
}

#[test]
fn merge_order_never_matters() {
    let m = unfiltered();
    let forward = vec![
        ("go".to_string(), flat_tree(3)),
        ("rust".to_string(), flat_tree(5)),
        ("go".to_string(), flat_tree(2)),
    ];
    let backward = vec![
        ("go".to_string(), flat_tree(2)),
        ("rust".to_string(), flat_tree(5)),
        ("go".to_string(), flat_tree(3)),
    ];
    let a = counts(forward, &m);
    let b = counts(backward, &m);
    let ga = a.groups();
    let gb = b.groups();
    assert_eq!(ga.len(), gb.len());
    for key in ["go", "rust"] {
        let x = group(ga, key);
        let y = group(gb, key);
        assert_eq!(x.tally.total, y.tally.total);
        assert_eq!(x.num_files, y.num_files);
    }
    assert_eq!(group(ga, "go").tally.total, 5);
    assert_eq!(group(ga, "go").num_files, 2);
    assert_eq!(group(ga, "rust").tally.total, 5);
    assert_eq!(group(ga, "rust").num_files, 1);
}

#[test]
fn empty_input_yields_no_groups() {
    let m = unfiltered();
    let agg = counts(Vec::new(), &m);
    assert_eq!(agg.groups().len(), 0);
}

#[test]
fn aggregator_adds_per_key() {
    let mut agg = Aggregator::new(0, 0);
    agg.add("a".to_string(), Tally::zero(0, 0));
    agg.add("b".to_string(), Tally::zero(0, 0));
    agg.add("a".to_string(), Tally::zero(0, 0));
    let groups = agg.groups();
    assert_eq!(groups.len(), 2);
    assert_eq!(group(groups, "a").num_files, 2);
    assert_eq!(group(groups, "b").num_files, 1);
}
