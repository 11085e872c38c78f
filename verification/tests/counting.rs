use tc::counter::count_tokens;
use tc::matcher::MatcherSet;
use tc::tree::Node;
use tc::tree::traverse;

fn leaf(kind: &str) -> Node {
    Node { kind: kind.to_string(), children: Vec::new() }
}

fn node(kind: &str, children: Vec<Node>) -> Node {
    Node { kind: kind.to_string(), children }
}

fn matcher(kinds: Vec<&str>, patterns: Vec<&str>) -> MatcherSet {
    let kinds = kinds.into_iter().map(|k| k.to_string()).collect();
    let patterns = patterns.into_iter().map(|p| p.to_string()).collect();
    MatcherSet::new(kinds, patterns).ok().unwrap()
}

/// The tree used by several tests: kinds [module, function, identifier,
/// comment, comment], where module and function are internal nodes and the
/// other three are leaves.
fn sample_tree() -> Node {
    node(
        "module",
        vec![
            node("function", vec![leaf("identifier")]),
            leaf("comment"),
            leaf("comment"),
        ],
    )
}

#[test]
fn traverse_lists_every_node_parent_first() {
    let kinds = traverse(&sample_tree());
    assert_eq!(
        kinds,
        vec![
            "module".to_string(),
            "function".to_string(),
            "identifier".to_string(),
            "comment".to_string(),
            "comment".to_string(),
        ]
    );
}

#[test]
fn traverse_single_node() {
    let kinds = traverse(&leaf("ERROR"));
    assert_eq!(kinds, vec!["ERROR".to_string()]);
}

#[test]
fn unfiltered_total_counts_leaves() {
    let m = matcher(vec![], vec![]);
    let t = count_tokens(&sample_tree(), &m);
    assert_eq!(t.total, 3);
    assert_eq!(t.kind_counts.len(), 0);
    assert_eq!(t.pattern_counts.len(), 0);
}

#[test]
fn comment_pattern_scenario() {
    let m = matcher(vec![], vec![".*comment.*"]);
    let t = count_tokens(&sample_tree(), &m);
    assert_eq!(t.total, 3);
    assert_eq!(t.pattern_counts, vec![2]);
}

#[test]
fn pattern_uses_search_semantics() {
    let tree = node("module", vec![leaf("line_comment"), leaf("block_comment"), leaf("comment")]);
    let m = matcher(vec![], vec!["comment", "^comment$"]);
    let t = count_tokens(&tree, &m);
    assert_eq!(t.pattern_counts, vec![3, 1]);
}

#[test]
fn literal_and_pattern_both_count() {
    let m_both = matcher(vec!["comment"], vec!["comm"]);
    let t_both = count_tokens(&sample_tree(), &m_both);
    assert_eq!(t_both.kind_counts, vec![2]);
    assert_eq!(t_both.pattern_counts, vec![2]);

    let m_literal_only = matcher(vec!["comment"], vec![]);
    let t_literal_only = count_tokens(&sample_tree(), &m_literal_only);
    assert_eq!(t_literal_only.kind_counts, t_both.kind_counts);
}

#[test]
fn literal_matches_internal_nodes_too() {
    let m = matcher(vec!["function"], vec![]);
    let t = count_tokens(&sample_tree(), &m);
    assert_eq!(t.kind_counts, vec![1]);
    assert_eq!(t.total, 3);
}

#[test]
fn count_is_deterministic() {
    let m = matcher(vec!["comment"], vec![".*comment.*"]);
    let first = count_tokens(&sample_tree(), &m);
    let second = count_tokens(&sample_tree(), &m);
    assert_eq!(first.total, second.total);
    assert_eq!(first.kind_counts, second.kind_counts);
    assert_eq!(first.pattern_counts, second.pattern_counts);
}

#[test]
fn invalid_pattern_is_config_error() {
    let r = MatcherSet::new(Vec::new(), vec!["(".to_string()]);
    let e = match r {
        Err(e) => e,
        Ok(_) => panic!("an invalid pattern must be rejected at construction"),
    };
    assert_eq!(e.pattern, "(");
    assert_eq!(e.message(), "invalid kind pattern: (");
}

#[test]
fn matcher_reports_its_group_names() {
    let m = matcher(vec!["identifier"], vec!["comm", "ident"]);
    assert_eq!(m.kind_names(), &vec!["identifier".to_string()]);
    assert_eq!(m.pattern_names(), vec!["comm".to_string(), "ident".to_string()]);
}
