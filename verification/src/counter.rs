//! The per-file counter: one pre-order pass over a tree with a matcher set,
//! producing the file's tally. The tally of a tree is pinned down by the spec
//! function `tree_tally`, a function of the tree and the matcher alone.

use vstd::prelude::*;
use crate::matcher::{MatcherModel, MatcherSet, pattern_accepts};
use crate::tally::{
    TallyModel, Tally, capped, cap_add, zero_model, merge_model, lemma_merge_assoc,
    lemma_merge_zero, lemma_capped_add,
};
use crate::tree::{Node, leaf_count, leaf_count_seq};

verus! {

/// The contribution of one node by itself: one token if it is a leaf, one
/// count in each match-group whose filter its kind satisfies.
pub open spec fn node_tally(n: Node, m: MatcherModel) -> TallyModel {
    TallyModel {
        total: if n.children@.len() == 0 {
            1
        } else {
            0
        },
        kind_counts: Seq::new(
            m.kinds.len(),
            |i: int|
                if m.kinds[i] == n.kind@ {
                    1u64
                } else {
                    0u64
                },
        ),
        pattern_counts: Seq::new(
            m.patterns.len(),
            |i: int|
                if pattern_accepts(m.patterns[i], n.kind@) {
                    1u64
                } else {
                    0u64
                },
        ),
    }
}

/// The tally of a whole subtree: the root's own contribution merged with its
/// children's.
pub open spec fn tree_tally(n: Node, m: MatcherModel) -> TallyModel
    decreases n,
{
    merge_model(node_tally(n, m), forest_tally(n.children@, m))
}

/// The combined tally of a forest of subtrees.
pub open spec fn forest_tally(s: Seq<Node>, m: MatcherModel) -> TallyModel
    decreases s,
{
    if s.len() == 0 {
        zero_model(m.kinds.len(), m.patterns.len())
    } else {
        merge_model(tree_tally(s.first(), m), forest_tally(s.drop_first(), m))
    }
}

/// How often a kind occurs in the subtree rooted at `n`.
pub open spec fn kind_occurrences(n: Node, k: Seq<char>) -> nat
    decreases n,
{
    (if n.kind@ == k {
        1nat
    } else {
        0nat
    }) + kind_occurrences_seq(n.children@, k)
}

/// How often a kind occurs in a forest of subtrees.
pub open spec fn kind_occurrences_seq(s: Seq<Node>, k: Seq<char>) -> nat
    decreases s,
{
    if s.len() == 0 {
        0
    } else {
        kind_occurrences(s.first(), k) + kind_occurrences_seq(s.drop_first(), k)
    }
}

/// How many nodes of the subtree rooted at `n` a pattern matches.
pub open spec fn pattern_occurrences(n: Node, p: Seq<char>) -> nat
    decreases n,
{
    (if pattern_accepts(p, n.kind@) {
        1nat
    } else {
        0nat
    }) + pattern_occurrences_seq(n.children@, p)
}

/// How many nodes of a forest a pattern matches.
pub open spec fn pattern_occurrences_seq(s: Seq<Node>, p: Seq<char>) -> nat
    decreases s,
{
    if s.len() == 0 {
        0
    } else {
        pattern_occurrences(s.first(), p) + pattern_occurrences_seq(s.drop_first(), p)
    }
}

/// What each counter of a tree's tally counts: the total counts the leaves,
/// each kind counter the occurrences of its literal, each pattern counter the
/// nodes its pattern matches — each one a function of the tree and that one
/// filter alone, independent of every other filter.
pub proof fn lemma_tree_tally_counts(n: Node, m: MatcherModel)
    ensures
        tree_tally(n, m).kind_counts.len() == m.kinds.len(),
        tree_tally(n, m).pattern_counts.len() == m.patterns.len(),
        tree_tally(n, m).total == capped(leaf_count(n)),
        forall|i: int|
            0 <= i < m.kinds.len() ==> tree_tally(n, m).kind_counts[i] == capped(
                kind_occurrences(n, m.kinds[i]),
            ),
        forall|i: int|
            0 <= i < m.patterns.len() ==> tree_tally(n, m).pattern_counts[i] == capped(
                pattern_occurrences(n, m.patterns[i]),
            ),
    decreases n,
{
    lemma_forest_tally_counts(n.children@, m);
    let own = node_tally(n, m);
    let rest = forest_tally(n.children@, m);
    assert forall|i: int| 0 <= i < m.kinds.len() implies tree_tally(n, m).kind_counts[i] == capped(
        kind_occurrences(n, m.kinds[i]),
    ) by {
        lemma_capped_add(
            if n.kind@ == m.kinds[i] {
                1nat
            } else {
                0nat
            },
            kind_occurrences_seq(n.children@, m.kinds[i]),
        );
    }
    assert forall|i: int| 0 <= i < m.patterns.len() implies tree_tally(n, m).pattern_counts[i]
        == capped(pattern_occurrences(n, m.patterns[i])) by {
        lemma_capped_add(
            if pattern_accepts(m.patterns[i], n.kind@) {
                1nat
            } else {
                0nat
            },
            pattern_occurrences_seq(n.children@, m.patterns[i]),
        );
    }
    if n.children@.len() == 0 {
        assert(tree_tally(n, m).total == cap_add(1, 0));
    } else {
        lemma_capped_add(0, leaf_count_seq(n.children@));
    }
}

/// The forest version of `lemma_tree_tally_counts`.
pub proof fn lemma_forest_tally_counts(s: Seq<Node>, m: MatcherModel)
    ensures
        forest_tally(s, m).kind_counts.len() == m.kinds.len(),
        forest_tally(s, m).pattern_counts.len() == m.patterns.len(),
        forest_tally(s, m).total == capped(leaf_count_seq(s)),
        forall|i: int|
            0 <= i < m.kinds.len() ==> forest_tally(s, m).kind_counts[i] == capped(
                kind_occurrences_seq(s, m.kinds[i]),
            ),
        forall|i: int|
            0 <= i < m.patterns.len() ==> forest_tally(s, m).pattern_counts[i] == capped(
                pattern_occurrences_seq(s, m.patterns[i]),
            ),
    decreases s,
{
    if s.len() == 0 {
    } else {
        lemma_tree_tally_counts(s.first(), m);
        lemma_forest_tally_counts(s.drop_first(), m);
        assert forall|i: int| 0 <= i < m.kinds.len() implies forest_tally(s, m).kind_counts[i]
            == capped(kind_occurrences_seq(s, m.kinds[i])) by {
            lemma_capped_add(
                kind_occurrences(s.first(), m.kinds[i]),
                kind_occurrences_seq(s.drop_first(), m.kinds[i]),
            );
        }
        assert forall|i: int| 0 <= i < m.patterns.len() implies forest_tally(s, m).pattern_counts[i]
            == capped(pattern_occurrences_seq(s, m.patterns[i])) by {
            lemma_capped_add(
                pattern_occurrences(s.first(), m.patterns[i]),
                pattern_occurrences_seq(s.drop_first(), m.patterns[i]),
            );
        }
        lemma_capped_add(leaf_count(s.first()), leaf_count_seq(s.drop_first()));
    }
}

/// With no filters at all, a tree's tally is nothing but its leaf count: the
/// total token count equals the number of leaf nodes.
pub proof fn lemma_unfiltered_total_is_leaf_count(n: Node, m: MatcherModel)
    requires
        m.kinds.len() == 0,
        m.patterns.len() == 0,
    ensures
        tree_tally(n, m) == (TallyModel {
            total: capped(leaf_count(n)),
            kind_counts: Seq::<u64>::empty(),
            pattern_counts: Seq::<u64>::empty(),
        }),
{
    lemma_tree_tally_counts(n, m);
    assert(tree_tally(n, m) =~= TallyModel {
        total: capped(leaf_count(n)),
        kind_counts: Seq::<u64>::empty(),
        pattern_counts: Seq::<u64>::empty(),
    });
}

/// Match-groups are independent: a filter's counter is the same under any two
/// matcher sets that contain it, wherever it stands and whatever else they
/// hold. In particular, a node matching both a kind literal and a kind
/// pattern counts once in each, and removing one filter never changes
/// another's counter.
pub proof fn lemma_match_groups_independent(n: Node, m1: MatcherModel, m2: MatcherModel, i1: int, i2: int, j1: int, j2: int)
    requires
        0 <= i1 < m1.kinds.len(),
        0 <= i2 < m2.kinds.len(),
        m1.kinds[i1] == m2.kinds[i2],
        0 <= j1 < m1.patterns.len(),
        0 <= j2 < m2.patterns.len(),
        m1.patterns[j1] == m2.patterns[j2],
    ensures
        tree_tally(n, m1).kind_counts[i1] == tree_tally(n, m2).kind_counts[i2],
        tree_tally(n, m1).pattern_counts[j1] == tree_tally(n, m2).pattern_counts[j2],
{
    lemma_tree_tally_counts(n, m1);
    lemma_tree_tally_counts(n, m2);
}

/// Appending one more subtree to a forest merges in its tally.
proof fn lemma_forest_tally_snoc(s: Seq<Node>, x: Node, m: MatcherModel)
    ensures
        forest_tally(s.push(x), m) == merge_model(forest_tally(s, m), tree_tally(x, m)),
    decreases s.len(),
{
    lemma_tree_tally_counts(x, m);
    lemma_forest_tally_counts(s, m);
    if s.len() == 0 {
        reveal_with_fuel(forest_tally, 2);
        assert(s.push(x).first() == x);
        assert(s.push(x).drop_first() =~= Seq::<Node>::empty());
        lemma_merge_zero(tree_tally(x, m), m.kinds.len(), m.patterns.len());
        assert(forest_tally(s.push(x), m) =~= merge_model(forest_tally(s, m), tree_tally(x, m)));
    } else {
        assert(s.push(x).first() == s.first());
        assert(s.push(x).drop_first() =~= s.drop_first().push(x));
        lemma_forest_tally_snoc(s.drop_first(), x, m);
        lemma_merge_assoc(tree_tally(s.first(), m), forest_tally(s.drop_first(), m), tree_tally(x, m));
    }
}

/// Counts one file's tree: walks every node once and returns the tally that
/// `tree_tally` prescribes for this tree and matcher set — the same tally on
/// every call.
pub fn count_tokens(root: &Node, m: &MatcherSet) -> (t: Tally)
    ensures
        t@ == tree_tally(*root, m@),
    decreases *root,
{
    let (kind_flags, pattern_flags) = m.classify(root);
    let is_leaf = m.is_token(root);
    let mut t = Tally {
        total: if is_leaf {
            1
        } else {
            0
        },
        kind_counts: flags_to_counts(&kind_flags),
        pattern_counts: flags_to_counts(&pattern_flags),
    };
    proof {
        assert(t@ =~= node_tally(*root, m@));
        assert(root.children@.take(0) =~= Seq::<Node>::empty());
        lemma_merge_zero(node_tally(*root, m@), m@.kinds.len(), m@.patterns.len());
        lemma_tree_tally_counts(*root, m@);
    }
    let mut i: usize = 0;
    while i < root.children.len()
        invariant
            i <= root.children@.len(),
            t@ == merge_model(node_tally(*root, m@), forest_tally(root.children@.take(i as int), m@)),
            t@.kind_counts.len() == m@.kinds.len(),
            t@.pattern_counts.len() == m@.patterns.len(),
        decreases root.children@.len() - i,
    {
        let sub = count_tokens(&root.children[i], m);
        proof {
            lemma_tree_tally_counts(root.children@[i as int], m@);
        }
        t.merge(&sub);
        proof {
            assert(root.children@.take(i + 1) =~= root.children@.take(i as int).push(
                root.children@[i as int],
            ));
            lemma_forest_tally_snoc(root.children@.take(i as int), root.children@[i as int], m@);
            lemma_merge_assoc(
                node_tally(*root, m@),
                forest_tally(root.children@.take(i as int), m@),
                tree_tally(root.children@[i as int], m@),
            );
            lemma_forest_tally_counts(root.children@.take(i + 1), m@);
        }
        i += 1;
    }
    proof {
        assert(root.children@.take(root.children@.len() as int) =~= root.children@);
    }
    t
}

/// Turns match flags into per-group counters: one where the flag is set.
fn flags_to_counts(flags: &Vec<bool>) -> (v: Vec<u64>)
    ensures
        v@ == Seq::new(
            flags@.len(),
            |i: int|
                if flags@[i] {
                    1u64
                } else {
                    0u64
                },
        ),
{
    let mut v: Vec<u64> = Vec::new();
    let mut i: usize = 0;
    while i < flags.len()
        invariant
            i <= flags@.len(),
            v@.len() == i,
            forall|j: int|
                0 <= j < i ==> v@[j] == (if flags@[j] {
                    1u64
                } else {
                    0u64
                }),
        decreases flags@.len() - i,
    {
        if flags[i] {
            v.push(1);
        } else {
            v.push(0);
        }
        i += 1;
    }
    proof {
        assert(v@ =~= Seq::new(
            flags@.len(),
            |i: int|
                if flags@[i] {
                    1u64
                } else {
                    0u64
                },
        ));
    }
    v
}

} // verus!
