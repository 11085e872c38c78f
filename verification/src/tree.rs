//! The syntax tree as the counting pipeline reads it: every node carries its
//! grammar-defined kind tag and its ordered children, nothing else. A walk of
//! the tree is modelled by `preorder_kinds`: the kind of every node, parent
//! first, children left to right.

use vstd::prelude::*;

verus! {

/// One node of a parsed syntax tree. A node with no children is a leaf.
pub struct Node {
    pub kind: String,
    pub children: Vec<Node>,
}

/// How many nodes the subtree rooted at `n` holds, the root included.
pub open spec fn node_count(n: Node) -> nat
    decreases n,
{
    1 + node_count_seq(n.children@)
}

/// How many nodes the subtrees rooted at the nodes of `s` hold together.
pub open spec fn node_count_seq(s: Seq<Node>) -> nat
    decreases s,
{
    if s.len() == 0 {
        0
    } else {
        node_count(s.first()) + node_count_seq(s.drop_first())
    }
}

/// How many leaves the subtree rooted at `n` holds.
pub open spec fn leaf_count(n: Node) -> nat
    decreases n,
{
    if n.children@.len() == 0 {
        1
    } else {
        leaf_count_seq(n.children@)
    }
}

/// How many leaves the subtrees rooted at the nodes of `s` hold together.
pub open spec fn leaf_count_seq(s: Seq<Node>) -> nat
    decreases s,
{
    if s.len() == 0 {
        0
    } else {
        leaf_count(s.first()) + leaf_count_seq(s.drop_first())
    }
}

/// The kinds of the nodes of the subtree rooted at `n`, in pre-order:
/// the root's kind first, then each child's subtree in order.
pub open spec fn preorder_kinds(n: Node) -> Seq<Seq<char>>
    decreases n,
{
    seq![n.kind@] + preorder_kinds_seq(n.children@)
}

/// The pre-order kinds of the subtrees rooted at the nodes of `s`, in order.
pub open spec fn preorder_kinds_seq(s: Seq<Node>) -> Seq<Seq<char>>
    decreases s,
{
    if s.len() == 0 {
        Seq::empty()
    } else {
        preorder_kinds(s.first()) + preorder_kinds_seq(s.drop_first())
    }
}

/// The character sequences of a sequence of strings.
pub open spec fn kinds_view(s: Seq<String>) -> Seq<Seq<char>> {
    Seq::new(s.len(), |i: int| s[i]@)
}

/// Appending one more subtree appends its pre-order kinds at the end.
pub proof fn lemma_preorder_kinds_seq_snoc(s: Seq<Node>, x: Node)
    ensures
        preorder_kinds_seq(s.push(x)) == preorder_kinds_seq(s) + preorder_kinds(x),
    decreases s.len(),
{
    if s.len() == 0 {
        reveal_with_fuel(preorder_kinds_seq, 2);
        assert(s.push(x).first() == x);
        assert(s.push(x).drop_first() =~= Seq::<Node>::empty());
        assert(preorder_kinds_seq(s.push(x)) =~= preorder_kinds_seq(s) + preorder_kinds(x));
    } else {
        assert(s.push(x).first() == s.first());
        assert(s.push(x).drop_first() =~= s.drop_first().push(x));
        lemma_preorder_kinds_seq_snoc(s.drop_first(), x);
        assert(preorder_kinds(s.first()) + (preorder_kinds_seq(s.drop_first())
            + preorder_kinds(x)) =~= (preorder_kinds(s.first()) + preorder_kinds_seq(
            s.drop_first(),
        )) + preorder_kinds(x));
    }
}

/// The walk over a tree with N nodes lists exactly N kinds, and the root's
/// kind stands first: the parent is visited before any of its descendants.
pub proof fn lemma_traversal_complete(n: Node)
    ensures
        preorder_kinds(n).len() == node_count(n),
        preorder_kinds(n)[0] == n.kind@,
    decreases n,
{
    lemma_traversal_complete_seq(n.children@);
}

/// The walk over a forest with N nodes in total lists exactly N kinds.
pub proof fn lemma_traversal_complete_seq(s: Seq<Node>)
    ensures
        preorder_kinds_seq(s).len() == node_count_seq(s),
    decreases s,
{
    if s.len() > 0 {
        lemma_traversal_complete(s.first());
        lemma_traversal_complete_seq(s.drop_first());
    }
}

/// Where the `j`-th child's subtree starts inside its parent's pre-order walk:
/// one slot for the parent itself, then the subtrees of the earlier siblings.
pub open spec fn child_offset(n: Node, j: int) -> int {
    1 + node_count_seq(n.children@.take(j)) as int
}

/// The kinds listed for a forest between the `j`-th subtree's offset and its
/// end are exactly that subtree's pre-order kinds.
proof fn lemma_forest_subrange(s: Seq<Node>, j: int)
    requires
        0 <= j < s.len(),
    ensures
        node_count_seq(s.take(j)) + node_count(s[j]) <= node_count_seq(s),
        preorder_kinds_seq(s).subrange(
            node_count_seq(s.take(j)) as int,
            node_count_seq(s.take(j)) as int + node_count(s[j]) as int,
        ) == preorder_kinds(s[j]),
    decreases j,
{
    lemma_traversal_complete_seq(s);
    lemma_traversal_complete(s.first());
    lemma_traversal_complete_seq(s.drop_first());
    if j == 0 {
        assert(s.take(0) =~= Seq::<Node>::empty());
        assert(preorder_kinds_seq(s).subrange(0, node_count(s[0]) as int) =~= preorder_kinds(
            s.first(),
        ));
    } else {
        lemma_forest_subrange(s.drop_first(), j - 1);
        assert(s.take(j).first() == s.first());
        assert(s.take(j).drop_first() =~= s.drop_first().take(j - 1));
        lemma_traversal_complete(s[j]);
        lemma_traversal_complete_seq(s.drop_first().take(j - 1));
        let off0 = node_count(s.first()) as int;
        let off = node_count_seq(s.drop_first().take(j - 1)) as int;
        let w = node_count(s[j]) as int;
        assert(s.drop_first()[j - 1] == s[j]);
        lemma_count_take_le(s.drop_first(), j - 1);
        assert(preorder_kinds_seq(s).subrange(off0 + off, off0 + off + w) =~= preorder_kinds_seq(
            s.drop_first(),
        ).subrange(off, off + w));
    }
}

/// A prefix of a forest never holds more nodes than the whole forest.
proof fn lemma_count_take_le(s: Seq<Node>, j: int)
    requires
        0 <= j < s.len(),
    ensures
        node_count_seq(s.take(j)) + node_count(s[j]) <= node_count_seq(s),
    decreases j,
{
    if j == 0 {
        assert(s.take(0) =~= Seq::<Node>::empty());
        lemma_node_count_seq_nonneg(s.drop_first());
    } else {
        lemma_count_take_le(s.drop_first(), j - 1);
        assert(s.take(j).first() == s.first());
        assert(s.take(j).drop_first() =~= s.drop_first().take(j - 1));
        assert(s.drop_first()[j - 1] == s[j]);
    }
}

/// A forest holds no negative number of nodes.
proof fn lemma_node_count_seq_nonneg(s: Seq<Node>)
    ensures
        node_count_seq(s) >= 0,
{
}

/// The parent is walked before each of its children: inside the parent's
/// pre-order kinds, the `j`-th child's subtree occupies the slots from
/// `child_offset` on, and that offset lies past the parent's own slot 0.
pub proof fn lemma_parent_before_children(n: Node, j: int)
    requires
        0 <= j < n.children@.len(),
    ensures
        1 <= child_offset(n, j),
        child_offset(n, j) + node_count(n.children@[j]) <= node_count(n),
        preorder_kinds(n).subrange(
            child_offset(n, j),
            child_offset(n, j) + node_count(n.children@[j]),
        ) == preorder_kinds(n.children@[j]),
        preorder_kinds(n)[0] == n.kind@,
{
    lemma_traversal_complete(n);
    lemma_traversal_complete_seq(n.children@);
    lemma_forest_subrange(n.children@, j);
    let off = node_count_seq(n.children@.take(j)) as int;
    let w = node_count(n.children@[j]) as int;
    assert(preorder_kinds(n).subrange(1 + off, 1 + off + w) =~= preorder_kinds_seq(
        n.children@,
    ).subrange(off, off + w));
}

/// Pre-order depth-first walk of the tree: returns the kind of every node,
/// exactly once per node, parent before its children, siblings left to right.
pub fn traverse(root: &Node) -> (out: Vec<String>)
    ensures
        kinds_view(out@) == preorder_kinds(*root),
    decreases *root,
{
    let mut out: Vec<String> = Vec::new();
    out.push(root.kind.clone());
    proof {
        assert(root.children@.take(0) =~= Seq::<Node>::empty());
        assert(kinds_view(out@) =~= seq![root.kind@] + preorder_kinds_seq(root.children@.take(0)));
    }
    let mut i: usize = 0;
    while i < root.children.len()
        invariant
            i <= root.children@.len(),
            kinds_view(out@) == seq![root.kind@] + preorder_kinds_seq(
                root.children@.take(i as int),
            ),
        decreases root.children@.len() - i,
    {
        let mut sub = traverse(&root.children[i]);
        let ghost old_out = out@;
        let ghost sub_snap = sub@;
        out.append(&mut sub);
        proof {
            assert(root.children@.take(i + 1) =~= root.children@.take(i as int).push(
                root.children@[i as int],
            ));
            lemma_preorder_kinds_seq_snoc(root.children@.take(i as int), root.children@[i as int]);
            assert(kinds_view(out@) =~= kinds_view(old_out) + kinds_view(sub_snap));
            assert(kinds_view(out@) =~= seq![root.kind@] + preorder_kinds_seq(
                root.children@.take(i + 1),
            ));
        }
        i += 1;
    }
    proof {
        assert(root.children@.take(root.children@.len() as int) =~= root.children@);
    }
    out
}

} // verus!
