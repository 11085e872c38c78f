//! The aggregator: folds the stream of per-file (group key, tally)
//! contributions into one group per key. The fold is pinned down by
//! `aggregate_model`, and `lemma_aggregate_order_independent` shows that the
//! final per-group totals do not depend on the order in which files arrive.

use vstd::prelude::*;
use crate::counter::{count_tokens, lemma_tree_tally_counts, tree_tally};
use crate::matcher::{MatcherModel, MatcherSet};
use crate::tally::{
    Tally, TallyModel, add_counter, cap_add, lemma_merge_assoc, lemma_merge_comm, merge_model,
};
use crate::tree::Node;

verus! {

/// One group's accumulated state: the merged tally and how many files
/// contributed to it.
#[verifier::ext_equal]
pub ghost struct GroupModel {
    pub tally: TallyModel,
    pub files: u64,
}

/// One group of the report: its key, its merged tally, and how many files
/// contributed to it.
pub struct Group {
    pub key: String,
    pub tally: Tally,
    pub num_files: u64,
}

impl Group {
    /// The mathematical content of the group.
    pub open spec fn model(self) -> GroupModel {
        GroupModel { tally: self.tally@, files: self.num_files }
    }
}

/// Folding one contribution into the aggregate: the first contribution for a
/// key creates its group with one file counted; every later one merges
/// counter-wise and counts one more file.
pub open spec fn agg_step(
    acc: Map<Seq<char>, GroupModel>,
    k: Seq<char>,
    t: TallyModel,
) -> Map<Seq<char>, GroupModel> {
    if acc.dom().contains(k) {
        acc.insert(
            k,
            GroupModel { tally: merge_model(acc[k].tally, t), files: cap_add(acc[k].files, 1) },
        )
    } else {
        acc.insert(k, GroupModel { tally: t, files: 1 })
    }
}

/// The aggregate of a stream of contributions, folded left to right.
pub open spec fn aggregate_model(s: Seq<(Seq<char>, TallyModel)>) -> Map<Seq<char>, GroupModel>
    decreases s.len(),
{
    if s.len() == 0 {
        Map::empty()
    } else {
        agg_step(aggregate_model(s.drop_last()), s.last().0, s.last().1)
    }
}

/// Folding two contributions commutes: merging is commutative and associative
/// within one key, and distinct keys touch distinct groups.
proof fn lemma_agg_step_commutes(
    acc: Map<Seq<char>, GroupModel>,
    k1: Seq<char>,
    t1: TallyModel,
    k2: Seq<char>,
    t2: TallyModel,
)
    ensures
        agg_step(agg_step(acc, k1, t1), k2, t2) == agg_step(agg_step(acc, k2, t2), k1, t1),
{
    if k1 == k2 {
        lemma_merge_comm(t1, t2);
        if acc.dom().contains(k1) {
            lemma_merge_assoc(acc[k1].tally, t1, t2);
            lemma_merge_assoc(acc[k1].tally, t2, t1);
        }
        assert(agg_step(agg_step(acc, k1, t1), k2, t2) =~= agg_step(agg_step(acc, k2, t2), k1, t1));
    } else {
        assert(agg_step(agg_step(acc, k1, t1), k2, t2) =~= agg_step(agg_step(acc, k2, t2), k1, t1));
    }
}

/// A contribution anywhere in the stream may be folded in last instead.
proof fn lemma_aggregate_remove(t: Seq<(Seq<char>, TallyModel)>, i: int)
    requires
        0 <= i < t.len(),
    ensures
        aggregate_model(t) == agg_step(aggregate_model(t.remove(i)), t[i].0, t[i].1),
    decreases t.len(),
{
    if i == t.len() - 1 {
        assert(t.remove(i) =~= t.drop_last());
    } else {
        let y = t.last();
        assert(t.remove(i).drop_last() =~= t.drop_last().remove(i));
        assert(t.remove(i).last() == y);
        lemma_aggregate_remove(t.drop_last(), i);
        assert(t.drop_last()[i] == t[i]);
        lemma_agg_step_commutes(
            aggregate_model(t.drop_last().remove(i)),
            t[i].0,
            t[i].1,
            y.0,
            y.1,
        );
    }
}

/// Aggregation is order-independent: two contribution streams that hold the
/// same contributions, in any order, yield the same per-group totals.
pub proof fn lemma_aggregate_order_independent(
    s: Seq<(Seq<char>, TallyModel)>,
    t: Seq<(Seq<char>, TallyModel)>,
)
    requires
        s.to_multiset() == t.to_multiset(),
    ensures
        aggregate_model(s) == aggregate_model(t),
    decreases s.len(),
{
    broadcast use vstd::seq_lib::group_to_multiset_ensures;

    if s.len() == 0 {
        assert(t.to_multiset().len() == 0);
        assert(t.len() == 0);
    } else {
        let x = s.last();
        let s0 = s.drop_last();
        assert(s =~= s0.push(x));
        assert(s.to_multiset() =~= s0.to_multiset().insert(x));
        assert(t.to_multiset().count(x) > 0);
        assert(t.contains(x));
        let i = choose|i: int| 0 <= i < t.len() && t[i] == x;
        let t0 = t.remove(i);
        assert(t0.to_multiset() =~= t.to_multiset().remove(x));
        assert(s0.to_multiset() =~= t0.to_multiset());
        lemma_aggregate_order_independent(s0, t0);
        lemma_aggregate_remove(t, i);
    }
}

/// The map an association list of groups stands for, later entries read last.
pub open spec fn groups_map(gs: Seq<Group>) -> Map<Seq<char>, GroupModel>
    decreases gs.len(),
{
    if gs.len() == 0 {
        Map::empty()
    } else {
        groups_map(gs.drop_last()).insert(gs.last().key@, gs.last().model())
    }
}

/// No two groups of the list share a key.
pub open spec fn unique_keys(gs: Seq<Group>) -> bool {
    forall|i: int, j: int| 0 <= i < j < gs.len() ==> gs[i].key@ != gs[j].key@
}

/// Every group of the list counts `nk` kind literals and `np` kind patterns.
pub open spec fn widths_ok(gs: Seq<Group>, nk: nat, np: nat) -> bool {
    forall|i: int|
        0 <= i < gs.len() ==> ((#[trigger] gs[i]).tally@.kind_counts.len() == nk
            && gs[i].tally@.pattern_counts.len() == np)
}

/// The group at position `j` of a duplicate-free list is what its map holds
/// under that key.
proof fn lemma_groups_map_lookup(gs: Seq<Group>, j: int)
    requires
        unique_keys(gs),
        0 <= j < gs.len(),
    ensures
        groups_map(gs).dom().contains(gs[j].key@),
        groups_map(gs)[gs[j].key@] == gs[j].model(),
    decreases gs.len(),
{
    if j < gs.len() - 1 {
        lemma_groups_map_lookup(gs.drop_last(), j);
        assert(gs.drop_last()[j] == gs[j]);
    }
}

/// A key no group of the list carries is not in its map.
proof fn lemma_groups_map_absent(gs: Seq<Group>, k: Seq<char>)
    requires
        forall|i: int| 0 <= i < gs.len() ==> (#[trigger] gs[i].key@) != k,
    ensures
        !groups_map(gs).dom().contains(k),
    decreases gs.len(),
{
    if gs.len() > 0 {
        lemma_groups_map_absent(gs.drop_last(), k);
    }
}

/// Replacing the group at position `j` by one with the same key updates the
/// map at that key and nothing else.
proof fn lemma_groups_map_update(gs: Seq<Group>, j: int, g: Group)
    requires
        unique_keys(gs),
        0 <= j < gs.len(),
        g.key@ == gs[j].key@,
    ensures
        groups_map(gs.update(j, g)) == groups_map(gs).insert(g.key@, g.model()),
    decreases gs.len(),
{
    if j == gs.len() - 1 {
        assert(gs.update(j, g).drop_last() =~= gs.drop_last());
        assert(gs.update(j, g).last() == g);
        assert(groups_map(gs.update(j, g)) =~= groups_map(gs).insert(g.key@, g.model()));
    } else {
        assert(gs.update(j, g).drop_last() =~= gs.drop_last().update(j, g));
        assert(gs.update(j, g).last() == gs.last());
        assert(gs.drop_last()[j] == gs[j]);
        lemma_groups_map_update(gs.drop_last(), j, g);
        assert(gs[j].key@ != gs.last().key@);
        assert(groups_map(gs.update(j, g)) =~= groups_map(gs).insert(g.key@, g.model()));
    }
}

/// The shared totals store: one group per key, each accumulating the tallies
/// of the files that contributed to it.
pub struct Aggregator {
    num_kind_groups: usize,
    num_pattern_groups: usize,
    groups: Vec<Group>,
}

impl View for Aggregator {
    type V = Map<Seq<char>, GroupModel>;

    closed spec fn view(&self) -> Map<Seq<char>, GroupModel> {
        groups_map(self.groups@)
    }
}

impl Aggregator {
    /// Well-formed: one group per key, and every group counts the same
    /// match-groups.
    pub closed spec fn wf(&self) -> bool {
        unique_keys(self.groups@) && widths_ok(
            self.groups@,
            self.num_kind_groups as nat,
            self.num_pattern_groups as nat,
        )
    }

    /// How many kind-literal counters every tally of this aggregate carries.
    pub closed spec fn kind_width(&self) -> nat {
        self.num_kind_groups as nat
    }

    /// How many kind-pattern counters every tally of this aggregate carries.
    pub closed spec fn pattern_width(&self) -> nat {
        self.num_pattern_groups as nat
    }

    /// An empty aggregate over the given counter widths.
    pub fn new(num_kind_groups: usize, num_pattern_groups: usize) -> (a: Aggregator)
        ensures
            a@ == Map::<Seq<char>, GroupModel>::empty(),
            a.wf(),
            a.kind_width() == num_kind_groups as nat,
            a.pattern_width() == num_pattern_groups as nat,
    {
        Aggregator { num_kind_groups, num_pattern_groups, groups: Vec::new() }
    }

    /// Folds one file's contribution into its group: merges into the existing
    /// group, or opens a new one for a key seen for the first time.
    pub fn add(&mut self, key: String, tally: Tally)
        requires
            old(self).wf(),
            tally@.kind_counts.len() == old(self).kind_width(),
            tally@.pattern_counts.len() == old(self).pattern_width(),
        ensures
            final(self)@ == agg_step(old(self)@, key@, tally@),
            final(self).wf(),
            final(self).kind_width() == old(self).kind_width(),
            final(self).pattern_width() == old(self).pattern_width(),
    {
        let ghost gs_old = old(self).groups@;
        let mut j: usize = 0;
        while j < self.groups.len()
            invariant
                j <= self.groups@.len(),
                self.groups@ == gs_old,
                gs_old == old(self).groups@,
                self.num_kind_groups == old(self).num_kind_groups,
                self.num_pattern_groups == old(self).num_pattern_groups,
                old(self).wf(),
                tally@.kind_counts.len() == old(self).kind_width(),
                tally@.pattern_counts.len() == old(self).pattern_width(),
                forall|i: int| 0 <= i < j ==> (#[trigger] gs_old[i].key@) != key@,
            decreases self.groups@.len() - j,
        {
            if self.groups[j].key == key {
                let mut g = self.groups.remove(j);
                proof {
                    assert(g == gs_old[j as int]);
                    assert(unique_keys(gs_old));
                    assert(g.tally@.kind_counts.len() == old(self).kind_width());
                    assert(g.tally@.pattern_counts.len() == old(self).pattern_width());
                }
                g.tally.merge(&tally);
                g.num_files = add_counter(g.num_files, 1);
                proof {
                    lemma_groups_map_lookup(gs_old, j as int);
                }
                self.groups.insert(j, g);
                proof {
                    assert(self.groups@ =~= gs_old.update(j as int, g));
                    lemma_groups_map_update(gs_old, j as int, g);
                    assert(g.model() =~= GroupModel {
                        tally: merge_model(old(self)@[key@].tally, tally@),
                        files: cap_add(old(self)@[key@].files, 1),
                    });
                    assert(final(self)@ =~= agg_step(old(self)@, key@, tally@));
                }
                return ;
            }
            j += 1;
        }
        self.groups.push(Group { key, tally, num_files: 1 });
        proof {
            lemma_groups_map_absent(gs_old, self.groups@.last().key@);
            assert(self.groups@.drop_last() =~= gs_old);
            assert(final(self)@ =~= agg_step(old(self)@, self.groups@.last().key@, tally@));
        }
    }

    /// The groups, one per key that has received a contribution.
    pub fn groups(&self) -> (gs: &Vec<Group>)
        requires
            self.wf(),
        ensures
            groups_map(gs@) == self@,
            unique_keys(gs@),
    {
        &self.groups
    }
}

/// The stream of contributions a list of parsed files makes under a matcher
/// set: each file's group key paired with its tree's tally.
pub open spec fn contributions(files: Seq<(String, Node)>, m: MatcherModel) -> Seq<
    (Seq<char>, TallyModel),
> {
    Seq::new(files.len(), |i: int| (files[i].0@, tree_tally(files[i].1, m)))
}

/// Counts every parsed file and folds the tallies into per-group totals: the
/// aggregate the contribution stream of these files prescribes. A file that
/// failed to parse is simply absent from the input and contributes nothing.
pub fn counts(files: Vec<(String, Node)>, matcher: &MatcherSet) -> (agg: Aggregator)
    ensures
        agg@ == aggregate_model(contributions(files@, matcher@)),
        agg.wf(),
        agg.kind_width() == matcher@.kinds.len(),
        agg.pattern_width() == matcher@.patterns.len(),
{
    let mut agg = Aggregator::new(matcher.num_kinds(), matcher.num_patterns());
    proof {
        assert(contributions(files@.take(0), matcher@) =~= Seq::<(Seq<char>, TallyModel)>::empty());
    }
    let mut i: usize = 0;
    while i < files.len()
        invariant
            i <= files@.len(),
            agg@ == aggregate_model(contributions(files@.take(i as int), matcher@)),
            agg.wf(),
            agg.kind_width() == matcher@.kinds.len(),
            agg.pattern_width() == matcher@.patterns.len(),
        decreases files@.len() - i,
    {
        let key = files[i].0.clone();
        let tally = count_tokens(&files[i].1, matcher);
        proof {
            lemma_tree_tally_counts(files@[i as int].1, matcher@);
        }
        agg.add(key, tally);
        proof {
            let c_next = contributions(files@.take(i + 1), matcher@);
            assert(c_next.drop_last() =~= contributions(files@.take(i as int), matcher@));
            assert(c_next.last() == (files@[i as int].0@, tree_tally(files@[i as int].1, matcher@)));
        }
        i += 1;
    }
    proof {
        assert(files@.take(files@.len() as int) =~= files@);
        assert(contributions(files@.take(files@.len() as int), matcher@) =~= contributions(
            files@,
            matcher@,
        ));
    }
    agg
}

} // verus!
