//! Per-file tallies and their merge. A tally holds the total token count and
//! one counter per match-group (one per kind literal, one per kind pattern).
//! Counters add saturating at the largest representable value, so the merge
//! is total, commutative and associative.

use vstd::prelude::*;

verus! {

/// Counter addition that sticks at the largest representable value instead of
/// wrapping.
pub open spec fn cap_add(a: u64, b: u64) -> u64 {
    if a + b > u64::MAX {
        u64::MAX
    } else {
        (a + b) as u64
    }
}

/// A natural number clamped to the counter range.
pub open spec fn capped(n: nat) -> u64 {
    if n > u64::MAX {
        u64::MAX
    } else {
        n as u64
    }
}

/// Clamping distributes over addition.
pub proof fn lemma_capped_add(m: nat, n: nat)
    ensures
        capped(m + n) == cap_add(capped(m), capped(n)),
{
}

/// The entry of a counter column, missing entries counting as zero.
pub open spec fn at0(s: Seq<u64>, i: int) -> u64 {
    if 0 <= i < s.len() {
        s[i]
    } else {
        0
    }
}

/// Pointwise saturating addition of two counter columns; the shorter column
/// is read as padded with zeroes.
pub open spec fn seq_cap_add(a: Seq<u64>, b: Seq<u64>) -> Seq<u64> {
    Seq::new(
        vstd::math::max(a.len() as int, b.len() as int) as nat,
        |i: int| cap_add(at0(a, i), at0(b, i)),
    )
}

/// The mathematical content of a tally: the total and one counter per
/// match-group, kind literals and kind patterns listed separately.
#[verifier::ext_equal]
pub ghost struct TallyModel {
    pub total: u64,
    pub kind_counts: Seq<u64>,
    pub pattern_counts: Seq<u64>,
}

/// The all-zero tally over `nk` kind literals and `np` kind patterns.
pub open spec fn zero_model(nk: nat, np: nat) -> TallyModel {
    TallyModel {
        total: 0,
        kind_counts: Seq::new(nk, |i: int| 0u64),
        pattern_counts: Seq::new(np, |i: int| 0u64),
    }
}

/// Counter-wise addition of two tallies.
pub open spec fn merge_model(a: TallyModel, b: TallyModel) -> TallyModel {
    TallyModel {
        total: cap_add(a.total, b.total),
        kind_counts: seq_cap_add(a.kind_counts, b.kind_counts),
        pattern_counts: seq_cap_add(a.pattern_counts, b.pattern_counts),
    }
}

/// Merging tallies is commutative: the order of two contributions never
/// affects the sum.
pub proof fn lemma_merge_comm(a: TallyModel, b: TallyModel)
    ensures
        merge_model(a, b) == merge_model(b, a),
{
    assert(merge_model(a, b) =~= merge_model(b, a));
}

/// Merging tallies is associative: how contributions are bracketed never
/// affects the sum.
pub proof fn lemma_merge_assoc(a: TallyModel, b: TallyModel, c: TallyModel)
    ensures
        merge_model(merge_model(a, b), c) == merge_model(a, merge_model(b, c)),
{
    assert(merge_model(merge_model(a, b), c) =~= merge_model(a, merge_model(b, c)));
}

/// The zero tally of matching width is the merge's neutral element.
pub proof fn lemma_merge_zero(a: TallyModel, nk: nat, np: nat)
    requires
        a.kind_counts.len() == nk,
        a.pattern_counts.len() == np,
    ensures
        merge_model(a, zero_model(nk, np)) == a,
        merge_model(zero_model(nk, np), a) == a,
{
    assert(merge_model(a, zero_model(nk, np)) =~= a);
    assert(merge_model(zero_model(nk, np), a) =~= a);
}

/// Saturating addition of two counters.
pub fn add_counter(a: u64, b: u64) -> (r: u64)
    ensures
        r == cap_add(a, b),
{
    if b > u64::MAX - a {
        u64::MAX
    } else {
        a + b
    }
}

/// A column of `n` zero counters.
fn zero_column(n: usize) -> (v: Vec<u64>)
    ensures
        v@ == Seq::new(n as nat, |i: int| 0u64),
{
    let mut v: Vec<u64> = Vec::new();
    let mut i: usize = 0;
    while i < n
        invariant
            i <= n,
            v@ =~= Seq::new(i as nat, |j: int| 0u64),
        decreases n - i,
    {
        v.push(0);
        proof {
            assert(v@ =~= Seq::new((i + 1) as nat, |j: int| 0u64));
        }
        i += 1;
    }
    proof {
        assert(v@ =~= Seq::new(n as nat, |j: int| 0u64));
    }
    v
}

/// One file's counts: total tokens plus one counter per match-group.
pub struct Tally {
    pub total: u64,
    pub kind_counts: Vec<u64>,
    pub pattern_counts: Vec<u64>,
}

impl View for Tally {
    type V = TallyModel;

    open spec fn view(&self) -> TallyModel {
        TallyModel {
            total: self.total,
            kind_counts: self.kind_counts@,
            pattern_counts: self.pattern_counts@,
        }
    }
}

impl Tally {
    /// The all-zero tally over `nk` kind literals and `np` kind patterns.
    pub fn zero(nk: usize, np: usize) -> (t: Tally)
        ensures
            t@ == zero_model(nk as nat, np as nat),
    {
        let t = Tally { total: 0, kind_counts: zero_column(nk), pattern_counts: zero_column(np) };
        proof {
            assert(t@ =~= zero_model(nk as nat, np as nat));
        }
        t
    }

    /// Adds `other` into `self`, counter by counter. Both tallies must count
    /// the same match-groups.
    pub fn merge(&mut self, other: &Tally)
        requires
            old(self)@.kind_counts.len() == other@.kind_counts.len(),
            old(self)@.pattern_counts.len() == other@.pattern_counts.len(),
        ensures
            final(self)@ == merge_model(old(self)@, other@),
    {
        self.total = add_counter(self.total, other.total);
        let ghost start = self.kind_counts@;
        let mut i: usize = 0;
        while i < self.kind_counts.len()
            invariant
                i <= self.kind_counts@.len(),
                self.kind_counts@.len() == start.len(),
                start.len() == other@.kind_counts.len(),
                forall|j: int|
                    0 <= j < i ==> self.kind_counts@[j] == cap_add(start[j], other@.kind_counts[j]),
                forall|j: int| i <= j < start.len() ==> self.kind_counts@[j] == start[j],
                self.total == cap_add(old(self)@.total, other@.total),
                self.pattern_counts@ == old(self)@.pattern_counts,
            decreases self.kind_counts@.len() - i,
        {
            let v = add_counter(self.kind_counts[i], other.kind_counts[i]);
            self.kind_counts.set(i, v);
            i += 1;
        }
        proof {
            assert(self.kind_counts@ =~= seq_cap_add(start, other@.kind_counts));
        }
        let ghost kdone = self.kind_counts@;
        let ghost pstart = self.pattern_counts@;
        let mut i: usize = 0;
        while i < self.pattern_counts.len()
            invariant
                i <= self.pattern_counts@.len(),
                self.pattern_counts@.len() == pstart.len(),
                pstart.len() == other@.pattern_counts.len(),
                forall|j: int|
                    0 <= j < i ==> self.pattern_counts@[j] == cap_add(
                        pstart[j],
                        other@.pattern_counts[j],
                    ),
                forall|j: int| i <= j < pstart.len() ==> self.pattern_counts@[j] == pstart[j],
                self.total == cap_add(old(self)@.total, other@.total),
                self.kind_counts@ == kdone,
            decreases self.pattern_counts@.len() - i,
        {
            let v = add_counter(self.pattern_counts[i], other.pattern_counts[i]);
            self.pattern_counts.set(i, v);
            i += 1;
        }
        proof {
            assert(self.pattern_counts@ =~= seq_cap_add(pstart, other@.pattern_counts));
            assert(self@ =~= merge_model(old(self)@, other@));
        }
    }
}

} // verus!
