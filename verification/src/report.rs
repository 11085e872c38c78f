//! The sorter and reporter: turns the aggregated groups into the final
//! ordered sequence of report rows. The order is the selected sort key with
//! ties broken by ascending group key, so the output is the same whatever
//! order the groups arrived in; an optional totals row sums every counter and
//! is appended after sorting, never taking part in it.

use vstd::prelude::*;
use vstd::string::StringExecFnsIsAscii;
use crate::aggregate::Group;
use crate::cli::SortBy;
use crate::strutil::{
    lemma_lex_le_antisymmetric, lemma_lex_le_refl, lemma_lex_le_total, lemma_lex_le_transitive,
    lex_le, str_le,
};
use crate::tally::{add_counter, at0, cap_add, seq_cap_add};

verus! {

broadcast use vstd::seq_lib::group_to_multiset_ensures;

/// One finalized output record: the group key, its token total, its
/// per-match-group counts, and how many files contributed.
pub struct ReportRow {
    pub key: String,
    pub tokens: u64,
    pub num_files: u64,
    pub kind_counts: Vec<u64>,
    pub pattern_counts: Vec<u64>,
}

/// The mathematical content of a report row.
#[verifier::ext_equal]
pub ghost struct RowModel {
    pub key: Seq<char>,
    pub tokens: u64,
    pub files: u64,
    pub kind_counts: Seq<u64>,
    pub pattern_counts: Seq<u64>,
}

impl View for ReportRow {
    type V = RowModel;

    open spec fn view(&self) -> RowModel {
        RowModel {
            key: self.key@,
            tokens: self.tokens,
            files: self.num_files,
            kind_counts: self.kind_counts@,
            pattern_counts: self.pattern_counts@,
        }
    }
}

/// The models of a sequence of rows.
pub open spec fn rows_model(s: Seq<ReportRow>) -> Seq<RowModel> {
    Seq::new(s.len(), |i: int| s[i]@)
}

/// The row a group turns into.
pub open spec fn row_of_group(g: Group) -> RowModel {
    RowModel {
        key: g.key@,
        tokens: g.tally@.total,
        files: g.num_files,
        kind_counts: g.tally@.kind_counts,
        pattern_counts: g.tally@.pattern_counts,
    }
}

/// The rows a sequence of groups turns into, in order.
pub open spec fn rows_of_groups(gs: Seq<Group>) -> Seq<RowModel> {
    Seq::new(gs.len(), |i: int| row_of_group(gs[i]))
}

/// The report order. Group: ascending by key. NumFiles: by contributing file
/// count, descending. Tokens: by token total, descending. Equal primary
/// values always fall back to ascending group key, so the order is total and
/// reproducible.
pub open spec fn row_le(sort_by: SortBy, a: RowModel, b: RowModel) -> bool {
    match sort_by {
        SortBy::Group => lex_le(a.key, b.key),
        SortBy::NumFiles => a.files > b.files || (a.files == b.files && lex_le(a.key, b.key)),
        SortBy::Tokens => a.tokens > b.tokens || (a.tokens == b.tokens && lex_le(a.key, b.key)),
    }
}

/// A sequence of rows in report order.
pub open spec fn rows_sorted(sort_by: SortBy, rs: Seq<RowModel>) -> bool {
    forall|i: int, j: int| 0 <= i <= j < rs.len() ==> row_le(sort_by, rs[i], rs[j])
}

/// The report order relates every row to itself.
pub proof fn lemma_row_le_refl(sort_by: SortBy, a: RowModel)
    ensures
        row_le(sort_by, a, a),
{
    lemma_lex_le_refl(a.key);
}

/// The report order relates every pair of rows one way or the other.
pub proof fn lemma_row_le_total(sort_by: SortBy, a: RowModel, b: RowModel)
    ensures
        row_le(sort_by, a, b) || row_le(sort_by, b, a),
{
    lemma_lex_le_total(a.key, b.key);
}

/// The report order is transitive.
pub proof fn lemma_row_le_transitive(sort_by: SortBy, a: RowModel, b: RowModel, c: RowModel)
    requires
        row_le(sort_by, a, b),
        row_le(sort_by, b, c),
    ensures
        row_le(sort_by, a, c),
{
    if lex_le(a.key, b.key) && lex_le(b.key, c.key) {
        lemma_lex_le_transitive(a.key, b.key, c.key);
    }
}

/// Two rows each "less than or equal" to the other carry the same key.
pub proof fn lemma_row_le_antisymmetric_keys(sort_by: SortBy, a: RowModel, b: RowModel)
    requires
        row_le(sort_by, a, b),
        row_le(sort_by, b, a),
    ensures
        a.key == b.key,
{
    lemma_lex_le_antisymmetric(a.key, b.key);
}

/// Whether `a` comes no later than `b` in the report order.
fn row_le_exec(sort_by: SortBy, a: &ReportRow, b: &ReportRow) -> (r: bool)
    ensures
        r == row_le(sort_by, a@, b@),
{
    match sort_by {
        SortBy::Group => str_le(a.key.as_str(), b.key.as_str()),
        SortBy::NumFiles => {
            if a.num_files != b.num_files {
                a.num_files > b.num_files
            } else {
                str_le(a.key.as_str(), b.key.as_str())
            }
        },
        SortBy::Tokens => {
            if a.tokens != b.tokens {
                a.tokens > b.tokens
            } else {
                str_le(a.key.as_str(), b.key.as_str())
            }
        },
    }
}

/// Sorts rows into report order. The result lists exactly the given rows:
/// same rows, same multiplicities, in the one order `row_le` prescribes.
fn sort_rows(sort_by: SortBy, rows: Vec<ReportRow>) -> (out: Vec<ReportRow>)
    ensures
        rows_sorted(sort_by, rows_model(out@)),
        rows_model(out@).to_multiset() == rows_model(rows@).to_multiset(),
        out@.len() == rows@.len(),
{
    let ghost orig = rows_model(rows@);
    let mut rest = rows;
    let mut out: Vec<ReportRow> = Vec::new();
    proof {
        assert(rows_model(out@) =~= Seq::<RowModel>::empty());
        assert(rows_model(out@).to_multiset().add(rows_model(rest@).to_multiset())
            =~= orig.to_multiset());
    }
    while rest.len() > 0
        invariant
            rows_sorted(sort_by, rows_model(out@)),
            forall|i: int, k: int|
                0 <= i < out@.len() && 0 <= k < rest@.len() ==> row_le(
                    sort_by,
                    rows_model(out@)[i],
                    rows_model(rest@)[k],
                ),
            rows_model(out@).to_multiset().add(rows_model(rest@).to_multiset())
                == orig.to_multiset(),
            out@.len() + rest@.len() == orig.len(),
        decreases rest@.len(),
    {
        let ghost rest_snap = rest@;
        proof {
            lemma_row_le_refl(sort_by, rest@[0]@);
        }
        let mut m: usize = 0;
        let mut j: usize = 1;
        while j < rest.len()
            invariant
                rest@ == rest_snap,
                0 < j <= rest@.len(),
                m < j,
                forall|k: int| 0 <= k < j ==> row_le(sort_by, rest@[m as int]@, rest@[k]@),
            decreases rest@.len() - j,
        {
            if !row_le_exec(sort_by, &rest[m], &rest[j]) {
                proof {
                    lemma_row_le_total(sort_by, rest@[m as int]@, rest@[j as int]@);
                    assert forall|k: int| 0 <= k < j implies row_le(
                        sort_by,
                        rest@[j as int]@,
                        rest@[k]@,
                    ) by {
                        lemma_row_le_transitive(
                            sort_by,
                            rest@[j as int]@,
                            rest@[m as int]@,
                            rest@[k]@,
                        );
                    }
                }
                m = j;
            }
            proof {
                lemma_row_le_refl(sort_by, rest@[m as int]@);
            }
            j += 1;
        }
        let ghost pre_out = out@;
        let ghost pre_rest = rest@;
        let x = rest.remove(m);
        out.push(x);
        proof {
            let xm = pre_rest[m as int]@;
            assert(rows_model(out@) =~= rows_model(pre_out).push(xm));
            assert(rows_model(rest@) =~= rows_model(pre_rest).remove(m as int));
            assert(rows_model(pre_rest)[m as int] == xm);
            assert(rows_model(pre_rest).remove(m as int).to_multiset() =~= rows_model(
                pre_rest,
            ).to_multiset().remove(xm));
            assert(rows_model(out@).to_multiset() =~= rows_model(pre_out).to_multiset().insert(xm));
            assert(rows_model(out@).to_multiset().add(rows_model(rest@).to_multiset())
                =~= orig.to_multiset());
            lemma_row_le_refl(sort_by, xm);
            assert forall|i: int, jj: int|
                0 <= i <= jj < rows_model(out@).len() implies row_le(
                sort_by,
                rows_model(out@)[i],
                rows_model(out@)[jj],
            ) by {
                if jj < rows_model(pre_out).len() {
                } else if i < rows_model(pre_out).len() {
                    assert(row_le(sort_by, rows_model(pre_out)[i], rows_model(pre_rest)[m as int]));
                }
            }
        }
    }
    proof {
        assert(rows_model(rest@) =~= Seq::<RowModel>::empty());
        assert(rows_model(out@).to_multiset() =~= orig.to_multiset());
        assert(out@.len() == orig.len());
    }
    out
}

/// The report order is reproducible: two sequences that hold the same rows,
/// both in report order, with no two rows sharing a key, are one and the same
/// sequence — equal primary sort values always resolve by ascending key.
pub proof fn lemma_report_order_unique(sort_by: SortBy, x: Seq<RowModel>, y: Seq<RowModel>)
    requires
        x.to_multiset() == y.to_multiset(),
        rows_sorted(sort_by, x),
        rows_sorted(sort_by, y),
        forall|i: int, j: int| 0 <= i < j < x.len() ==> x[i].key != x[j].key,
    ensures
        x == y,
    decreases x.len(),
{
    if x.len() == 0 {
        assert(y.to_multiset().len() == 0);
        assert(x =~= y);
    } else {
        vstd::seq_lib::to_multiset_len(x);
        vstd::seq_lib::to_multiset_len(y);
        assert(y.to_multiset().len() == x.to_multiset().len());
        assert(y.len() > 0);
        let a = x.first();
        let b = y.first();
        assert(x.contains(a));
        assert(y.contains(b));
        assert(x.to_multiset().count(b) > 0);
        assert(x.contains(b));
        let ib = choose|i: int| 0 <= i < x.len() && x[i] == b;
        assert(row_le(sort_by, a, b));
        assert(y.to_multiset().count(a) > 0);
        assert(y.contains(a));
        let ia = choose|i: int| 0 <= i < y.len() && y[i] == a;
        assert(row_le(sort_by, b, a));
        lemma_row_le_antisymmetric_keys(sort_by, a, b);
        assert(ib == 0);
        assert(a == b);
        let x0 = x.drop_first();
        let y0 = y.drop_first();
        assert(x0.to_multiset() =~= x.remove(0).to_multiset());
        assert(x0 =~= x.remove(0));
        assert(y0 =~= y.remove(0));
        assert(x0.to_multiset() =~= x.to_multiset().remove(a));
        assert(y0.to_multiset() =~= y.to_multiset().remove(a));
        lemma_report_order_unique(sort_by, x0, y0);
        assert(x.len() == y.len());
        assert forall|i: int| 0 <= i < x.len() implies x[i] == y[i] by {
            if i > 0 {
                assert(x0[i - 1] == y0[i - 1]);
            }
        }
        assert(x =~= y);
    }
}

/// A copy of a counter column.
fn copy_column(v: &Vec<u64>) -> (out: Vec<u64>)
    ensures
        out@ == v@,
{
    let mut out: Vec<u64> = Vec::new();
    let mut i: usize = 0;
    while i < v.len()
        invariant
            i <= v@.len(),
            out@ =~= v@.take(i as int),
        decreases v@.len() - i,
    {
        out.push(v[i]);
        proof {
            assert(out@ =~= v@.take(i + 1));
        }
        i += 1;
    }
    proof {
        assert(v@.take(v@.len() as int) =~= v@);
    }
    out
}

/// Pointwise saturating addition of two counter columns, the shorter padded
/// with zeroes.
fn add_columns(a: &Vec<u64>, b: &Vec<u64>) -> (out: Vec<u64>)
    ensures
        out@ == seq_cap_add(a@, b@),
{
    let n = if a.len() < b.len() {
        b.len()
    } else {
        a.len()
    };
    let mut out: Vec<u64> = Vec::new();
    let mut i: usize = 0;
    while i < n
        invariant
            i <= n,
            n == vstd::math::max(a@.len() as int, b@.len() as int),
            out@ =~= seq_cap_add(a@, b@).take(i as int),
        decreases n - i,
    {
        let va = if i < a.len() {
            a[i]
        } else {
            0
        };
        let vb = if i < b.len() {
            b[i]
        } else {
            0
        };
        out.push(add_counter(va, vb));
        proof {
            assert(va == at0(a@, i as int));
            assert(vb == at0(b@, i as int));
            assert(out@ =~= seq_cap_add(a@, b@).take(i + 1));
        }
        i += 1;
    }
    proof {
        assert(seq_cap_add(a@, b@).take(n as int) =~= seq_cap_add(a@, b@));
    }
    out
}

/// The row a group turns into.
fn group_row(g: &Group) -> (r: ReportRow)
    ensures
        r@ == row_of_group(*g),
{
    let r = ReportRow {
        key: g.key.clone(),
        tokens: g.tally.total,
        num_files: g.num_files,
        kind_counts: copy_column(&g.tally.kind_counts),
        pattern_counts: copy_column(&g.tally.pattern_counts),
    };
    proof {
        assert(r@ =~= row_of_group(*g));
    }
    r
}

/// The totals row over a sequence of rows: every counter summed, under the
/// key `total`.
pub open spec fn totals_model(rs: Seq<RowModel>) -> RowModel
    decreases rs.len(),
{
    if rs.len() == 0 {
        RowModel {
            key: "total"@,
            tokens: 0,
            files: 0,
            kind_counts: Seq::empty(),
            pattern_counts: Seq::empty(),
        }
    } else {
        let p = totals_model(rs.drop_last());
        RowModel {
            key: "total"@,
            tokens: cap_add(p.tokens, rs.last().tokens),
            files: cap_add(p.files, rs.last().files),
            kind_counts: seq_cap_add(p.kind_counts, rs.last().kind_counts),
            pattern_counts: seq_cap_add(p.pattern_counts, rs.last().pattern_counts),
        }
    }
}

/// One row summing every counter of the given rows.
fn totals_row(rows: &Vec<ReportRow>) -> (t: ReportRow)
    ensures
        t@ == totals_model(rows_model(rows@)),
{
    let mut t = ReportRow {
        key: String::from_str("total"),
        tokens: 0,
        num_files: 0,
        kind_counts: Vec::new(),
        pattern_counts: Vec::new(),
    };
    proof {
        assert(rows_model(rows@).take(0) =~= Seq::<RowModel>::empty());
        assert(t@ =~= totals_model(rows_model(rows@).take(0)));
    }
    let mut i: usize = 0;
    while i < rows.len()
        invariant
            i <= rows@.len(),
            t@ == totals_model(rows_model(rows@).take(i as int)),
        decreases rows@.len() - i,
    {
        let ghost pre = t@;
        t.tokens = add_counter(t.tokens, rows[i].tokens);
        t.num_files = add_counter(t.num_files, rows[i].num_files);
        t.kind_counts = add_columns(&t.kind_counts, &rows[i].kind_counts);
        t.pattern_counts = add_columns(&t.pattern_counts, &rows[i].pattern_counts);
        proof {
            let taken = rows_model(rows@).take(i + 1);
            assert(taken.drop_last() =~= rows_model(rows@).take(i as int));
            assert(taken.last() == rows@[i as int]@);
            assert(t@ =~= totals_model(taken));
        }
        i += 1;
    }
    proof {
        assert(rows_model(rows@).take(rows@.len() as int) =~= rows_model(rows@));
    }
    t
}

/// Orders the groups' rows by the selected sort key, ties resolved by
/// ascending group key; with `show_totals` one extra row summing every
/// group's counters is appended after sorting and never takes part in it.
/// The same groups give the same report, whatever order they stand in.
pub fn report(groups: &Vec<Group>, sort_by: SortBy, show_totals: bool) -> (out: Vec<ReportRow>)
    ensures
        out@.len() == groups@.len() + (if show_totals {
            1nat
        } else {
            0nat
        }),
        rows_sorted(sort_by, rows_model(out@).take(groups@.len() as int)),
        rows_model(out@).take(groups@.len() as int).to_multiset() == rows_of_groups(
            groups@,
        ).to_multiset(),
        show_totals ==> rows_model(out@).last() == totals_model(
            rows_model(out@).take(groups@.len() as int),
        ),
{
    let mut rows: Vec<ReportRow> = Vec::new();
    proof {
        assert(rows_model(rows@) =~= rows_of_groups(groups@).take(0));
    }
    let mut i: usize = 0;
    while i < groups.len()
        invariant
            i <= groups@.len(),
            rows_model(rows@) == rows_of_groups(groups@).take(i as int),
        decreases groups@.len() - i,
    {
        let r = group_row(&groups[i]);
        let ghost pre_rows = rows@;
        rows.push(r);
        proof {
            assert(rows@ == pre_rows.push(r));
            assert(rows_model(pre_rows).len() == pre_rows.len());
            assert(rows_of_groups(groups@).take(i as int).len() == i);
            assert(rows@.len() == i + 1);
            assert forall|k: int| 0 <= k < rows@.len() implies rows_model(rows@)[k]
                == rows_of_groups(groups@).take(i + 1)[k] by {
                assert(rows_of_groups(groups@).take(i + 1)[k] == row_of_group(groups@[k]));
                if k < i {
                    assert(rows@[k] == pre_rows[k]);
                    assert(rows_model(pre_rows)[k] == rows_of_groups(groups@).take(i as int)[k]);
                    assert(rows_model(rows@)[k] == rows@[k]@);
                } else {
                    assert(rows@[k] == r);
                }
            }
            assert(rows_model(rows@) =~= rows_of_groups(groups@).take(i + 1));
        }
        i += 1;
    }
    proof {
        assert(rows_of_groups(groups@).take(groups@.len() as int) =~= rows_of_groups(groups@));
    }
    let mut out = sort_rows(sort_by, rows);
    let ghost sorted_rows = out@;
    if show_totals {
        let t = totals_row(&out);
        out.push(t);
        proof {
            assert(rows_model(out@).take(groups@.len() as int) =~= rows_model(sorted_rows));
            assert(rows_model(out@).last() == totals_model(rows_model(sorted_rows)));
        }
    } else {
        proof {
            assert(rows_model(out@).take(groups@.len() as int) =~= rows_model(out@));
        }
    }
    out
}

} // verus!
