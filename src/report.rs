//! The sorted report of an index and its comma-separated rendering.
use vstd::prelude::*;
use crate::index::{entries_map, lemma_entries_map, GenomeSizeIndex};
use crate::order::{
    lemma_name_lt_asymmetric, lemma_name_lt_irreflexive, lemma_name_lt_total,
    lemma_name_lt_transitive, name_less, row_before,
};

verus! {

broadcast use vstd::string::group_string_axioms;

/// One line of the report: a species and its largest genome size.
pub struct ReportRow {
    pub species: String,
    pub size: u64,
}

impl View for ReportRow {
    type V = (Seq<char>, u64);

    open spec fn view(&self) -> (Seq<char>, u64) {
        (self.species@, self.size)
    }
}

pub open spec fn rows_view(v: Seq<ReportRow>) -> Seq<(Seq<char>, u64)> {
    v.map_values(|r: ReportRow| r@)
}

/// `rows` lists the entries of `m`, each once, in report order.
pub open spec fn is_report_of(rows: Seq<(Seq<char>, u64)>, m: Map<Seq<char>, u64>) -> bool {
    &&& strictly_sorted(rows)
    &&& forall|i: int| 0 <= i < rows.len() ==> m.contains_key(#[trigger] rows[i].0) && m[rows[i].0] == rows[i].1
    &&& forall|k: Seq<char>| #[trigger] m.contains_key(k) ==> exists|i: int| 0 <= i < rows.len() && rows[i].0 == k
}

proof fn lemma_row_before_transitive(a: (Seq<char>, u64), b: (Seq<char>, u64), c: (Seq<char>, u64))
    requires
        row_before(a, b),
        row_before(b, c),
    ensures
        row_before(a, c),
{
    if a.1 == b.1 && b.1 == c.1 {
        lemma_name_lt_transitive(a.0, b.0, c.0);
    }
}

fn row_less(a: &ReportRow, b: &ReportRow) -> (r: bool)
    ensures
        r == row_before(a@, b@),
{
    if a.size != b.size {
        a.size < b.size
    } else {
        name_less(&a.species, &b.species)
    }
}

/// Each row comes before the next, in report order.
pub open spec fn strictly_sorted(rows: Seq<(Seq<char>, u64)>) -> bool {
    forall|i: int, j: int| 0 <= i < j < rows.len() ==> row_before(rows[i], rows[j])
}

proof fn lemma_insert_sorted(before: Seq<(Seq<char>, u64)>, p: int, x: (Seq<char>, u64))
    requires
        strictly_sorted(before),
        0 <= p <= before.len(),
        forall|a: int| 0 <= a < p ==> row_before(#[trigger] before[a], x),
        p < before.len() ==> row_before(x, before[p]),
    ensures
        strictly_sorted(before.insert(p, x)),
{
    let after = before.insert(p, x);
    assert forall|a: int, b: int| 0 <= a < b < after.len() implies row_before(after[a], after[b]) by {
        if b == p {
            assert(after[a] == before[a]);
        } else if a == p {
            assert(after[b] == before[b - 1]);
            if b - 1 > p {
                lemma_row_before_transitive(x, before[p], before[b - 1]);
            }
        } else if a > p {
            assert(after[a] == before[a - 1] && after[b] == before[b - 1]);
        } else if b > p {
            assert(after[a] == before[a] && after[b] == before[b - 1]);
        } else {
            assert(after[a] == before[a] && after[b] == before[b]);
        }
    }
}

proof fn lemma_insert_contains<T>(before: Seq<T>, p: int, x: T)
    requires
        0 <= p <= before.len(),
    ensures
        forall|y: T| before.insert(p, x).contains(y) <==> (before.contains(y) || y == x),
{
    let after = before.insert(p, x);
    assert forall|y: T| after.contains(y) <==> (before.contains(y) || y == x) by {
        if after.contains(y) {
            let a = choose|a: int| 0 <= a < after.len() && after[a] == y;
            if a < p {
                assert(before[a] == y);
            } else if a > p {
                assert(before[a - 1] == y);
            }
        }
        if before.contains(y) {
            let a = choose|a: int| 0 <= a < before.len() && before[a] == y;
            if a < p {
                assert(after[a] == y);
            } else {
                assert(after[a + 1] == y);
            }
        }
        if y == x {
            assert(after[p] == y);
        }
    }
}

proof fn lemma_take_next_contains<T>(s: Seq<T>, i: int)
    requires
        0 <= i < s.len(),
    ensures
        forall|y: T| s.take(i + 1).contains(y) <==> (s.take(i).contains(y) || y == s[i]),
{
    assert(s.take(i + 1) =~= s.take(i).push(s[i]));
    assert forall|y: T| s.take(i + 1).contains(y) <==> (s.take(i).contains(y) || y == s[i]) by {
        if s.take(i + 1).contains(y) {
            let t = s.take(i + 1);
            let a = choose|a: int| 0 <= a < t.len() && t[a] == y;
            if a < i {
                assert(s.take(i)[a] == y);
            }
        }
        if s.take(i).contains(y) {
            let t = s.take(i);
            let a = choose|a: int| 0 <= a < t.len() && t[a] == y;
            assert(s.take(i + 1)[a] == y);
        }
        if y == s[i] {
            assert(s.take(i + 1)[i] == y);
        }
    }
}

proof fn lemma_row_before_strict(a: (Seq<char>, u64), b: (Seq<char>, u64))
    requires
        row_before(a, b),
    ensures
        !row_before(b, a),
        a != b,
{
    if a.1 == b.1 {
        lemma_name_lt_asymmetric(a.0, b.0);
        lemma_name_lt_irreflexive(a.0);
    }
}

proof fn lemma_sorted_same_members(a: Seq<(Seq<char>, u64)>, b: Seq<(Seq<char>, u64)>)
    requires
        strictly_sorted(a),
        strictly_sorted(b),
        forall|x: (Seq<char>, u64)| a.contains(x) <==> b.contains(x),
    ensures
        a == b,
    decreases a.len(),
{
    if a.len() == 0 {
        if b.len() > 0 {
            assert(b.contains(b[0]));
        }
        assert(a =~= b);
    } else {
        assert(a.contains(a[0]));
        assert(b.len() > 0);
        assert(b.contains(b[0]));
        let j = choose|j: int| 0 <= j < b.len() && b[j] == a[0];
        let i = choose|i: int| 0 <= i < a.len() && a[i] == b[0];
        if j > 0 && i > 0 {
            assert(row_before(b[0], a[0]));
            assert(row_before(a[0], b[0]));
            lemma_row_before_strict(a[0], b[0]);
        } else if j > 0 {
            assert(a[0] == b[0]);
        }
        let a1 = a.drop_first();
        let b1 = b.drop_first();
        assert forall|x: (Seq<char>, u64)| a1.contains(x) <==> b1.contains(x) by {
            if a1.contains(x) {
                let k = choose|k: int| 0 <= k < a1.len() && a1[k] == x;
                assert(a[k + 1] == x);
                assert(a.contains(x));
                lemma_row_before_strict(a[0], a[k + 1]);
                let l = choose|l: int| 0 <= l < b.len() && b[l] == x;
                assert(l != 0);
                assert(b1[l - 1] == x);
            }
            if b1.contains(x) {
                let k = choose|k: int| 0 <= k < b1.len() && b1[k] == x;
                assert(b[k + 1] == x);
                assert(b.contains(x));
                lemma_row_before_strict(b[0], b[k + 1]);
                let l = choose|l: int| 0 <= l < a.len() && a[l] == x;
                assert(l != 0);
                assert(a1[l - 1] == x);
            }
        }
        lemma_sorted_same_members(a1, b1);
        assert(a =~= seq![a[0]] + a1);
        assert(b =~= seq![b[0]] + b1);
    }
}

/// An index has exactly one report: the rows, their order included (species of
/// equal size too), are fixed by the index.
pub proof fn lemma_report_unique(r1: Seq<(Seq<char>, u64)>, r2: Seq<(Seq<char>, u64)>, m: Map<Seq<char>, u64>)
    requires
        is_report_of(r1, m),
        is_report_of(r2, m),
    ensures
        r1 == r2,
{
    assert forall|x: (Seq<char>, u64)| r1.contains(x) implies r2.contains(x) by {
        let i = choose|i: int| 0 <= i < r1.len() && r1[i] == x;
        assert(m.contains_key(r1[i].0));
        let j = choose|j: int| 0 <= j < r2.len() && r2[j].0 == x.0;
        assert(r2[j] == x);
    }
    assert forall|x: (Seq<char>, u64)| r2.contains(x) implies r1.contains(x) by {
        let i = choose|i: int| 0 <= i < r2.len() && r2[i] == x;
        assert(m.contains_key(r2[i].0));
        let j = choose|j: int| 0 <= j < r1.len() && r1[j].0 == x.0;
        assert(r1[j] == x);
    }
    lemma_sorted_same_members(r1, r2);
}

/// The entries of an index as report rows, by size ascending; species of equal
/// size by name ascending (code point order).
pub fn sorted_report(index: &GenomeSizeIndex) -> (r: Vec<ReportRow>)
    requires
        index.wf(),
    ensures
        is_report_of(rows_view(r@), index@),
{
    let ghost es = index.entries_view();
    proof {
        lemma_entries_map(es);
    }
    let mut out: Vec<ReportRow> = Vec::new();
    let mut i: usize = 0;
    while i < index.entries.len()
        invariant
            es == index.entries_view(),
            index.wf(),
            i <= es.len(),
            strictly_sorted(rows_view(out@)),
            forall|y: (Seq<char>, u64)| rows_view(out@).contains(y) <==> es.take(i as int).contains(y),
        decreases es.len() - i,
    {
        let row = ReportRow { species: index.entries[i].0.clone(), size: index.entries[i].1 };
        assert(row@ == es[i as int]);
        let ghost rv = rows_view(out@);
        let mut p: usize = 0;
        while p < out.len() && row_less(&out[p], &row)
            invariant
                p <= out@.len(),
                rv == rows_view(out@),
                forall|a: int| 0 <= a < p ==> row_before(#[trigger] rv[a], row@),
            decreases out.len() - p,
        {
            p = p + 1;
        }
        proof {
            if p < out@.len() {
                assert(!row_before(rv[p as int], row@));
                assert(rv.contains(rv[p as int]));
                let t = es.take(i as int);
                let j = choose|j: int| 0 <= j < t.len() && t[j] == rv[p as int];
                assert(es[j] == rv[p as int]);
                assert(es[j].0 != es[i as int].0);
                lemma_name_lt_total(row@.0, rv[p as int].0);
            }
            lemma_insert_sorted(rv, p as int, row@);
            lemma_insert_contains(rv, p as int, row@);
            lemma_take_next_contains(es, i as int);
        }
        let ghost new_row = row@;
        out.insert(p, row);
        assert(rows_view(out@) =~= rv.insert(p as int, new_row));
        assert forall|y: (Seq<char>, u64)| rows_view(out@).contains(y) <==> es.take(i as int + 1).contains(y) by {
            assert(rv.contains(y) <==> es.take(i as int).contains(y));
        }
        i = i + 1;
    }
    proof {
        let rv = rows_view(out@);
        let m = entries_map(es);
        assert(es.take(es.len() as int) =~= es);
        assert forall|a: int| 0 <= a < rv.len() implies m.contains_key(#[trigger] rv[a].0) && m[rv[a].0] == rv[a].1 by {
            assert(rv.contains(rv[a]));
            let j = choose|j: int| 0 <= j < es.len() && es[j] == rv[a];
            assert(m[es[j].0] == es[j].1);
        }
        assert forall|k: Seq<char>| #[trigger] m.contains_key(k) implies exists|a: int| 0 <= a < rv.len() && rv[a].0 == k by {
            let j = choose|j: int| 0 <= j < es.len() && es[j].0 == k;
            assert(es.take(i as int).contains(es[j]));
            assert(rv.contains(es[j]));
            let a = choose|a: int| 0 <= a < rv.len() && rv[a] == es[j];
        }
    }
    out
}

} // verus!
