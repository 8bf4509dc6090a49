//! Properties of the aggregation and of row admission.
use vstd::prelude::*;
use crate::index::{fold_records, index_of, step};
use crate::record::{admitted, RecordView, ASSEMBLY_LEVEL_COLUMN, SOURCE_COLUMN, VERSION_STATUS_COLUMN};

verus! {

broadcast use vstd::seq_lib::group_to_multiset_ensures;

/// Some record of `s` names `k` with a set size.
pub open spec fn sized_in(s: Seq<RecordView>, k: Seq<char>) -> bool {
    exists|i: int| 0 <= i < s.len() && s[i].name == k && s[i].size is Some
}

/// Folding `s` into `m` keeps a key exactly when `m` or a sized record has it; its
/// value is at least every candidate (the old value, each size of that species),
/// and is one of them.
pub proof fn lemma_fold_characterization(m: Map<Seq<char>, u64>, s: Seq<RecordView>)
    ensures
        forall|k: Seq<char>| #[trigger] fold_records(m, s).contains_key(k)
            <==> (m.contains_key(k) || sized_in(s, k)),
        forall|k: Seq<char>| #[trigger] fold_records(m, s).contains_key(k) && m.contains_key(k)
            ==> fold_records(m, s)[k] >= m[k],
        forall|i: int| 0 <= i < s.len() && (#[trigger] s[i]).size is Some
            ==> fold_records(m, s)[s[i].name] >= s[i].size->0,
        forall|k: Seq<char>| #[trigger] fold_records(m, s).contains_key(k)
            ==> (m.contains_key(k) && fold_records(m, s)[k] == m[k])
                || exists|i: int| 0 <= i < s.len() && s[i].name == k
                    && s[i].size == Some(fold_records(m, s)[k]),
    decreases s.len(),
{
    if s.len() > 0 {
        let p = s.drop_last();
        let r = s.last();
        lemma_fold_characterization(m, p);
        let a = fold_records(m, p);
        let b = fold_records(m, s);
        assert(b == step(a, r));
        assert forall|k: Seq<char>| #[trigger] b.contains_key(k) <==> (m.contains_key(k) || sized_in(s, k)) by {
            if sized_in(s, k) {
                let i = choose|i: int| 0 <= i < s.len() && s[i].name == k && s[i].size is Some;
                if i < s.len() - 1 {
                    assert(p[i] == s[i]);
                }
            }
            if sized_in(p, k) {
                let i = choose|i: int| 0 <= i < p.len() && p[i].name == k && p[i].size is Some;
                assert(s[i] == p[i]);
            }
            if r.size is Some && r.name == k {
                assert(s[s.len() - 1] == r);
            }
        }
        assert forall|i: int| 0 <= i < s.len() && (#[trigger] s[i]).size is Some
            implies b[s[i].name] >= s[i].size->0 by {
            if i < s.len() - 1 {
                assert(p[i] == s[i]);
                assert(a.contains_key(p[i].name));
            }
        }
        assert forall|k: Seq<char>| #[trigger] b.contains_key(k)
            implies (m.contains_key(k) && b[k] == m[k])
                || exists|i: int| 0 <= i < s.len() && s[i].name == k && s[i].size == Some(b[k]) by {
            if r.size is Some && r.name == k && b[k] == r.size->0 {
                assert(s[s.len() - 1] == r);
            } else {
                assert(a.contains_key(k) && b[k] == a[k]);
                if !(m.contains_key(k) && a[k] == m[k]) {
                    let i = choose|i: int| 0 <= i < p.len() && p[i].name == k && p[i].size == Some(a[k]);
                    assert(s[i] == p[i]);
                }
            }
        }
    }
}

/// Folding two record sequences that hold the same records (as sets) into the
/// same index gives the same index.
pub proof fn lemma_fold_same_records(m: Map<Seq<char>, u64>, s1: Seq<RecordView>, s2: Seq<RecordView>)
    requires
        forall|r: RecordView| s1.contains(r) <==> s2.contains(r),
    ensures
        fold_records(m, s1) == fold_records(m, s2),
{
    lemma_fold_characterization(m, s1);
    lemma_fold_characterization(m, s2);
    let f1 = fold_records(m, s1);
    let f2 = fold_records(m, s2);
    assert forall|k: Seq<char>| sized_in(s1, k) <==> sized_in(s2, k) by {
        if sized_in(s1, k) {
            let i = choose|i: int| 0 <= i < s1.len() && s1[i].name == k && s1[i].size is Some;
            assert(s1.contains(s1[i]));
            let j = choose|j: int| 0 <= j < s2.len() && s2[j] == s1[i];
        }
        if sized_in(s2, k) {
            let i = choose|i: int| 0 <= i < s2.len() && s2[i].name == k && s2[i].size is Some;
            assert(s2.contains(s2[i]));
            let j = choose|j: int| 0 <= j < s1.len() && s1[j] == s2[i];
        }
    }
    assert forall|k: Seq<char>| #[trigger] f1.contains_key(k) implies f1[k] == f2[k] by {
        assert(f2.contains_key(k));
        if !(m.contains_key(k) && f1[k] == m[k]) {
            let i = choose|i: int| 0 <= i < s1.len() && s1[i].name == k && s1[i].size == Some(f1[k]);
            assert(s1.contains(s1[i]));
            let j = choose|j: int| 0 <= j < s2.len() && s2[j] == s1[i];
            assert(f2[k] >= f1[k]);
        }
        if !(m.contains_key(k) && f2[k] == m[k]) {
            let i = choose|i: int| 0 <= i < s2.len() && s2[i].name == k && s2[i].size == Some(f2[k]);
            assert(s2.contains(s2[i]));
            let j = choose|j: int| 0 <= j < s1.len() && s1[j] == s2[i];
            assert(f1[k] >= f2[k]);
        }
    }
    assert(f1 =~= f2);
}

/// Folding `s` and then `t` is folding `s + t`.
pub proof fn lemma_fold_append(m: Map<Seq<char>, u64>, s: Seq<RecordView>, t: Seq<RecordView>)
    ensures
        fold_records(m, s + t) == fold_records(fold_records(m, s), t),
    decreases t.len(),
{
    if t.len() == 0 {
        assert(s + t =~= s);
    } else {
        assert((s + t).drop_last() =~= s + t.drop_last());
        lemma_fold_append(m, s, t.drop_last());
    }
}

/// Aggregating the same records a second time, into the index they already
/// produced, changes nothing; nor does feeding the sequence twice in a row.
pub proof fn lemma_aggregate_idempotent(recs: Seq<RecordView>)
    ensures
        fold_records(index_of(recs), recs) == index_of(recs),
        index_of(recs + recs) == index_of(recs),
{
    assert forall|r: RecordView| (recs + recs).contains(r) <==> recs.contains(r) by {
        if (recs + recs).contains(r) {
            let i = choose|i: int| 0 <= i < (recs + recs).len() && (recs + recs)[i] == r;
            if i >= recs.len() {
                assert(recs[i - recs.len()] == r);
            } else {
                assert(recs[i] == r);
            }
        }
        if recs.contains(r) {
            let i = choose|i: int| 0 <= i < recs.len() && recs[i] == r;
            assert((recs + recs)[i] == r);
        }
    }
    lemma_fold_same_records(Map::empty(), recs + recs, recs);
    lemma_fold_append(Map::empty(), recs, recs);
}

/// The order in which records arrive does not matter: any rearrangement of the
/// same records gives the same index.
pub proof fn lemma_aggregate_order_independent(s1: Seq<RecordView>, s2: Seq<RecordView>)
    requires
        s1.to_multiset() == s2.to_multiset(),
    ensures
        index_of(s1) == index_of(s2),
{
    assert forall|r: RecordView| s1.contains(r) <==> s2.contains(r) by {
        assert(s1.to_multiset().contains(r) <==> s1.contains(r));
        assert(s2.to_multiset().contains(r) <==> s2.contains(r));
    }
    lemma_fold_same_records(Map::empty(), s1, s2);
}

/// Folding in more records never removes a species nor lowers its size.
pub proof fn lemma_aggregate_monotone(s: Seq<RecordView>, t: Seq<RecordView>, k: Seq<char>)
    requires
        index_of(s).contains_key(k),
    ensures
        index_of(s + t).contains_key(k),
        index_of(s + t)[k] >= index_of(s)[k],
{
    lemma_fold_append(Map::empty(), s, t);
    lemma_fold_characterization(index_of(s), t);
    assert(fold_records(index_of(s), t).contains_key(k));
}

/// A row too short to hold any one of the three selection columns is never admitted.
pub proof fn lemma_short_row_not_admitted(row: Seq<Seq<char>>)
    requires
        row.len() <= VERSION_STATUS_COLUMN || row.len() <= ASSEMBLY_LEVEL_COLUMN
            || row.len() <= SOURCE_COLUMN,
    ensures
        !admitted(row),
{
}

} // verus!
