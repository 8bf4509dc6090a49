//! The per-species maximum genome size, built one record at a time.
use vstd::prelude::*;
use crate::record::{AssemblyRecord, RecordView, records_view};

verus! {

/// Folds one record into an index: an unset size changes nothing; a set size
/// creates the species' entry, or raises it when strictly larger.
pub open spec fn step(m: Map<Seq<char>, u64>, r: RecordView) -> Map<Seq<char>, u64> {
    match r.size {
        None => m,
        Some(v) => if m.contains_key(r.name) && v <= m[r.name] {
            m
        } else {
            m.insert(r.name, v)
        },
    }
}

/// Folds records into `m`, first to last.
pub open spec fn fold_records(m: Map<Seq<char>, u64>, recs: Seq<RecordView>) -> Map<Seq<char>, u64>
    decreases recs.len(),
{
    if recs.len() == 0 {
        m
    } else {
        step(fold_records(m, recs.drop_last()), recs.last())
    }
}

/// The index that a sequence of records yields, starting from nothing.
pub open spec fn index_of(recs: Seq<RecordView>) -> Map<Seq<char>, u64> {
    fold_records(Map::empty(), recs)
}

/// The map that a list of distinct-named entries stands for.
pub open spec fn entries_map(s: Seq<(Seq<char>, u64)>) -> Map<Seq<char>, u64>
    decreases s.len(),
{
    if s.len() == 0 {
        Map::empty()
    } else {
        entries_map(s.drop_last()).insert(s.last().0, s.last().1)
    }
}

pub open spec fn names_unique(s: Seq<(Seq<char>, u64)>) -> bool {
    forall|i: int, j: int| 0 <= i < j < s.len() ==> s[i].0 != s[j].0
}

pub proof fn lemma_entries_map(s: Seq<(Seq<char>, u64)>)
    requires
        names_unique(s),
    ensures
        forall|k: Seq<char>| #[trigger] entries_map(s).contains_key(k)
            <==> exists|i: int| 0 <= i < s.len() && s[i].0 == k,
        forall|i: int| 0 <= i < s.len() ==> entries_map(s)[#[trigger] s[i].0] == s[i].1,
        entries_map(s).dom().finite(),
        entries_map(s).len() == s.len(),
    decreases s.len(),
{
    if s.len() > 0 {
        let p = s.drop_last();
        lemma_entries_map(p);
        assert forall|k: Seq<char>| #[trigger] entries_map(s).contains_key(k)
            <==> exists|i: int| 0 <= i < s.len() && s[i].0 == k by {
            if entries_map(s).contains_key(k) && k != s.last().0 {
                let i = choose|i: int| 0 <= i < p.len() && p[i].0 == k;
                assert(s[i].0 == k);
            }
            if exists|i: int| 0 <= i < s.len() && s[i].0 == k {
                let i = choose|i: int| 0 <= i < s.len() && s[i].0 == k;
                if i < s.len() - 1 {
                    assert(p[i].0 == k);
                }
            }
        }
        assert forall|i: int| 0 <= i < s.len() implies entries_map(s)[#[trigger] s[i].0] == s[i].1 by {
            if i < s.len() - 1 {
                assert(p[i] == s[i]);
            }
        }
        assert(!entries_map(p).contains_key(s.last().0)) by {
            if entries_map(p).contains_key(s.last().0) {
                let i = choose|i: int| 0 <= i < p.len() && p[i].0 == s.last().0;
                assert(s[i].0 == s[s.len() - 1].0);
            }
        }
    }
}

/// Genome sizes by species: the largest size seen for each species so far.
pub struct GenomeSizeIndex {
    pub(crate) entries: Vec<(String, u64)>,
}

impl View for GenomeSizeIndex {
    type V = Map<Seq<char>, u64>;

    open spec fn view(&self) -> Map<Seq<char>, u64> {
        entries_map(self.entries_view())
    }
}

impl GenomeSizeIndex {
    pub open(crate) spec fn entries_view(&self) -> Seq<(Seq<char>, u64)> {
        self.entries@.map_values(|e: (String, u64)| (e.0@, e.1))
    }

    /// Each species has one entry.
    pub open(crate) spec fn wf(&self) -> bool {
        names_unique(self.entries_view())
    }

    /// An index with no species.
    pub fn new() -> (r: GenomeSizeIndex)
        ensures
            r.wf(),
            r@ == Map::<Seq<char>, u64>::empty(),
    {
        let r = GenomeSizeIndex { entries: Vec::new() };
        assert(r.entries_view() =~= Seq::<(Seq<char>, u64)>::empty());
        r
    }

    fn find(&self, name: &String) -> (r: Option<usize>)
        requires
            self.wf(),
        ensures
            match r {
                Some(i) => i < self.entries@.len() && self.entries_view()[i as int].0 == name@,
                None => !self@.contains_key(name@),
            },
    {
        proof {
            lemma_entries_map(self.entries_view());
        }
        let mut i: usize = 0;
        while i < self.entries.len()
            invariant
                i <= self.entries@.len(),
                forall|j: int| 0 <= j < i ==> self.entries_view()[j].0 != name@,
            decreases self.entries.len() - i,
        {
            if self.entries[i].0 == *name {
                return Some(i);
            }
            i = i + 1;
        }
        None
    }

    /// The number of species.
    pub fn len(&self) -> (r: usize)
        requires
            self.wf(),
        ensures
            r == self@.len(),
    {
        proof {
            lemma_entries_map(self.entries_view());
        }
        self.entries.len()
    }

    /// The size stored for a species, if any.
    pub fn get(&self, name: &String) -> (r: Option<u64>)
        requires
            self.wf(),
        ensures
            r == if self@.contains_key(name@) { Some(self@[name@]) } else { None },
    {
        proof {
            lemma_entries_map(self.entries_view());
        }
        match self.find(name) {
            Some(i) => Some(self.entries[i].1),
            None => None,
        }
    }

    /// Folds one record in: an unset size is skipped; a species not yet present is
    /// added; a present one is replaced only by a strictly larger size.
    pub fn record_size(&mut self, rec: &AssemblyRecord)
        requires
            old(self).wf(),
        ensures
            final(self).wf(),
            final(self)@ == step(old(self)@, rec@),
    {
        proof {
            lemma_entries_map(self.entries_view());
        }
        let v = match rec.genome_size {
            Some(v) => v,
            None => return,
        };
        match self.find(&rec.organism_name) {
            Some(i) => {
                if self.entries[i].1 < v {
                    let ghost s0 = self.entries_view();
                    self.entries.set(i, (rec.organism_name.clone(), v));
                    let ghost s1 = self.entries_view();
                    assert(s1 =~= s0.update(i as int, (rec.organism_name@, v)));
                    assert(self.wf());
                    proof {
                        lemma_entries_map(s1);
                        let m = step(old(self)@, rec@);
                        assert(m == entries_map(s0).insert(rec.organism_name@, v));
                        assert forall|k: Seq<char>| #[trigger] self@.contains_key(k) <==> m.contains_key(k) by {
                            assert(s1[i as int].0 == rec.organism_name@);
                            if m.contains_key(k) && k != rec.organism_name@ {
                                let j = choose|j: int| 0 <= j < s0.len() && s0[j].0 == k;
                                assert(s1[j].0 == k);
                            }
                            if self@.contains_key(k) {
                                let j = choose|j: int| 0 <= j < s1.len() && s1[j].0 == k;
                                if j != i {
                                    assert(s0[j].0 == k);
                                }
                            }
                        }
                        assert forall|k: Seq<char>| #[trigger] self@.contains_key(k) implies self@[k] == m[k] by {
                            let j = choose|j: int| 0 <= j < s1.len() && s1[j].0 == k;
                            if j != i {
                                assert(s0[j] == s1[j]);
                            }
                        }
                        assert(self@ =~= m);
                    }
                }
            },
            None => {
                let ghost s0 = self.entries_view();
                self.entries.push((rec.organism_name.clone(), v));
                let ghost s1 = self.entries_view();
                assert(s1 =~= s0.push((rec.organism_name@, v)));
                assert(s1.drop_last() =~= s0);
                assert(self.wf()) by {
                    assert forall|a: int, b: int| 0 <= a < b < s1.len() implies s1[a].0 != s1[b].0 by {
                        if b == s1.len() - 1 {
                            assert(entries_map(s0).contains_key(s0[a].0));
                        }
                    }
                }
            },
        }
    }
}

/// The index of a sequence of records: for each species with at least one set
/// size, the largest of its sizes.
pub fn get_genome_sizes(records: Vec<AssemblyRecord>) -> (r: GenomeSizeIndex)
    ensures
        r.wf(),
        r@ == index_of(records_view(records@)),
{
    let mut index = GenomeSizeIndex::new();
    let mut i: usize = 0;
    while i < records.len()
        invariant
            i <= records@.len(),
            index.wf(),
            index@ == index_of(records_view(records@).take(i as int)),
        decreases records.len() - i,
    {
        assert(records_view(records@).take(i as int + 1).drop_last()
            =~= records_view(records@).take(i as int));
        index.record_size(&records[i]);
        i = i + 1;
    }
    assert(records_view(records@).take(records@.len() as int) =~= records_view(records@));
    index
}

} // verus!
