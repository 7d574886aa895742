//! Named data sets: each an ordered list of rows, each row an environment.

use vstd::prelude::*;
use crate::environment::Environment;
use crate::environment::HashMapExt;
use crate::environment::pairs_map;
use crate::environment::occurs_from;
use crate::environment::lemma_pairs_map_lookup;
use crate::environment::lemma_pairs_map_update;
use crate::environment::lemma_pairs_map_push;

verus! {

/// The mappings of a list of rows, in order.
pub open spec fn rows_view(rows: Seq<Environment>) -> Seq<Map<Seq<char>, Seq<char>>> {
    rows.map_values(|e: Environment| e@)
}

/// A copy of a list of rows.
pub fn duplicate_rows(rows: &Vec<Environment>) -> (r: Vec<Environment>)
    ensures
        rows_view(r@) == rows_view(rows@),
{
    let mut out: Vec<Environment> = Vec::new();
    let mut i: usize = 0;
    while i < rows.len()
        invariant
            i <= rows.len(),
            out@.len() == i,
            forall|j: int| 0 <= j < i ==> (#[trigger] out@[j])@ == rows@[j]@,
        decreases rows.len() - i,
    {
        out.push(rows[i].duplicate());
        i = i + 1;
    }
    assert(rows_view(out@) =~= rows_view(rows@));
    out
}

/// A mapping from data-set names to their rows, kept as a list of pairs for
/// the reason given at [`Environment`].
#[derive(Debug, Clone)]
pub struct DataSets {
    entries: Vec<(String, Vec<Environment>)>,
}

impl View for DataSets {
    type V = Map<Seq<char>, Seq<Map<Seq<char>, Seq<char>>>>;

    closed spec fn view(&self) -> Self::V {
        pairs_map(self.pairs())
    }
}

/// The data sets of an optional source: none where the source is absent.
pub open spec fn sets_layer(sets: Option<DataSets>) -> Map<
    Seq<char>,
    Seq<Map<Seq<char>, Seq<char>>>,
> {
    match sets {
        Some(s) => s@,
        None => Map::empty(),
    }
}

impl DataSets {
    /// The name/rows pairs, in order.
    pub closed spec fn pairs(&self) -> Seq<(Seq<char>, Seq<Map<Seq<char>, Seq<char>>>)> {
        self.entries@.map_values(|e: (String, Vec<Environment>)| (e.0@, rows_view(e.1@)))
    }

    /// No data sets.
    pub fn new() -> (r: DataSets)
        ensures
            r@ == Map::<Seq<char>, Seq<Map<Seq<char>, Seq<char>>>>::empty(),
            r.pairs().len() == 0,
    {
        DataSets { entries: Vec::new() }
    }

    /// Number of pairs.
    pub fn len(&self) -> (n: usize)
        ensures
            n == self.pairs().len(),
    {
        self.entries.len()
    }

    /// Name of the pair at position `i`.
    pub fn name_at(&self, i: usize) -> (k: &String)
        requires
            i < self.pairs().len(),
        ensures
            k@ == self.pairs()[i as int].0,
    {
        &self.entries[i].0
    }

    /// Rows of the pair at position `i`.
    pub fn rows_at(&self, i: usize) -> (v: &Vec<Environment>)
        requires
            i < self.pairs().len(),
        ensures
            rows_view(v@) == self.pairs()[i as int].1,
    {
        &self.entries[i].1
    }

    /// Position of the last pair with `name`, if there is one.
    fn position(&self, name: &String) -> (r: Option<usize>)
        ensures
            match r {
                Some(i) => i < self.pairs().len() && self.pairs()[i as int].0 == name@
                    && !occurs_from(self.pairs(), name@, i + 1),
                None => !occurs_from(self.pairs(), name@, 0),
            },
    {
        let mut i: usize = self.entries.len();
        while i > 0
            invariant
                i <= self.entries.len(),
                self.pairs().len() == self.entries.len(),
                !occurs_from(self.pairs(), name@, i as int),
            decreases i,
        {
            i = i - 1;
            if self.entries[i].0 == *name {
                return Some(i);
            }
        }
        None
    }

    /// The rows of the data set `name`, if there is one.
    pub fn get(&self, name: &String) -> (r: Option<&Vec<Environment>>)
        ensures
            r is Some <==> self@.contains_key(name@),
            r is Some ==> rows_view(r.unwrap()@) == self@[name@],
    {
        match self.position(name) {
            Some(i) => {
                proof {
                    lemma_pairs_map_lookup(self.pairs(), name@, i as int);
                }
                Some(&self.entries[i].1)
            },
            None => {
                proof {
                    lemma_pairs_map_lookup(self.pairs(), name@, -1);
                }
                None
            },
        }
    }

    /// Defines the data set `name` as `rows`, in place of an earlier
    /// definition if there was one.
    pub fn insert(&mut self, name: String, rows: Vec<Environment>)
        ensures
            final(self)@ == old(self)@.insert(name@, rows_view(rows@)),
    {
        match self.position(&name) {
            Some(i) => {
                proof {
                    lemma_pairs_map_update(self.pairs(), i as int, name@, rows_view(rows@));
                }
                let ghost before = self.pairs();
                self.entries.set(i, (name, rows));
                assert(self.pairs() =~= before.update(i as int, (name@, rows_view(rows@))));
            },
            None => {
                proof {
                    lemma_pairs_map_push(self.pairs(), name@, rows_view(rows@));
                }
                let ghost before = self.pairs();
                self.entries.push((name, rows));
                assert(self.pairs() =~= before.push((name@, rows_view(rows@))));
            },
        }
    }

    /// The data sets in effect for a suite: those of the values file, overlaid
    /// by the suite's own. Where both define a name, the suite's rows stand
    /// and the other definition is dropped whole.
    pub fn resolve(values: &Option<DataSets>, suite: &Option<DataSets>) -> (r: DataSets)
        ensures
            r@ == sets_layer(*values).union_prefer_right(sets_layer(*suite)),
    {
        let mut sets = DataSets::new();
        sets.try_append(values);
        assert(sets@ =~= sets_layer(*values));
        sets.try_append(suite);
        sets
    }
}

impl HashMapExt for DataSets {
    open spec fn is_overlay(before: &Self, other: &Self, after: &Self) -> bool {
        after@ == before@.union_prefer_right(other@)
    }

    fn append(&mut self, other: &DataSets) {
        let mut i: usize = 0;
        assert(self@ =~= old(self)@.union_prefer_right(pairs_map(other.pairs().take(0))));
        while i < other.entries.len()
            invariant
                i <= other.entries.len(),
                other.pairs().len() == other.entries.len(),
                self@ == old(self)@.union_prefer_right(pairs_map(other.pairs().take(i as int))),
            decreases other.entries.len() - i,
        {
            let name = other.entries[i].0.clone();
            let rows = duplicate_rows(&other.entries[i].1);
            proof {
                let done = other.pairs().take(i as int);
                let next = other.pairs().take(i + 1);
                assert(next.drop_last() =~= done);
                assert(next.last() == (name@, rows_view(rows@)));
                assert(old(self)@.union_prefer_right(pairs_map(done)).insert(
                    name@,
                    rows_view(rows@),
                ) =~= old(self)@.union_prefer_right(pairs_map(next)));
            }
            self.insert(name, rows);
            i = i + 1;
        }
        assert(other.pairs().take(i as int) =~= other.pairs());
    }

    fn try_append(&mut self, other: &Option<DataSets>) {
        if let Some(o) = other {
            self.append(o);
        }
    }
}

} // verus!
