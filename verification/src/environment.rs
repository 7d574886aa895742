//! Environments: string-to-string mappings, and how layers of them merge.

use vstd::prelude::*;

verus! {

/// The mapping that a list of key/value pairs stands for: each key maps to the
/// value of its last pair.
pub open spec fn pairs_map<V>(pairs: Seq<(Seq<char>, V)>) -> Map<Seq<char>, V>
    decreases pairs.len(),
{
    if pairs.len() == 0 {
        Map::empty()
    } else {
        pairs_map(pairs.drop_last()).insert(pairs.last().0, pairs.last().1)
    }
}

/// Whether no key occurs twice in `pairs`.
pub open spec fn distinct_keys<V>(pairs: Seq<(Seq<char>, V)>) -> bool {
    forall|i: int, j: int| 0 <= i < j < pairs.len() ==> pairs[i].0 != pairs[j].0
}

/// Whether `key` occurs in `pairs` at or after position `from`.
pub open spec fn occurs_from<V>(pairs: Seq<(Seq<char>, V)>, key: Seq<char>, from: int) -> bool {
    exists|j: int| from <= j < pairs.len() && 0 <= j && #[trigger] pairs[j].0 == key
}

/// A key is in the mapping exactly if it occurs in the list, and a key that
/// does not occur after position `i` and occurs there has that pair's value.
pub proof fn lemma_pairs_map_lookup<V>(pairs: Seq<(Seq<char>, V)>, key: Seq<char>, i: int)
    requires
        -1 <= i < pairs.len(),
        !occurs_from(pairs, key, i + 1),
    ensures
        i >= 0 && pairs[i].0 == key ==> pairs_map(pairs).contains_key(key) && pairs_map(
            pairs,
        )[key] == pairs[i].1,
        i == -1 ==> !pairs_map(pairs).contains_key(key),
    decreases pairs.len(),
{
    if pairs.len() > 0 {
        let init = pairs.drop_last();
        let last = pairs.len() - 1;
        if i < last {
            assert(pairs[last].0 != key);
            assert forall|j: int| i + 1 <= j < init.len() && 0 <= j implies #[trigger] init[j].0
                != key by {
                assert(pairs[j].0 == init[j].0);
            }
            lemma_pairs_map_lookup(init, key, i);
        }
    }
}

/// Replacing the value of the last pair that has `key` maps `key` to the new
/// value and changes nothing else.
pub proof fn lemma_pairs_map_update<V>(pairs: Seq<(Seq<char>, V)>, i: int, key: Seq<char>, value: V)
    requires
        0 <= i < pairs.len(),
        pairs[i].0 == key,
        !occurs_from(pairs, key, i + 1),
    ensures
        pairs_map(pairs.update(i, (key, value))) == pairs_map(pairs).insert(key, value),
    decreases pairs.len(),
{
    let changed = pairs.update(i, (key, value));
    let init = pairs.drop_last();
    let last = pairs.len() - 1;
    if i == last {
        assert(changed.drop_last() =~= init);
        assert(pairs_map(changed) =~= pairs_map(pairs).insert(key, value));
    } else {
        assert(pairs[last].0 != key);
        assert forall|j: int| i + 1 <= j < init.len() && 0 <= j implies #[trigger] init[j].0
            != key by {
            assert(pairs[j].0 == init[j].0);
        }
        lemma_pairs_map_update(init, i, key, value);
        assert(changed.drop_last() =~= init.update(i, (key, value)));
        assert(pairs_map(changed) =~= pairs_map(pairs).insert(key, value));
    }
}

/// The mapping of a list extended by one pair.
pub proof fn lemma_pairs_map_push<V>(pairs: Seq<(Seq<char>, V)>, key: Seq<char>, value: V)
    ensures
        pairs_map(pairs.push((key, value))) == pairs_map(pairs).insert(key, value),
{
    assert(pairs.push((key, value)).drop_last() =~= pairs);
}

/// A mapping from variable names to values.
///
/// The pairs are kept in the order in which their keys first arrived, and no
/// key is kept twice. It is a list of pairs and no `HashMap`: vstd says what a
/// hash map holds only for key types that have a model of hashing, and
/// `String` has none, so nothing could be proved of one keyed by names.
#[derive(Debug, Clone)]
pub struct Environment {
    entries: Vec<(String, String)>,
}

impl View for Environment {
    type V = Map<Seq<char>, Seq<char>>;

    closed spec fn view(&self) -> Map<Seq<char>, Seq<char>> {
        pairs_map(self.pairs())
    }
}

/// The mapping of an optional layer: nothing where the layer is absent.
pub open spec fn layer(env: Option<Environment>) -> Map<Seq<char>, Seq<char>> {
    match env {
        Some(e) => e@,
        None => Map::empty(),
    }
}

/// The environment that four layers give, in increasing precedence.
pub open spec fn composed(
    global: Map<Seq<char>, Seq<char>>,
    suite: Map<Seq<char>, Seq<char>>,
    step: Map<Seq<char>, Seq<char>>,
    row: Map<Seq<char>, Seq<char>>,
) -> Map<Seq<char>, Seq<char>> {
    global.union_prefer_right(suite).union_prefer_right(step).union_prefer_right(row)
}

/// Merging of one mapping into another, where the other's pairs win.
pub trait HashMapExt: Sized {
    /// Whether `after` is `before` overlaid by `other`: every key of either,
    /// with the value of `other` where it has the key.
    spec fn is_overlay(before: &Self, other: &Self, after: &Self) -> bool;

    /// Overlays `self` with every pair of `other`.
    fn append(&mut self, other: &Self)
        ensures
            Self::is_overlay(old(self), other, final(self)),
    ;

    /// Overlays `self` with `other` if there is one.
    fn try_append(&mut self, other: &Option<Self>)
        ensures
            match other {
                Some(o) => Self::is_overlay(old(self), o, final(self)),
                None => *final(self) == *old(self),
            },
    ;
}

impl Environment {
    /// The key/value pairs, in order.
    pub closed spec fn pairs(&self) -> Seq<(Seq<char>, Seq<char>)> {
        self.entries@.map_values(|e: (String, String)| (e.0@, e.1@))
    }

    /// Relates the pairs to the mapping: the mapping is that of the pairs, and
    /// no key occurs twice among them.
    pub proof fn lemma_pairs(&self)
        requires
            self.wf(),
        ensures
            self@ == pairs_map(self.pairs()),
            distinct_keys(self.pairs()),
            forall|k: Seq<char>| self@.contains_key(k) <==> occurs_from(self.pairs(), k, 0),
    {
        assert forall|k: Seq<char>| self@.contains_key(k) <==> occurs_from(self.pairs(), k, 0) by {
            if occurs_from(self.pairs(), k, 0) {
                let j = choose|j: int|
                    0 <= j < self.pairs().len() && 0 <= j && #[trigger] self.pairs()[j].0 == k;
                assert forall|m: int|
                    j + 1 <= m < self.pairs().len() && 0 <= m implies #[trigger] self.pairs()[m].0
                    != k by {}
                lemma_pairs_map_lookup(self.pairs(), k, j);
            } else {
                lemma_pairs_map_lookup(self.pairs(), k, -1);
            }
        }
    }

    /// No key is kept twice.
    pub closed spec fn wf(&self) -> bool {
        distinct_keys(self.pairs())
    }

    /// An empty environment.
    pub fn new() -> (r: Environment)
        ensures
            r@ == Map::<Seq<char>, Seq<char>>::empty(),
            r.pairs().len() == 0,
            r.wf(),
    {
        Environment { entries: Vec::new() }
    }

    /// Number of pairs.
    pub fn len(&self) -> (n: usize)
        ensures
            n == self.pairs().len(),
    {
        self.entries.len()
    }

    /// Key of the pair at position `i`.
    pub fn key_at(&self, i: usize) -> (k: &String)
        requires
            i < self.pairs().len(),
        ensures
            k@ == self.pairs()[i as int].0,
    {
        &self.entries[i].0
    }

    /// Value of the pair at position `i`.
    pub fn value_at(&self, i: usize) -> (v: &String)
        requires
            i < self.pairs().len(),
        ensures
            v@ == self.pairs()[i as int].1,
    {
        &self.entries[i].1
    }

    /// Position of the last pair with `key`, if there is one.
    fn position(&self, key: &String) -> (r: Option<usize>)
        ensures
            match r {
                Some(i) => i < self.pairs().len() && self.pairs()[i as int].0 == key@
                    && !occurs_from(self.pairs(), key@, i + 1),
                None => !occurs_from(self.pairs(), key@, 0),
            },
    {
        let mut i: usize = self.entries.len();
        while i > 0
            invariant
                i <= self.entries.len(),
                self.pairs().len() == self.entries.len(),
                !occurs_from(self.pairs(), key@, i as int),
            decreases i,
        {
            i = i - 1;
            if self.entries[i].0 == *key {
                return Some(i);
            }
        }
        None
    }

    /// The value of `key`, if it has one.
    pub fn get(&self, key: &String) -> (r: Option<&String>)
        ensures
            r is Some <==> self@.contains_key(key@),
            r is Some ==> r.unwrap()@ == self@[key@],
    {
        match self.position(key) {
            Some(i) => {
                proof {
                    lemma_pairs_map_lookup(self.pairs(), key@, i as int);
                }
                Some(&self.entries[i].1)
            },
            None => {
                proof {
                    lemma_pairs_map_lookup(self.pairs(), key@, -1);
                }
                None
            },
        }
    }

    /// Whether `key` has a value.
    pub fn contains_key(&self, key: &String) -> (r: bool)
        ensures
            r == self@.contains_key(key@),
    {
        self.get(key).is_some()
    }

    /// Gives `key` the value `value`, in place of the one it had if any. A
    /// key that is already there keeps its position; a new one goes last.
    pub fn insert(&mut self, key: String, value: String)
        ensures
            final(self)@ == old(self)@.insert(key@, value@),
            old(self).wf() ==> final(self).wf(),
            !occurs_from(old(self).pairs(), key@, 0) ==> final(self).pairs() == old(self).pairs().push(
                (key@, value@),
            ),
            occurs_from(old(self).pairs(), key@, 0) ==> exists|i: int|
                0 <= i < old(self).pairs().len() && (#[trigger] old(self).pairs()[i]).0 == key@
                    && !occurs_from(old(self).pairs(), key@, i + 1) && final(self).pairs() == old(
                    self,
                ).pairs().update(i, (key@, value@)),
    {
        match self.position(&key) {
            Some(i) => {
                proof {
                    lemma_pairs_map_update(self.pairs(), i as int, key@, value@);
                }
                let ghost before = self.pairs();
                self.entries.set(i, (key, value));
                assert(self.pairs() =~= before.update(i as int, (key@, value@)));
            },
            None => {
                proof {
                    lemma_pairs_map_push(self.pairs(), key@, value@);
                }
                let ghost before = self.pairs();
                self.entries.push((key, value));
                assert(self.pairs() =~= before.push((key@, value@)));
                assert forall|j: int| 0 <= j < before.len() implies #[trigger] before[j].0
                    != key@ by {}
            },
        }
    }

    /// A copy of this environment.
    pub fn duplicate(&self) -> (r: Environment)
        ensures
            r@ == self@,
            r.pairs() == self.pairs(),
            r.wf() == self.wf(),
    {
        let mut entries: Vec<(String, String)> = Vec::new();
        let mut i: usize = 0;
        while i < self.entries.len()
            invariant
                i <= self.entries.len(),
                entries@.len() == i,
                forall|j: int|
                    0 <= j < i ==> (#[trigger] entries@[j]).0@ == self.entries@[j].0@
                        && entries@[j].1@ == self.entries@[j].1@,
            decreases self.entries.len() - i,
        {
            entries.push((self.entries[i].0.clone(), self.entries[i].1.clone()));
            i = i + 1;
        }
        let r = Environment { entries };
        assert(r.pairs() =~= self.pairs());
        r
    }

    /// Merges four optional layers, given in increasing precedence, into a
    /// fresh environment. No layer is changed.
    pub fn compose(
        global: &Option<Environment>,
        suite: &Option<Environment>,
        step: &Option<Environment>,
        row: &Option<Environment>,
    ) -> (r: Environment)
        ensures
            r@ == composed(layer(*global), layer(*suite), layer(*step), layer(*row)),
            r.wf(),
    {
        let mut env = Environment::new();
        env.try_append(global);
        assert(env@ =~= layer(*global));
        env.try_append(suite);
        env.try_append(step);
        env.try_append(row);
        env
    }
}

impl HashMapExt for Environment {
    open spec fn is_overlay(before: &Self, other: &Self, after: &Self) -> bool {
        &&& after@ == before@.union_prefer_right(other@)
        &&& before.wf() ==> after.wf()
    }

    fn append(&mut self, other: &Environment) {
        let mut i: usize = 0;
        assert(self@ =~= old(self)@.union_prefer_right(pairs_map(other.pairs().take(0))));
        while i < other.entries.len()
            invariant
                i <= other.entries.len(),
                other.pairs().len() == other.entries.len(),
                self@ == old(self)@.union_prefer_right(pairs_map(other.pairs().take(i as int))),
                old(self).wf() ==> self.wf(),
            decreases other.entries.len() - i,
        {
            let key = other.entries[i].0.clone();
            let value = other.entries[i].1.clone();
            proof {
                let done = other.pairs().take(i as int);
                let next = other.pairs().take(i + 1);
                assert(next.drop_last() =~= done);
                assert(next.last() == (key@, value@));
                assert(old(self)@.union_prefer_right(pairs_map(done)).insert(key@, value@)
                    =~= old(self)@.union_prefer_right(pairs_map(next)));
            }
            self.insert(key, value);
            i = i + 1;
        }
        assert(other.pairs().take(i as int) =~= other.pairs());
    }

    fn try_append(&mut self, other: &Option<Environment>) {
        if let Some(o) = other {
            self.append(o);
        }
    }
}

/// For every key, the composed environment holds the value of the
/// highest-precedence layer that defines it, and holds no key that no layer
/// defines: so a key that only one layer defines keeps that layer's value.
pub proof fn lemma_composed_precedence(
    global: Map<Seq<char>, Seq<char>>,
    suite: Map<Seq<char>, Seq<char>>,
    step: Map<Seq<char>, Seq<char>>,
    row: Map<Seq<char>, Seq<char>>,
    key: Seq<char>,
)
    ensures
        composed(global, suite, step, row).contains_key(key) <==> (global.contains_key(key)
            || suite.contains_key(key) || step.contains_key(key) || row.contains_key(key)),
        row.contains_key(key) ==> composed(global, suite, step, row)[key] == row[key],
        !row.contains_key(key) && step.contains_key(key) ==> composed(global, suite, step, row)[key]
            == step[key],
        !row.contains_key(key) && !step.contains_key(key) && suite.contains_key(key) ==> composed(
            global,
            suite,
            step,
            row,
        )[key] == suite[key],
        !row.contains_key(key) && !step.contains_key(key) && !suite.contains_key(key)
            && global.contains_key(key) ==> composed(global, suite, step, row)[key] == global[key],
{
}

} // verus!
