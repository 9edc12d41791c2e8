//! A map from text labels to values, kept as a vector of pairs with distinct
//! labels: the table of per-core counters and of per-interface counters.
use vstd::prelude::*;
use crate::text::{chars_equal, to_chars};

verus! {

/// The map that inserting `pairs` in order into an empty map gives.
pub open spec fn map_of<V>(pairs: Seq<(Seq<char>, V)>) -> Map<Seq<char>, V>
    decreases pairs.len(),
{
    if pairs.len() == 0 {
        Map::empty()
    } else {
        map_of(pairs.drop_last()).insert(pairs.last().0, pairs.last().1)
    }
}

pub open spec fn labels_distinct<V>(pairs: Seq<(Seq<char>, V)>) -> bool {
    forall|i: int, j: int|
        0 <= i < j < pairs.len() ==> (#[trigger] pairs[i]).0 != (#[trigger] pairs[j]).0
}

/// With distinct labels, the map holds each pair and nothing else, and has as
/// many keys as there are pairs.
pub proof fn lemma_map_of<V>(pairs: Seq<(Seq<char>, V)>)
    requires
        labels_distinct(pairs),
    ensures
        map_of(pairs).dom().finite(),
        map_of(pairs).dom().len() == pairs.len(),
        forall|i: int|
            0 <= i < pairs.len() ==> #[trigger] map_of(pairs).contains_key(pairs[i].0) && map_of(
                pairs,
            )[pairs[i].0] == pairs[i].1,
        forall|k: Seq<char>|
            #[trigger] map_of(pairs).contains_key(k) ==> exists|i: int|
                0 <= i < pairs.len() && pairs[i].0 == k,
    decreases pairs.len(),
{
    if pairs.len() > 0 {
        let front = pairs.drop_last();
        assert(labels_distinct(front)) by {
            assert forall|i: int, j: int| 0 <= i < j < front.len() implies (#[trigger] front[i]).0
                != (#[trigger] front[j]).0 by {
                assert(front[i] == pairs[i] && front[j] == pairs[j]);
            }
        }
        lemma_map_of(front);
        let last = pairs.last();
        assert(!map_of(front).contains_key(last.0)) by {
            if map_of(front).contains_key(last.0) {
                let i = choose|i: int| 0 <= i < front.len() && front[i].0 == last.0;
                assert(pairs[i] == front[i]);
                assert(pairs[i].0 != pairs[pairs.len() - 1].0);
            }
        }
        assert forall|i: int| 0 <= i < pairs.len() implies #[trigger] map_of(pairs).contains_key(
            pairs[i].0,
        ) && map_of(pairs)[pairs[i].0] == pairs[i].1 by {
            if i < pairs.len() - 1 {
                assert(pairs[i] == front[i]);
                assert(pairs[i].0 != pairs[pairs.len() - 1].0);
            }
        }
        assert forall|k: Seq<char>| #[trigger] map_of(pairs).contains_key(k) implies exists|i: int|
            0 <= i < pairs.len() && pairs[i].0 == k by {
            if k == last.0 {
                assert(pairs[pairs.len() - 1].0 == k);
            } else {
                let i = choose|i: int| 0 <= i < front.len() && front[i].0 == k;
                assert(pairs[i] == front[i]);
            }
        }
    }
}

/// Putting a pair with a new label anywhere among distinct pairs keeps the
/// labels distinct and adds that pair to the map.
pub proof fn lemma_map_of_insert_at<V>(pairs: Seq<(Seq<char>, V)>, p: int, x: (Seq<char>, V))
    requires
        labels_distinct(pairs),
        0 <= p <= pairs.len(),
        forall|i: int| 0 <= i < pairs.len() ==> #[trigger] pairs[i].0 != x.0,
    ensures
        labels_distinct(pairs.insert(p, x)),
        map_of(pairs.insert(p, x)) == map_of(pairs).insert(x.0, x.1),
{
    let after = pairs.insert(p, x);
    assert forall|a: int, b: int| 0 <= a < b < after.len() implies (#[trigger] after[a]).0 != (
    #[trigger] after[b]).0 by {
        if a < p && b < p {
            assert(pairs[a].0 != pairs[b].0);
        } else if a < p && b > p {
            assert(pairs[a].0 != pairs[b - 1].0);
        } else if a > p {
            assert(pairs[a - 1].0 != pairs[b - 1].0);
        }
    }
    lemma_map_of(pairs);
    lemma_map_of(after);
    let expect = map_of(pairs).insert(x.0, x.1);
    assert forall|k: Seq<char>| #[trigger] map_of(after).contains_key(k) <==> expect.contains_key(
        k,
    ) by {
        if map_of(after).contains_key(k) {
            let j = choose|j: int| 0 <= j < after.len() && after[j].0 == k;
            if j < p {
                assert(after[j] == pairs[j]);
            } else if j > p {
                assert(after[j] == pairs[j - 1]);
            }
        }
        if map_of(pairs).contains_key(k) {
            let j = choose|j: int| 0 <= j < pairs.len() && pairs[j].0 == k;
            if j < p {
                assert(after[j] == pairs[j]);
            } else {
                assert(after[j + 1] == pairs[j]);
            }
        }
        if k == x.0 {
            assert(after[p] == x);
        }
    }
    assert forall|k: Seq<char>| #[trigger] map_of(after).contains_key(k) implies map_of(after)[k]
        == expect[k] by {
        let j = choose|j: int| 0 <= j < after.len() && after[j].0 == k;
        if j < p {
            assert(after[j] == pairs[j]);
        } else if j > p {
            assert(after[j] == pairs[j - 1]);
        }
    }
    assert(map_of(after) =~= expect);
}

/// Where `label` first stands among `pairs`.
pub open spec fn label_index<V>(pairs: Seq<(Seq<char>, V)>, label: Seq<char>) -> Option<int>
    decreases pairs.len(),
{
    if pairs.len() == 0 {
        None
    } else if pairs[0].0 == label {
        Some(0)
    } else {
        match label_index(pairs.drop_first(), label) {
            Some(i) => Some(i + 1),
            None => None,
        }
    }
}

/// The pairs after writing `e`: a label already present keeps its place and
/// takes the new value, a new label comes last.
pub open spec fn put_pair<V>(pairs: Seq<(Seq<char>, V)>, e: (Seq<char>, V)) -> Seq<(Seq<char>, V)> {
    match label_index(pairs, e.0) {
        Some(i) => pairs.update(i, e),
        None => pairs.push(e),
    }
}

pub proof fn lemma_label_index<V>(pairs: Seq<(Seq<char>, V)>, label: Seq<char>)
    ensures
        match label_index(pairs, label) {
            Some(i) => 0 <= i < pairs.len() && pairs[i].0 == label && forall|j: int|
                0 <= j < i ==> #[trigger] pairs[j].0 != label,
            None => forall|j: int| 0 <= j < pairs.len() ==> #[trigger] pairs[j].0 != label,
        },
    decreases pairs.len(),
{
    if pairs.len() > 0 {
        let rest = pairs.drop_first();
        lemma_label_index(rest, label);
        match label_index(pairs, label) {
            Some(i) => {
                assert forall|j: int| 0 <= j < i implies #[trigger] pairs[j].0 != label by {
                    if j > 0 {
                        assert(pairs[j] == rest[j - 1]);
                    }
                }
            },
            None => {
                assert forall|j: int| 0 <= j < pairs.len() implies #[trigger] pairs[j].0
                    != label by {
                    if j > 0 {
                        assert(pairs[j] == rest[j - 1]);
                    }
                }
            },
        }
    }
}

/// Labels mapped to values, each label at most once.
pub struct LabelMap<V> {
    entries: Vec<(String, V)>,
}

impl<V> LabelMap<V> {
    /// The pairs in the order in which their labels were first inserted.
    pub closed spec fn pairs(self) -> Seq<(Seq<char>, V)> {
        self.entries@.map_values(|e: (String, V)| (e.0@, e.1))
    }

    #[verifier::type_invariant]
    closed spec fn distinct(self) -> bool {
        labels_distinct(self.pairs())
    }

    /// The contents as a mathematical map.
    pub open spec fn map(self) -> Map<Seq<char>, V> {
        map_of(self.pairs())
    }

    pub fn new() -> (m: Self)
        ensures
            m.pairs() == Seq::<(Seq<char>, V)>::empty(),
            m.map() == Map::<Seq<char>, V>::empty(),
    {
        let m = LabelMap { entries: Vec::new() };
        assert(m.pairs() =~= Seq::<(Seq<char>, V)>::empty());
        m
    }

    /// The number of labels.
    pub fn len(&self) -> (n: usize)
        ensures
            n == self.pairs().len(),
            n == self.map().dom().len(),
            labels_distinct(self.pairs()),
    {
        proof {
            use_type_invariant(self);
            lemma_map_of(self.pairs());
        }
        self.entries.len()
    }

    pub fn is_empty(&self) -> (b: bool)
        ensures
            b == (self.pairs().len() == 0),
            b == (self.map().dom().len() == 0),
    {
        proof {
            use_type_invariant(self);
            lemma_map_of(self.pairs());
        }
        self.entries.len() == 0
    }

    /// The label and value of the `i`-th pair.
    pub fn entry(&self, i: usize) -> (e: (&String, &V))
        requires
            i < self.pairs().len(),
        ensures
            e.0@ == self.pairs()[i as int].0,
            *e.1 == self.pairs()[i as int].1,
    {
        let pair = &self.entries[i];
        (&pair.0, &pair.1)
    }

    /// Where `label` stands among the pairs, if it does.
    fn position(&self, label: &[char]) -> (r: Option<usize>)
        ensures
            match r {
                Some(i) => i < self.pairs().len() && self.pairs()[i as int].0 == label@,
                None => forall|i: int|
                    0 <= i < self.pairs().len() ==> #[trigger] self.pairs()[i].0 != label@,
            },
    {
        let mut i: usize = 0;
        while i < self.entries.len()
            invariant
                i <= self.entries@.len(),
                self.pairs().len() == self.entries@.len(),
                forall|k: int| 0 <= k < i ==> #[trigger] self.pairs()[k].0 != label@,
            decreases self.entries.len() - i,
        {
            let key = to_chars(self.entries[i].0.as_str());
            if chars_equal(key.as_slice(), label) {
                return Some(i);
            }
            i = i + 1;
        }
        None
    }

    /// The value that `label` maps to.
    pub fn get(&self, label: &str) -> (r: Option<&V>)
        ensures
            match r {
                Some(v) => self.map().contains_key(label@) && *v == self.map()[label@],
                None => !self.map().contains_key(label@),
            },
    {
        proof {
            use_type_invariant(self);
            lemma_map_of(self.pairs());
        }
        let key = to_chars(label);
        match self.position(key.as_slice()) {
            Some(i) => {
                assert(self.pairs()[i as int] == (self.entries@[i as int].0@, self.entries@[i as int].1));
                assert(self.pairs()[i as int].0 == label@);
                assert(map_of(self.pairs()).contains_key(self.pairs()[i as int].0));
                Some(&self.entries[i].1)
            },
            None => None,
        }
    }

    pub fn contains_key(&self, label: &str) -> (b: bool)
        ensures
            b == self.map().contains_key(label@),
    {
        self.get(label).is_some()
    }

    /// Maps `label` to `value`: a label already present keeps its place and
    /// takes the new value, a new label comes last.
    pub fn insert(&mut self, label: String, value: V)
        ensures
            final(self).map() == old(self).map().insert(label@, value),
            old(self).map().contains_key(label@) ==> final(self).pairs().len() == old(
                self,
            ).pairs().len(),
            !old(self).map().contains_key(label@) ==> final(self).pairs() == old(self).pairs().push(
                (label@, value),
            ),
            final(self).pairs() == put_pair(old(self).pairs(), (label@, value)),
    {
        proof {
            use_type_invariant(&*self);
            lemma_map_of(self.pairs());
            lemma_label_index(self.pairs(), label@);
        }
        let key = to_chars(label.as_str());
        let ghost before = self.pairs();
        match self.position(key.as_slice()) {
            Some(i) => {
                let ghost at = i as int;
                let mut entries: Vec<(String, V)> = Vec::new();
                std::mem::swap(&mut entries, &mut self.entries);
                entries.set(i, (label, value));
                let ghost after = entries@.map_values(|e: (String, V)| (e.0@, e.1));
                assert(after =~= before.update(at, (label@, value)));
                assert(label_index(before, label@) == Some(at)) by {
                    let f = label_index(before, label@).unwrap();
                    if f != at {
                        assert(before[f].0 != before[at].0);
                    }
                }
                assert(labels_distinct(after)) by {
                    assert forall|a: int, b: int| 0 <= a < b < after.len() implies (
                    #[trigger] after[a]).0 != (#[trigger] after[b]).0 by {
                        assert(before[a].0 != before[b].0);
                    }
                }
                proof {
                    lemma_map_of(after);
                    assert(map_of(after) =~= map_of(before).insert(label@, value)) by {
                        assert forall|k: Seq<char>| #[trigger] map_of(after).contains_key(k)
                            <==> map_of(before).insert(label@, value).contains_key(k) by {
                            if map_of(after).contains_key(k) {
                                let j = choose|j: int| 0 <= j < after.len() && after[j].0 == k;
                                if j != at {
                                    assert(before[j] == after[j]);
                                }
                            }
                            if map_of(before).contains_key(k) {
                                let j = choose|j: int| 0 <= j < before.len() && before[j].0 == k;
                                assert(after[j].0 == k);
                            }
                            if k == label@ {
                                assert(after[at].0 == k);
                            }
                        }
                        assert forall|k: Seq<char>| #[trigger] map_of(after).contains_key(k)
                            implies map_of(after)[k] == map_of(before).insert(label@, value)[k] by {
                            let j = choose|j: int| 0 <= j < after.len() && after[j].0 == k;
                            if j != at {
                                assert(before[j] == after[j]);
                                assert(before[at].0 != before[j].0);
                            }
                        }
                    }
                }
                self.entries = entries;
            },
            None => {
                let mut entries: Vec<(String, V)> = Vec::new();
                std::mem::swap(&mut entries, &mut self.entries);
                entries.push((label, value));
                let ghost after = entries@.map_values(|e: (String, V)| (e.0@, e.1));
                assert(after =~= before.push((label@, value)));
                assert(label_index(before, label@).is_none()) by {
                    if label_index(before, label@).is_some() {
                        let f = label_index(before, label@).unwrap();
                        assert(before[f].0 != label@);
                    }
                }
                assert(labels_distinct(after)) by {
                    assert forall|a: int, b: int| 0 <= a < b < after.len() implies (
                    #[trigger] after[a]).0 != (#[trigger] after[b]).0 by {
                        if b < before.len() {
                            assert(before[a].0 != before[b].0);
                        } else {
                            assert(after[a] == before[a]);
                        }
                    }
                }
                assert(after.drop_last() == before);
                self.entries = entries;
            },
        }
    }
}

/// What `get` reads after `insert` wrote: the value written under that
/// label, and under any other label what was there before. The write keeps
/// an existing label in its place and puts a new one last.
pub proof fn law_read_after_write<V>(
    before: LabelMap<V>,
    after: LabelMap<V>,
    label: Seq<char>,
    value: V,
    other: Seq<char>,
)
    requires
        labels_distinct(before.pairs()),
        after.map() == before.map().insert(label, value),
        after.pairs() == put_pair(before.pairs(), (label, value)),
        other != label,
    ensures
        after.map().contains_key(label) && after.map()[label] == value,
        after.map().contains_key(other) == before.map().contains_key(other),
        before.map().contains_key(other) ==> after.map()[other] == before.map()[other],
        after.pairs().len() == before.pairs().len() + if before.map().contains_key(label) {
            0int
        } else {
            1int
        },
{
    lemma_map_of(before.pairs());
    lemma_label_index(before.pairs(), label);
    if before.map().contains_key(label) {
        let j = choose|j: int| 0 <= j < before.pairs().len() && before.pairs()[j].0 == label;
        assert(before.pairs()[j].0 == label);
    }
}

} // verus!
