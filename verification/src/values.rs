//! Named values: the text that stands for each `{name}` of a template.
use crate::text::{owned, same_text};
use vstd::prelude::*;

verus! {

/// A table from names to values. Each name has at most one value; the order
/// in which names were added carries no meaning.
#[derive(Debug)]
pub struct Values {
    pairs: Vec<(String, String)>,
}

spec fn pairs_map(pairs: Seq<(String, String)>) -> Map<Seq<char>, Seq<char>>
    decreases pairs.len(),
{
    if pairs.len() == 0 {
        Map::empty()
    } else {
        pairs_map(pairs.drop_last()).insert(pairs.last().0@, pairs.last().1@)
    }
}

spec fn pairs_wf(pairs: Seq<(String, String)>) -> bool {
    forall|i: int, j: int|
        0 <= i < j < pairs.len() ==> (#[trigger] pairs[i]).0@ != (#[trigger] pairs[j]).0@
}

proof fn lemma_pairs_map(pairs: Seq<(String, String)>)
    requires
        pairs_wf(pairs),
    ensures
        forall|k: Seq<char>|
            pairs_map(pairs).contains_key(k) <==> exists|i: int|
                0 <= i < pairs.len() && (#[trigger] pairs[i]).0@ == k,
        forall|i: int|
            0 <= i < pairs.len() ==> pairs_map(pairs)[(#[trigger] pairs[i]).0@] == pairs[i].1@,
        pairs_map(pairs).dom().finite(),
        pairs_map(pairs).dom().len() == pairs.len(),
    decreases pairs.len(),
{
    if pairs.len() > 0 {
        let front = pairs.drop_last();
        assert(pairs_wf(front)) by {
            assert forall|i: int, j: int| 0 <= i < j < front.len() implies (#[trigger] front[i]).0@
                != (#[trigger] front[j]).0@ by {
                assert(front[i] == pairs[i] && front[j] == pairs[j]);
            }
        }
        lemma_pairs_map(front);
        let last = pairs.last();
        assert forall|k: Seq<char>|
            pairs_map(pairs).contains_key(k) <==> exists|i: int|
                0 <= i < pairs.len() && (#[trigger] pairs[i]).0@ == k by {
            if pairs_map(pairs).contains_key(k) {
                if k == last.0@ {
                    assert(pairs[pairs.len() - 1].0@ == k);
                } else {
                    let i = choose|i: int| 0 <= i < front.len() && (#[trigger] front[i]).0@ == k;
                    assert(pairs[i].0@ == k);
                }
            }
            if exists|i: int| 0 <= i < pairs.len() && (#[trigger] pairs[i]).0@ == k {
                let i = choose|i: int| 0 <= i < pairs.len() && (#[trigger] pairs[i]).0@ == k;
                if i < front.len() {
                    assert(front[i].0@ == k);
                }
            }
        }
        assert forall|i: int| 0 <= i < pairs.len() implies pairs_map(pairs)[(
        #[trigger] pairs[i]).0@] == pairs[i].1@ by {
            if i < front.len() {
                assert(front[i] == pairs[i]);
                assert(pairs[i].0@ != last.0@);
            }
        }
        assert(!pairs_map(front).contains_key(last.0@)) by {
            if pairs_map(front).contains_key(last.0@) {
                let i = choose|i: int| 0 <= i < front.len() && (#[trigger] front[i]).0@ == last.0@;
                assert(pairs[i].0@ == pairs[pairs.len() - 1].0@);
            }
        }
    }
}

impl View for Values {
    type V = Map<Seq<char>, Seq<char>>;

    closed spec fn view(&self) -> Map<Seq<char>, Seq<char>> {
        pairs_map(self.pairs@)
    }
}

impl Values {
    /// No name is listed twice.
    pub closed spec fn wf(&self) -> bool {
        pairs_wf(self.pairs@)
    }

    /// A table with no name.
    pub fn new() -> (values: Values)
        ensures
            values.wf(),
            values@ == Map::<Seq<char>, Seq<char>>::empty(),
    {
        Values { pairs: Vec::new() }
    }

    /// The number of names.
    pub fn len(&self) -> (n: usize)
        requires
            self.wf(),
        ensures
            self@.dom().finite(),
            n == self@.dom().len(),
    {
        proof {
            lemma_pairs_map(self.pairs@);
        }
        self.pairs.len()
    }

    fn position(&self, key: &str) -> (r: Option<usize>)
        requires
            self.wf(),
        ensures
            match r {
                Some(i) => i < self.pairs@.len() && self.pairs@[i as int].0@ == key@,
                None => !self@.contains_key(key@),
            },
    {
        proof {
            lemma_pairs_map(self.pairs@);
        }
        let mut i: usize = 0;
        while i < self.pairs.len()
            invariant
                0 <= i <= self.pairs@.len(),
                forall|j: int| 0 <= j < i ==> (#[trigger] self.pairs@[j]).0@ != key@,
            decreases self.pairs.len() - i,
        {
            if same_text(self.pairs[i].0.as_str(), key) {
                return Some(i);
            }
            i += 1;
        }
        None
    }

    /// The value of `key`, if it has one.
    pub fn get(&self, key: &str) -> (r: Option<&String>)
        requires
            self.wf(),
        ensures
            match r {
                Some(value) => self@.contains_key(key@) && self@[key@] == value@,
                None => !self@.contains_key(key@),
            },
    {
        proof {
            lemma_pairs_map(self.pairs@);
        }
        match self.position(key) {
            Some(i) => Some(&self.pairs[i].1),
            None => None,
        }
    }

    /// Whether `key` has a value.
    pub fn contains_key(&self, key: &str) -> (r: bool)
        requires
            self.wf(),
        ensures
            r == self@.contains_key(key@),
    {
        proof {
            lemma_pairs_map(self.pairs@);
        }
        self.position(key).is_some()
    }

    /// Gives `key` the value `value`, and returns the value it had.
    pub fn insert(&mut self, key: String, value: String) -> (r: Option<String>)
        requires
            old(self).wf(),
        ensures
            final(self).wf(),
            final(self)@ == old(self)@.insert(key@, value@),
            match r {
                Some(before) => old(self)@.contains_key(key@) && old(self)@[key@] == before@,
                None => !old(self)@.contains_key(key@),
            },
    {
        let ghost before = self.pairs@;
        proof {
            lemma_pairs_map(before);
        }
        match self.position(key.as_str()) {
            Some(i) => {
                let mut slot = value;
                std::mem::swap(&mut self.pairs[i].1, &mut slot);
                proof {
                    let after = self.pairs@;
                    assert forall|a: int, b: int| 0 <= a < b < after.len() implies (
                    #[trigger] after[a]).0@ != (#[trigger] after[b]).0@ by {
                        assert(after[a].0@ == before[a].0@ && after[b].0@ == before[b].0@);
                    }
                    lemma_pairs_map(after);
                    assert forall|k: Seq<char>|
                        pairs_map(after).contains_key(k) <==> pairs_map(before).insert(
                            key@,
                            value@,
                        ).contains_key(k) by {
                        if pairs_map(after).contains_key(k) {
                            let a = choose|a: int|
                                0 <= a < after.len() && (#[trigger] after[a]).0@ == k;
                            assert(before[a].0@ == k);
                        }
                        if pairs_map(before).contains_key(k) {
                            let a = choose|a: int|
                                0 <= a < before.len() && (#[trigger] before[a]).0@ == k;
                            assert(after[a].0@ == k);
                        }
                        if k == key@ {
                            assert(after[i as int].0@ == k);
                        }
                    }
                    assert forall|k: Seq<char>| pairs_map(after).contains_key(k) implies pairs_map(
                        after,
                    )[k] == pairs_map(before).insert(key@, value@)[k] by {
                        let a = choose|a: int| 0 <= a < after.len() && (#[trigger] after[a]).0@ == k;
                        assert(pairs_map(after)[after[a].0@] == after[a].1@);
                        if a != i {
                            assert(after[a] == before[a]);
                            assert(pairs_map(before)[before[a].0@] == before[a].1@);
                            assert(before[a].0@ != before[i as int].0@);
                        }
                    }
                    assert(pairs_map(after) =~= pairs_map(before).insert(key@, value@));
                    assert(pairs_map(before)[before[i as int].0@] == before[i as int].1@);
                }
                Some(slot)
            },
            None => {
                proof {
                    let grown = before.push((key, value));
                    assert(grown.drop_last() =~= before);
                    assert forall|a: int, b: int| 0 <= a < b < grown.len() implies (
                    #[trigger] grown[a]).0@ != (#[trigger] grown[b]).0@ by {
                        if b == before.len() {
                            assert(before[a].0@ != key@);
                        }
                    }
                }
                self.pairs.push((key, value));
                None
            },
        }
    }

    /// Takes the value of `key` away, and returns it.
    pub fn remove(&mut self, key: &str) -> (r: Option<String>)
        requires
            old(self).wf(),
        ensures
            final(self).wf(),
            final(self)@ == old(self)@.remove(key@),
            match r {
                Some(before) => old(self)@.contains_key(key@) && old(self)@[key@] == before@,
                None => !old(self)@.contains_key(key@),
            },
    {
        let ghost before = self.pairs@;
        proof {
            lemma_pairs_map(before);
        }
        match self.position(key) {
            None => {
                assert(pairs_map(before).remove(key@) =~= pairs_map(before));
                None
            },
            Some(i) => {
                let pair = self.pairs.remove(i);
                proof {
                    let after = self.pairs@;
                    assert(after =~= before.remove(i as int));
                    assert forall|a: int, b: int| 0 <= a < b < after.len() implies (
                    #[trigger] after[a]).0@ != (#[trigger] after[b]).0@ by {
                        let a0 = if a < i { a } else { a + 1 };
                        let b0 = if b < i { b } else { b + 1 };
                        assert(after[a] == before[a0] && after[b] == before[b0]);
                    }
                    lemma_pairs_map(after);
                    assert forall|k: Seq<char>|
                        pairs_map(after).contains_key(k) <==> pairs_map(before).remove(
                            key@,
                        ).contains_key(k) by {
                        if pairs_map(after).contains_key(k) {
                            let a = choose|a: int|
                                0 <= a < after.len() && (#[trigger] after[a]).0@ == k;
                            let a0 = if a < i { a } else { a + 1 };
                            assert(before[a0].0@ == k);
                            assert(before[a0].0@ != before[i as int].0@);
                        }
                        if pairs_map(before).remove(key@).contains_key(k) {
                            let a = choose|a: int|
                                0 <= a < before.len() && (#[trigger] before[a]).0@ == k;
                            let a1 = if a < i { a } else { a - 1 };
                            assert(after[a1].0@ == k);
                        }
                    }
                    assert forall|k: Seq<char>| pairs_map(after).contains_key(k) implies pairs_map(
                        after,
                    )[k] == pairs_map(before).remove(key@)[k] by {
                        let a = choose|a: int| 0 <= a < after.len() && (#[trigger] after[a]).0@ == k;
                        let a0 = if a < i { a } else { a + 1 };
                        assert(pairs_map(after)[after[a].0@] == after[a].1@);
                        assert(after[a] == before[a0]);
                        assert(pairs_map(before)[before[a0].0@] == before[a0].1@);
                    }
                    assert(pairs_map(after) =~= pairs_map(before).remove(key@));
                    assert(pairs_map(before)[before[i as int].0@] == before[i as int].1@);
                }
                Some(pair.1)
            },
        }
    }

    /// Whether both tables give the same names the same values.
    pub fn same_as(&self, other: &Values) -> (r: bool)
        requires
            self.wf(),
            other.wf(),
        ensures
            r == (self@ == other@),
    {
        proof {
            lemma_pairs_map(self.pairs@);
            lemma_pairs_map(other.pairs@);
        }
        if self.pairs.len() != other.pairs.len() {
            return false;
        }
        let mut i: usize = 0;
        while i < self.pairs.len()
            invariant
                0 <= i <= self.pairs@.len(),
                self.wf(),
                other.wf(),
                self.pairs@.len() == other.pairs@.len(),
                forall|j: int|
                    0 <= j < i ==> other@.contains_key((#[trigger] self.pairs@[j]).0@) && other@[self.pairs@[j].0@]
                        == self.pairs@[j].1@,
            decreases self.pairs.len() - i,
        {
            proof {
                lemma_pairs_map(self.pairs@);
            }
            match other.get(self.pairs[i].0.as_str()) {
                None => {
                    assert(self@.contains_key(self.pairs@[i as int].0@));
                    return false;
                },
                Some(value) => {
                    if !same_text(value.as_str(), self.pairs[i].1.as_str()) {
                        assert(self@[self.pairs@[i as int].0@] == self.pairs@[i as int].1@);
                        return false;
                    }
                },
            }
            i += 1;
        }
        proof {
            lemma_pairs_map(self.pairs@);
            lemma_pairs_map(other.pairs@);
            assert forall|k: Seq<char>| self@.contains_key(k) implies other@.contains_key(k)
                && other@[k] == self@[k] by {
                let j = choose|j: int|
                    0 <= j < self.pairs@.len() && (#[trigger] self.pairs@[j]).0@ == k;
                assert(self@[self.pairs@[j].0@] == self.pairs@[j].1@);
            }
            assert(self@.dom().subset_of(other@.dom()));
            vstd::set_lib::lemma_subset_equality(self@.dom(), other@.dom());
            assert(self@ =~= other@);
        }
        true
    }

    /// A table of its own with the same names and values.
    pub fn duplicate(&self) -> (copy: Values)
        requires
            self.wf(),
        ensures
            copy.wf(),
            copy@ == self@,
    {
        let mut pairs: Vec<(String, String)> = Vec::new();
        let mut i: usize = 0;
        while i < self.pairs.len()
            invariant
                0 <= i <= self.pairs@.len(),
                pairs@.len() == i,
                forall|j: int|
                    0 <= j < i ==> (#[trigger] pairs@[j]).0@ == self.pairs@[j].0@ && pairs@[j].1@
                        == self.pairs@[j].1@,
            decreases self.pairs.len() - i,
        {
            let key = owned(self.pairs[i].0.as_str());
            let value = owned(self.pairs[i].1.as_str());
            pairs.push((key, value));
            i += 1;
        }
        proof {
            lemma_same_pairs(pairs@, self.pairs@);
        }
        Values { pairs }
    }
}

proof fn lemma_same_pairs(a: Seq<(String, String)>, b: Seq<(String, String)>)
    requires
        a.len() == b.len(),
        forall|j: int|
            0 <= j < a.len() ==> (#[trigger] a[j]).0@ == b[j].0@ && a[j].1@ == b[j].1@,
        pairs_wf(b),
    ensures
        pairs_wf(a),
        pairs_map(a) == pairs_map(b),
    decreases a.len(),
{
    assert forall|i: int, j: int| 0 <= i < j < a.len() implies (#[trigger] a[i]).0@ != (
    #[trigger] a[j]).0@ by {
        assert(b[i].0@ != b[j].0@);
    }
    if a.len() > 0 {
        let fa = a.drop_last();
        let fb = b.drop_last();
        assert forall|j: int| 0 <= j < fa.len() implies (#[trigger] fa[j]).0@ == fb[j].0@ && fa[j].1@
            == fb[j].1@ by {
            assert(fa[j] == a[j] && fb[j] == b[j]);
        }
        assert forall|i: int, j: int| 0 <= i < j < fb.len() implies (#[trigger] fb[i]).0@ != (
        #[trigger] fb[j]).0@ by {
            assert(fb[i] == b[i] && fb[j] == b[j]);
        }
        lemma_same_pairs(fa, fb);
        assert(a.last().0@ == b.last().0@ && a.last().1@ == b.last().1@);
    }
}

} // verus!
