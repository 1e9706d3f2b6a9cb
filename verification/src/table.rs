//! A map kept as a vector of rows in which no key occurs twice.

use vstd::prelude::*;

verus! {

/// A type whose values can be compared and copied by what they stand for.
pub trait Key: View + Sized {
    /// Whether both values stand for the same thing.
    fn same(&self, other: &Self) -> (r: bool)
        ensures
            r == (self@ == other@),
    ;

    /// Another value that stands for the same thing.
    fn duplicate(&self) -> (r: Self)
        ensures
            r@ == self@,
    ;
}

impl Key for String {
    fn same(&self, other: &Self) -> (r: bool) {
        *self == *other
    }

    fn duplicate(&self) -> (r: Self) {
        self.clone()
    }
}

/// The map that rows describe when each row replaces an earlier one with the same key.
pub open spec fn assoc<K: View, V>(rows: Seq<(K, V)>) -> Map<K::V, V>
    decreases rows.len(),
{
    if rows.len() == 0 {
        Map::empty()
    } else {
        assoc(rows.drop_last()).insert(rows.last().0@, rows.last().1)
    }
}

/// No key occurs in two rows.
pub open spec fn distinct_keys<K: View, V>(rows: Seq<(K, V)>) -> bool {
    forall|i: int, j: int| 0 <= i < j < rows.len() ==> #[trigger] rows[i].0@ != #[trigger] rows[j].0@
}

/// `rows` has a row with key `k`.
pub open spec fn has_key<K: View, V>(rows: Seq<(K, V)>, k: K::V) -> bool {
    exists|i: int| 0 <= i < rows.len() && #[trigger] rows[i].0@ == k
}

/// The keys of the map are the keys of the rows.
pub proof fn lemma_assoc_dom<K: View, V>(rows: Seq<(K, V)>, k: K::V)
    ensures
        assoc(rows).dom().contains(k) <==> has_key(rows, k),
    decreases rows.len(),
{
    if rows.len() > 0 {
        let front = rows.drop_last();
        lemma_assoc_dom(front, k);
        if has_key(front, k) {
            let i = choose|i: int| 0 <= i < front.len() && #[trigger] front[i].0@ == k;
            assert(rows[i].0@ == k);
        }
        if has_key(rows, k) && rows.last().0@ != k {
            let i = choose|i: int| 0 <= i < rows.len() && #[trigger] rows[i].0@ == k;
            assert(front[i].0@ == k);
        }
        if rows.last().0@ == k {
            assert(rows[rows.len() - 1].0@ == k);
        }
    }
}

/// Where no key occurs twice, the map gives each row's key that row's value.
pub proof fn lemma_assoc_at<K: View, V>(rows: Seq<(K, V)>, i: int)
    requires
        distinct_keys(rows),
        0 <= i < rows.len(),
    ensures
        assoc(rows).dom().contains(rows[i].0@),
        assoc(rows)[rows[i].0@] == rows[i].1,
    decreases rows.len(),
{
    let front = rows.drop_last();
    if i < front.len() {
        assert(distinct_keys(front)) by {
            assert forall|a: int, b: int| 0 <= a < b < front.len() implies #[trigger] front[a].0@
                != #[trigger] front[b].0@ by {
                assert(rows[a].0@ != rows[b].0@);
            }
        }
        lemma_assoc_at(front, i);
        assert(front[i] == rows[i]);
        assert(rows[i].0@ != rows[rows.len() - 1].0@);
    }
}

/// Replacing the value of the row that holds a key inserts into the map.
proof fn lemma_assoc_update<K: View, V>(rows: Seq<(K, V)>, i: int, row: (K, V))
    requires
        distinct_keys(rows),
        0 <= i < rows.len(),
        rows[i].0@ == row.0@,
    ensures
        distinct_keys(rows.update(i, row)),
        assoc(rows.update(i, row)) == assoc(rows).insert(row.0@, row.1),
{
    let after = rows.update(i, row);
    assert forall|a: int, b: int| 0 <= a < b < after.len() implies #[trigger] after[a].0@
        != #[trigger] after[b].0@ by {
        assert(rows[a].0@ != rows[b].0@);
    }
    assert forall|k: K::V| has_key(after, k) <==> has_key(rows, k) by {
        if has_key(after, k) {
            let j = choose|j: int| 0 <= j < after.len() && #[trigger] after[j].0@ == k;
            assert(rows[j].0@ == k);
        }
        if has_key(rows, k) {
            let j = choose|j: int| 0 <= j < rows.len() && #[trigger] rows[j].0@ == k;
            assert(after[j].0@ == k);
        }
    }
    let want = assoc(rows).insert(row.0@, row.1);
    assert forall|k: K::V| #[trigger] assoc(after).dom().contains(k) <==> want.dom().contains(k) by {
        lemma_assoc_dom(after, k);
        lemma_assoc_dom(rows, k);
        lemma_assoc_dom(rows, row.0@);
        assert(has_key(rows, row.0@));
    }
    assert forall|k: K::V| assoc(after).dom().contains(k) implies assoc(after)[k] == want[k] by {
        lemma_assoc_dom(after, k);
        let j = choose|j: int| 0 <= j < after.len() && #[trigger] after[j].0@ == k;
        lemma_assoc_at(after, j);
        lemma_assoc_at(rows, j);
        if j != i {
            if j < i {
                assert(rows[j].0@ != rows[i].0@);
            } else {
                assert(rows[i].0@ != rows[j].0@);
            }
        }
    }
    assert(assoc(after) =~= want);
}

/// Taking out the row that holds a key removes the key from the map.
proof fn lemma_assoc_remove<K: View, V>(rows: Seq<(K, V)>, i: int)
    requires
        distinct_keys(rows),
        0 <= i < rows.len(),
    ensures
        distinct_keys(rows.remove(i)),
        assoc(rows.remove(i)) == assoc(rows).remove(rows[i].0@),
{
    let after = rows.remove(i);
    let gone = rows[i].0@;
    assert forall|a: int, b: int| 0 <= a < b < after.len() implies #[trigger] after[a].0@
        != #[trigger] after[b].0@ by {
        let ra = if a < i { a } else { a + 1 };
        let rb = if b < i { b } else { b + 1 };
        assert(rows[ra].0@ != rows[rb].0@);
    }
    let want = assoc(rows).remove(gone);
    assert forall|k: K::V| #[trigger] assoc(after).dom().contains(k) <==> want.dom().contains(k) by {
        lemma_assoc_dom(after, k);
        lemma_assoc_dom(rows, k);
        if has_key(after, k) {
            let j = choose|j: int| 0 <= j < after.len() && #[trigger] after[j].0@ == k;
            let r = if j < i { j } else { j + 1 };
            assert(rows[r].0@ == k);
            if r < i {
                assert(rows[r].0@ != rows[i].0@);
            } else {
                assert(rows[i].0@ != rows[r].0@);
            }
        }
        if has_key(rows, k) && k != gone {
            let j = choose|j: int| 0 <= j < rows.len() && #[trigger] rows[j].0@ == k;
            let a = if j < i { j } else { j - 1 };
            assert(after[a].0@ == k);
        }
    }
    assert forall|k: K::V| assoc(after).dom().contains(k) implies assoc(after)[k] == want[k] by {
        lemma_assoc_dom(after, k);
        let j = choose|j: int| 0 <= j < after.len() && #[trigger] after[j].0@ == k;
        let r = if j < i { j } else { j + 1 };
        lemma_assoc_at(after, j);
        lemma_assoc_at(rows, r);
    }
    assert(assoc(after) =~= want);
}

/// A map from keys to values.
pub struct Table<K: Key, V> {
    rows: Vec<(K, V)>,
}

impl<K: Key, V> View for Table<K, V> {
    type V = Map<K::V, V>;

    open spec fn view(&self) -> Map<K::V, V> {
        assoc(self.entries())
    }
}

impl<K: Key, V> Table<K, V> {
    /// The rows of the table.
    pub closed spec fn entries(&self) -> Seq<(K, V)> {
        self.rows@
    }

    #[verifier::type_invariant]
    spec fn unique(self) -> bool {
        distinct_keys(self.rows@)
    }

    /// The table without rows.
    pub fn new() -> (r: Self)
        ensures
            r.entries().len() == 0,
            r@ == Map::<K::V, V>::empty(),
    {
        Table { rows: Vec::new() }
    }

    /// The rows of the table.
    pub fn rows(&self) -> (r: &Vec<(K, V)>)
        ensures
            r@ == self.entries(),
            distinct_keys(r@),
    {
        proof {
            use_type_invariant(&*self);
        }
        &self.rows
    }

    /// Where the key stands, if it is there.
    fn position(&self, key: &K) -> (r: Option<usize>)
        ensures
            match r {
                Some(i) => i < self.rows@.len() && self.rows@[i as int].0@ == key@,
                None => !has_key(self.rows@, key@),
            },
    {
        let mut i: usize = 0;
        while i < self.rows.len()
            invariant
                i <= self.rows@.len(),
                forall|j: int| 0 <= j < i ==> #[trigger] self.rows@[j].0@ != key@,
            decreases self.rows@.len() - i,
        {
            if self.rows[i].0.same(key) {
                return Some(i);
            }
            i += 1;
        }
        None
    }

    /// The value of a key.
    pub fn get(&self, key: &K) -> (r: Option<&V>)
        ensures
            match r {
                Some(v) => self@.dom().contains(key@) && *v == self@[key@],
                None => !self@.dom().contains(key@),
            },
    {
        proof {
            use_type_invariant(&*self);
            lemma_assoc_dom(self.rows@, key@);
        }
        match self.position(key) {
            Some(i) => {
                proof {
                    lemma_assoc_at(self.rows@, i as int);
                }
                Some(&self.rows[i].1)
            },
            None => None,
        }
    }

    /// Gives a key a value; a value that it had before is gone.
    pub fn insert(&mut self, key: K, value: V)
        ensures
            final(self)@ == old(self)@.insert(key@, value),
    {
        proof {
            use_type_invariant(&*self);
        }
        let at = self.position(&key);
        let mut rows: Vec<(K, V)> = Vec::new();
        std::mem::swap(&mut rows, &mut self.rows);
        match at {
            Some(i) => {
                proof {
                    lemma_assoc_update(rows@, i as int, (key, value));
                }
                rows.set(i, (key, value));
            },
            None => {
                let ghost before = rows@;
                rows.push((key, value));
                proof {
                    assert(rows@.drop_last() =~= before);
                    assert forall|a: int, b: int| 0 <= a < b < rows@.len() implies #[trigger] rows@[a].0@
                        != #[trigger] rows@[b].0@ by {
                        if b < before.len() {
                            assert(before[a].0@ != before[b].0@);
                        } else {
                            assert(before[a].0@ != key@);
                        }
                    }
                }
            },
        }
        self.rows = rows;
    }

    /// Whether the key has a value.
    pub fn contains(&self, key: &K) -> (r: bool)
        ensures
            r == self@.dom().contains(key@),
    {
        self.get(key).is_some()
    }

    /// Takes a key out and hands back the value that it had.
    pub fn remove(&mut self, key: &K) -> (r: Option<V>)
        ensures
            final(self)@ == old(self)@.remove(key@),
            match r {
                Some(v) => old(self)@.dom().contains(key@) && v == old(self)@[key@],
                None => !old(self)@.dom().contains(key@),
            },
    {
        proof {
            use_type_invariant(&*self);
            lemma_assoc_dom(self.rows@, key@);
        }
        let at = self.position(key);
        let mut rows: Vec<(K, V)> = Vec::new();
        std::mem::swap(&mut rows, &mut self.rows);
        let r = match at {
            Some(i) => {
                proof {
                    lemma_assoc_remove(rows@, i as int);
                    lemma_assoc_at(rows@, i as int);
                }
                Some(rows.remove(i).1)
            },
            None => {
                assert(assoc(rows@).remove(key@) =~= assoc(rows@));
                None
            },
        };
        self.rows = rows;
        r
    }
}

} // verus!
