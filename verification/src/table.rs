//! A table of values under texts, each text once, in the order in which the texts
//! came in.

use crate::text::same;
use vstd::prelude::*;

verus! {

/// Values under texts. A text that is put in again keeps its place.
#[derive(Debug)]
pub struct Table<V> {
    entries: Vec<(String, V)>,
}

pub open spec fn has_key<V>(rows: Seq<(String, V)>, k: Seq<char>) -> bool {
    exists|i: int| 0 <= i < rows.len() && (#[trigger] rows[i]).0@ == k
}

/// Where the text stands.
pub open spec fn row_of<V>(rows: Seq<(String, V)>, k: Seq<char>) -> int {
    choose|i: int| 0 <= i < rows.len() && (#[trigger] rows[i]).0@ == k
}

pub open spec fn distinct_keys<V>(rows: Seq<(String, V)>) -> bool {
    forall|i: int, j: int|
        0 <= i < j < rows.len() ==> (#[trigger] rows[i]).0@ != (#[trigger] rows[j]).0@
}

/// What the rows say, as a map.
pub open spec fn map_of_rows<V>(rows: Seq<(String, V)>) -> Map<Seq<char>, V> {
    Map::new(|k: Seq<char>| has_key(rows, k), |k: Seq<char>| rows[row_of(rows, k)].1)
}

impl<V> View for Table<V> {
    type V = Map<Seq<char>, V>;

    open spec fn view(&self) -> Map<Seq<char>, V> {
        map_of_rows(self.rows())
    }
}

/// A row is what the map says of its text.
pub proof fn lemma_row<V>(rows: Seq<(String, V)>, i: int)
    requires
        distinct_keys(rows),
        0 <= i < rows.len(),
    ensures
        map_of_rows(rows).contains_key(rows[i].0@),
        map_of_rows(rows)[rows[i].0@] == rows[i].1,
        row_of(rows, rows[i].0@) == i,
{
    let k = rows[i].0@;
    assert(has_key(rows, k));
    let j = row_of(rows, k);
    assert(rows[j].0@ == k);
    if j < i {
        assert(rows[j].0@ != rows[i].0@);
    }
    if i < j {
        assert(rows[i].0@ != rows[j].0@);
    }
}

/// A row put behind the others is an insertion.
pub proof fn lemma_rows_push<V>(rows: Seq<(String, V)>, key: String, v: V)
    requires
        distinct_keys(rows),
        !has_key(rows, key@),
    ensures
        distinct_keys(rows.push((key, v))),
        map_of_rows(rows.push((key, v))) == map_of_rows(rows).insert(key@, v),
{
    let after = rows.push((key, v));
    assert forall|i: int, j: int| 0 <= i < j < after.len() implies (#[trigger] after[i]).0@ != (
    #[trigger] after[j]).0@ by {
        if j == rows.len() {
            assert(rows[i].0@ != key@);
        } else {
            assert(rows[i].0@ != rows[j].0@);
        }
    }
    let m = map_of_rows(after);
    let n = map_of_rows(rows).insert(key@, v);
    assert forall|k: Seq<char>| m.contains_key(k) <==> n.contains_key(k) by {
        if has_key(after, k) {
            let i = row_of(after, k);
            assert(after[i].0@ == k);
            if i < rows.len() {
                assert(rows[i].0@ == k);
            }
        }
        if has_key(rows, k) {
            let i = row_of(rows, k);
            assert(after[i].0@ == k);
        }
        if k == key@ {
            assert(after[rows.len() as int].0@ == k);
        }
    }
    assert forall|k: Seq<char>| m.contains_key(k) implies m[k] == n[k] by {
        let i = row_of(after, k);
        assert(after[i].0@ == k);
        lemma_row(after, i);
        if i < rows.len() {
            lemma_row(rows, i);
            assert(k != key@);
        }
    }
    assert(m =~= n);
}

/// A row with another value is an insertion.
pub proof fn lemma_rows_update<V>(rows: Seq<(String, V)>, i: int, v: V)
    requires
        distinct_keys(rows),
        0 <= i < rows.len(),
    ensures
        distinct_keys(rows.update(i, (rows[i].0, v))),
        map_of_rows(rows.update(i, (rows[i].0, v))) == map_of_rows(rows).insert(rows[i].0@, v),
{
    let after = rows.update(i, (rows[i].0, v));
    assert forall|a: int, b: int| 0 <= a < b < after.len() implies (#[trigger] after[a]).0@ != (
    #[trigger] after[b]).0@ by {
        assert(rows[a].0@ != rows[b].0@);
    }
    let m = map_of_rows(after);
    let n = map_of_rows(rows).insert(rows[i].0@, v);
    assert forall|k: Seq<char>| m.contains_key(k) <==> n.contains_key(k) by {
        if has_key(after, k) {
            let j = row_of(after, k);
            assert(after[j].0@ == k);
            assert(rows[j].0@ == k);
        }
        if has_key(rows, k) {
            let j = row_of(rows, k);
            assert(rows[j].0@ == k);
            assert(after[j].0@ == k);
        }
        assert(after[i].0@ == rows[i].0@);
    }
    assert forall|k: Seq<char>| m.contains_key(k) implies m[k] == n[k] by {
        let j = row_of(after, k);
        assert(after[j].0@ == k);
        lemma_row(after, j);
        lemma_row(rows, j);
        if j != i {
            if j < i {
                assert(rows[j].0@ != rows[i].0@);
            } else {
                assert(rows[i].0@ != rows[j].0@);
            }
        }
    }
    assert(m =~= n);
}

/// A row taken out is a removal.
pub proof fn lemma_rows_remove<V>(rows: Seq<(String, V)>, i: int)
    requires
        distinct_keys(rows),
        0 <= i < rows.len(),
    ensures
        distinct_keys(rows.remove(i)),
        map_of_rows(rows.remove(i)) == map_of_rows(rows).remove(rows[i].0@),
{
    let after = rows.remove(i);
    assert forall|a: int, b: int| 0 <= a < b < after.len() implies (#[trigger] after[a]).0@ != (
    #[trigger] after[b]).0@ by {
        let x = if a < i { a } else { a + 1 };
        let y = if b < i { b } else { b + 1 };
        assert(after[a] == rows[x] && after[b] == rows[y]);
        assert(rows[x].0@ != rows[y].0@);
    }
    let m = map_of_rows(after);
    let n = map_of_rows(rows).remove(rows[i].0@);
    assert forall|k: Seq<char>| m.contains_key(k) <==> n.contains_key(k) by {
        if has_key(after, k) {
            let j = row_of(after, k);
            assert(after[j].0@ == k);
            let x = if j < i { j } else { j + 1 };
            assert(after[j] == rows[x]);
            assert(rows[x].0@ == k);
            if x < i {
                assert(rows[x].0@ != rows[i].0@);
            } else {
                assert(rows[i].0@ != rows[x].0@);
            }
        }
        if has_key(rows, k) && k != rows[i].0@ {
            let x = row_of(rows, k);
            assert(rows[x].0@ == k);
            let j = if x < i { x } else { x - 1 };
            assert(after[j] == rows[x]);
            assert(after[j].0@ == k);
        }
    }
    assert forall|k: Seq<char>| m.contains_key(k) implies m[k] == n[k] by {
        let j = row_of(after, k);
        assert(after[j].0@ == k);
        lemma_row(after, j);
        let x = if j < i { j } else { j + 1 };
        assert(after[j] == rows[x]);
        lemma_row(rows, x);
    }
    assert(m =~= n);
}

/// As many texts have values as there are rows.
pub proof fn lemma_rows_count<V>(rows: Seq<(String, V)>)
    requires
        distinct_keys(rows),
    ensures
        map_of_rows(rows).dom().finite(),
        map_of_rows(rows).dom().len() == rows.len(),
    decreases rows.len(),
{
    if rows.len() == 0 {
        assert(map_of_rows(rows).dom() =~= Set::empty());
    } else {
        let t = rows.drop_last();
        let (k, v) = rows.last();
        assert(distinct_keys(t)) by {
            assert forall|i: int, j: int| 0 <= i < j < t.len() implies (#[trigger] t[i]).0@ != (
            #[trigger] t[j]).0@ by {
                assert(t[i] == rows[i] && t[j] == rows[j]);
            }
        }
        lemma_rows_count(t);
        if has_key(t, k@) {
            let i = row_of(t, k@);
            assert(t[i].0@ == k@);
            assert(t[i] == rows[i]);
            assert(rows[i].0@ != rows[rows.len() - 1].0@);
        }
        lemma_rows_push(t, k, v);
        assert(t.push((k, v)) =~= rows);
    }
}

impl<V> Table<V> {
    /// The texts and their values, in their order.
    pub closed spec fn rows(self) -> Seq<(String, V)> {
        self.entries@
    }

    #[verifier::type_invariant]
    closed spec fn each_text_once(self) -> bool {
        distinct_keys(self.entries@)
    }

    pub fn new() -> (r: Self)
        ensures
            r.rows() == Seq::<(String, V)>::empty(),
            r@ == Map::<Seq<char>, V>::empty(),
    {
        let t = Table { entries: Vec::new() };
        proof {
            assert(t@ =~= Map::<Seq<char>, V>::empty());
        }
        t
    }

    pub fn len(&self) -> (r: usize)
        ensures
            r == self.rows().len(),
            distinct_keys(self.rows()),
            self@.dom().finite(),
            r == self@.dom().len(),
    {
        proof {
            use_type_invariant(self);
            lemma_rows_count(self.rows());
        }
        self.entries.len()
    }

    pub fn is_empty(&self) -> (r: bool)
        ensures
            r == (self.rows().len() == 0),
    {
        self.entries.len() == 0
    }

    /// The text at a place.
    pub fn key_at(&self, i: usize) -> (r: &String)
        requires
            i < self.rows().len(),
        ensures
            *r == self.rows()[i as int].0,
    {
        &self.entries[i].0
    }

    /// The value at a place.
    pub fn value_at(&self, i: usize) -> (r: &V)
        requires
            i < self.rows().len(),
        ensures
            *r == self.rows()[i as int].1,
    {
        &self.entries[i].1
    }

    /// The texts in their order.
    pub fn keys(&self) -> (r: Vec<&String>)
        ensures
            r@.len() == self.rows().len(),
            forall|i: int| 0 <= i < r@.len() ==> *(#[trigger] r@[i]) == self.rows()[i].0,
    {
        let mut out: Vec<&String> = Vec::new();
        for i in 0..self.entries.len()
            invariant
                out@.len() == i,
                forall|j: int| 0 <= j < i ==> *(#[trigger] out@[j]) == self.entries@[j].0,
        {
            out.push(&self.entries[i].0);
        }
        out
    }

    fn find(&self, k: &str) -> (r: Option<usize>)
        ensures
            match r {
                Some(i) => i < self.entries@.len() && self.entries@[i as int].0@ == k@,
                None => !has_key(self.entries@, k@),
            },
    {
        for i in 0..self.entries.len()
            invariant
                forall|j: int| 0 <= j < i ==> (#[trigger] self.entries@[j]).0@ != k@,
        {
            if same(self.entries[i].0.as_str(), k) {
                return Some(i);
            }
        }
        None
    }

    pub fn contains_key(&self, k: &str) -> (r: bool)
        ensures
            r == self@.contains_key(k@),
    {
        match self.find(k) {
            Some(i) => {
                proof {
                    assert(self.rows()[i as int].0@ == k@);
                }
                true
            },
            None => false,
        }
    }

    pub fn get(&self, k: &str) -> (r: Option<&V>)
        ensures
            match r {
                Some(v) => self@.contains_key(k@) && *v == self@[k@],
                None => !self@.contains_key(k@),
            },
    {
        match self.find(k) {
            Some(i) => {
                proof {
                    use_type_invariant(self);
                    lemma_row(self.rows(), i as int);
                }
                Some(&self.entries[i].1)
            },
            None => None,
        }
    }

    /// Puts a value under a text, in the place of the one that is there.
    pub fn insert(&mut self, key: String, value: V)
        ensures
            final(self)@ == old(self)@.insert(key@, value),
            old(self)@.contains_key(key@) ==> final(self).rows() == old(self).rows().update(
                row_of(old(self).rows(), key@),
                (old(self).rows()[row_of(old(self).rows(), key@)].0, value),
            ),
            !old(self)@.contains_key(key@) ==> final(self).rows() == old(self).rows().push(
                (key, value),
            ),
    {
        proof {
            use_type_invariant(&*self);
        }
        let found = self.find(key.as_str());
        let mut rows: Vec<(String, V)> = Vec::new();
        std::mem::swap(&mut rows, &mut self.entries);
        let ghost before = rows@;
        match found {
            Some(i) => {
                proof {
                    assert(has_key(before, key@));
                    lemma_rows_update(before, i as int, value);
                    lemma_row(before, i as int);
                }
                rows[i].1 = value;
                proof {
                    assert(rows@ =~= before.update(i as int, (before[i as int].0, value)));
                }
            },
            None => {
                proof {
                    lemma_rows_push(before, key, value);
                }
                rows.push((key, value));
            },
        }
        std::mem::swap(&mut rows, &mut self.entries);
    }

    /// Takes the value under a text out.
    pub fn remove(&mut self, k: &str) -> (r: Option<V>)
        ensures
            final(self)@ == old(self)@.remove(k@),
            r == if old(self)@.contains_key(k@) {
                Some(old(self)@[k@])
            } else {
                None
            },
    {
        proof {
            use_type_invariant(&*self);
        }
        match self.find(k) {
            Some(i) => {
                let mut rows: Vec<(String, V)> = Vec::new();
                std::mem::swap(&mut rows, &mut self.entries);
                proof {
                    lemma_rows_remove(rows@, i as int);
                    lemma_row(rows@, i as int);
                }
                let (_, v) = rows.remove(i);
                std::mem::swap(&mut rows, &mut self.entries);
                Some(v)
            },
            None => {
                proof {
                    assert(self@.remove(k@) =~= self@);
                }
                None
            },
        }
    }
}

} // verus!
