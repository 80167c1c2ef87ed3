//! Stable ordering by a number and a name.

use crate::text::{chars_of};
use vstd::prelude::*;

verus! {

/// What items are ordered by: the number first, then the name.
#[derive(Debug, Clone)]
pub struct SortKey {
    pub rank: i128,
    pub name: String,
}

/// The mathematical value of a `SortKey`.
pub struct KeyModel {
    pub rank: int,
    pub name: Seq<char>,
}

impl View for SortKey {
    type V = KeyModel;

    open spec fn view(&self) -> KeyModel {
        KeyModel { rank: self.rank as int, name: self.name@ }
    }
}

/// The models of a sequence of keys.
pub open spec fn key_views(v: Seq<SortKey>) -> Seq<KeyModel> {
    Seq::new(v.len(), |i: int| v[i]@)
}

/// `a` comes before `b` in the order of strings: at the first difference it has
/// the smaller character, or it ends.
pub open spec fn text_before(a: Seq<char>, b: Seq<char>) -> bool
    decreases a.len(),
{
    if b.len() == 0 {
        false
    } else if a.len() == 0 {
        true
    } else if a[0] != b[0] {
        a[0] < b[0]
    } else {
        text_before(a.drop_first(), b.drop_first())
    }
}

/// `a` comes before `b`.
pub open spec fn key_before(a: KeyModel, b: KeyModel) -> bool {
    a.rank < b.rank || (a.rank == b.rank && text_before(a.name, b.name))
}

/// Item `i` comes before item `j`; of two that are equal, the earlier one does.
pub open spec fn item_before(keys: Seq<KeyModel>, i: int, j: int) -> bool {
    key_before(keys[i], keys[j]) || (!key_before(keys[j], keys[i]) && i < j)
}

/// `p` lists the items of `keys`, each once, in their order.
pub open spec fn is_stable_order(keys: Seq<KeyModel>, p: Seq<int>) -> bool {
    &&& p.len() == keys.len()
    &&& forall|i: int| 0 <= i < p.len() ==> 0 <= #[trigger] p[i] < keys.len()
    &&& forall|i: int, j: int| 0 <= i < j < p.len() ==> item_before(keys, #[trigger] p[i], #[trigger] p[j])
}

pub open spec fn index_seq(v: Seq<usize>) -> Seq<int> {
    Seq::new(v.len(), |i: int| v[i] as int)
}

pub proof fn lemma_text_total(a: Seq<char>, b: Seq<char>)
    ensures
        a == b || text_before(a, b) || text_before(b, a),
        !(text_before(a, b) && text_before(b, a)),
        !text_before(a, a),
    decreases a.len(),
{
    if a.len() > 0 && b.len() > 0 && a[0] == b[0] {
        lemma_text_total(a.drop_first(), b.drop_first());
        if a.drop_first() == b.drop_first() {
            assert(a =~= b) by {
                assert forall|i: int| 0 <= i < a.len() implies a[i] == b[i] by {
                    if i > 0 {
                        assert(a.drop_first()[i - 1] == b.drop_first()[i - 1]);
                    }
                }
            }
        }
    }
    if a.len() == 0 && b.len() == 0 {
        assert(a =~= b);
    }
    if a.len() > 0 {
        lemma_text_total(a.drop_first(), a.drop_first());
    }
}

pub proof fn lemma_text_trans(a: Seq<char>, b: Seq<char>, c: Seq<char>)
    requires
        text_before(a, b),
        text_before(b, c),
    ensures
        text_before(a, c),
    decreases a.len(),
{
    if a.len() > 0 && b.len() > 0 && c.len() > 0 && a[0] == b[0] && b[0] == c[0] {
        lemma_text_trans(a.drop_first(), b.drop_first(), c.drop_first());
    }
}

proof fn lemma_key_order(a: KeyModel, b: KeyModel, c: KeyModel)
    ensures
        !(key_before(a, b) && key_before(b, a)),
        key_before(a, b) && key_before(b, c) ==> key_before(a, c),
        !key_before(b, a) && !key_before(c, b) ==> !key_before(c, a),
{
    lemma_text_total(a.name, b.name);
    lemma_text_total(b.name, c.name);
    lemma_text_total(a.name, c.name);
    if text_before(a.name, b.name) && text_before(b.name, c.name) {
        lemma_text_trans(a.name, b.name, c.name);
    }
    if text_before(c.name, a.name) && text_before(a.name, b.name) {
        lemma_text_trans(c.name, a.name, b.name);
    }
    if text_before(b.name, c.name) && text_before(c.name, a.name) {
        lemma_text_trans(b.name, c.name, a.name);
    }
}

proof fn lemma_item_order(keys: Seq<KeyModel>, i: int, j: int, k: int)
    ensures
        !(item_before(keys, i, j) && item_before(keys, j, i)),
        i != j ==> item_before(keys, i, j) || item_before(keys, j, i),
        item_before(keys, i, j) && item_before(keys, j, k) ==> item_before(keys, i, k),
{
    lemma_key_order(keys[i], keys[j], keys[k]);
    lemma_key_order(keys[j], keys[k], keys[i]);
    lemma_key_order(keys[k], keys[i], keys[j]);
    lemma_key_order(keys[j], keys[i], keys[k]);
    lemma_key_order(keys[i], keys[k], keys[j]);
    lemma_key_order(keys[k], keys[j], keys[i]);
}

/// Whether `a` comes before `b` in the order of strings.
pub fn text_is_before(a: &str, b: &str) -> (r: bool)
    ensures
        r == text_before(a@, b@),
{
    let x = chars_of(a);
    let y = chars_of(b);
    let mut i: usize = 0;
    proof {
        assert(x@.skip(0) =~= x@);
        assert(y@.skip(0) =~= y@);
    }
    while i < x.len() && i < y.len()
        invariant
            x@ == a@,
            y@ == b@,
            i <= x.len(),
            i <= y.len(),
            text_before(a@, b@) == text_before(x@.skip(i as int), y@.skip(i as int)),
        decreases x.len() - i,
    {
        if x[i] != y[i] {
            return x[i] < y[i];
        }
        proof {
            assert(x@.skip(i as int).drop_first() =~= x@.skip(i + 1));
            assert(y@.skip(i as int).drop_first() =~= y@.skip(i + 1));
        }
        i += 1;
    }
    i < y.len()
}

fn key_is_before(a: &SortKey, b: &SortKey) -> (r: bool)
    ensures
        r == key_before(a@, b@),
{
    a.rank < b.rank || (a.rank == b.rank && text_is_before(a.name.as_str(), b.name.as_str()))
}

/// The positions of the items in their order: a stable sort.
pub fn stable_order(keys: &Vec<SortKey>) -> (r: Vec<usize>)
    ensures
        is_stable_order(key_views(keys@), index_seq(r@)),
{
    let ghost models = key_views(keys@);
    let mut out: Vec<usize> = Vec::new();
    let mut n: usize = 0;
    while n < keys.len()
        invariant
            n <= keys.len(),
            models == key_views(keys@),
            out@.len() == n,
            forall|i: int| 0 <= i < n ==> 0 <= #[trigger] out@[i] < n,
            forall|i: int, j: int|
                0 <= i < j < n ==> item_before(
                    models,
                    #[trigger] out@[i] as int,
                    #[trigger] out@[j] as int,
                ),
        decreases keys.len() - n,
    {
        let mut k: usize = n;
        while k > 0 && key_is_before(&keys[n], &keys[out[k - 1]])
            invariant
                k <= n < keys.len(),
                models == key_views(keys@),
                out@.len() == n,
                forall|i: int| 0 <= i < n ==> 0 <= #[trigger] out@[i] < n,
                forall|i: int|
                    k <= i < n ==> key_before(models[n as int], models[#[trigger] out@[i] as int]),
            decreases k,
        {
            k -= 1;
        }
        let ghost before = out@;
        out.insert(k, n);
        proof {
            assert(out@ == before.insert(k as int, n));
            assert forall|i: int, j: int| 0 <= i < j < n + 1 implies item_before(
                models,
                #[trigger] out@[i] as int,
                #[trigger] out@[j] as int,
            ) by {
                if i == k {
                    lemma_key_order(models[n as int], models[before[j - 1] as int], models[n as int]);
                } else if j == k {
                    if k > 0 {
                        let last = before[k - 1] as int;
                        let here = before[i] as int;
                        assert(!key_before(models[n as int], models[last]));
                        if i < k - 1 {
                            assert(item_before(models, here, last));
                            lemma_key_order(models[here], models[last], models[n as int]);
                            lemma_key_order(models[last], models[here], models[n as int]);
                            lemma_key_order(models[n as int], models[here], models[last]);
                        }
                    }
                } else {
                    let a = if i < k { i } else { i - 1 };
                    let b = if j < k { j } else { j - 1 };
                    assert(out@[i] == before[a]);
                    assert(out@[j] == before[b]);
                }
            }
            assert forall|i: int| 0 <= i < n + 1 implies 0 <= #[trigger] out@[i] < n + 1 by {
                if i < k {
                    assert(out@[i] == before[i]);
                } else if i > k {
                    assert(out@[i] == before[i - 1]);
                }
            }
        }
        n += 1;
    }
    proof {
        let p = index_seq(out@);
        assert forall|i: int, j: int| 0 <= i < j < p.len() implies item_before(
            models,
            #[trigger] p[i],
            #[trigger] p[j],
        ) by {
            assert(item_before(models, out@[i] as int, out@[j] as int));
        }
    }
    out
}

proof fn lemma_order_distinct(keys: Seq<KeyModel>, p: Seq<int>)
    requires
        is_stable_order(keys, p),
    ensures
        p.no_duplicates(),
{
    assert forall|i: int, j: int| 0 <= i < p.len() && 0 <= j < p.len() && i != j implies p[i]
        != p[j] by {
        if i < j {
            assert(item_before(keys, p[i], p[j]));
            lemma_item_order(keys, p[i], p[j], p[i]);
        } else {
            assert(item_before(keys, p[j], p[i]));
            lemma_item_order(keys, p[j], p[i], p[j]);
        }
    }
}

/// An order of `n` items lists every one of them.
pub proof fn lemma_order_covers(keys: Seq<KeyModel>, p: Seq<int>, x: int)
    requires
        is_stable_order(keys, p),
        0 <= x < keys.len(),
    ensures
        p.contains(x),
{
    lemma_order_distinct(keys, p);
    let all = vstd::set_lib::set_int_range(0, keys.len() as int);
    vstd::set_lib::lemma_int_range(0, keys.len() as int);
    p.unique_seq_to_set();
    assert(p.to_set().subset_of(all)) by {
        assert forall|y: int| p.to_set().contains(y) implies all.contains(y) by {
            let i = choose|i: int| 0 <= i < p.len() && p[i] == y;
            assert(p[i] == y);
        }
    }
    vstd::set_lib::lemma_len_subset(p.to_set(), all);
    vstd::set_lib::lemma_subset_equality(p.to_set(), all);
    assert(all.contains(x));
    assert(p.to_set().contains(x));
}

/// The items in their order.
pub open spec fn order_of(keys: Seq<KeyModel>) -> Seq<int> {
    choose|p: Seq<int>| is_stable_order(keys, p)
}

/// What lists the items in their order is that list.
pub proof fn lemma_order_of(keys: Seq<KeyModel>, p: Seq<int>)
    requires
        is_stable_order(keys, p),
    ensures
        order_of(keys) == p,
        is_stable_order(keys, order_of(keys)),
{
    law_stable_order_is_unique(keys, p, order_of(keys));
}

proof fn lemma_order_grows(keys: Seq<KeyModel>, p: Seq<int>, t: int)
    requires
        keys.len() > 0,
        is_stable_order(keys.drop_last(), p),
        0 <= t <= p.len(),
        forall|i: int| 0 <= i < t ==> item_before(keys, #[trigger] p[i], keys.len() - 1),
        forall|i: int| t <= i < p.len() ==> item_before(keys, keys.len() - 1, #[trigger] p[i]),
    ensures
        is_stable_order(keys, p.insert(t, keys.len() - 1)),
{
    let n = keys.len() - 1;
    let q = p.insert(t, n);
    assert forall|i: int| 0 <= i < q.len() implies 0 <= #[trigger] q[i] < keys.len() by {
        if i < t {
            assert(q[i] == p[i]);
        } else if i > t {
            assert(q[i] == p[i - 1]);
        }
    }
    assert forall|i: int, j: int| 0 <= i < j < q.len() implies item_before(
        keys,
        #[trigger] q[i],
        #[trigger] q[j],
    ) by {
        let a = if i < t {
            i
        } else {
            i - 1
        };
        let b = if j < t {
            j
        } else {
            j - 1
        };
        if i != t {
            assert(q[i] == p[a]);
        }
        if j != t {
            assert(q[j] == p[b]);
        }
        if i != t && j != t {
            assert(item_before(keys.drop_last(), p[a], p[b]));
            assert(0 <= p[a] < n && 0 <= p[b] < n);
        }
    }
}

/// Where the last item belongs among the others.
proof fn lemma_place(keys: Seq<KeyModel>, p: Seq<int>, t: int) -> (r: int)
    requires
        keys.len() > 0,
        is_stable_order(keys.drop_last(), p),
        0 <= t <= p.len(),
        forall|i: int| t <= i < p.len() ==> item_before(keys, keys.len() - 1, #[trigger] p[i]),
    ensures
        0 <= r <= p.len(),
        forall|i: int| 0 <= i < r ==> item_before(keys, #[trigger] p[i], keys.len() - 1),
        forall|i: int| r <= i < p.len() ==> item_before(keys, keys.len() - 1, #[trigger] p[i]),
    decreases t,
{
    let n = keys.len() - 1;
    if t == 0 {
        t
    } else {
        lemma_item_order(keys, p[t - 1], n, n);
        assert(0 <= p[t - 1] < n);
        if item_before(keys, n, p[t - 1]) {
            lemma_place(keys, p, t - 1)
        } else {
            assert forall|i: int| 0 <= i < t implies item_before(keys, #[trigger] p[i], n) by {
                if i < t - 1 {
                    assert(item_before(keys.drop_last(), p[i], p[t - 1]));
                    assert(0 <= p[i] < n);
                    lemma_item_order(keys, p[i], p[t - 1], n);
                }
            }
            t
        }
    }
}

/// Every list of items has an order, and `order_of` is it.
pub proof fn law_items_have_an_order(keys: Seq<KeyModel>)
    ensures
        is_stable_order(keys, order_of(keys)),
        forall|x: int| 0 <= x < keys.len() ==> order_of(keys).contains(x),
    decreases keys.len(),
{
    if keys.len() == 0 {
        assert(is_stable_order(keys, Seq::empty()));
    } else {
        law_items_have_an_order(keys.drop_last());
        let p = order_of(keys.drop_last());
        let t = lemma_place(keys, p, p.len() as int);
        lemma_order_grows(keys, p, t);
    }
    assert forall|x: int| 0 <= x < keys.len() implies order_of(keys).contains(x) by {
        lemma_order_covers(keys, order_of(keys), x);
    }
}

/// The order of items is unique: two lists that are both in order are equal.
pub proof fn law_stable_order_is_unique(keys: Seq<KeyModel>, p: Seq<int>, q: Seq<int>)
    requires
        is_stable_order(keys, p),
        is_stable_order(keys, q),
    ensures
        p == q,
{
    assert forall|k: int| 0 <= k < p.len() implies p[k] == q[k] by {
        lemma_same_until(keys, p, q, k);
    }
    assert(p =~= q);
}

proof fn lemma_same_until(keys: Seq<KeyModel>, p: Seq<int>, q: Seq<int>, k: int)
    requires
        is_stable_order(keys, p),
        is_stable_order(keys, q),
        0 <= k < p.len(),
    ensures
        forall|i: int| 0 <= i <= k ==> p[i] == q[i],
    decreases k,
{
    if k > 0 {
        lemma_same_until(keys, p, q, k - 1);
    }
    if p[k] != q[k] {
        lemma_order_distinct(keys, p);
        lemma_order_distinct(keys, q);
        lemma_order_covers(keys, q, p[k]);
        lemma_order_covers(keys, p, q[k]);
        let a = choose|a: int| 0 <= a < q.len() && q[a] == p[k];
        let b = choose|b: int| 0 <= b < p.len() && p[b] == q[k];
        if a < k {
            assert(p[a] == q[a]);
        }
        if b < k {
            assert(p[b] == q[b]);
        }
        assert(item_before(keys, q[k], q[a]));
        assert(item_before(keys, p[k], p[b]));
        lemma_item_order(keys, p[k], q[k], p[k]);
    }
}

/// Keys without names stand in the order of their ranks.
pub proof fn lemma_order_ranks(km: Seq<KeyModel>, p: Seq<int>, a: int, b: int)
    requires
        is_stable_order(km, p),
        0 <= a < b < p.len(),
        forall|i: int| 0 <= i < km.len() ==> (#[trigger] km[i]).name.len() == 0,
    ensures
        km[p[a]].rank <= km[p[b]].rank,
        p[a] != p[b],
{
    assert(item_before(km, p[a], p[b]));
    assert(0 <= p[a] < km.len());
    assert(0 <= p[b] < km.len());
    assert(!text_before(km[p[a]].name, km[p[b]].name));
    assert(!text_before(km[p[b]].name, km[p[a]].name));
}

/// A filter of the front of a sequence gives the front of the filtered sequence.
pub proof fn lemma_filter_prefix<A>(s: Seq<A>, p: spec_fn(A) -> bool, k: int)
    requires
        0 <= k <= s.len(),
    ensures
        s.take(k).filter(p).len() <= s.filter(p).len(),
        s.take(k).filter(p) == s.filter(p).take(s.take(k).filter(p).len() as int),
    decreases s.len(),
{
    reveal(Seq::filter);
    if k < s.len() {
        lemma_filter_prefix(s.drop_last(), p, k);
        assert(s.drop_last().take(k) =~= s.take(k));
        assert(s.take(k).filter(p) =~= s.filter(p).take(s.take(k).filter(p).len() as int));
    } else {
        assert(s.take(k) =~= s);
        assert(s.filter(p) =~= s.filter(p).take(s.filter(p).len() as int));
    }
}

} // verus!
