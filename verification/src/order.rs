//! Text order, byte order, and the stable order of a list of keys.

use vstd::prelude::*;
use vstd::relations::total_ordering;

use crate::text::{chars_of, same_text, texts};

verus! {

/// Text order: by the first character in which two texts differ, a prefix
/// before what it is a prefix of. UTF-8 keeps the order of code points, so this
/// is also the order of the encoded bytes.
pub open spec fn text_le(a: Seq<char>, b: Seq<char>) -> bool
    decreases a.len(),
{
    if a.len() == 0 {
        true
    } else if b.len() == 0 {
        false
    } else if a[0] != b[0] {
        a[0] < b[0]
    } else {
        text_le(a.drop_first(), b.drop_first())
    }
}

pub proof fn lemma_text_le_reflexive(a: Seq<char>)
    ensures
        text_le(a, a),
    decreases a.len(),
{
    if a.len() > 0 {
        lemma_text_le_reflexive(a.drop_first());
    }
}

pub proof fn lemma_text_le_total(a: Seq<char>, b: Seq<char>)
    ensures
        text_le(a, b) || text_le(b, a),
    decreases a.len(),
{
    if a.len() > 0 && b.len() > 0 && a[0] == b[0] {
        lemma_text_le_total(a.drop_first(), b.drop_first());
    }
}

pub proof fn lemma_text_le_antisymmetric(a: Seq<char>, b: Seq<char>)
    requires
        text_le(a, b),
        text_le(b, a),
    ensures
        a == b,
    decreases a.len(),
{
    if a.len() > 0 && b.len() > 0 {
        lemma_text_le_antisymmetric(a.drop_first(), b.drop_first());
        assert(a =~= seq![a[0]] + a.drop_first());
        assert(b =~= seq![b[0]] + b.drop_first());
    } else {
        assert(a =~= b);
    }
}

pub proof fn lemma_text_le_transitive(a: Seq<char>, b: Seq<char>, c: Seq<char>)
    requires
        text_le(a, b),
        text_le(b, c),
    ensures
        text_le(a, c),
    decreases a.len(),
{
    if a.len() > 0 && b.len() > 0 && c.len() > 0 && a[0] == b[0] && b[0] == c[0] {
        lemma_text_le_transitive(a.drop_first(), b.drop_first(), c.drop_first());
    }
}

/// Whether `a` comes before `b` in text order or equals it.
pub fn text_not_after(a: &str, b: &str) -> (r: bool)
    ensures
        r == text_le(a@, b@),
{
    let left = chars_of(a);
    let right = chars_of(b);
    let mut i: usize = 0;
    assert(a@.skip(0) =~= a@);
    assert(b@.skip(0) =~= b@);
    while i < left.len() && i < right.len()
        invariant
            left@ == a@,
            right@ == b@,
            i <= left.len(),
            i <= right.len(),
            text_le(a@, b@) == text_le(a@.skip(i as int), b@.skip(i as int)),
        decreases left.len() - i,
    {
        if left[i] != right[i] {
            return left[i] < right[i];
        }
        assert(a@.skip(i as int).drop_first() =~= a@.skip(i + 1));
        assert(b@.skip(i as int).drop_first() =~= b@.skip(i + 1));
        i = i + 1;
    }
    i == left.len()
}

/// Text order as a relation.
pub open spec fn text_order() -> spec_fn(Seq<char>, Seq<char>) -> bool {
    |a: Seq<char>, b: Seq<char>| text_le(a, b)
}

/// The order of the integers as a relation.
pub open spec fn int_order() -> spec_fn(int, int) -> bool {
    |a: int, b: int| a <= b
}

/// Text order is a total order.
pub proof fn lemma_text_order_is_total()
    ensures
        total_ordering(text_order()),
{
    let le = text_order();
    assert forall|a: Seq<char>| #[trigger] le(a, a) by {
        lemma_text_le_reflexive(a);
    }
    assert forall|a: Seq<char>, b: Seq<char>| #[trigger] le(a, b) && #[trigger] le(b, a) implies a
        == b by {
        lemma_text_le_antisymmetric(a, b);
    }
    assert forall|a: Seq<char>, b: Seq<char>, c: Seq<char>| #[trigger]
        le(a, b) && #[trigger] le(b, c) implies le(a, c) by {
        lemma_text_le_transitive(a, b, c);
    }
    assert forall|a: Seq<char>, b: Seq<char>| #[trigger] le(a, b) || #[trigger] le(b, a) by {
        lemma_text_le_total(a, b);
    }
}

/// Byte order: by the first byte in which two strings differ, a prefix before what
/// it is a prefix of.
pub open spec fn bytes_le(a: Seq<u8>, b: Seq<u8>) -> bool
    decreases a.len(),
{
    if a.len() == 0 {
        true
    } else if b.len() == 0 {
        false
    } else if a[0] != b[0] {
        a[0] < b[0]
    } else {
        bytes_le(a.drop_first(), b.drop_first())
    }
}

pub proof fn lemma_bytes_le_reflexive(a: Seq<u8>)
    ensures
        bytes_le(a, a),
    decreases a.len(),
{
    if a.len() > 0 {
        lemma_bytes_le_reflexive(a.drop_first());
    }
}

pub proof fn lemma_bytes_le_total(a: Seq<u8>, b: Seq<u8>)
    ensures
        bytes_le(a, b) || bytes_le(b, a),
    decreases a.len(),
{
    if a.len() > 0 && b.len() > 0 && a[0] == b[0] {
        lemma_bytes_le_total(a.drop_first(), b.drop_first());
    }
}

pub proof fn lemma_bytes_le_antisymmetric(a: Seq<u8>, b: Seq<u8>)
    requires
        bytes_le(a, b),
        bytes_le(b, a),
    ensures
        a == b,
    decreases a.len(),
{
    if a.len() > 0 && b.len() > 0 {
        lemma_bytes_le_antisymmetric(a.drop_first(), b.drop_first());
        assert(a =~= seq![a[0]] + a.drop_first());
        assert(b =~= seq![b[0]] + b.drop_first());
    } else {
        assert(a =~= b);
    }
}

pub proof fn lemma_bytes_le_transitive(a: Seq<u8>, b: Seq<u8>, c: Seq<u8>)
    requires
        bytes_le(a, b),
        bytes_le(b, c),
    ensures
        bytes_le(a, c),
    decreases a.len(),
{
    if a.len() > 0 && b.len() > 0 && c.len() > 0 && a[0] == b[0] && b[0] == c[0] {
        lemma_bytes_le_transitive(a.drop_first(), b.drop_first(), c.drop_first());
    }
}

/// Whether `a` comes before `b` in byte order or equals it.
pub fn bytes_not_after(a: &[u8], b: &[u8]) -> (r: bool)
    ensures
        r == bytes_le(a@, b@),
{
    let mut i: usize = 0;
    assert(a@.skip(0) =~= a@);
    assert(b@.skip(0) =~= b@);
    while i < a.len() && i < b.len()
        invariant
            i <= a.len(),
            i <= b.len(),
            bytes_le(a@, b@) == bytes_le(a@.skip(i as int), b@.skip(i as int)),
        decreases a.len() - i,
    {
        if a[i] != b[i] {
            return a[i] < b[i];
        }
        assert(a@.skip(i as int).drop_first() =~= a@.skip(i + 1));
        assert(b@.skip(i as int).drop_first() =~= b@.skip(i + 1));
        i = i + 1;
    }
    i == a.len()
}

/// The place in `order` behind every key that is not after `key`, counted from
/// `from`.
pub open spec fn insert_place<K>(
    keys: Seq<K>,
    le: spec_fn(K, K) -> bool,
    order: Seq<int>,
    key: K,
    from: int,
) -> int
    decreases order.len() - from,
{
    if 0 <= from < order.len() && le(keys[order[from]], key) {
        insert_place(keys, le, order, key, from + 1)
    } else {
        from
    }
}

/// The positions of `keys` in stable order: keys ascend, and of equal keys the
/// earlier one comes first.
pub open spec fn stable_order<K>(keys: Seq<K>, le: spec_fn(K, K) -> bool) -> Seq<int>
    decreases keys.len(),
{
    if keys.len() == 0 {
        Seq::empty()
    } else {
        let before = stable_order(keys.drop_last(), le);
        before.insert(insert_place(keys, le, before, keys.last(), 0), keys.len() - 1)
    }
}

/// `order` lists every position of `keys` once, by ascending key, and equal
/// keys by ascending position.
pub open spec fn is_stable_order<K>(
    keys: Seq<K>,
    le: spec_fn(K, K) -> bool,
    order: Seq<int>,
) -> bool {
    &&& order.len() == keys.len()
    &&& forall|i: int| 0 <= i < order.len() ==> 0 <= #[trigger] order[i] < keys.len()
    &&& forall|i: int, j: int|
        0 <= i < j < order.len() ==> le(keys[#[trigger] order[i]], keys[#[trigger] order[j]])
            && order[i] != order[j] && (keys[order[i]] == keys[order[j]] ==> order[i] < order[j])
}

proof fn lemma_insert_place<K>(
    keys: Seq<K>,
    le: spec_fn(K, K) -> bool,
    order: Seq<int>,
    key: K,
    from: int,
)
    requires
        0 <= from <= order.len(),
    ensures
        from <= insert_place(keys, le, order, key, from) <= order.len(),
        forall|i: int|
            from <= i < insert_place(keys, le, order, key, from) ==> le(
                keys[#[trigger] order[i]],
                key,
            ),
        insert_place(keys, le, order, key, from) < order.len() ==> !le(
            keys[order[insert_place(keys, le, order, key, from)]],
            key,
        ),
    decreases order.len() - from,
{
    if from < order.len() && le(keys[order[from]], key) {
        lemma_insert_place(keys, le, order, key, from + 1);
    }
}

/// The stable order is a permutation of the positions, sorted by key, that
/// keeps equal keys in their given order.
pub proof fn law_stable_order<K>(keys: Seq<K>, le: spec_fn(K, K) -> bool)
    requires
        total_ordering(le),
    ensures
        is_stable_order(keys, le, stable_order(keys, le)),
    decreases keys.len(),
{
    if keys.len() > 0 {
        let head = keys.drop_last();
        let key = keys.last();
        let last = keys.len() - 1;
        let before = stable_order(head, le);
        law_stable_order(head, le);
        let p = insert_place(keys, le, before, key, 0);
        lemma_insert_place(keys, le, before, key, 0);
        let order = before.insert(p, last);
        assert forall|i: int| 0 <= i < before.len() implies keys[#[trigger] before[i]]
            == head[before[i]] by {}
        assert(le(key, key));
        assert forall|i: int| p <= i < before.len() implies le(key, keys[#[trigger] before[i]])
            && keys[before[i]] != key by {
            assert(le(key, keys[before[p]]) || le(keys[before[p]], key));
            if i > p {
                assert(le(head[before[p]], head[before[i]]));
                assert(le(keys[before[p]], keys[before[i]]));
                assert(le(key, keys[before[i]]));
            }
        }
        assert forall|i: int, j: int| 0 <= i < j < order.len() implies le(
            keys[#[trigger] order[i]],
            keys[#[trigger] order[j]],
        ) && order[i] != order[j] && (keys[order[i]] == keys[order[j]] ==> order[i] < order[j]) by {
            let bi = if i < p {
                i
            } else {
                i - 1
            };
            let bj = if j < p {
                j
            } else {
                j - 1
            };
            if i != p && j != p {
                assert(order[i] == before[bi] && order[j] == before[bj]);
                assert(le(head[before[bi]], head[before[bj]]));
            } else if i == p {
                assert(order[j] == before[bj]);
            } else {
                assert(order[i] == before[bi]);
            }
        }
    }
}

/// Every position is somewhere in the stable order.
pub proof fn lemma_stable_order_has<K>(keys: Seq<K>, le: spec_fn(K, K) -> bool, k: int) -> (i: int)
    requires
        total_ordering(le),
        0 <= k < keys.len(),
    ensures
        0 <= i < keys.len(),
        stable_order(keys, le).len() == keys.len(),
        stable_order(keys, le)[i] == k,
    decreases keys.len(),
{
    let head = keys.drop_last();
    let before = stable_order(head, le);
    let p = insert_place(keys, le, before, keys.last(), 0);
    law_stable_order(head, le);
    lemma_insert_place(keys, le, before, keys.last(), 0);
    let order = before.insert(p, keys.len() - 1);
    if k == keys.len() - 1 {
        assert(order[p] == k);
        p
    } else {
        let j = lemma_stable_order_has(head, le, k);
        if j < p {
            assert(order[j] == before[j]);
            j
        } else {
            assert(order[j + 1] == before[j]);
            j + 1
        }
    }
}

/// A list read in the stable order of its keys.
pub open spec fn sorted_by<T, K>(
    list: Seq<T>,
    key: spec_fn(T) -> K,
    le: spec_fn(K, K) -> bool,
) -> Seq<T> {
    stable_order(list.map_values(key), le).map_values(|i: int| list[i])
}

/// A list read in the stable text order of its keys.
pub open spec fn sorted_by_text<T>(list: Seq<T>, key: spec_fn(T) -> Seq<char>) -> Seq<T> {
    sorted_by(list, key, text_order())
}

/// Sorting keeps the items, each as often as it was there.
pub proof fn lemma_sorted_multiset<T, K>(
    list: Seq<T>,
    key: spec_fn(T) -> K,
    le: spec_fn(K, K) -> bool,
)
    requires
        total_ordering(le),
    ensures
        sorted_by(list, key, le).to_multiset() == list.to_multiset(),
        sorted_by(list, key, le).len() == list.len(),
    decreases list.len(),
{
    let keys = list.map_values(key);
    law_stable_order(keys, le);
    if list.len() == 0 {
        assert(sorted_by(list, key, le) =~= list);
    } else {
        let head = list.drop_last();
        lemma_sorted_multiset(head, key, le);
        assert(keys.drop_last() =~= head.map_values(key));
        let before = stable_order(keys.drop_last(), le);
        law_stable_order(keys.drop_last(), le);
        let p = insert_place(keys, le, before, keys.last(), 0);
        lemma_insert_place(keys, le, before, keys.last(), 0);
        assert(sorted_by(list, key, le) =~= sorted_by(head, key, le).insert(p, list.last()));
        vstd::seq_lib::to_multiset_insert(sorted_by(head, key, le), p, list.last());
        vstd::seq_lib::to_multiset_build(head, list.last());
        assert(head.push(list.last()) =~= list);
    }
}

/// Lists with the same items have the same keys.
proof fn lemma_same_keys<T, K>(x: Seq<T>, y: Seq<T>, key: spec_fn(T) -> K)
    requires
        x.to_multiset() == y.to_multiset(),
    ensures
        x.map_values(key).to_multiset() == y.map_values(key).to_multiset(),
    decreases x.len(),
{
    broadcast use vstd::seq_lib::group_to_multiset_ensures;
    broadcast use vstd::multiset::group_multiset_axioms;

    assert(x.len() == x.to_multiset().len());
    assert(y.len() == y.to_multiset().len());
    if x.len() == 0 {
        assert(x.map_values(key) =~= y.map_values(key));
    } else {
        let n = x.len() - 1;
        let a = x[n];
        assert(x.contains(a));
        assert(y.to_multiset().count(a) > 0);
        assert(y.contains(a));
        let j = choose|j: int| 0 <= j < y.len() && y[j] == a;
        vstd::seq_lib::to_multiset_remove(x, n);
        vstd::seq_lib::to_multiset_remove(y, j);
        lemma_same_keys(x.remove(n), y.remove(j), key);
        let (kx, ky) = (x.map_values(key), y.map_values(key));
        assert(kx.remove(n) =~= x.remove(n).map_values(key));
        assert(ky.remove(j) =~= y.remove(j).map_values(key));
        vstd::seq_lib::to_multiset_insert(kx.remove(n), n, key(a));
        vstd::seq_lib::to_multiset_insert(ky.remove(j), j, key(a));
        assert(kx.remove(n).insert(n, key(a)) =~= kx);
        assert(ky.remove(j).insert(j, key(a)) =~= ky);
    }
}

/// Lists that differ only in the order of their items have the same keys in the
/// same places once they are sorted.
pub proof fn law_sorting_forgets_order<T, K>(
    x: Seq<T>,
    y: Seq<T>,
    key: spec_fn(T) -> K,
    le: spec_fn(K, K) -> bool,
)
    requires
        total_ordering(le),
        x.to_multiset() == y.to_multiset(),
    ensures
        sorted_by(x, key, le).map_values(key) == sorted_by(y, key, le).map_values(key),
{
    let (sx, sy) = (sorted_by(x, key, le), sorted_by(y, key, le));
    lemma_sorted_multiset(x, key, le);
    lemma_sorted_multiset(y, key, le);
    lemma_same_keys(sx, sy, key);
    law_stable_order(x.map_values(key), le);
    law_stable_order(y.map_values(key), le);
    let (ox, oy) = (stable_order(x.map_values(key), le), stable_order(y.map_values(key), le));
    let (kx, ky) = (sx.map_values(key), sy.map_values(key));
    assert forall|i: int, j: int| 0 <= i < j < kx.len() implies #[trigger] le(kx[i], kx[j]) by {
        assert(le(x.map_values(key)[ox[i]], x.map_values(key)[ox[j]]));
    }
    assert forall|i: int, j: int| 0 <= i < j < ky.len() implies #[trigger] le(ky[i], ky[j]) by {
        assert(le(y.map_values(key)[oy[i]], y.map_values(key)[oy[j]]));
    }
    vstd::seq_lib::lemma_sorted_unique(kx, ky, le);
}

/// The positions of `keys` in stable text order.
pub fn sort_order(keys: &[String]) -> (order: Vec<usize>)
    ensures
        order.len() == keys.len(),
        order@.map_values(|i: usize| i as int) == stable_order(texts(keys@), text_order()),
        forall|i: int| 0 <= i < order.len() ==> #[trigger] order@[i] < keys.len(),
{
    let mut order: Vec<usize> = Vec::new();
    let mut n: usize = 0;
    let ghost all = texts(keys@);
    let ghost le = text_order();
    assert(order@.map_values(|i: usize| i as int) =~= stable_order(all.take(0), le));
    while n < keys.len()
        invariant
            n <= keys.len(),
            order.len() == n,
            all == texts(keys@),
            le == text_order(),
            order@.map_values(|i: usize| i as int) == stable_order(all.take(n as int), le),
            forall|i: int| 0 <= i < order.len() ==> #[trigger] order@[i] < n,
        decreases keys.len() - n,
    {
        let ghost before = order@.map_values(|i: usize| i as int);
        let ghost now = all.take(n + 1);
        assert(now.drop_last() =~= all.take(n as int));
        assert(now.last() == keys@[n as int]@);
        let mut p: usize = 0;
        while p < order.len() && text_not_after(keys[order[p]].as_str(), keys[n].as_str())
            invariant
                p <= order.len(),
                order.len() == n < keys.len(),
                all == texts(keys@),
                le == text_order(),
                now == all.take(n + 1),
                now.last() == keys@[n as int]@,
                before == order@.map_values(|i: usize| i as int),
                forall|i: int| 0 <= i < order.len() ==> #[trigger] order@[i] < n,
                insert_place(now, le, before, now.last(), 0) == insert_place(
                    now,
                    le,
                    before,
                    now.last(),
                    p as int,
                ),
            ensures
                p <= order.len(),
                insert_place(now, le, before, now.last(), 0) == p,
            decreases order.len() - p,
        {
            assert(before[p as int] == order@[p as int] as int);
            assert(now[before[p as int]] == keys@[order@[p as int] as int]@);
            p = p + 1;
        }
        let ghost old_order = order@;
        order.insert(p, n);
        assert(order@.map_values(|i: usize| i as int) =~= before.insert(p as int, n as int));
        assert forall|i: int| 0 <= i < order.len() implies #[trigger] order@[i] < n + 1 by {
            if i < p {
                assert(order@[i] == old_order[i]);
            } else if i > p {
                assert(order@[i] == old_order[i - 1]);
            }
        }
        n = n + 1;
    }
    assert(all.take(n as int) =~= all);
    order
}

/// The numbers as integers.
pub open spec fn ints(keys: Seq<i128>) -> Seq<int> {
    keys.map_values(|k: i128| k as int)
}

/// The positions of `keys` in stable numeric order.
pub fn sort_order_by_number(keys: &[i128]) -> (order: Vec<usize>)
    ensures
        order.len() == keys.len(),
        order@.map_values(|i: usize| i as int) == stable_order(ints(keys@), int_order()),
        forall|i: int| 0 <= i < order.len() ==> #[trigger] order@[i] < keys.len(),
{
    let mut order: Vec<usize> = Vec::new();
    let mut n: usize = 0;
    let ghost all = ints(keys@);
    let ghost le = int_order();
    assert(order@.map_values(|i: usize| i as int) =~= stable_order(all.take(0), le));
    while n < keys.len()
        invariant
            n <= keys.len(),
            order.len() == n,
            all == ints(keys@),
            le == int_order(),
            order@.map_values(|i: usize| i as int) == stable_order(all.take(n as int), le),
            forall|i: int| 0 <= i < order.len() ==> #[trigger] order@[i] < n,
        decreases keys.len() - n,
    {
        let ghost before = order@.map_values(|i: usize| i as int);
        let ghost now = all.take(n + 1);
        assert(now.drop_last() =~= all.take(n as int));
        assert(now.last() == keys@[n as int]);
        let mut p: usize = 0;
        while p < order.len() && keys[order[p]] <= keys[n]
            invariant
                p <= order.len(),
                order.len() == n < keys.len(),
                all == ints(keys@),
                le == int_order(),
                now == all.take(n + 1),
                now.last() == keys@[n as int],
                before == order@.map_values(|i: usize| i as int),
                forall|i: int| 0 <= i < order.len() ==> #[trigger] order@[i] < n,
                insert_place(now, le, before, now.last(), 0) == insert_place(
                    now,
                    le,
                    before,
                    now.last(),
                    p as int,
                ),
            ensures
                p <= order.len(),
                insert_place(now, le, before, now.last(), 0) == p,
            decreases order.len() - p,
        {
            assert(before[p as int] == order@[p as int] as int);
            assert(now[before[p as int]] == keys@[order@[p as int] as int]);
            p = p + 1;
        }
        let ghost old_order = order@;
        order.insert(p, n);
        assert(order@.map_values(|i: usize| i as int) =~= before.insert(p as int, n as int));
        assert forall|i: int| 0 <= i < order.len() implies #[trigger] order@[i] < n + 1 by {
            if i < p {
                assert(order@[i] == old_order[i]);
            } else if i > p {
                assert(order@[i] == old_order[i - 1]);
            }
        }
        n = n + 1;
    }
    assert(all.take(n as int) =~= all);
    order
}

/// The text itself as a sort key.
pub open spec fn own_text() -> spec_fn(Seq<char>) -> Seq<char> {
    |t: Seq<char>| t
}

/// A list of texts in text order.
pub open spec fn sorted_texts(list: Seq<Seq<char>>) -> Seq<Seq<char>> {
    sorted_by_text(list, own_text())
}

/// A list in which of equal neighbours only the first is kept.
pub open spec fn deduped(list: Seq<Seq<char>>) -> Seq<Seq<char>>
    decreases list.len(),
{
    if list.len() == 0 {
        list
    } else {
        let before = deduped(list.drop_last());
        if list.len() > 1 && list[list.len() - 2] == list.last() {
            before
        } else {
            before.push(list.last())
        }
    }
}

/// The texts of a list, each once, in text order.
pub open spec fn unique_sorted(list: Seq<Seq<char>>) -> Seq<Seq<char>> {
    deduped(sorted_texts(list))
}

/// Sorts a list of strings and keeps each text once.
pub fn sort_unique(list: &[String]) -> (r: Vec<String>)
    ensures
        texts(r@) == unique_sorted(texts(list@)),
{
    let order = sort_order(list);
    let ghost all = texts(list@);
    let ghost sorted = sorted_texts(all);
    proof {
        let positions = order@.map_values(|i: usize| i as int);
        assert(all.map_values(own_text()) =~= all);
        assert(sorted =~= positions.map_values(|i: int| all[i]));
    }
    let mut r: Vec<String> = Vec::new();
    let mut i: usize = 0;
    assert(texts(r@) =~= deduped(sorted.take(0)));
    while i < order.len()
        invariant
            i <= order.len(),
            sorted.len() == order.len(),
            forall|j: int| 0 <= j < order.len() ==> #[trigger] order@[j] < list.len(),
            forall|j: int|
                0 <= j < order.len() ==> #[trigger] sorted[j] == list@[order@[j] as int]@,
            texts(r@) == deduped(sorted.take(i as int)),
        decreases order.len() - i,
    {
        let ghost now = sorted.take(i + 1);
        let ghost before = r@;
        proof {
            assert(now.drop_last() =~= sorted.take(i as int));
            assert(now.last() == sorted[i as int]);
            if i > 0 {
                assert(now[now.len() - 2] == sorted[i - 1]);
            }
        }
        if i == 0 || !same_text(list[order[i - 1]].as_str(), list[order[i]].as_str()) {
            r.push(list[order[i]].clone());
            assert(texts(r@) =~= texts(before).push(now.last()));
        }
        i = i + 1;
    }
    assert(sorted.take(i as int) =~= sorted);
    r
}

/// What the deduplicated list of an ascending one holds.
proof fn lemma_deduped(list: Seq<Seq<char>>)
    requires
        forall|i: int, j: int|
            0 <= i < j < list.len() ==> text_le(#[trigger] list[i], #[trigger] list[j]),
    ensures
        list.len() > 0 ==> deduped(list).len() > 0 && deduped(list).last() == list.last(),
        forall|t: Seq<char>| #[trigger] deduped(list).contains(t) <==> list.contains(t),
        forall|i: int, j: int|
            0 <= i < j < deduped(list).len() ==> text_le(
                #[trigger] deduped(list)[i],
                #[trigger] deduped(list)[j],
            ) && deduped(list)[i] != deduped(list)[j],
    decreases list.len(),
{
    if list.len() > 0 {
        let head = list.drop_last();
        let before = deduped(head);
        lemma_deduped(head);
        let d = deduped(list);
        if list.len() > 1 && list[list.len() - 2] == list.last() {
            assert(head.last() == list.last());
            assert forall|t: Seq<char>| d.contains(t) <==> list.contains(t) by {
                assert(before.contains(t) <==> head.contains(t));
                if list.contains(t) {
                    let i = choose|i: int| 0 <= i < list.len() && list[i] == t;
                    if i < head.len() {
                        assert(head[i] == t);
                    } else {
                        assert(head[head.len() - 1] == t);
                    }
                    assert(head.contains(t));
                }
                if d.contains(t) {
                    let i = choose|i: int| 0 <= i < head.len() && head[i] == t;
                    assert(list[i] == t);
                }
            }
        } else {
            assert(d == before.push(list.last()));
            assert forall|t: Seq<char>| d.contains(t) <==> list.contains(t) by {
                assert(before.contains(t) <==> head.contains(t));
                if list.contains(t) {
                    let i = choose|i: int| 0 <= i < list.len() && list[i] == t;
                    if i < head.len() {
                        assert(head[i] == t);
                        let j = choose|j: int| 0 <= j < before.len() && before[j] == t;
                        assert(d[j] == t);
                    } else {
                        assert(d[d.len() - 1] == t);
                    }
                }
                if d.contains(t) {
                    let j = choose|j: int| 0 <= j < d.len() && d[j] == t;
                    if j < before.len() {
                        assert(before[j] == t);
                        let i = choose|i: int| 0 <= i < head.len() && head[i] == t;
                        assert(list[i] == t);
                    } else {
                        assert(list[list.len() - 1] == t);
                    }
                }
            }
            assert forall|i: int, j: int| 0 <= i < j < d.len() implies text_le(
                #[trigger] d[i],
                #[trigger] d[j],
            ) && d[i] != d[j] by {
                if j < before.len() {
                    assert(text_le(before[i], before[j]));
                } else {
                    // Everything kept so far is not after the last of the head,
                    // which differs from the new last.
                    assert(before.contains(before[i]));
                    assert(head.contains(before[i]));
                    let k = choose|k: int| 0 <= k < head.len() && head[k] == before[i];
                    assert(text_le(list[k], list[list.len() - 1]));
                    if d[i] == d[j] {
                        let l = list.len() - 2;
                        if k < l {
                            assert(text_le(list[k], list[l]));
                        }
                        assert(text_le(list[l], list[list.len() - 1]));
                        lemma_text_le_reflexive(list[l]);
                        lemma_text_le_antisymmetric(list[l], list[list.len() - 1]);
                    }
                }
            }
        }
    }
}

/// Sorting without repeats keeps exactly the texts that were there, in strictly
/// ascending order.
pub proof fn law_unique_sorted(list: Seq<Seq<char>>)
    ensures
        forall|t: Seq<char>| #[trigger] unique_sorted(list).contains(t) <==> list.contains(t),
        forall|i: int, j: int|
            0 <= i < j < unique_sorted(list).len() ==> text_le(
                #[trigger] unique_sorted(list)[i],
                #[trigger] unique_sorted(list)[j],
            ) && unique_sorted(list)[i] != unique_sorted(list)[j],
{
    let keys = list.map_values(own_text());
    let le = text_order();
    assert(keys =~= list);
    lemma_text_order_is_total();
    law_stable_order(keys, le);
    let order = stable_order(keys, le);
    let sorted = sorted_texts(list);
    assert forall|i: int, j: int| 0 <= i < j < sorted.len() implies text_le(
        #[trigger] sorted[i],
        #[trigger] sorted[j],
    ) by {
        assert(le(keys[order[i]], keys[order[j]]));
    }
    lemma_deduped(sorted);
    lemma_sorted_multiset(list, own_text(), le);
    assert forall|t: Seq<char>| sorted.contains(t) <==> list.contains(t) by {
        broadcast use vstd::seq_lib::group_to_multiset_ensures;

        assert(sorted.contains(t) <==> sorted.to_multiset().count(t) > 0);
        assert(list.contains(t) <==> list.to_multiset().count(t) > 0);
    }
}

/// Texts are ordered by the first character in which they differ, and a text goes
/// before what it is the beginning of.
pub proof fn law_first_difference_decides(a: Seq<char>, b: Seq<char>, i: int)
    requires
        0 <= i <= a.len(),
        i <= b.len(),
        forall|j: int| 0 <= j < i ==> #[trigger] a[j] == b[j],
    ensures
        i == a.len() ==> text_le(a, b),
        i == a.len() && i < b.len() ==> !text_le(b, a),
        i < a.len() && i < b.len() && a[i] < b[i] ==> text_le(a, b) && !text_le(b, a),
    decreases i,
{
    if i > 0 {
        let (x, y) = (a.drop_first(), b.drop_first());
        assert forall|j: int| 0 <= j < i - 1 implies #[trigger] x[j] == y[j] by {
            assert(a[j + 1] == b[j + 1]);
        }
        assert(a[0] == b[0]);
        law_first_difference_decides(x, y, i - 1);
    }
}

/// Byte strings are ordered by the first byte in which they differ, and one goes before
/// what it is the beginning of.
pub proof fn law_first_byte_difference_decides(a: Seq<u8>, b: Seq<u8>, i: int)
    requires
        0 <= i <= a.len(),
        i <= b.len(),
        forall|j: int| 0 <= j < i ==> #[trigger] a[j] == b[j],
    ensures
        i == a.len() ==> bytes_le(a, b),
        i == a.len() && i < b.len() ==> !bytes_le(b, a),
        i < a.len() && i < b.len() && a[i] < b[i] ==> bytes_le(a, b) && !bytes_le(b, a),
    decreases i,
{
    if i > 0 {
        let (x, y) = (a.drop_first(), b.drop_first());
        assert forall|j: int| 0 <= j < i - 1 implies #[trigger] x[j] == y[j] by {
            assert(a[j + 1] == b[j + 1]);
        }
        assert(a[0] == b[0]);
        law_first_byte_difference_decides(x, y, i - 1);
    }
}

} // verus!
