//! Stable sorting by a key, as `ORDER BY` returns rows: positions are sorted
//! by insertion, each new position going after every earlier one whose key
//! is not larger.

use vstd::prelude::*;
use crate::text::{lemma_text_le_reflexive, lemma_text_le_total, lemma_text_le_transitive, text_le};

verus! {

/// `order` with position `j` inserted after the last position whose key is
/// not larger than the key of `j`.
pub open spec fn insert_by_int(order: Seq<usize>, j: usize, keys: Seq<i64>) -> Seq<usize>
    decreases order.len(),
{
    if order.len() == 0 {
        seq![j]
    } else if keys[order.last() as int] <= keys[j as int] {
        order.push(j)
    } else {
        insert_by_int(order.drop_last(), j, keys).push(order.last())
    }
}

/// The positions `0..n` of `keys`, stably sorted by key.
pub open spec fn sorted_by_int(keys: Seq<i64>, n: nat) -> Seq<usize>
    decreases n,
{
    if n == 0 {
        seq![]
    } else {
        insert_by_int(sorted_by_int(keys, (n - 1) as nat), (n - 1) as usize, keys)
    }
}

/// `order` with position `j` inserted after the last position whose text key
/// is not larger than the key of `j`.
pub open spec fn insert_by_text(order: Seq<usize>, j: usize, keys: Seq<Seq<char>>) -> Seq<usize>
    decreases order.len(),
{
    if order.len() == 0 {
        seq![j]
    } else if text_le(keys[order.last() as int], keys[j as int]) {
        order.push(j)
    } else {
        insert_by_text(order.drop_last(), j, keys).push(order.last())
    }
}

/// The positions `0..n` of `keys`, stably sorted by text key.
pub open spec fn sorted_by_text(keys: Seq<Seq<char>>, n: nat) -> Seq<usize>
    decreases n,
{
    if n == 0 {
        seq![]
    } else {
        insert_by_text(sorted_by_text(keys, (n - 1) as nat), (n - 1) as usize, keys)
    }
}

/// The rows of `s` at the positions of `order`, in that order.
pub open spec fn arranged<T>(s: Seq<T>, order: Seq<usize>) -> Seq<T> {
    order.map_values(|j: usize| s[j as int])
}

proof fn lemma_insert_by_int_at(order: Seq<usize>, j: usize, keys: Seq<i64>, p: int)
    requires
        0 <= p <= order.len(),
        forall|q: int| p <= q < order.len() ==> keys[#[trigger] order[q] as int] > keys[j as int],
        p == 0 || keys[order[p - 1] as int] <= keys[j as int],
    ensures
        insert_by_int(order, j, keys) == order.insert(p, j),
    decreases order.len(),
{
    if order.len() == 0 {
        assert(order.insert(p, j) =~= seq![j]);
    } else if p == order.len() {
        assert(order.insert(p, j) =~= order.push(j));
    } else {
        let rest = order.drop_last();
        assert(keys[order[order.len() - 1] as int] > keys[j as int]);
        assert forall|q: int| p <= q < rest.len() implies keys[#[trigger] rest[q] as int] > keys[j as int] by {
            assert(rest[q] == order[q]);
        }
        if p > 0 {
            assert(rest[p - 1] == order[p - 1]);
        }
        lemma_insert_by_int_at(rest, j, keys, p);
        assert(rest.insert(p, j).push(order.last()) =~= order.insert(p, j));
    }
}

proof fn lemma_insert_by_text_at(order: Seq<usize>, j: usize, keys: Seq<Seq<char>>, p: int)
    requires
        0 <= p <= order.len(),
        forall|q: int| p <= q < order.len() ==> !text_le(keys[#[trigger] order[q] as int], keys[j as int]),
        p == 0 || text_le(keys[order[p - 1] as int], keys[j as int]),
    ensures
        insert_by_text(order, j, keys) == order.insert(p, j),
    decreases order.len(),
{
    if order.len() == 0 {
        assert(order.insert(p, j) =~= seq![j]);
    } else if p == order.len() {
        assert(order.insert(p, j) =~= order.push(j));
    } else {
        let rest = order.drop_last();
        assert(!text_le(keys[order[order.len() - 1] as int], keys[j as int]));
        assert forall|q: int| p <= q < rest.len() implies !text_le(keys[#[trigger] rest[q] as int], keys[j as int]) by {
            assert(rest[q] == order[q]);
        }
        if p > 0 {
            assert(rest[p - 1] == order[p - 1]);
        }
        lemma_insert_by_text_at(rest, j, keys, p);
        assert(rest.insert(p, j).push(order.last()) =~= order.insert(p, j));
    }
}

/// `order` lists positions whose keys never decrease.
pub open spec fn keys_nondecreasing(order: Seq<usize>, keys: Seq<i64>) -> bool {
    forall|a: int, b: int|
        0 <= a < b < order.len() ==> keys[#[trigger] order[a] as int] <= keys[#[trigger] order[b] as int]
}

/// `order` lists positions whose text keys never decrease.
pub open spec fn text_keys_nondecreasing(order: Seq<usize>, keys: Seq<Seq<char>>) -> bool {
    forall|a: int, b: int|
        0 <= a < b < order.len() ==> text_le(keys[#[trigger] order[a] as int], keys[#[trigger] order[b] as int])
}

/// No position occurs twice in `order`.
pub open spec fn positions_distinct(order: Seq<usize>) -> bool {
    forall|a: int, b: int| 0 <= a < order.len() && 0 <= b < order.len() && a != b ==> #[trigger] order[a] != #[trigger] order[b]
}

proof fn lemma_insert_by_int(order: Seq<usize>, j: usize, keys: Seq<i64>)
    ensures
        insert_by_int(order, j, keys).len() == order.len() + 1,
        forall|x: usize| #[trigger] insert_by_int(order, j, keys).contains(x) <==> (x == j || order.contains(x)),
        positions_distinct(order) && !order.contains(j) ==> positions_distinct(insert_by_int(order, j, keys)),
        keys_nondecreasing(order, keys) ==> keys_nondecreasing(insert_by_int(order, j, keys), keys),
    decreases order.len(),
{
    let r = insert_by_int(order, j, keys);
    if order.len() == 0 {
        assert(r =~= seq![j]);
        assert forall|x: usize| #[trigger] r.contains(x) <==> (x == j || order.contains(x)) by {
            if r.contains(x) {
                assert(r[0] == j);
            }
            if x == j {
                assert(r[0] == x);
            }
        }
    } else if keys[order.last() as int] <= keys[j as int] {
        assert(r == order.push(j));
        assert forall|x: usize| #[trigger] r.contains(x) <==> (x == j || order.contains(x)) by {
            if r.contains(x) {
                let k = choose|k: int| 0 <= k < r.len() && r[k] == x;
                if k < order.len() {
                    assert(order[k] == x);
                }
            }
            if x == j {
                assert(r[order.len() as int] == x);
            }
            if order.contains(x) {
                let k = choose|k: int| 0 <= k < order.len() && order[k] == x;
                assert(r[k] == x);
            }
        }
        if keys_nondecreasing(order, keys) {
            assert forall|a: int, b: int|
                0 <= a < b < r.len() implies keys[#[trigger] r[a] as int] <= keys[#[trigger] r[b] as int] by {
                if b == order.len() {
                    assert(keys[order[a] as int] <= keys[order[order.len() - 1] as int]);
                }
            }
        }
        if positions_distinct(order) && !order.contains(j) {
            assert forall|a: int, b: int|
                0 <= a < r.len() && 0 <= b < r.len() && a != b implies #[trigger] r[a] != #[trigger] r[b] by {
                if a == order.len() {
                    assert(order[b] != j);
                } else if b == order.len() {
                    assert(order[a] != j);
                }
            }
        }
    } else {
        let rest = order.drop_last();
        let last = order.last();
        lemma_insert_by_int(rest, j, keys);
        let r0 = insert_by_int(rest, j, keys);
        assert(r == r0.push(last));
        assert forall|x: usize| #[trigger] r.contains(x) <==> (x == j || order.contains(x)) by {
            if r.contains(x) {
                let k = choose|k: int| 0 <= k < r.len() && r[k] == x;
                if k < r0.len() {
                    assert(r0.contains(x));
                    if rest.contains(x) {
                        let q = choose|q: int| 0 <= q < rest.len() && rest[q] == x;
                        assert(order[q] == x);
                    }
                } else {
                    assert(order[order.len() - 1] == x);
                }
            }
            if x == j {
                assert(r0.contains(x));
                let k = choose|k: int| 0 <= k < r0.len() && r0[k] == x;
                assert(r[k] == x);
            }
            if order.contains(x) {
                let k = choose|k: int| 0 <= k < order.len() && order[k] == x;
                if k < order.len() - 1 {
                    assert(rest[k] == x);
                    assert(r0.contains(x));
                    let q = choose|q: int| 0 <= q < r0.len() && r0[q] == x;
                    assert(r[q] == x);
                } else {
                    assert(r[r.len() - 1] == x);
                }
            }
        }
        if keys_nondecreasing(order, keys) {
            assert(keys_nondecreasing(rest, keys)) by {
                assert forall|a: int, b: int|
                    0 <= a < b < rest.len() implies keys[#[trigger] rest[a] as int] <= keys[#[trigger] rest[b] as int] by {
                    assert(rest[a] == order[a] && rest[b] == order[b]);
                }
            }
            assert forall|a: int, b: int|
                0 <= a < b < r.len() implies keys[#[trigger] r[a] as int] <= keys[#[trigger] r[b] as int] by {
                if b == r.len() - 1 {
                    let x = r[a];
                    assert(r0[a] == x);
                    assert(r0.contains(x));
                    if x != j {
                        let q = choose|q: int| 0 <= q < rest.len() && rest[q] == x;
                        assert(order[q] == x);
                        assert(keys[order[q] as int] <= keys[order[order.len() - 1] as int]);
                    }
                } else {
                    assert(r[a] == r0[a] && r[b] == r0[b]);
                }
            }
        }
        if positions_distinct(order) && !order.contains(j) {
            assert(!rest.contains(j)) by {
                if rest.contains(j) {
                    let q = choose|q: int| 0 <= q < rest.len() && rest[q] == j;
                    assert(order[q] == j);
                }
            }
            assert(positions_distinct(rest)) by {
                assert forall|a: int, b: int|
                    0 <= a < rest.len() && 0 <= b < rest.len() && a != b implies #[trigger] rest[a] != #[trigger] rest[b] by {
                    assert(rest[a] == order[a] && rest[b] == order[b]);
                }
            }
            assert(!r0.contains(last)) by {
                if r0.contains(last) {
                    assert(last != j) by {
                        assert(order[order.len() - 1] == last);
                    }
                    let q = choose|q: int| 0 <= q < rest.len() && rest[q] == last;
                    assert(order[q] == last);
                    assert(order[order.len() - 1] == last);
                }
            }
            assert forall|a: int, b: int|
                0 <= a < r.len() && 0 <= b < r.len() && a != b implies #[trigger] r[a] != #[trigger] r[b] by {
                if a == r.len() - 1 {
                    assert(r0[b] == r[b]);
                } else if b == r.len() - 1 {
                    assert(r0[a] == r[a]);
                } else {
                    assert(r0[a] == r[a] && r0[b] == r[b]);
                }
            }
        }
    }
}

/// The stable sort of `n` positions lists each of `0..n` once, with keys
/// that never decrease.
pub proof fn lemma_sorted_by_int(keys: Seq<i64>, n: nat)
    requires
        n <= usize::MAX,
    ensures
        sorted_by_int(keys, n).len() == n,
        forall|x: usize| #[trigger] sorted_by_int(keys, n).contains(x) <==> x < n,
        positions_distinct(sorted_by_int(keys, n)),
        keys_nondecreasing(sorted_by_int(keys, n), keys),
    decreases n,
{
    if n > 0 {
        let prev = sorted_by_int(keys, (n - 1) as nat);
        lemma_sorted_by_int(keys, (n - 1) as nat);
        lemma_insert_by_int(prev, (n - 1) as usize, keys);
    } else {
        assert forall|x: usize| #[trigger] sorted_by_int(keys, n).contains(x) <==> x < n by {
        }
    }
}

proof fn lemma_insert_by_text(order: Seq<usize>, j: usize, keys: Seq<Seq<char>>)
    ensures
        insert_by_text(order, j, keys).len() == order.len() + 1,
        forall|x: usize| #[trigger] insert_by_text(order, j, keys).contains(x) <==> (x == j || order.contains(x)),
        positions_distinct(order) && !order.contains(j) ==> positions_distinct(insert_by_text(order, j, keys)),
        text_keys_nondecreasing(order, keys) ==> text_keys_nondecreasing(insert_by_text(order, j, keys), keys),
    decreases order.len(),
{
    let r = insert_by_text(order, j, keys);
    if order.len() == 0 {
        assert(r =~= seq![j]);
        assert forall|x: usize| #[trigger] r.contains(x) <==> (x == j || order.contains(x)) by {
            if r.contains(x) {
                assert(r[0] == j);
            }
            if x == j {
                assert(r[0] == x);
            }
        }
    } else if text_le(keys[order.last() as int], keys[j as int]) {
        assert(r == order.push(j));
        assert forall|x: usize| #[trigger] r.contains(x) <==> (x == j || order.contains(x)) by {
            if r.contains(x) {
                let k = choose|k: int| 0 <= k < r.len() && r[k] == x;
                if k < order.len() {
                    assert(order[k] == x);
                }
            }
            if x == j {
                assert(r[order.len() as int] == x);
            }
            if order.contains(x) {
                let k = choose|k: int| 0 <= k < order.len() && order[k] == x;
                assert(r[k] == x);
            }
        }
        if text_keys_nondecreasing(order, keys) {
            assert forall|a: int, b: int|
                0 <= a < b < r.len() implies text_le(keys[#[trigger] r[a] as int], keys[#[trigger] r[b] as int]) by {
                if b == order.len() {
                    let l = order[order.len() - 1];
                    if a < order.len() - 1 {
                        assert(text_le(keys[order[a] as int], keys[l as int]));
                    } else {
                        lemma_text_le_reflexive(keys[l as int]);
                    }
                    lemma_text_le_transitive(keys[order[a] as int], keys[l as int], keys[j as int]);
                } else {
                    assert(r[a] == order[a] && r[b] == order[b]);
                }
            }
        }
        if positions_distinct(order) && !order.contains(j) {
            assert forall|a: int, b: int|
                0 <= a < r.len() && 0 <= b < r.len() && a != b implies #[trigger] r[a] != #[trigger] r[b] by {
                if a == order.len() {
                    assert(order[b] != j);
                } else if b == order.len() {
                    assert(order[a] != j);
                }
            }
        }
    } else {
        let rest = order.drop_last();
        let last = order.last();
        lemma_insert_by_text(rest, j, keys);
        let r0 = insert_by_text(rest, j, keys);
        assert(r == r0.push(last));
        if text_keys_nondecreasing(order, keys) {
            assert(text_keys_nondecreasing(rest, keys)) by {
                assert forall|a: int, b: int|
                    0 <= a < b < rest.len() implies text_le(keys[#[trigger] rest[a] as int], keys[#[trigger] rest[b] as int]) by {
                    assert(rest[a] == order[a] && rest[b] == order[b]);
                }
            }
            assert forall|a: int| 0 <= a < r0.len() implies text_le(keys[#[trigger] r0[a] as int], keys[last as int]) by {
                assert(r0.contains(r0[a]));
                if r0[a] == j {
                    lemma_text_le_total(keys[j as int], keys[last as int]);
                } else {
                    let q = choose|q: int| 0 <= q < rest.len() && rest[q] == r0[a];
                    assert(order[q] == r0[a]);
                    assert(text_le(keys[order[q] as int], keys[order[order.len() - 1] as int]));
                }
            }
            assert forall|a: int, b: int|
                0 <= a < b < r.len() implies text_le(keys[#[trigger] r[a] as int], keys[#[trigger] r[b] as int]) by {
                assert(r[a] == r0[a]);
                if b == r.len() - 1 {
                    assert(r[b] == last);
                } else {
                    assert(r[b] == r0[b]);
                }
            }
        }
        assert forall|x: usize| #[trigger] r.contains(x) <==> (x == j || order.contains(x)) by {
            if r.contains(x) {
                let k = choose|k: int| 0 <= k < r.len() && r[k] == x;
                if k < r0.len() {
                    assert(r0.contains(x));
                    if rest.contains(x) {
                        let q = choose|q: int| 0 <= q < rest.len() && rest[q] == x;
                        assert(order[q] == x);
                    }
                } else {
                    assert(order[order.len() - 1] == x);
                }
            }
            if x == j {
                assert(r0.contains(x));
                let k = choose|k: int| 0 <= k < r0.len() && r0[k] == x;
                assert(r[k] == x);
            }
            if order.contains(x) {
                let k = choose|k: int| 0 <= k < order.len() && order[k] == x;
                if k < order.len() - 1 {
                    assert(rest[k] == x);
                    assert(r0.contains(x));
                    let q = choose|q: int| 0 <= q < r0.len() && r0[q] == x;
                    assert(r[q] == x);
                } else {
                    assert(r[r.len() - 1] == x);
                }
            }
        }
        if positions_distinct(order) && !order.contains(j) {
            assert(!rest.contains(j)) by {
                if rest.contains(j) {
                    let q = choose|q: int| 0 <= q < rest.len() && rest[q] == j;
                    assert(order[q] == j);
                }
            }
            assert(positions_distinct(rest)) by {
                assert forall|a: int, b: int|
                    0 <= a < rest.len() && 0 <= b < rest.len() && a != b implies #[trigger] rest[a] != #[trigger] rest[b] by {
                    assert(rest[a] == order[a] && rest[b] == order[b]);
                }
            }
            assert(!r0.contains(last)) by {
                if r0.contains(last) {
                    assert(last != j) by {
                        assert(order[order.len() - 1] == last);
                    }
                    let q = choose|q: int| 0 <= q < rest.len() && rest[q] == last;
                    assert(order[q] == last);
                    assert(order[order.len() - 1] == last);
                }
            }
            assert forall|a: int, b: int|
                0 <= a < r.len() && 0 <= b < r.len() && a != b implies #[trigger] r[a] != #[trigger] r[b] by {
                if a == r.len() - 1 {
                    assert(r0[b] == r[b]);
                } else if b == r.len() - 1 {
                    assert(r0[a] == r[a]);
                } else {
                    assert(r0[a] == r[a] && r0[b] == r[b]);
                }
            }
        }
    }
}

/// The stable sort of `n` positions by text key lists each of `0..n` once,
/// with text keys that never decrease.
pub proof fn lemma_sorted_by_text(keys: Seq<Seq<char>>, n: nat)
    requires
        n <= usize::MAX,
    ensures
        sorted_by_text(keys, n).len() == n,
        forall|x: usize| #[trigger] sorted_by_text(keys, n).contains(x) <==> x < n,
        positions_distinct(sorted_by_text(keys, n)),
        text_keys_nondecreasing(sorted_by_text(keys, n), keys),
    decreases n,
{
    if n > 0 {
        let prev = sorted_by_text(keys, (n - 1) as nat);
        lemma_sorted_by_text(keys, (n - 1) as nat);
        lemma_insert_by_text(prev, (n - 1) as usize, keys);
    } else {
        assert forall|x: usize| #[trigger] sorted_by_text(keys, n).contains(x) <==> x < n by {
        }
    }
}

/// The positions of `keys`, stably sorted by key.
pub fn sort_by_int(keys: &Vec<i64>) -> (r: Vec<usize>)
    ensures
        r@ == sorted_by_int(keys@, keys@.len()),
        forall|q: int| 0 <= q < r@.len() ==> #[trigger] r@[q] < keys@.len(),
{
    let mut order: Vec<usize> = Vec::new();
    let mut j: usize = 0;
    while j < keys.len()
        invariant
            j <= keys.len(),
            order@ == sorted_by_int(keys@, j as nat),
            forall|q: int| 0 <= q < order@.len() ==> #[trigger] order@[q] < j,
        decreases keys.len() - j,
    {
        let mut p: usize = order.len();
        while p > 0 && keys[order[p - 1]] > keys[j]
            invariant
                p <= order@.len(),
                j < keys.len(),
                forall|q: int| 0 <= q < order@.len() ==> #[trigger] order@[q] < j,
                forall|q: int| p <= q < order@.len() ==> keys@[#[trigger] order@[q] as int] > keys@[j as int],
            decreases p,
        {
            p -= 1;
        }
        proof {
            lemma_insert_by_int_at(order@, j, keys@, p as int);
        }
        let ghost before = order@;
        order.insert(p, j);
        assert forall|q: int| 0 <= q < order@.len() implies #[trigger] order@[q] < j + 1 by {
            if q < p {
                assert(order@[q] == before[q]);
            } else if q > p {
                assert(order@[q] == before[q - 1]);
            }
        }
        j += 1;
    }
    order
}

/// The characters of `s`, in order.
pub fn text_chars(s: &str) -> (r: Vec<char>)
    ensures
        r@ == s@,
{
    broadcast use vstd::string::axiom_spec_iter;

    let mut out: Vec<char> = Vec::new();
    for c in iter: s.chars()
        invariant
            out@ == iter.seq().take(iter.index() as int),
            iter.seq() == s@,
    {
        out.push(c);
    }
    out
}

/// Whether text `a` comes before text `b` or equals it, character by
/// character.
pub fn text_le_exec(a: &String, b: &String) -> (r: bool)
    ensures
        r == text_le(a@, b@),
{
    let x = text_chars(a.as_str());
    let y = text_chars(b.as_str());
    let mut i: usize = 0;
    assert(a@.skip(0) =~= a@);
    assert(b@.skip(0) =~= b@);
    loop
        invariant
            x@ == a@,
            y@ == b@,
            i <= x@.len(),
            i <= y@.len(),
            text_le(a@, b@) == text_le(a@.skip(i as int), b@.skip(i as int)),
        decreases x@.len() - i,
    {
        if i == x.len() {
            assert(a@.skip(i as int).len() == 0);
            return true;
        }
        if i == y.len() {
            assert(b@.skip(i as int).len() == 0);
            return false;
        }
        let cx = x[i] as u32;
        let cy = y[i] as u32;
        assert(a@.skip(i as int)[0] == a@[i as int]);
        assert(b@.skip(i as int)[0] == b@[i as int]);
        if cx < cy {
            return true;
        }
        if cx > cy {
            return false;
        }
        assert(a@.skip(i as int).drop_first() =~= a@.skip(i + 1));
        assert(b@.skip(i as int).drop_first() =~= b@.skip(i + 1));
        i += 1;
    }
}

/// The positions of `keys`, stably sorted by text key.
pub fn sort_by_text(keys: &Vec<String>) -> (r: Vec<usize>)
    ensures
        r@ == sorted_by_text(keys@.map_values(|k: String| k@), keys@.len()),
        forall|q: int| 0 <= q < r@.len() ==> #[trigger] r@[q] < keys@.len(),
{
    let ghost kv = keys@.map_values(|k: String| k@);
    let mut order: Vec<usize> = Vec::new();
    let mut j: usize = 0;
    while j < keys.len()
        invariant
            j <= keys.len(),
            kv == keys@.map_values(|k: String| k@),
            order@ == sorted_by_text(kv, j as nat),
            forall|q: int| 0 <= q < order@.len() ==> #[trigger] order@[q] < j,
        decreases keys.len() - j,
    {
        let mut p: usize = order.len();
        while p > 0 && !text_le_exec(&keys[order[p - 1]], &keys[j])
            invariant
                p <= order@.len(),
                j < keys.len(),
                kv == keys@.map_values(|k: String| k@),
                forall|q: int| 0 <= q < order@.len() ==> #[trigger] order@[q] < j,
                forall|q: int| p <= q < order@.len() ==> !text_le(kv[#[trigger] order@[q] as int], kv[j as int]),
            decreases p,
        {
            p -= 1;
        }
        proof {
            lemma_insert_by_text_at(order@, j, kv, p as int);
        }
        let ghost before = order@;
        order.insert(p, j);
        assert forall|q: int| 0 <= q < order@.len() implies #[trigger] order@[q] < j + 1 by {
            if q < p {
                assert(order@[q] == before[q]);
            } else if q > p {
                assert(order@[q] == before[q - 1]);
            }
        }
        j += 1;
    }
    order
}

} // verus!
