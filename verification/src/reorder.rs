//! Reordering siblings: a reorder request must name exactly the visible
//! (unarchived) children of the parent, each once.

use vstd::prelude::*;
use crate::store::{first_position, ids_unique};

verus! {

/// The views of a sequence of texts.
pub open spec fn texts_view(s: Seq<String>) -> Seq<Seq<char>> {
    s.map_values(|t: String| t@)
}

/// `ordered` lists exactly the ids of `existing`: as many ids, none twice,
/// each one of `existing`.
pub open spec fn is_exact_reorder(existing: Seq<Seq<char>>, ordered: Seq<Seq<char>>) -> bool {
    &&& existing.len() == ordered.len()
    &&& ids_unique(ordered)
    &&& forall|i: int| 0 <= i < ordered.len() ==> existing.contains(#[trigger] ordered[i])
}

/// The sort order that a reorder gives to a row with id `id`: its position
/// in `ordered`.
pub open spec fn new_sort_order(ordered: Seq<Seq<char>>, id: Seq<char>) -> i64 {
    first_position(ordered, id) as i64
}

/// Whether `v` holds `t`.
pub fn contains_text(v: &[String], t: &String) -> (r: bool)
    ensures
        r == texts_view(v@).contains(t@),
{
    let mut i: usize = 0;
    while i < v.len()
        invariant
            i <= v.len(),
            forall|j: int| 0 <= j < i ==> v@[j]@ != t@,
        decreases v.len() - i,
    {
        if v[i] == *t {
            assert(texts_view(v@)[i as int] == t@);
            return true;
        }
        i += 1;
    }
    assert forall|j: int| 0 <= j < texts_view(v@).len() implies texts_view(v@)[j] != t@ by {
        assert(texts_view(v@)[j] == v@[j]@);
    }
    false
}

/// The position of `t` in `v`, if `v` holds it.
pub fn position_of_text(v: &[String], t: &String) -> (r: Option<usize>)
    ensures
        match r {
            Some(i) => crate::store::is_first_position(texts_view(v@), t@, i as int),
            None => !texts_view(v@).contains(t@),
        },
{
    let ghost ids = texts_view(v@);
    let mut i: usize = 0;
    while i < v.len()
        invariant
            i <= v.len(),
            ids == texts_view(v@),
            ids.len() == v@.len(),
            forall|j: int| 0 <= j < i ==> ids[j] != t@,
        decreases v.len() - i,
    {
        if v[i] == *t {
            assert(crate::store::is_first_position(ids, t@, i as int));
            let r = Some(i);
            assert(match r {
                Some(i) => crate::store::is_first_position(texts_view(v@), t@, i as int),
                None => true,
            });
            return r;
        }
        i += 1;
    }
    None
}

/// Whether `ordered` lists exactly the ids of `existing`.
pub fn check_reorder(existing: &Vec<String>, ordered: &[String]) -> (r: bool)
    ensures
        r == is_exact_reorder(texts_view(existing@), texts_view(ordered@)),
{
    let ghost e = texts_view(existing@);
    let ghost o = texts_view(ordered@);
    if existing.len() != ordered.len() {
        return false;
    }
    let mut i: usize = 0;
    while i < ordered.len()
        invariant
            i <= ordered.len(),
            o == texts_view(ordered@),
            e == texts_view(existing@),
            ids_unique(o.take(i as int)),
            forall|k: int| 0 <= k < i ==> e.contains(#[trigger] o[k]),
        decreases ordered.len() - i,
    {
        let mut j: usize = 0;
        while j < i
            invariant
                j <= i < ordered.len(),
                o == texts_view(ordered@),
                forall|k: int| 0 <= k < j ==> o[k] != o[i as int],
            decreases i - j,
        {
            if ordered[j] == ordered[i] {
                assert(o[j as int] == o[i as int]);
                assert(o.take(i + 1)[j as int] == o.take(i + 1)[i as int]);
                return false;
            }
            j += 1;
        }
        if !contains_text(existing.as_slice(), &ordered[i]) {
            assert(!e.contains(o[i as int]));
            return false;
        }
        assert(o.take(i + 1) =~= o.take(i as int).push(o[i as int]));
        assert(ids_unique(o.take(i + 1))) by {
            let p = o.take(i + 1);
            let q = o.take(i as int);
            assert forall|a: int, b: int|
                0 <= a < p.len() && 0 <= b < p.len() && a != b implies #[trigger] p[a] != #[trigger] p[b] by {
                if a < i && b < i {
                    assert(q[a] != q[b]);
                }
            }
        }
        i += 1;
    }
    assert(o.take(o.len() as int) =~= o);
    true
}

} // verus!
