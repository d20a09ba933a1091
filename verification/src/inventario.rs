//! Product listings: the search term of a product search, how the matches
//! by name and by SKU are merged, and when a product may be deleted.
use vstd::prelude::*;
use crate::text::{is_blank, is_blank_text, trim, trimmed};

verus! {

/// Whether `s[k]` is the first element of `s` with its id.
pub open spec fn is_first_with_id<T>(s: Seq<(i32, T)>, k: int) -> bool {
    &&& 0 <= k < s.len()
    &&& forall|j: int| 0 <= j < k ==> (#[trigger] s[j]).0 != s[k].0
}

/// Whether `x` is the first element of `s` with its id.
pub open spec fn is_first_element<T>(s: Seq<(i32, T)>, x: (i32, T)) -> bool {
    exists|k: int| is_first_with_id(s, k) && s[k] == x
}

/// Whether some element of `r` has id `id`.
pub open spec fn has_id<T>(r: Seq<(i32, T)>, id: i32) -> bool {
    exists|i: int| 0 <= i < r.len() && r[i].0 == id
}

/// The ids of `r` increase strictly.
pub open spec fn strictly_sorted_by_id<T>(r: Seq<(i32, T)>) -> bool {
    forall|i: int, j: int| 0 <= i < j < r.len() ==> (#[trigger] r[i]).0 < (#[trigger] r[j]).0
}

/// `r` holds, in increasing order of id, the first element of `input` with
/// each id that occurs in it: what sorting `input` by id (a stable sort) and
/// then keeping the first of each run of equal ids gives.
pub open spec fn merged_by_id<T>(input: Seq<(i32, T)>, r: Seq<(i32, T)>) -> bool {
    &&& strictly_sorted_by_id(r)
    &&& forall|k: int| 0 <= k < input.len() ==> has_id(r, (#[trigger] input[k]).0)
    &&& forall|i: int| 0 <= i < r.len() ==> is_first_element(input, #[trigger] r[i])
}

proof fn lemma_first_extends<T>(prev: Seq<(i32, T)>, y: (i32, T), z: (i32, T))
    requires
        is_first_element(prev, y),
    ensures
        is_first_element(prev.push(z), y),
{
    let next = prev.push(z);
    let k = choose|k: int| is_first_with_id(prev, k) && prev[k] == y;
    assert(next[k] == prev[k]);
    assert forall|j: int| 0 <= j < k implies (#[trigger] next[j]).0 != next[k].0 by {
        assert(next[j] == prev[j]);
    }
    assert(is_first_with_id(next, k));
}

/// Merging one more element whose id is already there keeps the merge as it is.
proof fn lemma_merge_known_id<T>(prev: Seq<(i32, T)>, r: Seq<(i32, T)>, x: (i32, T), p: int)
    requires
        merged_by_id(prev, r),
        0 <= p < r.len(),
        r[p].0 == x.0,
    ensures
        merged_by_id(prev.push(x), r),
{
    let next = prev.push(x);
    assert forall|k: int| 0 <= k < next.len() implies has_id(r, (#[trigger] next[k]).0) by {
        if k < prev.len() {
            assert(next[k] == prev[k]);
        } else {
            assert(r[p].0 == next[k].0);
        }
    }
    assert forall|i: int| 0 <= i < r.len() implies is_first_element(next, #[trigger] r[i]) by {
        lemma_first_extends(prev, r[i], x);
    }
}

/// Merging one more element with a new id puts it where its id belongs.
proof fn lemma_merge_new_id<T>(prev: Seq<(i32, T)>, r: Seq<(i32, T)>, x: (i32, T), p: int)
    requires
        merged_by_id(prev, r),
        0 <= p <= r.len(),
        forall|i: int| 0 <= i < p ==> (#[trigger] r[i]).0 < x.0,
        p < r.len() ==> r[p].0 > x.0,
    ensures
        merged_by_id(prev.push(x), r.insert(p, x)),
{
    let next = prev.push(x);
    let n = prev.len() as int;
    let rr = r.insert(p, x);
    assert(!has_id(r, x.0)) by {
        if has_id(r, x.0) {
            let i = choose|i: int| 0 <= i < r.len() && r[i].0 == x.0;
            if i > p {
                assert(r[p].0 < r[i].0);
            }
        }
    }
    assert forall|j: int| 0 <= j < n implies (#[trigger] next[j]).0 != next[n].0 by {
        assert(next[j] == prev[j]);
        assert(has_id(r, prev[j].0));
    }
    assert(is_first_with_id(next, n));
    assert(is_first_element(next, x));
    assert forall|i: int, j: int| 0 <= i < j < rr.len() implies (#[trigger] rr[i]).0 < (
    #[trigger] rr[j]).0 by {
        if j < p {
            assert(rr[i] == r[i] && rr[j] == r[j]);
        } else if j == p {
            assert(rr[i] == r[i]);
        } else if i < p {
            assert(rr[i] == r[i] && rr[j] == r[j - 1]);
            if j - 1 > p {
                assert(r[p].0 < r[j - 1].0);
            }
        } else if i == p {
            assert(rr[j] == r[j - 1]);
            if j - 1 > p {
                assert(r[p].0 < r[j - 1].0);
            }
        } else {
            assert(rr[i] == r[i - 1] && rr[j] == r[j - 1]);
        }
    }
    assert forall|k: int| 0 <= k < next.len() implies has_id(rr, (#[trigger] next[k]).0) by {
        if k < n {
            assert(next[k] == prev[k]);
            assert(has_id(r, prev[k].0));
            let i = choose|i: int| 0 <= i < r.len() && r[i].0 == prev[k].0;
            if i < p {
                assert(rr[i] == r[i]);
            } else {
                assert(rr[i + 1] == r[i]);
            }
        } else {
            assert(rr[p] == x);
        }
    }
    assert forall|i: int| 0 <= i < rr.len() implies is_first_element(next, #[trigger] rr[i]) by {
        if i != p {
            let oi = if i < p {
                i
            } else {
                i - 1
            };
            assert(rr[i] == r[oi]);
            lemma_first_extends(prev, r[oi], x);
        }
    }
}

proof fn lemma_first_element_unique<T>(s: Seq<(i32, T)>, x: (i32, T), y: (i32, T))
    requires
        is_first_element(s, x),
        is_first_element(s, y),
        x.0 == y.0,
    ensures
        x == y,
{
    let kx = choose|k: int| is_first_with_id(s, k) && s[k] == x;
    let ky = choose|k: int| is_first_with_id(s, k) && s[k] == y;
    if kx < ky {
        assert(s[kx].0 != s[ky].0);
    } else if ky < kx {
        assert(s[ky].0 != s[kx].0);
    }
}

proof fn lemma_sorted_same_ids<T>(r1: Seq<(i32, T)>, r2: Seq<(i32, T)>)
    requires
        strictly_sorted_by_id(r1),
        strictly_sorted_by_id(r2),
        forall|i: int| 0 <= i < r1.len() ==> has_id(r2, (#[trigger] r1[i]).0),
        forall|j: int| 0 <= j < r2.len() ==> has_id(r1, (#[trigger] r2[j]).0),
    ensures
        r1.len() == r2.len(),
        forall|i: int| 0 <= i < r1.len() ==> (#[trigger] r1[i]).0 == r2[i].0,
    decreases r1.len(),
{
    if r1.len() == 0 {
        if r2.len() > 0 {
            assert(has_id(r1, r2[0].0));
        }
    } else {
        assert(has_id(r2, r1[0].0));
        let j = choose|j: int| 0 <= j < r2.len() && r2[j].0 == r1[0].0;
        assert(has_id(r1, r2[0].0));
        let i = choose|i: int| 0 <= i < r1.len() && r1[i].0 == r2[0].0;
        if j > 0 {
            assert(r2[0].0 < r2[j].0);
        }
        if i > 0 {
            assert(r1[0].0 < r1[i].0);
        }
        assert(r1[0].0 == r2[0].0);
        let t1 = r1.drop_first();
        let t2 = r2.drop_first();
        assert forall|a: int| 0 <= a < t1.len() implies has_id(t2, (#[trigger] t1[a]).0) by {
            assert(t1[a] == r1[a + 1]);
            assert(r1[0].0 < r1[a + 1].0);
            assert(has_id(r2, r1[a + 1].0));
            let b = choose|b: int| 0 <= b < r2.len() && r2[b].0 == r1[a + 1].0;
            assert(b != 0);
            assert(t2[b - 1] == r2[b]);
        }
        assert forall|b: int| 0 <= b < t2.len() implies has_id(t1, (#[trigger] t2[b]).0) by {
            assert(t2[b] == r2[b + 1]);
            assert(r2[0].0 < r2[b + 1].0);
            assert(has_id(r1, r2[b + 1].0));
            let a = choose|a: int| 0 <= a < r1.len() && r1[a].0 == r2[b + 1].0;
            assert(a != 0);
            assert(t1[a - 1] == r1[a]);
        }
        lemma_sorted_same_ids(t1, t2);
        assert forall|a: int| 0 <= a < r1.len() implies (#[trigger] r1[a]).0 == r2[a].0 by {
            if a > 0 {
                assert(r1[a] == t1[a - 1]);
                assert(r2[a] == t2[a - 1]);
            }
        }
    }
}

/// The merge of search results is determined: two lists that both merge
/// the same results are the same list.
pub proof fn lemma_merge_is_unique<T>(input: Seq<(i32, T)>, r1: Seq<(i32, T)>, r2: Seq<(i32, T)>)
    requires
        merged_by_id(input, r1),
        merged_by_id(input, r2),
    ensures
        r1 == r2,
{
    assert forall|i: int| 0 <= i < r1.len() implies has_id(r2, (#[trigger] r1[i]).0) by {
        assert(is_first_element(input, r1[i]));
        let k = choose|k: int| is_first_with_id(input, k) && input[k] == r1[i];
        assert(has_id(r2, input[k].0));
    }
    assert forall|j: int| 0 <= j < r2.len() implies has_id(r1, (#[trigger] r2[j]).0) by {
        assert(is_first_element(input, r2[j]));
        let k = choose|k: int| is_first_with_id(input, k) && input[k] == r2[j];
        assert(has_id(r1, input[k].0));
    }
    lemma_sorted_same_ids(r1, r2);
    assert forall|i: int| 0 <= i < r1.len() implies r1[i] == r2[i] by {
        lemma_first_element_unique(input, r1[i], r2[i]);
    }
    assert(r1 =~= r2);
}

/// The text that a product search looks for: the query trimmed, or nothing
/// when there is no query or it is blank.
pub fn search_term(query: Option<String>) -> (term: Option<String>)
    ensures
        query is None ==> term is None,
        query matches Some(q) ==> (is_blank_text(q@) ==> term is None),
        query matches Some(q) ==> (!is_blank_text(q@) ==> (term matches Some(t) && t@ == trimmed(
            q@,
        ))),
{
    match query {
        Some(q) => {
            if is_blank(q.as_str()) {
                None
            } else {
                Some(trim(q.as_str()))
            }
        },
        None => None,
    }
}

/// The products found by name and those found by SKU, each paired with its
/// id, merged: sorted by id, and for each id the first found (those by name
/// come first).
pub fn merge_search_results<T>(by_name: Vec<(i32, T)>, by_sku: Vec<(i32, T)>) -> (r: Vec<(i32, T)>)
    ensures
        merged_by_id(by_name@ + by_sku@, r@),
{
    let mut rest = by_name;
    let mut more = by_sku;
    rest.append(&mut more);
    let ghost all = rest@;
    assert(all.len() == rest.len());
    let mut r: Vec<(i32, T)> = Vec::new();
    let mut n: usize = 0;
    while rest.len() > 0
        invariant
            n <= all.len(),
            all.len() <= usize::MAX,
            rest@ == all.skip(n as int),
            merged_by_id(all.take(n as int), r@),
        decreases rest.len(),
    {
        let x = rest.remove(0);
        let ghost prev = all.take(n as int);
        let ghost next = all.take(n + 1);
        assert(x == all[n as int]);
        assert(next == prev.push(x));
        // first position whose id is not below that of x
        let mut p: usize = 0;
        while p < r.len() && r[p].0 < x.0
            invariant
                p <= r.len(),
                forall|i: int| 0 <= i < p ==> (#[trigger] r@[i]).0 < x.0,
            decreases r.len() - p,
        {
            p = p + 1;
        }
        if p < r.len() && r[p].0 == x.0 {
            proof {
                lemma_merge_known_id(prev, r@, x, p as int);
            }
        } else {
            proof {
                lemma_merge_new_id(prev, r@, x, p as int);
            }
            r.insert(p, x);
        }
        n = n + 1;
    }
    proof {
        assert(all.take(n as int) =~= all);
        assert(all == by_name@ + by_sku@);
    }
    r
}

/// The answer to a request to delete a product that `en_combos` combos
/// hold: refused while any combo holds it.
pub fn check_product_deletable(en_combos: i64) -> (r: Result<(), String>)
    ensures
        r is Ok <==> en_combos <= 0,
        r matches Err(m) ==> m@
            == "El producto no puede eliminarse porque forma parte de uno o más combos."@,
{
    if en_combos > 0 {
        return Err(
            String::from_str("El producto no puede eliminarse porque forma parte de uno o más combos."),
        );
    }
    Ok(())
}

} // verus!
