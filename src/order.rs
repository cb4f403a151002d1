//! Lexicographic order on text, and sorting by it.
use vstd::prelude::*;
use crate::text::views;

verus! {

/// `a` sorts before or equal to `b`, comparing characters by code point.
pub open spec fn text_le(a: Seq<char>, b: Seq<char>) -> bool
    decreases a.len(),
{
    if a.len() == 0 {
        true
    } else if b.len() == 0 {
        false
    } else if a[0] == b[0] {
        text_le(a.drop_first(), b.drop_first())
    } else {
        a[0] < b[0]
    }
}

pub proof fn lemma_text_le_total(a: Seq<char>, b: Seq<char>)
    ensures
        text_le(a, b) || text_le(b, a),
    decreases a.len(),
{
    if a.len() > 0 && b.len() > 0 && a[0] == b[0] {
        lemma_text_le_total(a.drop_first(), b.drop_first());
    }
}

pub proof fn lemma_text_le_trans(a: Seq<char>, b: Seq<char>, c: Seq<char>)
    requires
        text_le(a, b),
        text_le(b, c),
    ensures
        text_le(a, c),
    decreases a.len(),
{
    if a.len() > 0 && b.len() > 0 && c.len() > 0 && a[0] == b[0] && b[0] == c[0] {
        lemma_text_le_trans(a.drop_first(), b.drop_first(), c.drop_first());
    }
}

/// Whether `a` sorts before or equal to `b`.
pub fn str_le(a: &str, b: &str) -> (r: bool)
    ensures
        r == text_le(a@, b@),
{
    let n = a.unicode_len();
    let m = b.unicode_len();
    let mut i: usize = 0;
    assert(a@.subrange(0, n as int) =~= a@);
    assert(b@.subrange(0, m as int) =~= b@);
    while i < n && i < m && a.get_char(i) == b.get_char(i)
        invariant
            n == a@.len(),
            m == b@.len(),
            i <= n,
            i <= m,
            text_le(a@, b@) == text_le(a@.subrange(i as int, n as int), b@.subrange(i as int, m as int)),
        decreases n - i,
    {
        assert(a@.subrange(i as int, n as int).drop_first() =~= a@.subrange(i + 1, n as int));
        assert(b@.subrange(i as int, m as int).drop_first() =~= b@.subrange(i + 1, m as int));
        i = i + 1;
    }
    if i == n {
        true
    } else if i == m {
        false
    } else {
        a.get_char(i) < b.get_char(i)
    }
}

/// `order` lists each index below `n` exactly once.
pub open spec fn is_perm(order: Seq<usize>, n: nat) -> bool {
    &&& order.len() == n
    &&& order.no_duplicates()
    &&& forall|k: int| 0 <= k < order.len() ==> (#[trigger] order[k]) < n
}

/// `order` lists `keys` in ascending order.
pub open spec fn sorted_by(order: Seq<usize>, keys: Seq<Seq<char>>) -> bool {
    forall|a: int, b: int| 0 <= a < b < order.len() ==> text_le(
        #[trigger] keys[order[a] as int],
        #[trigger] keys[order[b] as int],
    )
}

/// Where insertion sort puts index `x` into `order`: after every entry
/// whose key sorts before or equal to `x`'s key, scanning from the front.
pub open spec fn ins_pos(order: Seq<usize>, keys: Seq<Seq<char>>, x: usize) -> nat
    decreases order.len(),
{
    if order.len() == 0 {
        0
    } else if text_le(keys[order[0] as int], keys[x as int]) {
        1 + ins_pos(order.drop_first(), keys, x)
    } else {
        0
    }
}

/// The order in which insertion sort lists the first `n` indices of `keys`.
pub open spec fn sort_spec(keys: Seq<Seq<char>>, n: nat) -> Seq<usize>
    decreases n,
{
    if n == 0 {
        Seq::empty()
    } else {
        let o = sort_spec(keys, (n - 1) as nat);
        o.insert(ins_pos(o, keys, (n - 1) as usize) as int, (n - 1) as usize)
    }
}

/// The indices of `keys` in ascending order of the keys; ties keep their order.
pub fn sort_order(keys: &Vec<String>) -> (r: Vec<usize>)
    ensures
        is_perm(r@, keys@.len()),
        sorted_by(r@, views(keys@)),
        forall|j: usize| j < keys@.len() ==> #[trigger] r@.contains(j),
        r@ == sort_spec(views(keys@), keys@.len()),
{
    let ghost ks = views(keys@);
    let mut order: Vec<usize> = Vec::new();
    let mut i: usize = 0;
    while i < keys.len()
        invariant
            i <= keys@.len(),
            ks == views(keys@),
            is_perm(order@, i as nat),
            sorted_by(order@, ks),
            forall|j: usize| j < i ==> #[trigger] order@.contains(j),
            order@ == sort_spec(ks, i as nat),
        decreases keys@.len() - i,
    {
        let mut p: usize = 0;
        assert(order@.subrange(0, order@.len() as int) =~= order@);
        while p < order.len() && str_le(keys[order[p]].as_str(), keys[i].as_str())
            invariant
                p <= order@.len(),
                i < keys@.len(),
                ks == views(keys@),
                is_perm(order@, i as nat),
                forall|q: int| 0 <= q < p ==> text_le(ks[order@[q] as int], ks[i as int]),
                ins_pos(order@, ks, i) == p + ins_pos(order@.subrange(p as int, order@.len() as int), ks, i),
            decreases order@.len() - p,
        {
            assert(ks[order@[p as int] as int] == keys@[order@[p as int] as int]@);
            assert(order@.subrange(p as int, order@.len() as int).drop_first() =~= order@.subrange(p + 1, order@.len() as int));
            p = p + 1;
        }
        proof {
            if p < order@.len() {
                assert(ks[order@[p as int] as int] == keys@[order@[p as int] as int]@);
            } else {
                assert(order@.subrange(p as int, order@.len() as int) =~= Seq::<usize>::empty());
            }
        }
        proof {
            if p < order@.len() {
                assert(ks[order@[p as int] as int] == keys@[order@[p as int] as int]@);
                assert(!text_le(ks[order@[p as int] as int], ks[i as int]));
                lemma_text_le_total(ks[order@[p as int] as int], ks[i as int]);
            }
        }
        let ghost old_order = order@;
        order.insert(p, i);
        proof {
            assert(order@ == old_order.insert(p as int, i));
            assert forall|k: int| 0 <= k < order@.len() implies (#[trigger] order@[k]) < i + 1 by {
                if k < p {
                    assert(order@[k] == old_order[k]);
                } else if k > p {
                    assert(order@[k] == old_order[k - 1]);
                }
            }
            assert(order@.no_duplicates()) by {
                assert forall|a: int, b: int| 0 <= a < b < order@.len() implies order@[a] != order@[b] by {
                    if a != p && b != p {
                        let a0 = if a < p { a } else { a - 1 };
                        let b0 = if b < p { b } else { b - 1 };
                        assert(order@[a] == old_order[a0]);
                        assert(order@[b] == old_order[b0]);
                    } else if a == p {
                        let b0 = b - 1;
                        assert(order@[b] == old_order[b0]);
                    } else {
                        assert(order@[a] == old_order[a]);
                    }
                }
            }
            assert forall|j: usize| j < i + 1 implies #[trigger] order@.contains(j) by {
                if j < i {
                    assert(old_order.contains(j));
                    let q = choose|q: int| 0 <= q < old_order.len() && old_order[q] == j;
                    if q < p {
                        assert(order@[q] == j);
                    } else {
                        assert(order@[q + 1] == j);
                    }
                } else {
                    assert(order@[p as int] == i);
                }
            }
            assert forall|a: int, b: int| 0 <= a < b < order@.len() implies text_le(
                #[trigger] ks[order@[a] as int],
                #[trigger] ks[order@[b] as int],
            ) by {
                let x = ks[i as int];
                if a < p && b < p {
                    assert(order@[a] == old_order[a] && order@[b] == old_order[b]);
                } else if a < p && b == p {
                    assert(order@[a] == old_order[a]);
                } else if a < p && b > p {
                    assert(order@[a] == old_order[a] && order@[b] == old_order[b - 1]);
                } else if a == p {
                    assert(order@[b] == old_order[b - 1]);
                    if p < old_order.len() {
                        let y = ks[old_order[p as int] as int];
                        if b - 1 > p {
                            assert(text_le(y, ks[old_order[b - 1] as int]));
                            lemma_text_le_trans(x, y, ks[old_order[b - 1] as int]);
                        }
                    }
                } else {
                    assert(order@[a] == old_order[a - 1] && order@[b] == old_order[b - 1]);
                }
            }
        }
        i = i + 1;
    }
    order
}

} // verus!
