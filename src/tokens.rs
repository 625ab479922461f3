use vstd::prelude::*;
use vstd::relations::{sorted_by, total_ordering};
use vstd::seq_lib::lemma_sorted_unique;

verus! {

broadcast use vstd::seq_lib::group_to_multiset_ensures;

/// GREASE values (RFC 8701): `0x0a0a`, `0x1a1a`, ... `0xfafa`.
pub open spec fn is_grease_spec(v: u16) -> bool {
    v as int / 256 == v as int % 256 && v as int % 16 == 10
}

/// The values that fingerprints keep, as a predicate.
pub open spec fn not_grease() -> spec_fn(u16) -> bool {
    |v: u16| !is_grease_spec(v)
}

/// A list with its GREASE values taken out, the rest in order.
pub open spec fn grease_free(s: Seq<u16>) -> Seq<u16> {
    s.filter(not_grease())
}

/// The order of values, as a relation.
pub open spec fn u16_leq() -> spec_fn(u16, u16) -> bool {
    |a: u16, b: u16| a <= b
}

/// Ascending order. Four lowercase hex digits per value order as the values do.
pub open spec fn ascending(s: Seq<u16>) -> Seq<u16> {
    s.sort_by(u16_leq())
}

pub proof fn lemma_u16_total()
    ensures
        total_ordering(u16_leq()),
{
}

/// Whether `v` is a GREASE value.
pub fn is_grease(v: u16) -> (r: bool)
    ensures
        r == is_grease_spec(v),
{
    v / 256 == v % 256 && v % 16 == 10
}

/// The values of `v` that are not GREASE, in order.
pub fn without_grease(v: &Vec<u16>) -> (r: Vec<u16>)
    ensures
        r@ == grease_free(v@),
{
    let mut r: Vec<u16> = Vec::new();
    let mut i: usize = 0;
    while i < v.len()
        invariant
            i <= v@.len(),
            r@ == grease_free(v@.take(i as int)),
        decreases v.len() - i,
    {
        proof {
            assert(v@.take(i as int + 1) =~= v@.take(i as int).push(v@[i as int]));
            v@.take(i as int).lemma_filter_push(v@[i as int], not_grease());
        }
        if !is_grease(v[i]) {
            r.push(v[i]);
        }
        i = i + 1;
    }
    assert(v@.take(v@.len() as int) =~= v@);
    r
}

/// Filtering out GREASE a second time changes nothing.
pub proof fn lemma_grease_free_idempotent(s: Seq<u16>)
    ensures
        grease_free(grease_free(s)) == grease_free(s),
    decreases s.len(),
{
    if s.len() > 0 {
        let d = s.drop_last();
        lemma_grease_free_idempotent(d);
        assert(s =~= d.push(s.last()));
        d.lemma_filter_push(s.last(), not_grease());
        grease_free(d).lemma_filter_push(s.last(), not_grease());
    }
}

/// Filtering by a weaker predicate first changes nothing.
pub proof fn lemma_filter_absorb(s: Seq<u16>, q: spec_fn(u16) -> bool, p: spec_fn(u16) -> bool)
    requires
        forall|x: u16| #[trigger] p(x) ==> q(x),
    ensures
        s.filter(q).filter(p) == s.filter(p),
    decreases s.len(),
{
    if s.len() > 0 {
        let d = s.drop_last();
        lemma_filter_absorb(d, q, p);
        assert(s =~= d.push(s.last()));
        d.lemma_filter_push(s.last(), q);
        d.lemma_filter_push(s.last(), p);
        d.filter(q).lemma_filter_push(s.last(), p);
    }
}

/// A value that a filter rejects, inserted anywhere, leaves the filtered list as it was.
pub proof fn lemma_filter_insert_rejected(s: Seq<u16>, i: int, g: u16, p: spec_fn(u16) -> bool)
    requires
        0 <= i <= s.len(),
        !p(g),
    ensures
        s.insert(i, g).filter(p) == s.filter(p),
{
    assert(s.insert(i, g) =~= s.take(i) + (seq![g] + s.skip(i)));
    assert(s =~= s.take(i) + s.skip(i));
    Seq::filter_distributes_over_add(s.take(i), seq![g] + s.skip(i), p);
    Seq::filter_distributes_over_add(seq![g], s.skip(i), p);
    Seq::filter_distributes_over_add(s.take(i), s.skip(i), p);
    assert(seq![g] =~= Seq::<u16>::empty().push(g));
    Seq::<u16>::empty().lemma_filter_push(g, p);
    assert(Seq::<u16>::empty().filter(p) =~= Seq::<u16>::empty()) by {
        reveal(Seq::filter);
    }
    assert(seq![g].filter(p) + s.skip(i).filter(p) =~= s.skip(i).filter(p));
}

/// A GREASE value inserted anywhere leaves the filtered list as it was.
pub proof fn lemma_grease_insert_invisible(s: Seq<u16>, i: int, g: u16)
    requires
        0 <= i <= s.len(),
        is_grease_spec(g),
    ensures
        grease_free(s.insert(i, g)) == grease_free(s),
{
    lemma_filter_insert_rejected(s, i, g, not_grease());
}

/// The values of `v` in ascending order.
pub fn sort_ascending(v: &Vec<u16>) -> (r: Vec<u16>)
    ensures
        r@ == ascending(v@),
{
    let mut r: Vec<u16> = Vec::new();
    let mut i: usize = 0;
    assert(v@.take(0) =~= Seq::<u16>::empty());
    while i < v.len()
        invariant
            i <= v@.len(),
            sorted_by(r@, u16_leq()),
            r@.to_multiset() == v@.take(i as int).to_multiset(),
        decreases v.len() - i,
    {
        let x = v[i];
        let mut p: usize = 0;
        while p < r.len() && r[p] <= x
            invariant
                p <= r@.len(),
                forall|k: int| 0 <= k < p ==> r@[k] <= x,
            decreases r.len() - p,
        {
            p = p + 1;
        }
        proof {
            if p < r@.len() {
                assert(r@[p as int] > x);
            }
        }
        let ghost old_r = r@;
        r.insert(p, x);
        proof {
            vstd::seq_lib::to_multiset_insert(old_r, p as int, x);
            assert(v@.take(i as int + 1) =~= v@.take(i as int).push(x));
            vstd::seq_lib::to_multiset_build(v@.take(i as int), x);
            assert forall|a: int, b: int| 0 <= a < b < r@.len() implies u16_leq()(r@[a], r@[b]) by {
                if b < p {
                } else if b == p {
                } else if a < p {
                    assert(r@[b] == old_r[b - 1]);
                    assert(old_r[p as int] > x);
                    assert(u16_leq()(old_r[a], old_r[p as int]));
                } else if a == p {
                    assert(r@[b] == old_r[b - 1]);
                    assert(u16_leq()(old_r[p as int], old_r[b - 1]));
                } else {
                    assert(u16_leq()(old_r[a - 1], old_r[b - 1]));
                }
            }
        }
        i = i + 1;
    }
    proof {
        assert(v@.take(v@.len() as int) =~= v@);
        lemma_u16_total();
        v@.lemma_sort_by_ensures(u16_leq());
        lemma_sorted_unique(r@, ascending(v@), u16_leq());
    }
    r
}

/// Any two orderings of the same values sort to one list.
pub proof fn lemma_ascending_permutation(a: Seq<u16>, b: Seq<u16>)
    requires
        a.to_multiset() == b.to_multiset(),
    ensures
        ascending(a) == ascending(b),
{
    lemma_u16_total();
    a.lemma_sort_by_ensures(u16_leq());
    b.lemma_sort_by_ensures(u16_leq());
    lemma_sorted_unique(ascending(a), ascending(b), u16_leq());
}

} // verus!
