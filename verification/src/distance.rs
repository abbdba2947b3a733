//! Approximate edit distance between two pq-gram profiles.
//!
//! Profiles are compared as multisets (bags) of grams. With
//! `U = |A| + |B|` (the cardinality of the bag union of the two
//! profiles) and `I` the cardinality of their bag intersection
//! (minimum multiplicities), the distance is the exact rational
//! `(U - 2 * I) / U`, or `0` by convention when both profiles are
//! empty. The value always lies in `[0, 1]` and is `0` exactly when
//! the two multisets are equal.

use vstd::multiset::Multiset;
use vstd::prelude::*;

use crate::labels::Label;
use crate::profile::{profile_view, spec_profile, PQGram};
use crate::tree::TreeV;

verus! {

broadcast use {
    vstd::multiset::group_multiset_axioms,
    vstd::multiset::lemma_intersection_count,
    vstd::multiset::lemma_insert_len,
    vstd::multiset::lemma_multiset_empty_len,
    vstd::seq_lib::group_to_multiset_ensures,
};

/// The bag of grams of a profile: emission order is forgotten,
/// multiplicities are kept.
pub open spec fn profile_multiset(s: Seq<Seq<Label>>) -> Multiset<Seq<Label>> {
    s.to_multiset()
}

/// Cardinality of the bag intersection: each gram counts with the lower
/// of its two multiplicities.
pub open spec fn inter_len(a: Multiset<Seq<Label>>, b: Multiset<Seq<Label>>) -> nat {
    a.intersection_with(b).len()
}

/// Numerator of the distance between bags `a` and `b`.
pub open spec fn distance_num(a: Multiset<Seq<Label>>, b: Multiset<Seq<Label>>) -> int {
    if a.len() + b.len() == 0 {
        0
    } else {
        a.len() + b.len() - 2 * inter_len(a, b)
    }
}

/// Denominator of the distance between bags `a` and `b`.
pub open spec fn distance_den(a: Multiset<Seq<Label>>, b: Multiset<Seq<Label>>) -> int {
    if a.len() + b.len() == 0 {
        1
    } else {
        a.len() + b.len() as int
    }
}

/// An exact non-negative rational distance value, `num / den`.
#[derive(Clone, Copy, PartialEq, Eq, Structural, Debug)]
pub struct Distance {
    /// Numerator.
    pub num: u128,
    /// Denominator; always at least 1.
    pub den: u128,
}

/// The bag intersection is no larger than either bag.
pub proof fn lemma_inter_le(a: Multiset<Seq<Label>>, b: Multiset<Seq<Label>>)
    ensures
        inter_len(a, b) <= a.len(),
        inter_len(a, b) <= b.len(),
{
    let i = a.intersection_with(b);
    let da = a.sub(i);
    assert(a =~= i.add(da));
    let ib = b.intersection_with(a);
    assert(ib =~= i);
    let db = b.sub(ib);
    assert(b =~= i.add(db));
}

/// A bag pointwise below another and of the same size is the same bag.
proof fn lemma_subset_same_len(m: Multiset<Seq<Label>>, n: Multiset<Seq<Label>>)
    requires
        forall|x: Seq<Label>| #[trigger] m.count(x) <= n.count(x),
        m.len() == n.len(),
    ensures
        m == n,
{
    let d = n.sub(m);
    assert(n =~= m.add(d));
    assert(d.len() == 0);
    assert(d =~= Multiset::empty());
    assert(m =~= n);
}

/// How many grams of `s` a greedy left-to-right matching against the
/// bag `m` pairs off: each gram of `s` still available in `m` is taken
/// and used up.
pub open spec fn greedy_inter(s: Seq<Seq<Label>>, m: Multiset<Seq<Label>>) -> nat
    decreases s.len(),
{
    if s.len() == 0 {
        0
    } else if m.count(s[0]) > 0 {
        1 + greedy_inter(s.subrange(1, s.len() as int), m.remove(s[0]))
    } else {
        greedy_inter(s.subrange(1, s.len() as int), m)
    }
}

/// Greedy matching computes exactly the bag intersection cardinality.
proof fn lemma_greedy_is_inter(s: Seq<Seq<Label>>, m: Multiset<Seq<Label>>)
    ensures
        greedy_inter(s, m) == s.to_multiset().intersection_with(m).len(),
    decreases s.len(),
{
    if s.len() == 0 {
        assert(s.to_multiset().len() == 0);
        assert(s.to_multiset() =~= Multiset::empty());
        assert(s.to_multiset().intersection_with(m) =~= Multiset::empty());
    } else {
        let x = s[0];
        let rest = s.subrange(1, s.len() as int);
        assert(s.remove(0) =~= rest);
        assert(s.remove(0).to_multiset() =~= s.to_multiset().remove(s[0]));
        assert(s.contains(x));
        assert(s.to_multiset().count(x) > 0);
        let sm = s.to_multiset();
        assert(rest.to_multiset() =~= sm.remove(x));
        if m.count(x) > 0 {
            lemma_greedy_is_inter(rest, m.remove(x));
            assert(sm.intersection_with(m) =~= sm.remove(x).intersection_with(m.remove(x)).insert(
                x,
            ));
        } else {
            lemma_greedy_is_inter(rest, m);
            assert(sm.intersection_with(m) =~= sm.remove(x).intersection_with(m));
        }
    }
}

/// The bag of grams of `b` at the positions not yet marked as used.
pub open spec fn unmatched(b: Seq<Seq<Label>>, used: Seq<bool>) -> Multiset<Seq<Label>>
    decreases b.len(),
{
    if b.len() == 0 || b.len() != used.len() {
        Multiset::empty()
    } else {
        let rest = unmatched(b.subrange(1, b.len() as int), used.subrange(1, used.len() as int));
        if used[0] {
            rest
        } else {
            rest.insert(b[0])
        }
    }
}

/// With no position used yet, the unmatched bag is the whole profile.
proof fn lemma_unmatched_full(b: Seq<Seq<Label>>, used: Seq<bool>)
    requires
        used.len() == b.len(),
        forall|j: int| 0 <= j < used.len() ==> !used[j],
    ensures
        unmatched(b, used) == b.to_multiset(),
    decreases b.len(),
{
    if b.len() == 0 {
        assert(b.to_multiset().len() == 0);
        assert(b.to_multiset() =~= Multiset::empty());
    } else {
        let brest = b.subrange(1, b.len() as int);
        let urest = used.subrange(1, used.len() as int);
        lemma_unmatched_full(brest, urest);
        assert(b.remove(0) =~= brest);
        assert(b.remove(0).to_multiset() =~= b.to_multiset().remove(b[0]));
        assert(b.contains(b[0]));
        assert(b.to_multiset().count(b[0]) > 0);
        assert(unmatched(b, used) == brest.to_multiset().insert(b[0]));
        assert(b.to_multiset().remove(b[0]).insert(b[0]) =~= b.to_multiset());
    }
}

/// If every position holding `x` is already used, `x` is not in the
/// unmatched bag.
proof fn lemma_unmatched_count_zero(b: Seq<Seq<Label>>, used: Seq<bool>, x: Seq<Label>)
    requires
        used.len() == b.len(),
        forall|j: int| 0 <= j < b.len() ==> used[j] || b[j] != x,
    ensures
        unmatched(b, used).count(x) == 0,
    decreases b.len(),
{
    if b.len() > 0 {
        let brest = b.subrange(1, b.len() as int);
        let urest = used.subrange(1, used.len() as int);
        lemma_unmatched_count_zero(brest, urest, x);
    }
}

/// Marking the unused position `j` removes exactly one occurrence of
/// `b[j]` from the unmatched bag, which does hold one.
proof fn lemma_unmatched_update(b: Seq<Seq<Label>>, used: Seq<bool>, j: int)
    requires
        used.len() == b.len(),
        0 <= j < b.len(),
        !used[j],
    ensures
        unmatched(b, used).count(b[j]) >= 1,
        unmatched(b, used.update(j, true)) == unmatched(b, used).remove(b[j]),
    decreases b.len(),
{
    let brest = b.subrange(1, b.len() as int);
    let urest = used.subrange(1, used.len() as int);
    let upd = used.update(j, true);
    assert(upd.len() == b.len());
    if j == 0 {
        assert(upd.subrange(1, upd.len() as int) =~= urest);
        assert(unmatched(b, upd) == unmatched(brest, urest));
        assert(unmatched(b, used) == unmatched(brest, urest).insert(b[0]));
        assert(unmatched(brest, urest).insert(b[0]).remove(b[0]) =~= unmatched(brest, urest));
    } else {
        assert(upd.subrange(1, upd.len() as int) =~= urest.update(j - 1, true));
        assert(brest[j - 1] == b[j]);
        assert(!urest[j - 1]);
        lemma_unmatched_update(brest, urest, j - 1);
        if used[0] {
            assert(unmatched(b, upd) == unmatched(brest, urest.update(j - 1, true)));
            assert(unmatched(b, used) == unmatched(brest, urest));
        } else {
            assert(unmatched(b, upd) == unmatched(brest, urest.update(j - 1, true)).insert(b[0]));
            assert(unmatched(b, used) == unmatched(brest, urest).insert(b[0]));
            assert(unmatched(brest, urest).remove(b[j]).insert(b[0]) =~= unmatched(
                brest,
                urest,
            ).insert(b[0]).remove(b[j]));
        }
    }
}

/// Equality of two grams, label for label.
fn gram_eq(x: &PQGram, y: &PQGram) -> (r: bool)
    ensures
        r <==> x@ == y@,
{
    let nx = x.labels.len();
    if nx != y.labels.len() {
        return false;
    }
    let mut i: usize = 0;
    while i < nx
        invariant
            i <= nx,
            nx == x.labels@.len(),
            nx == y.labels@.len(),
            forall|k: int| 0 <= k < i ==> x.labels@[k] == y.labels@[k],
        decreases nx - i,
    {
        if x.labels[i] != y.labels[i] {
            return false;
        }
        i += 1;
    }
    proof {
        assert(x@ =~= y@);
    }
    true
}

/// Scan `b` for an unused position holding a gram equal to `x`; mark
/// the first one found.
fn find_match(b: &Vec<PQGram>, used: &mut Vec<bool>, x: &PQGram) -> (found: bool)
    requires
        old(used)@.len() == b@.len(),
    ensures
        final(used)@.len() == b@.len(),
        found ==> unmatched(profile_view(b@), old(used)@).count(x@) >= 1 && unmatched(
            profile_view(b@),
            final(used)@,
        ) == unmatched(profile_view(b@), old(used)@).remove(x@),
        !found ==> final(used)@ == old(used)@ && unmatched(profile_view(b@), old(used)@).count(x@)
            == 0,
{
    let n = b.len();
    let mut j: usize = 0;
    while j < n
        invariant
            j <= n,
            n == b@.len(),
            used@.len() == b@.len(),
            used@ == old(used)@,
            forall|k: int| 0 <= k < j ==> used@[k] || profile_view(b@)[k] != x@,
        decreases n - j,
    {
        if !used[j] {
            if gram_eq(&b[j], x) {
                proof {
                    lemma_unmatched_update(profile_view(b@), used@, j as int);
                    assert(profile_view(b@)[j as int] == x@);
                }
                used.set(j, true);
                proof {
                    assert(used@ =~= old(used)@.update(j as int, true));
                }
                return true;
            }
        }
        j += 1;
    }
    proof {
        lemma_unmatched_count_zero(profile_view(b@), used@, x@);
    }
    false
}

/// Cardinality of the bag intersection of two profiles, by greedy
/// matching: every gram of `a` consumes at most one still-unmatched
/// equal gram of `b`.
fn intersection_count(a: &Vec<PQGram>, b: &Vec<PQGram>) -> (c: usize)
    ensures
        c as nat == inter_len(
            profile_multiset(profile_view(a@)),
            profile_multiset(profile_view(b@)),
        ),
        c <= a@.len(),
        c <= b@.len(),
{
    let ghost av = profile_view(a@);
    let ghost bv = profile_view(b@);
    let nb = b.len();
    let mut used: Vec<bool> = Vec::new();
    let mut f: usize = 0;
    while f < nb
        invariant
            f <= nb,
            used@.len() == f as int,
            forall|k: int| 0 <= k < f ==> !used@[k],
        decreases nb - f,
    {
        used.push(false);
        f += 1;
    }
    proof {
        lemma_unmatched_full(bv, used@);
        lemma_greedy_is_inter(av, bv.to_multiset());
        assert(av.subrange(0, av.len() as int) =~= av);
    }
    let mut c: usize = 0;
    let na = a.len();
    let mut i: usize = 0;
    while i < na
        invariant
            i <= na,
            na == a@.len(),
            c <= i,
            used@.len() == b@.len(),
            av == profile_view(a@),
            bv == profile_view(b@),
            c + greedy_inter(av.subrange(i as int, av.len() as int), unmatched(bv, used@))
                == greedy_inter(av, bv.to_multiset()),
        decreases na - i,
    {
        let ghost used0 = used@;
        let found = find_match(b, &mut used, &a[i]);
        proof {
            let rem = av.subrange(i as int, av.len() as int);
            assert(rem[0] == av[i as int]);
            assert(av[i as int] == a@[i as int]@);
            assert(rem.subrange(1, rem.len() as int) =~= av.subrange(i + 1, av.len() as int));
            if found {
                assert(unmatched(bv, used0).count(rem[0]) > 0);
                assert(greedy_inter(rem, unmatched(bv, used0)) == 1 + greedy_inter(
                    av.subrange(i + 1, av.len() as int),
                    unmatched(bv, used0).remove(rem[0]),
                ));
                assert(unmatched(bv, used@) == unmatched(bv, used0).remove(rem[0]));
            } else {
                assert(greedy_inter(rem, unmatched(bv, used0)) == greedy_inter(
                    av.subrange(i + 1, av.len() as int),
                    unmatched(bv, used0),
                ));
            }
        }
        if found {
            c += 1;
        }
        i += 1;
    }
    proof {
        assert(av.subrange(na as int, av.len() as int).len() == 0);
        assert(c as nat == greedy_inter(av, bv.to_multiset()));
        lemma_inter_le(av.to_multiset(), bv.to_multiset());
        assert(av.to_multiset().len() == av.len());
        assert(bv.to_multiset().len() == bv.len());
    }
    c
}

/// The approximate tree edit distance between two profiles: the exact
/// rational `(U - 2 * I) / U` over the bag union cardinality
/// `U = |A| + |B|` and the bag intersection cardinality `I`, and `0 / 1`
/// by convention when both profiles are empty. The result is symmetric
/// in its arguments, lies in `[0, 1]`, and its numerator is `0` exactly
/// when the two profiles are equal as multisets.
pub fn pqgram_distance(a: &Vec<PQGram>, b: &Vec<PQGram>) -> (d: Distance)
    ensures
        d.num == distance_num(
            profile_multiset(profile_view(a@)),
            profile_multiset(profile_view(b@)),
        ),
        d.den == distance_den(
            profile_multiset(profile_view(a@)),
            profile_multiset(profile_view(b@)),
        ),
        d.num <= d.den,
        1 <= d.den,
        (d.num == 0 <==> profile_multiset(profile_view(a@)) == profile_multiset(profile_view(b@))),
{
    let ghost am = profile_multiset(profile_view(a@));
    let ghost bm = profile_multiset(profile_view(b@));
    let c = intersection_count(a, b);
    let na = a.len();
    let nb = b.len();
    proof {
        assert(am.len() == profile_view(a@).len());
        assert(bm.len() == profile_view(b@).len());
        lemma_inter_le(am, bm);
        lemma_distance_zero_iff(am, bm);
    }
    if na == 0 && nb == 0 {
        proof {
            assert(am =~= Multiset::empty());
            assert(bm =~= Multiset::empty());
        }
        Distance { num: 0, den: 1 }
    } else {
        let u = na as u128 + nb as u128;
        let d = u - 2 * (c as u128);
        Distance { num: d, den: u }
    }
}

/// The bag intersection of a bag with itself is the bag.
proof fn lemma_inter_self(a: Multiset<Seq<Label>>)
    ensures
        inter_len(a, a) == a.len(),
{
    assert(a.intersection_with(a) =~= a);
}

/// The distance numerator is zero exactly for equal bags: comparing a
/// profile with any bag-equal profile yields distance 0, and distance 0
/// is only reached that way.
pub proof fn lemma_distance_zero_iff(a: Multiset<Seq<Label>>, b: Multiset<Seq<Label>>)
    ensures
        distance_num(a, b) == 0 <==> a == b,
{
    if a.len() + b.len() == 0 {
        assert(a =~= Multiset::empty());
        assert(b =~= Multiset::empty());
    } else {
        lemma_inter_le(a, b);
        if a == b {
            lemma_inter_self(a);
        }
        if distance_num(a, b) == 0 {
            let i = a.intersection_with(b);
            assert(i.len() == a.len());
            assert forall|x: Seq<Label>| #[trigger] i.count(x) <= a.count(x) by {}
            lemma_subset_same_len(i, a);
            let ib = b.intersection_with(a);
            assert(ib =~= i);
            assert(ib.len() == b.len());
            assert forall|x: Seq<Label>| #[trigger] ib.count(x) <= b.count(x) by {}
            lemma_subset_same_len(ib, b);
        }
    }
}

/// The distance is symmetric: both its numerator and its denominator
/// are unchanged when the two profiles swap places.
pub proof fn lemma_distance_symmetric(a: Multiset<Seq<Label>>, b: Multiset<Seq<Label>>)
    ensures
        distance_num(a, b) == distance_num(b, a),
        distance_den(a, b) == distance_den(b, a),
{
    assert(a.intersection_with(b) =~= b.intersection_with(a));
}

/// The distance lies between 0 and 1: the numerator is non-negative
/// and never exceeds the (positive) denominator.
pub proof fn lemma_distance_bounds(a: Multiset<Seq<Label>>, b: Multiset<Seq<Label>>)
    ensures
        0 <= distance_num(a, b),
        distance_num(a, b) <= distance_den(a, b),
        1 <= distance_den(a, b),
{
    lemma_inter_le(a, b);
}

/// Comparing a tree's profile with itself yields distance zero, for
/// every tree and every shape.
pub proof fn lemma_self_distance_zero(t: TreeV, p: int, q: int)
    ensures
        distance_num(
            profile_multiset(spec_profile(t, p, q)),
            profile_multiset(spec_profile(t, p, q)),
        ) == 0,
{
    lemma_distance_zero_iff(
        profile_multiset(spec_profile(t, p, q)),
        profile_multiset(spec_profile(t, p, q)),
    );
}

} // verus!
