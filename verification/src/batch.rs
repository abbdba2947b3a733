//! Batch comparison of collections of trees.
//!
//! Every mode extracts each tree's profile exactly once and then
//! compares profiles pairwise. All modes enumerate fully — quadratic or
//! bilinear in the collection sizes — in a deterministic order given by
//! the input order; bounding collection sizes is the caller's business.

use std::collections::HashMap;

use vstd::multiset::Multiset;
use vstd::prelude::*;

use crate::distance::{
    distance_den, distance_num, pqgram_distance, profile_multiset, Distance,
};
use crate::errors::PqgramError;
use crate::labels::{Label, FILLER_RANDOM_INT};
use crate::profile::{
    extract_profile, flat_gram, profile_view, spec_profile, PQGram,
};
use crate::tree::{
    has_label, lemma_source_views_index, source_views, string_views, tag_maps_of_sources,
    tree_build, tree_has_label, tree_of_source, SourceNode, SourceV,
};

verus! {

/// The bag of grams of the tree a source node describes.
pub open spec fn source_profile_bag(s: SourceV, p: int, q: int) -> Multiset<Seq<Label>> {
    profile_multiset(spec_profile(tree_of_source(s), p, q))
}

/// Whether `v` holds a comparison entry for the pair `(i, j)`.
pub open spec fn pair_found(v: Seq<(usize, usize, Distance)>, i: int, j: int) -> bool {
    exists|k: int| 0 <= k < v.len() && (#[trigger] v[k]).0 == i && v[k].1 == j
}

/// Strict lexicographic order on the index pair of two entries.
pub open spec fn pair_lt(a: (usize, usize, Distance), b: (usize, usize, Distance)) -> bool {
    a.0 < b.0 || (a.0 == b.0 && a.1 < b.1)
}

/// Extract the profile of every source tree, once each, in order.
fn profile_each(p: usize, q: usize, sources: &Vec<SourceNode>) -> (profs: Vec<Vec<PQGram>>)
    requires
        p >= 1,
        q >= 1,
    ensures
        profs@.len() == sources@.len(),
        forall|k: int|
            0 <= k < profs@.len() ==> profile_view(#[trigger] profs@[k]@) == spec_profile(
                tree_of_source(source_views(sources@)[k]),
                p as int,
                q as int,
            ),
{
    let n = sources.len();
    let mut profs: Vec<Vec<PQGram>> = Vec::new();
    let mut i: usize = 0;
    while i < n
        invariant
            i <= n,
            n == sources@.len(),
            p >= 1,
            q >= 1,
            profs@.len() == i as int,
            forall|k: int|
                0 <= k < i ==> profile_view(#[trigger] profs@[k]@) == spec_profile(
                    tree_of_source(source_views(sources@)[k]),
                    p as int,
                    q as int,
                ),
        decreases n - i,
    {
        let t = tree_build(&sources[i]);
        let prof = extract_profile(&t, p, q);
        profs.push(prof);
        proof {
            lemma_source_views_index(sources@);
        }
        i += 1;
    }
    profs
}

/// Compare every tree of the first collection with every tree of the
/// second: the full ordered cross product, `n * m` entries, row by row.
/// Entry `k` concerns pair `(k / m, k % m)` and carries the distance of
/// the two trees' profiles. Rejects `p == 0` or `q == 0`; an empty
/// collection on either side yields an empty result, not an error.
pub fn compare_many_to_many(
    p: usize,
    q: usize,
    sources1: &Vec<SourceNode>,
    sources2: &Vec<SourceNode>,
) -> (r: Result<Vec<(usize, usize, Distance)>, PqgramError>)
    ensures
        match r {
            Ok(v) => {
                let n = sources1@.len() as int;
                let m = sources2@.len() as int;
                &&& p >= 1
                &&& q >= 1
                &&& v@.len() == n * m
                &&& forall|k: int|
                    0 <= k < v@.len() ==> {
                        let i = k / m;
                        let j = k % m;
                        &&& (#[trigger] v@[k]).0 == i
                        &&& v@[k].1 == j
                        &&& v@[k].2.num == distance_num(
                            source_profile_bag(source_views(sources1@)[i], p as int, q as int),
                            source_profile_bag(source_views(sources2@)[j], p as int, q as int),
                        )
                        &&& v@[k].2.den == distance_den(
                            source_profile_bag(source_views(sources1@)[i], p as int, q as int),
                            source_profile_bag(source_views(sources2@)[j], p as int, q as int),
                        )
                    }
            },
            Err(e) => (p == 0 || q == 0) && e == PqgramError::InvalidShape,
        },
{
    if p == 0 || q == 0 {
        return Err(PqgramError::InvalidShape);
    }
    let profs1 = profile_each(p, q, sources1);
    let profs2 = profile_each(p, q, sources2);
    let n = profs1.len();
    let m = profs2.len();
    let mut out: Vec<(usize, usize, Distance)> = Vec::new();
    let mut i: usize = 0;
    while i < n
        invariant
            i <= n,
            n == sources1@.len(),
            m == sources2@.len(),
            p >= 1,
            q >= 1,
            profs1@.len() == n as int,
            profs2@.len() == m as int,
            forall|k: int|
                0 <= k < n ==> profile_view(#[trigger] profs1@[k]@) == spec_profile(
                    tree_of_source(source_views(sources1@)[k]),
                    p as int,
                    q as int,
                ),
            forall|k: int|
                0 <= k < m ==> profile_view(#[trigger] profs2@[k]@) == spec_profile(
                    tree_of_source(source_views(sources2@)[k]),
                    p as int,
                    q as int,
                ),
            out@.len() == i as int * m as int,
            forall|k: int|
                0 <= k < out@.len() ==> {
                    let ki = k / (m as int);
                    let kj = k % (m as int);
                    &&& (#[trigger] out@[k]).0 == ki
                    &&& out@[k].1 == kj
                    &&& out@[k].2.num == distance_num(
                        source_profile_bag(source_views(sources1@)[ki], p as int, q as int),
                        source_profile_bag(source_views(sources2@)[kj], p as int, q as int),
                    )
                    &&& out@[k].2.den == distance_den(
                        source_profile_bag(source_views(sources1@)[ki], p as int, q as int),
                        source_profile_bag(source_views(sources2@)[kj], p as int, q as int),
                    )
                },
        decreases n - i,
    {
        let mut j: usize = 0;
        while j < m
            invariant
                i < n,
                j <= m,
                n == sources1@.len(),
                m == sources2@.len(),
                p >= 1,
                q >= 1,
                profs1@.len() == n as int,
                profs2@.len() == m as int,
                forall|k: int|
                    0 <= k < n ==> profile_view(#[trigger] profs1@[k]@) == spec_profile(
                        tree_of_source(source_views(sources1@)[k]),
                        p as int,
                        q as int,
                    ),
                forall|k: int|
                    0 <= k < m ==> profile_view(#[trigger] profs2@[k]@) == spec_profile(
                        tree_of_source(source_views(sources2@)[k]),
                        p as int,
                        q as int,
                    ),
                out@.len() == i as int * m as int + j as int,
                forall|k: int|
                    0 <= k < out@.len() ==> {
                        let ki = k / (m as int);
                        let kj = k % (m as int);
                        &&& (#[trigger] out@[k]).0 == ki
                        &&& out@[k].1 == kj
                        &&& out@[k].2.num == distance_num(
                            source_profile_bag(source_views(sources1@)[ki], p as int, q as int),
                            source_profile_bag(source_views(sources2@)[kj], p as int, q as int),
                        )
                        &&& out@[k].2.den == distance_den(
                            source_profile_bag(source_views(sources1@)[ki], p as int, q as int),
                            source_profile_bag(source_views(sources2@)[kj], p as int, q as int),
                        )
                    },
            decreases m - j,
        {
            let d = pqgram_distance(&profs1[i], &profs2[j]);
            out.push((i, j, d));
            proof {
                let mi = m as int;
                let k = i as int * mi + j as int;
                assert(k / mi == i as int && k % mi == j as int) by (nonlinear_arith)
                    requires
                        0 <= j < m,
                        0 <= i,
                        mi == m as int,
                        k == i as int * mi + j as int,
                ;
            }
            j += 1;
        }
        proof {
            assert((i + 1) as int * m as int == i as int * m as int + m as int)
                by (nonlinear_arith);
        }
        i += 1;
    }
    Ok(out)
}

/// Compare one anchor tree against every tree of a collection: `m`
/// entries, entry `j` carrying the index `j` and the distance between
/// the anchor's profile and that tree's profile. Rejects `p == 0` or
/// `q == 0`; an empty collection yields an empty result, not an error.
pub fn compare_one_to_many(
    p: usize,
    q: usize,
    anchor: &SourceNode,
    many: &Vec<SourceNode>,
) -> (r: Result<Vec<(usize, Distance)>, PqgramError>)
    ensures
        match r {
            Ok(v) => {
                &&& p >= 1
                &&& q >= 1
                &&& v@.len() == many@.len()
                &&& forall|j: int|
                    0 <= j < v@.len() ==> {
                        &&& (#[trigger] v@[j]).0 == j
                        &&& v@[j].1.num == distance_num(
                            source_profile_bag(anchor@, p as int, q as int),
                            source_profile_bag(source_views(many@)[j], p as int, q as int),
                        )
                        &&& v@[j].1.den == distance_den(
                            source_profile_bag(anchor@, p as int, q as int),
                            source_profile_bag(source_views(many@)[j], p as int, q as int),
                        )
                    }
            },
            Err(e) => (p == 0 || q == 0) && e == PqgramError::InvalidShape,
        },
{
    if p == 0 || q == 0 {
        return Err(PqgramError::InvalidShape);
    }
    let t = tree_build(anchor);
    let aprof = extract_profile(&t, p, q);
    let profs = profile_each(p, q, many);
    let m = profs.len();
    let mut out: Vec<(usize, Distance)> = Vec::new();
    let mut j: usize = 0;
    while j < m
        invariant
            j <= m,
            m == many@.len(),
            p >= 1,
            q >= 1,
            profs@.len() == m as int,
            profile_view(aprof@) == spec_profile(tree_of_source(anchor@), p as int, q as int),
            forall|k: int|
                0 <= k < m ==> profile_view(#[trigger] profs@[k]@) == spec_profile(
                    tree_of_source(source_views(many@)[k]),
                    p as int,
                    q as int,
                ),
            out@.len() == j as int,
            forall|k: int|
                0 <= k < out@.len() ==> {
                    &&& (#[trigger] out@[k]).0 == k
                    &&& out@[k].1.num == distance_num(
                        source_profile_bag(anchor@, p as int, q as int),
                        source_profile_bag(source_views(many@)[k], p as int, q as int),
                    )
                    &&& out@[k].1.den == distance_den(
                        source_profile_bag(anchor@, p as int, q as int),
                        source_profile_bag(source_views(many@)[k], p as int, q as int),
                    )
                },
        decreases m - j,
    {
        let d = pqgram_distance(&aprof, &profs[j]);
        out.push((j, d));
        j += 1;
    }
    Ok(out)
}

/// Compare all trees of one collection with each other: every unordered
/// pair `(i, j)` with `i < j` exactly once — `n * (n - 1) / 2` entries,
/// no self-comparison, no repeated pair — in increasing lexicographic
/// order of the index pair. Rejects `p == 0` or `q == 0`.
pub fn compare_matrix(p: usize, q: usize, sources: &Vec<SourceNode>) -> (r: Result<
    Vec<(usize, usize, Distance)>,
    PqgramError,
>)
    ensures
        match r {
            Ok(v) => {
                let n = sources@.len() as int;
                &&& p >= 1
                &&& q >= 1
                &&& 2 * v@.len() == n * (n - 1)
                &&& v@.len() == n * (n - 1) / 2
                &&& forall|k: int|
                    0 <= k < v@.len() ==> {
                        &&& (#[trigger] v@[k]).0 < v@[k].1
                        &&& v@[k].1 < n
                        &&& v@[k].2.num == distance_num(
                            source_profile_bag(
                                source_views(sources@)[v@[k].0 as int],
                                p as int,
                                q as int,
                            ),
                            source_profile_bag(
                                source_views(sources@)[v@[k].1 as int],
                                p as int,
                                q as int,
                            ),
                        )
                        &&& v@[k].2.den == distance_den(
                            source_profile_bag(
                                source_views(sources@)[v@[k].0 as int],
                                p as int,
                                q as int,
                            ),
                            source_profile_bag(
                                source_views(sources@)[v@[k].1 as int],
                                p as int,
                                q as int,
                            ),
                        )
                    }
                &&& forall|k1: int, k2: int|
                    0 <= k1 < k2 < v@.len() ==> pair_lt(#[trigger] v@[k1], #[trigger] v@[k2])
                &&& forall|i: int, j: int|
                    0 <= i < j < n ==> #[trigger] pair_found(v@, i, j)
            },
            Err(e) => (p == 0 || q == 0) && e == PqgramError::InvalidShape,
        },
{
    if p == 0 || q == 0 {
        return Err(PqgramError::InvalidShape);
    }
    let profs = profile_each(p, q, sources);
    let n = profs.len();
    let mut out: Vec<(usize, usize, Distance)> = Vec::new();
    let mut i: usize = 0;
    proof {
        assert(2 * (0 as int) * (n as int) - (0 as int) * (0 as int) - (0 as int) == 0)
            by (nonlinear_arith);
    }
    while i < n
        invariant
            i <= n,
            n == sources@.len(),
            p >= 1,
            q >= 1,
            profs@.len() == n as int,
            forall|k: int|
                0 <= k < n ==> profile_view(#[trigger] profs@[k]@) == spec_profile(
                    tree_of_source(source_views(sources@)[k]),
                    p as int,
                    q as int,
                ),
            2 * out@.len() == 2 * (i as int) * (n as int) - (i as int) * (i as int) - (i as int),
            forall|k: int|
                0 <= k < out@.len() ==> {
                    &&& (#[trigger] out@[k]).0 < out@[k].1
                    &&& out@[k].1 < n
                    &&& out@[k].2.num == distance_num(
                        source_profile_bag(
                            source_views(sources@)[out@[k].0 as int],
                            p as int,
                            q as int,
                        ),
                        source_profile_bag(
                            source_views(sources@)[out@[k].1 as int],
                            p as int,
                            q as int,
                        ),
                    )
                    &&& out@[k].2.den == distance_den(
                        source_profile_bag(
                            source_views(sources@)[out@[k].0 as int],
                            p as int,
                            q as int,
                        ),
                        source_profile_bag(
                            source_views(sources@)[out@[k].1 as int],
                            p as int,
                            q as int,
                        ),
                    )
                },
            forall|k1: int, k2: int|
                0 <= k1 < k2 < out@.len() ==> pair_lt(#[trigger] out@[k1], #[trigger] out@[k2]),
            forall|k: int| 0 <= k < out@.len() ==> (#[trigger] out@[k]).0 < i,
            forall|ii: int, jj: int|
                0 <= ii < jj < n && ii < i ==> #[trigger] pair_found(out@, ii, jj),
        decreases n - i,
    {
        let mut j: usize = i + 1;
        while j < n
            invariant
                i < n,
                i + 1 <= j <= n,
                n == sources@.len(),
                p >= 1,
                q >= 1,
                profs@.len() == n as int,
                forall|k: int|
                    0 <= k < n ==> profile_view(#[trigger] profs@[k]@) == spec_profile(
                        tree_of_source(source_views(sources@)[k]),
                        p as int,
                        q as int,
                    ),
                2 * out@.len() == 2 * (i as int) * (n as int) - (i as int) * (i as int) - 3 * (
                i as int) + 2 * (j as int) - 2,
                forall|k: int|
                    0 <= k < out@.len() ==> {
                        &&& (#[trigger] out@[k]).0 < out@[k].1
                        &&& out@[k].1 < n
                        &&& out@[k].2.num == distance_num(
                            source_profile_bag(
                                source_views(sources@)[out@[k].0 as int],
                                p as int,
                                q as int,
                            ),
                            source_profile_bag(
                                source_views(sources@)[out@[k].1 as int],
                                p as int,
                                q as int,
                            ),
                        )
                        &&& out@[k].2.den == distance_den(
                            source_profile_bag(
                                source_views(sources@)[out@[k].0 as int],
                                p as int,
                                q as int,
                            ),
                            source_profile_bag(
                                source_views(sources@)[out@[k].1 as int],
                                p as int,
                                q as int,
                            ),
                        )
                    },
                forall|k1: int, k2: int|
                    0 <= k1 < k2 < out@.len() ==> pair_lt(#[trigger] out@[k1], #[trigger] out@[k2]),
                forall|k: int|
                    0 <= k < out@.len() ==> (#[trigger] out@[k]).0 < i || (out@[k].0 == i
                        && out@[k].1 < j),
                forall|ii: int, jj: int|
                    0 <= ii < jj < n && (ii < i || (ii == i && jj < j)) ==> #[trigger] pair_found(
                        out@,
                        ii,
                        jj,
                    ),
            decreases n - j,
        {
            let d = pqgram_distance(&profs[i], &profs[j]);
            let ghost out0 = out@;
            out.push((i, j, d));
            proof {
                assert forall|ii: int, jj: int|
                    0 <= ii < jj < n && (ii < i || (ii == i && jj < j + 1)) implies #[trigger]
                pair_found(out@, ii, jj) by {
                    if ii == i as int && jj == j as int {
                        assert((out@[out0.len() as int]).0 == ii && out@[out0.len() as int].1
                            == jj);
                    } else {
                        assert(pair_found(out0, ii, jj));
                        let k = choose|k: int|
                            0 <= k < out0.len() && (#[trigger] out0[k]).0 == ii && out0[k].1 == jj;
                        assert((out@[k]).0 == ii && out@[k].1 == jj);
                    }
                }
            }
            j += 1;
        }
        proof {
            let ii = i as int;
            let nn = n as int;
            assert(2 * ii * nn - ii * ii - 3 * ii + 2 * nn - 2 == 2 * (ii + 1) * nn - (ii + 1) * (
            ii + 1) - (ii + 1)) by (nonlinear_arith);
            assert forall|ii2: int, jj: int| 0 <= ii2 < jj < n && ii2 < i + 1 implies #[trigger]
            pair_found(out@, ii2, jj) by {
                assert(pair_found(out@, ii2, jj));
            }
        }
        i += 1;
    }
    proof {
        let nn = n as int;
        assert(2 * nn * nn - nn * nn - nn == nn * (nn - 1)) by (nonlinear_arith);
        assert(2 * out@.len() == nn * (nn - 1));
        assert(out@.len() == nn * (nn - 1) / 2) by (nonlinear_arith)
            requires
                2 * out@.len() == nn * (nn - 1),
        ;
    }
    Ok(out)
}

/// Flatten one profile into plain rows of `i64`, padding positions
/// carrying the reserved sentinel.
pub open spec fn flat_profile(t: crate::tree::TreeV, p: int, q: int) -> Seq<Seq<i64>> {
    spec_profile(t, p, q).map_values(|g: Seq<Label>| flat_gram(g, FILLER_RANDOM_INT))
}

/// The rows of an exec flattened profile.
pub open spec fn flat_rows(s: Seq<Vec<i64>>) -> Seq<Seq<i64>> {
    s.map_values(|v: Vec<i64>| v@)
}

/// Profile every source tree and return the flattened profiles together
/// with one master label map covering all trees (later trees override
/// earlier ones on a shared label). Each profile is a sequence of
/// `p + q`-length label rows; padding positions carry the reserved
/// sentinel `FILLER_RANDOM_INT`. Rejects `p == 0` or `q == 0`, and a
/// tree whose real labels contain the sentinel itself, naming the first
/// offending tree.
pub fn profile_trees(p: usize, q: usize, sources: &Vec<SourceNode>) -> (r: Result<
    (Vec<Vec<Vec<i64>>>, HashMap<i64, String>),
    PqgramError,
>)
    ensures
        match r {
            Ok((profs, map)) => {
                &&& p >= 1
                &&& q >= 1
                &&& forall|k: int|
                    0 <= k < sources@.len() ==> !tree_has_label(
                        tree_of_source(#[trigger] source_views(sources@)[k]),
                        FILLER_RANDOM_INT,
                    )
                &&& profs@.len() == sources@.len()
                &&& forall|k: int|
                    0 <= k < profs@.len() ==> flat_rows(#[trigger] profs@[k]@) == flat_profile(
                        tree_of_source(source_views(sources@)[k]),
                        p as int,
                        q as int,
                    )
                &&& string_views(map@) == tag_maps_of_sources(source_views(sources@))
            },
            Err(PqgramError::InvalidShape) => p == 0 || q == 0,
            Err(PqgramError::LabelCollision { index, label }) => {
                &&& p >= 1
                &&& q >= 1
                &&& label == FILLER_RANDOM_INT
                &&& 0 <= index < sources@.len()
                &&& tree_has_label(
                    tree_of_source(source_views(sources@)[index as int]),
                    FILLER_RANDOM_INT,
                )
                &&& forall|k: int|
                    0 <= k < index ==> !tree_has_label(
                        tree_of_source(#[trigger] source_views(sources@)[k]),
                        FILLER_RANDOM_INT,
                    )
            },
        },
{
    if p == 0 || q == 0 {
        return Err(PqgramError::InvalidShape);
    }
    let n = sources.len();
    let mut profs: Vec<Vec<Vec<i64>>> = Vec::new();
    let mut map: HashMap<i64, String> = HashMap::new();
    proof {
        lemma_source_views_index(sources@);
        assert(string_views(map@) =~= Map::<i64, Seq<char>>::empty());
        assert(source_views(sources@).subrange(0, 0) =~= Seq::<SourceV>::empty());
    }
    let mut idx: usize = 0;
    while idx < n
        invariant
            idx <= n,
            n == sources@.len(),
            p >= 1,
            q >= 1,
            profs@.len() == idx as int,
            forall|k: int|
                0 <= k < idx ==> !tree_has_label(
                    tree_of_source(#[trigger] source_views(sources@)[k]),
                    FILLER_RANDOM_INT,
                ),
            forall|k: int|
                0 <= k < idx ==> flat_rows(#[trigger] profs@[k]@) == flat_profile(
                    tree_of_source(source_views(sources@)[k]),
                    p as int,
                    q as int,
                ),
            string_views(map@) == tag_maps_of_sources(
                source_views(sources@).subrange(0, idx as int),
            ),
        decreases n - idx,
    {
        let src = &sources[idx];
        let t = tree_build(src);
        proof {
            lemma_source_views_index(sources@);
        }
        if has_label(&t, FILLER_RANDOM_INT) {
            return Err(
                PqgramError::LabelCollision { index: idx, label: FILLER_RANDOM_INT },
            );
        }
        crate::tree::collect_tags(src, &mut map);
        proof {
            lemma_source_views_index(sources@);
            let sv = source_views(sources@);
            assert(sv.subrange(0, idx + 1).subrange(0, idx as int) =~= sv.subrange(0, idx as int));
            assert(sv.subrange(0, idx + 1)[idx as int] == sv[idx as int]);
            assert(tag_maps_of_sources(sv.subrange(0, idx + 1)) == tag_maps_of_sources(
                sv.subrange(0, idx as int),
            ).union_prefer_right(crate::tree::tag_map_of_source(sv[idx as int])));
        }
        let prof = extract_profile(&t, p, q);
        let ghost pm = profile_view(prof@);
        let np = prof.len();
        let mut rows: Vec<Vec<i64>> = Vec::new();
        let mut gi: usize = 0;
        while gi < np
            invariant
                gi <= np,
                np == prof@.len(),
                pm == profile_view(prof@),
                rows@.len() == gi as int,
                forall|k: int|
                    0 <= k < gi ==> (#[trigger] rows@[k])@ == flat_gram(pm[k], FILLER_RANDOM_INT),
            decreases np - gi,
        {
            let row = prof[gi].concat(FILLER_RANDOM_INT);
            rows.push(row);
            gi += 1;
        }
        proof {
            assert(flat_rows(rows@) =~= flat_profile(
                tree_of_source(source_views(sources@)[idx as int]),
                p as int,
                q as int,
            ));
        }
        profs.push(rows);
        idx += 1;
    }
    proof {
        assert(source_views(sources@).subrange(0, n as int) =~= source_views(sources@));
    }
    Ok((profs, map))
}

} // verus!
