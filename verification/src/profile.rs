//! Extraction of the pq-gram profile of a tree.
//!
//! Conceptually the tree is extended: `p - 1` padding ancestors are
//! stacked above the root, every child list is framed by padding
//! siblings, and every leaf receives padding children. Each real-or-
//! padding anchor position then contributes one pq-gram: the `p`
//! ancestors ending at the anchor's parent chain, followed by the
//! `q`-wide sibling window, root-first and left-to-right. The profile
//! lists these grams in depth-first document order; comparisons treat it
//! as a multiset.

use vstd::prelude::*;

use crate::errors::PqgramError;
use crate::labels::Label;
use crate::tree::{lemma_tree_views_index, tree_view, Tree, TreeV};

verus! {

/// One pq-gram: a window of `p` ancestor labels followed by a window of
/// `q` sibling labels, padding included.
#[derive(Debug)]
pub struct PQGram {
    /// The `p + q` labels of the gram, ancestors first (root-first),
    /// then the sibling window left-to-right.
    pub labels: Vec<Label>,
}

impl View for PQGram {
    type V = Seq<Label>;

    open spec fn view(&self) -> Seq<Label> {
        self.labels@
    }
}

/// A run of `n` padding labels.
pub open spec fn filler_run(n: int) -> Seq<Label> {
    Seq::new(n as nat, |i: int| Label::Filler)
}

/// A window shifted one step: the oldest label falls out at the front
/// and `l` enters at the back. The window's width is unchanged.
pub open spec fn shift_spec(w: Seq<Label>, l: Label) -> Seq<Label> {
    w.subrange(1, w.len() as int).push(l)
}

/// The labels a flattened gram carries: real labels as themselves,
/// padding as `filler_as`.
pub open spec fn flat_gram(g: Seq<Label>, filler_as: i64) -> Seq<i64> {
    g.map_values(|l: Label| crate::labels::flat_label(l, filler_as))
}

impl PQGram {
    /// Flatten the gram into plain integers, writing `filler_as` at
    /// every padding position.
    pub fn concat(&self, filler_as: i64) -> (r: Vec<i64>)
        ensures
            r@ == flat_gram(self@, filler_as),
    {
        let mut r: Vec<i64> = Vec::new();
        let n = self.labels.len();
        let mut i: usize = 0;
        while i < n
            invariant
                i <= n,
                n == self.labels@.len(),
                r@.len() == i as int,
                forall|k: int|
                    0 <= k < i ==> r@[k] == crate::labels::flat_label(self.labels@[k], filler_as),
            decreases n - i,
        {
            match self.labels[i] {
                Label::Filler => r.push(filler_as),
                Label::Real(x) => r.push(x),
            }
            i += 1;
        }
        proof {
            assert(r@ =~= flat_gram(self@, filler_as));
        }
        r
    }
}

/// The grams of a profile as plain label sequences, in emission order.
pub open spec fn profile_view(s: Seq<PQGram>) -> Seq<Seq<Label>> {
    s.map_values(|g: PQGram| g@)
}

/// The grams contributed by the subtree rooted at `t`, given the window
/// of the `p` ancestors above `t` (padding included). The window first
/// shifts to end at `t` itself; a leaf contributes the single gram of
/// its all-padding child window, an inner node contributes one gram per
/// child window position.
pub open spec fn spec_node_grams(t: TreeV, q: int, anc: Seq<Label>) -> Seq<Seq<Label>>
    decreases t, t.children.len() + 1,
{
    let anc2 = shift_spec(anc, Label::Real(t.label));
    if t.children.len() == 0 {
        seq![anc2 + filler_run(q)]
    } else {
        spec_child_grams(t, 0, q, anc2, filler_run(q))
    }
}

/// The grams contributed from child position `i` of `t` onward, where
/// `sib` is the sibling window after the first `i` children entered it:
/// for each remaining child one gram and, recursively, the child's own
/// subtree grams; after the last child, the trailing padding windows.
pub open spec fn spec_child_grams(t: TreeV, i: int, q: int, anc2: Seq<Label>, sib: Seq<Label>) -> Seq<
    Seq<Label>,
>
    decreases t, t.children.len() - i,
{
    if i < 0 || i >= t.children.len() {
        spec_tail_grams(anc2, sib, q - 1)
    } else {
        let sib2 = shift_spec(sib, Label::Real(t.children[i].label));
        seq![anc2 + sib2] + spec_node_grams(t.children[i], q, anc2) + spec_child_grams(
            t,
            i + 1,
            q,
            anc2,
            sib2,
        )
    }
}

/// The `k` trailing grams of one child list: the sibling window keeps
/// shifting padding in until the last real child has left it.
pub open spec fn spec_tail_grams(anc2: Seq<Label>, sib: Seq<Label>, k: int) -> Seq<Seq<Label>>
    decreases k,
{
    if k <= 0 {
        Seq::empty()
    } else {
        let sib2 = shift_spec(sib, Label::Filler);
        seq![anc2 + sib2] + spec_tail_grams(anc2, sib2, k - 1)
    }
}

/// The pq-gram profile of `t` for shape parameters `p` and `q`, in
/// depth-first emission order. Determined by `t`, `p` and `q` alone.
pub open spec fn spec_profile(t: TreeV, p: int, q: int) -> Seq<Seq<Label>> {
    spec_node_grams(t, q, filler_run(p))
}

/// A vector of `q` padding labels.
fn filler_vec(q: usize) -> (v: Vec<Label>)
    ensures
        v@ == filler_run(q as int),
{
    let mut v: Vec<Label> = Vec::new();
    let mut i: usize = 0;
    while i < q
        invariant
            i <= q,
            v@.len() == i as int,
            forall|k: int| 0 <= k < i ==> v@[k] == Label::Filler,
        decreases q - i,
    {
        v.push(Label::Filler);
        i += 1;
    }
    proof {
        assert(v@ =~= filler_run(q as int));
    }
    v
}

/// The window `w` shifted one step, with `l` entering at the back.
fn shifted(w: &Vec<Label>, l: Label) -> (r: Vec<Label>)
    requires
        w@.len() >= 1,
    ensures
        r@ == shift_spec(w@, l),
        r@.len() == w@.len(),
{
    let mut r: Vec<Label> = Vec::new();
    let n = w.len();
    let mut i: usize = 1;
    while i < n
        invariant
            1 <= i <= n,
            n == w@.len(),
            r@ == w@.subrange(1, i as int),
        decreases n - i,
    {
        proof {
            let pre = w@.subrange(1, i as int);
            assert(pre.push(w@[i as int]) =~= w@.subrange(1, i + 1));
        }
        r.push(w[i]);
        i += 1;
    }
    r.push(l);
    proof {
        assert(r@ =~= shift_spec(w@, l));
    }
    r
}

/// The gram whose labels are `anc` followed by `sib`.
fn make_gram(anc: &Vec<Label>, sib: &Vec<Label>) -> (g: PQGram)
    ensures
        g@ == anc@ + sib@,
{
    let mut labels: Vec<Label> = Vec::new();
    let na = anc.len();
    let mut i: usize = 0;
    while i < na
        invariant
            i <= na,
            na == anc@.len(),
            labels@ == anc@.subrange(0, i as int),
        decreases na - i,
    {
        proof {
            let pre = anc@.subrange(0, i as int);
            assert(pre.push(anc@[i as int]) =~= anc@.subrange(0, i + 1));
        }
        labels.push(anc[i]);
        i += 1;
    }
    let ns = sib.len();
    let mut j: usize = 0;
    while j < ns
        invariant
            j <= ns,
            ns == sib@.len(),
            labels@ == anc@ + sib@.subrange(0, j as int),
        decreases ns - j,
    {
        proof {
            let pre = anc@ + sib@.subrange(0, j as int);
            assert(pre.push(sib@[j as int]) =~= anc@ + sib@.subrange(0, j + 1));
            assert(anc@.subrange(0, na as int) + sib@.subrange(0, 0) =~= anc@.subrange(
                0,
                na as int,
            ));
        }
        labels.push(sib[j]);
        j += 1;
    }
    proof {
        assert(anc@.subrange(0, na as int) =~= anc@);
        assert(anc@ + sib@.subrange(0, 0) =~= anc@);
        assert(anc@ + sib@.subrange(0, ns as int) =~= anc@ + sib@);
    }
    PQGram { labels }
}

/// Emit the grams of the subtree rooted at `t`, mirroring
/// `spec_node_grams` step for step.
pub(crate) fn node_grams_exec(t: &Tree, q: usize, anc: &Vec<Label>) -> (out: Vec<PQGram>)
    requires
        q >= 1,
        anc@.len() >= 1,
    ensures
        profile_view(out@) == spec_node_grams(t@, q as int, anc@),
    decreases *t,
{
    let anc2 = shifted(anc, Label::Real(t.label));
    let ghost total = spec_node_grams(t@, q as int, anc@);
    proof {
        lemma_tree_views_index(t.children@);
        assert(t@.children.len() == t.children@.len());
        assert(anc2@ == shift_spec(anc@, Label::Real(t@.label)));
    }
    let mut out: Vec<PQGram> = Vec::new();
    if t.children.len() == 0 {
        let fv = filler_vec(q);
        let g = make_gram(&anc2, &fv);
        out.push(g);
        proof {
            assert(profile_view(out@) =~= seq![anc2@ + filler_run(q as int)]);
        }
    } else {
        let n = t.children.len();
        let mut sib = filler_vec(q);
        proof {
            assert(total == spec_child_grams(t@, 0, q as int, anc2@, filler_run(q as int)));
            assert(profile_view(out@) + spec_child_grams(t@, 0, q as int, anc2@, sib@)
                =~= spec_child_grams(t@, 0, q as int, anc2@, sib@));
        }
        let mut i: usize = 0;
        while i < n
            invariant
                i <= n,
                q >= 1,
                n == t.children@.len(),
                t@.children.len() == n as int,
                sib@.len() == q as int,
                anc2@.len() >= 1,
                profile_view(out@) + spec_child_grams(t@, i as int, q as int, anc2@, sib@)
                    == total,
            decreases n - i,
        {
            proof {
                assert(decreases_to!(*t => t.children));
                assert(decreases_to!(t.children => t.children@));
                assert(decreases_to!(t.children@ => t.children@[i as int]));
            }
            let child = &t.children[i];
            let sib2 = shifted(&sib, Label::Real(child.label));
            let g = make_gram(&anc2, &sib2);
            let ghost out0 = out@;
            let ghost sib0 = sib@;
            out.push(g);
            let mut sub = node_grams_exec(child, q, &anc2);
            let ghost subv = sub@;
            out.append(&mut sub);
            proof {
                lemma_tree_views_index(t.children@);
                let ii = i as int;
                let qq = q as int;
                assert(t@.children[ii] == tree_view(t.children@[ii]));
                assert(t@.children[ii].label == t.children@[ii].label);
                let sib2s = shift_spec(sib0, Label::Real(t@.children[ii].label));
                assert(sib2@ == sib2s);
                assert(spec_child_grams(t@, ii, qq, anc2@, sib0) == seq![anc2@ + sib2s]
                    + spec_node_grams(t@.children[ii], qq, anc2@) + spec_child_grams(
                    t@,
                    ii + 1,
                    qq,
                    anc2@,
                    sib2s,
                ));
                assert(out@ =~= out0.push(g) + subv);
                assert(profile_view(out@) =~= profile_view(out0) + seq![g@] + profile_view(subv));
                assert(profile_view(subv) == spec_node_grams(t@.children[ii], qq, anc2@));
                assert(profile_view(out@) + spec_child_grams(t@, ii + 1, qq, anc2@, sib2@)
                    =~= profile_view(out0) + spec_child_grams(t@, ii, qq, anc2@, sib0));
            }
            sib = sib2;
            i += 1;
        }
        proof {
            assert(spec_child_grams(t@, n as int, q as int, anc2@, sib@) == spec_tail_grams(
                anc2@,
                sib@,
                q - 1,
            ));
        }
        let mut k: usize = 0;
        while k < q - 1
            invariant
                k <= q - 1,
                q >= 1,
                sib@.len() == q as int,
                anc2@.len() >= 1,
                profile_view(out@) + spec_tail_grams(anc2@, sib@, q - 1 - k) == total,
            decreases q - 1 - k,
        {
            let sib2 = shifted(&sib, Label::Filler);
            let g = make_gram(&anc2, &sib2);
            let ghost out0 = out@;
            let ghost sib0 = sib@;
            out.push(g);
            proof {
                let rem = q - 1 - k;
                let sib2s = shift_spec(sib0, Label::Filler);
                assert(sib2@ == sib2s);
                assert(spec_tail_grams(anc2@, sib0, rem as int) == seq![anc2@ + sib2s]
                    + spec_tail_grams(anc2@, sib2s, rem - 1));
                assert(profile_view(out@) =~= profile_view(out0).push(g@));
                assert(profile_view(out@) + spec_tail_grams(anc2@, sib2@, rem - 1)
                    =~= profile_view(out0) + spec_tail_grams(anc2@, sib0, rem as int));
            }
            sib = sib2;
            k += 1;
        }
        proof {
            assert(spec_tail_grams(anc2@, sib@, 0) == Seq::<Seq<Label>>::empty());
            assert(profile_view(out@) + Seq::<Seq<Label>>::empty() =~= profile_view(out@));
        }
    }
    out
}

/// Extract the profile of `tree`, the shape parameters already checked.
pub(crate) fn extract_profile(tree: &Tree, p: usize, q: usize) -> (prof: Vec<PQGram>)
    requires
        p >= 1,
        q >= 1,
    ensures
        profile_view(prof@) == spec_profile(tree@, p as int, q as int),
{
    let anc = filler_vec(p);
    node_grams_exec(tree, q, &anc)
}

/// Extract the pq-gram profile of `tree` for shape parameters `p` and
/// `q`. Both must be at least 1; otherwise the shape is rejected. For a
/// valid shape extraction is total and deterministic: the result is a
/// function of `tree`, `p` and `q` alone.
pub fn pqgram_profile(tree: &Tree, p: usize, q: usize) -> (r: Result<Vec<PQGram>, PqgramError>)
    ensures
        match r {
            Ok(prof) => p >= 1 && q >= 1 && profile_view(prof@) == spec_profile(
                tree@,
                p as int,
                q as int,
            ),
            Err(e) => (p == 0 || q == 0) && e == PqgramError::InvalidShape,
        },
{
    if p == 0 || q == 0 {
        Err(PqgramError::InvalidShape)
    } else {
        Ok(extract_profile(tree, p, q))
    }
}

/// Every trailing gram is as wide as its ancestor and sibling windows.
proof fn lemma_tail_grams_len(anc2: Seq<Label>, sib: Seq<Label>, k: int)
    requires
        sib.len() >= 1,
    ensures
        forall|x: int|
            0 <= x < spec_tail_grams(anc2, sib, k).len() ==> (#[trigger] spec_tail_grams(
                anc2,
                sib,
                k,
            )[x]).len() == anc2.len() + sib.len(),
    decreases k,
{
    if k > 0 {
        let sib2 = shift_spec(sib, Label::Filler);
        lemma_tail_grams_len(anc2, sib2, k - 1);
        let s = spec_tail_grams(anc2, sib, k);
        let rest = spec_tail_grams(anc2, sib2, k - 1);
        assert forall|x: int| 0 <= x < s.len() implies (#[trigger] s[x]).len() == anc2.len()
            + sib.len() by {
            if x == 0 {
                assert(s[0] == anc2 + sib2);
            } else {
                assert(s[x] == rest[x - 1]);
            }
        }
    }
}

/// Every gram contributed by a subtree has `anc.len() + q` labels.
proof fn lemma_node_grams_len(t: TreeV, q: int, anc: Seq<Label>)
    requires
        q >= 1,
        anc.len() >= 1,
    ensures
        forall|x: int|
            0 <= x < spec_node_grams(t, q, anc).len() ==> (#[trigger] spec_node_grams(
                t,
                q,
                anc,
            )[x]).len() == anc.len() + q,
    decreases t, t.children.len() + 1,
{
    let anc2 = shift_spec(anc, Label::Real(t.label));
    assert(anc2.len() == anc.len());
    let s = spec_node_grams(t, q, anc);
    if t.children.len() == 0 {
        assert(s.len() == 1);
        assert forall|x: int| 0 <= x < s.len() implies (#[trigger] s[x]).len() == anc.len()
            + q by {
            assert(s[0] == anc2 + filler_run(q));
            assert(filler_run(q).len() == q);
        }
    } else {
        lemma_child_grams_len(t, 0, q, anc2, filler_run(q));
        let c = spec_child_grams(t, 0, q, anc2, filler_run(q));
        assert(s == c);
        assert forall|x: int| 0 <= x < s.len() implies (#[trigger] s[x]).len() == anc.len()
            + q by {
            assert(s[x] == c[x]);
            assert(c[x].len() == anc2.len() + q);
        }
    }
}

/// Every gram contributed from child position `i` onward has
/// `anc2.len() + q` labels, the sibling window being `q` wide.
proof fn lemma_child_grams_len(t: TreeV, i: int, q: int, anc2: Seq<Label>, sib: Seq<Label>)
    requires
        q >= 1,
        anc2.len() >= 1,
        sib.len() == q,
    ensures
        forall|x: int|
            0 <= x < spec_child_grams(t, i, q, anc2, sib).len() ==> (#[trigger] spec_child_grams(
                t,
                i,
                q,
                anc2,
                sib,
            )[x]).len() == anc2.len() + q,
    decreases t, t.children.len() - i,
{
    if i < 0 || i >= t.children.len() {
        lemma_tail_grams_len(anc2, sib, q - 1);
    } else {
        let sib2 = shift_spec(sib, Label::Real(t.children[i].label));
        lemma_node_grams_len(t.children[i], q, anc2);
        lemma_child_grams_len(t, i + 1, q, anc2, sib2);
        let s = spec_child_grams(t, i, q, anc2, sib);
        let a = spec_node_grams(t.children[i], q, anc2);
        let b = spec_child_grams(t, i + 1, q, anc2, sib2);
        assert forall|x: int| 0 <= x < s.len() implies (#[trigger] s[x]).len() == anc2.len()
            + q by {
            if x == 0 {
                assert(s[0] == anc2 + sib2);
            } else if x < 1 + a.len() {
                assert(s[x] == a[x - 1]);
            } else {
                assert(s[x] == b[x - 1 - a.len()]);
            }
        }
    }
}

/// Every gram of a profile is a tuple of exactly `p + q` labels: `p`
/// ancestor positions followed by the `q`-wide sibling window.
pub proof fn lemma_profile_gram_len(t: TreeV, p: int, q: int)
    requires
        p >= 1,
        q >= 1,
    ensures
        forall|x: int|
            0 <= x < spec_profile(t, p, q).len() ==> (#[trigger] spec_profile(t, p, q)[x]).len()
                == p + q,
{
    lemma_node_grams_len(t, q, filler_run(p));
}

/// Extraction is deterministic: two structurally identical trees (same
/// labels, same shape — that is, equal models) yield the same profile,
/// gram for gram, for the same shape parameters.
pub proof fn lemma_extraction_deterministic(t1: TreeV, t2: TreeV, p: int, q: int)
    requires
        t1 == t2,
    ensures
        spec_profile(t1, p, q) == spec_profile(t2, p, q),
{
}

} // verus!
