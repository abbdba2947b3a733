//! Ordered, labeled, rooted trees and their construction from a
//! caller-supplied plain hierarchical description.

use std::collections::HashMap;

use vstd::prelude::*;

verus! {

broadcast use vstd::std_specs::hash::group_hash_axioms;

/// An ordered, labeled, rooted tree. Children are owned and their order
/// is significant: it encodes sibling/document order.
pub struct Tree {
    /// The label of this node.
    pub label: i64,
    /// The ordered children of this node.
    pub children: Vec<Tree>,
}

/// The mathematical model of a tree: the same shape with children as a
/// sequence. All contracts in this crate speak of this model.
pub struct TreeV {
    /// The label of this node.
    pub label: i64,
    /// The ordered children of this node.
    pub children: Seq<TreeV>,
}

/// The models of a sequence of trees, in order.
pub open spec fn tree_views(s: Seq<Tree>) -> Seq<TreeV>
    decreases s,
{
    if s.len() == 0 {
        Seq::empty()
    } else {
        tree_views(s.subrange(0, s.len() - 1)).push(tree_view(s[s.len() - 1]))
    }
}

/// The model of one tree.
pub open spec fn tree_view(t: Tree) -> TreeV
    decreases t,
{
    TreeV { label: t.label, children: tree_views(t.children@) }
}

/// `tree_views` maps `tree_view` over the sequence, element by element.
pub proof fn lemma_tree_views_index(s: Seq<Tree>)
    ensures
        tree_views(s).len() == s.len(),
        forall|i: int| 0 <= i < s.len() ==> #[trigger] tree_views(s)[i] == tree_view(s[i]),
    decreases s,
{
    if s.len() > 0 {
        lemma_tree_views_index(s.subrange(0, s.len() - 1));
        assert forall|i: int| 0 <= i < s.len() implies #[trigger] tree_views(s)[i] == tree_view(
            s[i],
        ) by {
            if i < s.len() - 1 {
                assert(s.subrange(0, s.len() - 1)[i] == s[i]);
            }
        }
    }
}

impl View for Tree {
    type V = TreeV;

    open spec fn view(&self) -> TreeV {
        tree_view(*self)
    }
}

impl Tree {
    /// A leaf carrying `label`.
    pub fn new(label: i64) -> (t: Tree)
        ensures
            t@ == (TreeV { label, children: Seq::<TreeV>::empty() }),
    {
        let t = Tree { label, children: Vec::new() };
        proof {
            assert(t.children@ =~= Seq::<Tree>::empty());
            assert(tree_views(t.children@) =~= Seq::<TreeV>::empty());
        }
        t
    }

    /// Builder-style helper: append `child` as the last child and return
    /// the grown tree.
    pub fn add_node(self, child: Tree) -> (t: Tree)
        ensures
            t@ == (TreeV { label: self@.label, children: self@.children.push(child@) }),
    {
        let mut t = self;
        proof {
            let pre = t.children@;
            assert(pre.push(child).subrange(0, pre.len() as int) =~= pre);
        }
        t.children.push(child);
        t
    }
}

/// A plain, already-extracted description of one node of a caller's
/// hierarchical object: the integer label derived for the node, the
/// human-readable origin of that label, and the ordered children. The
/// interop that pulls these three values out of a foreign object lives
/// outside the library; the library consumes only this plain form.
pub struct SourceNode {
    /// Label derived for the node (e.g. by stable hashing of its tag).
    pub label: i64,
    /// Human-readable description the label was derived from.
    pub tag: String,
    /// Ordered children of the node.
    pub children: Vec<SourceNode>,
}

/// The mathematical model of a source node.
pub struct SourceV {
    /// Label derived for the node.
    pub label: i64,
    /// Human-readable description the label was derived from.
    pub tag: Seq<char>,
    /// Ordered children of the node.
    pub children: Seq<SourceV>,
}

/// The models of a sequence of source nodes, in order.
pub open spec fn source_views(s: Seq<SourceNode>) -> Seq<SourceV>
    decreases s,
{
    if s.len() == 0 {
        Seq::empty()
    } else {
        source_views(s.subrange(0, s.len() - 1)).push(source_view(s[s.len() - 1]))
    }
}

/// The model of one source node.
pub open spec fn source_view(s: SourceNode) -> SourceV
    decreases s,
{
    SourceV { label: s.label, tag: s.tag@, children: source_views(s.children@) }
}

/// `source_views` maps `source_view` over the sequence, element by element.
pub proof fn lemma_source_views_index(s: Seq<SourceNode>)
    ensures
        source_views(s).len() == s.len(),
        forall|i: int| 0 <= i < s.len() ==> #[trigger] source_views(s)[i] == source_view(s[i]),
    decreases s,
{
    if s.len() > 0 {
        lemma_source_views_index(s.subrange(0, s.len() - 1));
        assert forall|i: int| 0 <= i < s.len() implies #[trigger] source_views(s)[i] == source_view(
            s[i],
        ) by {
            if i < s.len() - 1 {
                assert(s.subrange(0, s.len() - 1)[i] == s[i]);
            }
        }
    }
}

impl View for SourceNode {
    type V = SourceV;

    open spec fn view(&self) -> SourceV {
        source_view(*self)
    }
}

/// The trees built, in order, from a sequence of source nodes.
pub open spec fn trees_of_sources(s: Seq<SourceV>) -> Seq<TreeV>
    decreases s,
{
    if s.len() == 0 {
        Seq::empty()
    } else {
        trees_of_sources(s.subrange(0, s.len() - 1)).push(tree_of_source(s[s.len() - 1]))
    }
}

/// The tree a source node describes: the same shape, node for node and
/// in the same order, carrying the derived labels.
pub open spec fn tree_of_source(s: SourceV) -> TreeV
    decreases s,
{
    TreeV { label: s.label, children: trees_of_sources(s.children) }
}

/// Build the tree a source node describes, by recursive depth-first
/// construction: the root's label first, then each child in order, with
/// no reordering and no deduplication.
pub fn tree_build(s: &SourceNode) -> (t: Tree)
    ensures
        t@ == tree_of_source(s@),
    decreases *s,
{
    let mut children: Vec<Tree> = Vec::new();
    let n = s.children.len();
    let mut i: usize = 0;
    while i < n
        invariant
            i <= n,
            n == s.children@.len(),
            tree_views(children@) == trees_of_sources(source_views(s.children@).subrange(
                0,
                i as int,
            )),
        decreases n - i,
    {
        proof {
            assert(decreases_to!(*s => s.children));
            assert(decreases_to!(s.children => s.children@));
            assert(decreases_to!(s.children@ => s.children@[i as int]));
        }
        let c = tree_build(&s.children[i]);
        proof {
            let pre = children@;
            assert(pre.push(c).subrange(0, pre.len() as int) =~= pre);
        }
        children.push(c);
        proof {
            lemma_source_views_index(s.children@);
            let sv = source_views(s.children@);
            assert(sv.subrange(0, i + 1).subrange(0, i as int) =~= sv.subrange(0, i as int));
            assert(sv.subrange(0, i + 1)[i as int] == sv[i as int]);
            assert(sv[i as int] == source_view(s.children@[i as int]));
        }
        i += 1;
    }
    proof {
        lemma_source_views_index(s.children@);
        assert(source_views(s.children@).subrange(0, n as int) =~= source_views(s.children@));
    }
    Tree { label: s.label, children }
}

/// Whether some tree of the sequence carries the label `x` somewhere.
pub open spec fn trees_have_label(s: Seq<TreeV>, x: i64) -> bool
    decreases s,
{
    if s.len() == 0 {
        false
    } else {
        trees_have_label(s.subrange(0, s.len() - 1), x) || tree_has_label(s[s.len() - 1], x)
    }
}

/// Whether the tree carries the label `x` at any node.
pub open spec fn tree_has_label(t: TreeV, x: i64) -> bool
    decreases t,
{
    t.label == x || trees_have_label(t.children, x)
}

/// A sequence of trees carries a label exactly when one of them does.
pub proof fn lemma_trees_have_label_index(s: Seq<TreeV>, x: i64)
    ensures
        trees_have_label(s, x) <==> exists|i: int|
            0 <= i < s.len() && tree_has_label(#[trigger] s[i], x),
    decreases s,
{
    if s.len() > 0 {
        let pre = s.subrange(0, s.len() - 1);
        lemma_trees_have_label_index(pre, x);
        if trees_have_label(pre, x) {
            let i = choose|i: int| 0 <= i < pre.len() && tree_has_label(#[trigger] pre[i], x);
            assert(s[i] == pre[i]);
        }
        if exists|i: int| 0 <= i < s.len() && tree_has_label(#[trigger] s[i], x) {
            let i = choose|i: int| 0 <= i < s.len() && tree_has_label(#[trigger] s[i], x);
            if i < s.len() - 1 {
                assert(pre[i] == s[i]);
            }
        }
    }
}

/// Whether any node of `t` carries the label `x`.
pub fn has_label(t: &Tree, x: i64) -> (r: bool)
    ensures
        r == tree_has_label(t@, x),
    decreases *t,
{
    if t.label == x {
        return true;
    }
    let n = t.children.len();
    let mut i: usize = 0;
    while i < n
        invariant
            i <= n,
            n == t.children@.len(),
            t@.label != x,
            t@.children == tree_views(t.children@),
            forall|k: int| 0 <= k < i ==> !tree_has_label(#[trigger] tree_views(t.children@)[k], x),
        decreases n - i,
    {
        proof {
            assert(decreases_to!(*t => t.children));
            assert(decreases_to!(t.children => t.children@));
            assert(decreases_to!(t.children@ => t.children@[i as int]));
        }
        if has_label(&t.children[i], x) {
            proof {
                lemma_tree_views_index(t.children@);
                lemma_trees_have_label_index(t@.children, x);
                assert(tree_has_label(t@.children[i as int], x));
            }
            return true;
        }
        proof {
            lemma_tree_views_index(t.children@);
        }
        i += 1;
    }
    proof {
        lemma_tree_views_index(t.children@);
        lemma_trees_have_label_index(t@.children, x);
    }
    false
}

/// The tag descriptions of an exec label map, label by label.
pub open spec fn string_views(m: Map<i64, String>) -> Map<i64, Seq<char>> {
    m.map_values(|v: String| v@)
}

/// The label-to-description entries contributed by a sequence of source
/// nodes; on a shared label, a later node's description wins.
pub open spec fn tag_maps_of_sources(s: Seq<SourceV>) -> Map<i64, Seq<char>>
    decreases s,
{
    if s.len() == 0 {
        Map::empty()
    } else {
        tag_maps_of_sources(s.subrange(0, s.len() - 1)).union_prefer_right(
            tag_map_of_source(s[s.len() - 1]),
        )
    }
}

/// The label-to-description map of one source node: the node's own
/// entry, overridden by entries of descendants visited later.
pub open spec fn tag_map_of_source(s: SourceV) -> Map<i64, Seq<char>>
    decreases s,
{
    Map::empty().insert(s.label, s.tag).union_prefer_right(tag_maps_of_sources(s.children))
}

/// Record the label-to-description entries of the subtree at `s` into
/// `m`: first the node's own entry, then, in order, each child's
/// entries, later insertions overriding earlier ones.
pub(crate) fn collect_tags(s: &SourceNode, m: &mut HashMap<i64, String>)
    ensures
        string_views(final(m)@) == string_views(old(m)@).union_prefer_right(
            tag_map_of_source(s@),
        ),
    decreases *s,
{
    m.insert(s.label, s.tag.clone());
    let ghost root_map = Map::<i64, Seq<char>>::empty().insert(s@.label, s@.tag);
    proof {
        assert(string_views(m@) =~= string_views(old(m)@).union_prefer_right(root_map));
        assert(source_views(s.children@).subrange(0, 0) =~= Seq::<SourceV>::empty());
        assert(string_views(m@).union_prefer_right(tag_maps_of_sources(Seq::empty()))
            =~= string_views(m@));
    }
    let n = s.children.len();
    let mut i: usize = 0;
    while i < n
        invariant
            i <= n,
            n == s.children@.len(),
            string_views(m@) == string_views(old(m)@).union_prefer_right(
                root_map,
            ).union_prefer_right(
                tag_maps_of_sources(source_views(s.children@).subrange(0, i as int)),
            ),
        decreases n - i,
    {
        proof {
            assert(decreases_to!(*s => s.children));
            assert(decreases_to!(s.children => s.children@));
            assert(decreases_to!(s.children@ => s.children@[i as int]));
        }
        let ghost before = string_views(m@);
        collect_tags(&s.children[i], m);
        proof {
            lemma_source_views_index(s.children@);
            let sv = source_views(s.children@);
            assert(sv.subrange(0, i + 1).subrange(0, i as int) =~= sv.subrange(0, i as int));
            assert(sv.subrange(0, i + 1)[i as int] == sv[i as int]);
            assert(sv[i as int] == source_view(s.children@[i as int]));
            assert(tag_maps_of_sources(sv.subrange(0, i + 1)) == tag_maps_of_sources(
                sv.subrange(0, i as int),
            ).union_prefer_right(tag_map_of_source(sv[i as int])));
            let base = string_views(old(m)@).union_prefer_right(root_map);
            assert(string_views(m@) == base.union_prefer_right(
                tag_maps_of_sources(sv.subrange(0, i as int)),
            ).union_prefer_right(tag_map_of_source(sv[i as int])));
            assert(base.union_prefer_right(tag_maps_of_sources(sv.subrange(0, i as int))).union_prefer_right(
                tag_map_of_source(sv[i as int]),
            ) =~= base.union_prefer_right(tag_maps_of_sources(sv.subrange(0, i + 1))));
        }
        i += 1;
    }
    proof {
        lemma_source_views_index(s.children@);
        let sv = source_views(s.children@);
        assert(sv.subrange(0, n as int) =~= sv);
        let base = string_views(old(m)@);
        assert(base.union_prefer_right(root_map).union_prefer_right(tag_maps_of_sources(sv))
            =~= base.union_prefer_right(root_map.union_prefer_right(tag_maps_of_sources(sv))));
        assert(tag_map_of_source(s@) == root_map.union_prefer_right(tag_maps_of_sources(sv)));
    }
}

/// Build the tree a source node describes together with the auxiliary
/// label map: every node's derived label mapped to the human-readable
/// description it came from, for result interpretation. The tree is the
/// one `tree_build` yields; on a label shared by several nodes, the
/// description of the node visited last in depth-first order wins.
pub fn tree_build_with_map(s: &SourceNode) -> (r: (Tree, HashMap<i64, String>))
    ensures
        r.0@ == tree_of_source(s@),
        string_views(r.1@) == tag_map_of_source(s@),
{
    let t = tree_build(s);
    let mut m: HashMap<i64, String> = HashMap::new();
    proof {
        assert(string_views(m@) =~= Map::<i64, Seq<char>>::empty());
        assert(Map::<i64, Seq<char>>::empty().union_prefer_right(tag_map_of_source(s@))
            =~= tag_map_of_source(s@));
    }
    collect_tags(s, &mut m);
    (t, m)
}

} // verus!
