use pqgram::{pqgram_profile, tree_build, tree_build_with_map, PqgramError, SourceNode, Tree, FILLER_RANDOM_INT};

const F: i64 = FILLER_RANDOM_INT;

fn source_leaf(label: i64, tag: &str) -> SourceNode {
    SourceNode { label, tag: tag.to_string(), children: vec![] }
}

fn three_node_source() -> SourceNode {
    SourceNode {
        label: 1,
        tag: "r".to_string(),
        children: vec![source_leaf(2, "a"), source_leaf(3, "b")],
    }
}

fn flatten(tree: &Tree, p: usize, q: usize) -> Vec<Vec<i64>> {
    let prof = pqgram_profile(tree, p, q).unwrap();
    prof.iter().map(|g| g.concat(F)).collect()
}

#[test]
fn scenario_two_leaf_tree_profile() {
    // Root R(=1) with two leaf children A(=2), B(=3); p = 2, q = 3.
    // The extended tree yields one gram per anchor position: one per
    // child window slot of the root (2 children + q-1 trailing slots)
    // and one per leaf, six in all, with reproducible filler placement.
    let t = tree_build(&three_node_source());
    let rows = flatten(&t, 2, 3);
    let expected: Vec<Vec<i64>> = vec![
        vec![F, 1, F, F, 2],
        vec![1, 2, F, F, F],
        vec![F, 1, F, 2, 3],
        vec![1, 3, F, F, F],
        vec![F, 1, 2, 3, F],
        vec![F, 1, 3, F, F],
    ];
    assert_eq!(rows, expected);
}

#[test]
fn every_gram_has_p_plus_q_labels() {
    let t = tree_build(&three_node_source());
    for (p, q) in [(1, 1), (2, 3), (3, 2), (4, 4)] {
        let prof = pqgram_profile(&t, p, q).unwrap();
        for g in prof.iter() {
            assert_eq!(g.concat(F).len(), p + q);
        }
    }
}

#[test]
fn single_node_profile() {
    let t = Tree::new(1);
    let rows = flatten(&t, 2, 3);
    assert_eq!(rows, vec![vec![F, 1, F, F, F]]);
}

#[test]
fn extraction_is_deterministic() {
    let s = three_node_source();
    let t1 = tree_build(&s);
    let t2 = tree_build(&s);
    assert_eq!(flatten(&t1, 2, 3), flatten(&t2, 2, 3));
    assert_eq!(flatten(&t1, 3, 2), flatten(&t2, 3, 2));
}

#[test]
fn zero_shape_parameters_are_rejected() {
    let t = Tree::new(1);
    assert_eq!(pqgram_profile(&t, 0, 3).unwrap_err(), PqgramError::InvalidShape);
    assert_eq!(pqgram_profile(&t, 2, 0).unwrap_err(), PqgramError::InvalidShape);
    assert_eq!(pqgram_profile(&t, 0, 0).unwrap_err(), PqgramError::InvalidShape);
}

#[test]
fn builder_matches_source_build() {
    let built = Tree::new(1).add_node(Tree::new(2)).add_node(Tree::new(3));
    let from_source = tree_build(&three_node_source());
    assert_eq!(flatten(&built, 2, 3), flatten(&from_source, 2, 3));
}

#[test]
fn tree_build_with_map_records_tags() {
    let (t, map) = tree_build_with_map(&three_node_source());
    assert_eq!(flatten(&t, 2, 3), flatten(&tree_build(&three_node_source()), 2, 3));
    assert_eq!(map.len(), 3);
    assert_eq!(map.get(&1).map(|s| s.as_str()), Some("r"));
    assert_eq!(map.get(&2).map(|s| s.as_str()), Some("a"));
    assert_eq!(map.get(&3).map(|s| s.as_str()), Some("b"));
}

#[test]
fn tree_build_with_map_later_node_wins_on_shared_label() {
    let s = SourceNode {
        label: 1,
        tag: "first".to_string(),
        children: vec![source_leaf(1, "second")],
    };
    let (_, map) = tree_build_with_map(&s);
    assert_eq!(map.len(), 1);
    assert_eq!(map.get(&1).map(|s| s.as_str()), Some("second"));
}

#[test]
fn deep_chain_profile() {
    // A chain 1 - 2 - 3 exercises the ancestor window: the window of
    // the deepest node holds its two nearest ancestors with p = 3.
    let s = SourceNode {
        label: 1,
        tag: "x".to_string(),
        children: vec![SourceNode {
            label: 2,
            tag: "y".to_string(),
            children: vec![source_leaf(3, "z")],
        }],
    };
    let t = tree_build(&s);
    let rows = flatten(&t, 3, 1);
    let expected: Vec<Vec<i64>> = vec![
        vec![F, F, 1, 2],
        vec![F, 1, 2, 3],
        vec![1, 2, 3, F],
    ];
    assert_eq!(rows, expected);
}
