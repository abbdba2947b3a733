use pqgram::{
    compare_many_to_many, compare_matrix, compare_one_to_many, profile_trees, PqgramError,
    SourceNode, FILLER_RANDOM_INT,
};

const F: i64 = FILLER_RANDOM_INT;

fn leaf(label: i64, tag: &str) -> SourceNode {
    SourceNode { label, tag: tag.to_string(), children: vec![] }
}

fn two_leaf_source(root: i64, left: i64, right: i64) -> SourceNode {
    SourceNode {
        label: root,
        tag: "root".to_string(),
        children: vec![leaf(left, "left"), leaf(right, "right")],
    }
}

#[test]
fn matrix_of_four_trees_yields_six_ordered_pairs() {
    let sources = vec![
        two_leaf_source(1, 2, 3),
        two_leaf_source(1, 2, 3),
        two_leaf_source(4, 5, 6),
        leaf(1, "solo"),
    ];
    let results = compare_matrix(2, 3, &sources).unwrap();
    assert_eq!(results.len(), 6);
    let pairs: Vec<(usize, usize)> = results.iter().map(|r| (r.0, r.1)).collect();
    assert_eq!(pairs, vec![(0, 1), (0, 2), (0, 3), (1, 2), (1, 3), (2, 3)]);
    // Trees 0 and 1 are identical, so their entry has distance 0.
    assert_eq!(results[0].2.num, 0);
    // Trees 0 and 2 share no label, so their entry saturates at 1.
    assert_eq!(results[1].2.num, results[1].2.den);
}

#[test]
fn matrix_has_no_self_pairs_and_no_repeats() {
    let sources: Vec<SourceNode> = (0..5).map(|i| leaf(i, "n")).collect();
    let results = compare_matrix(2, 2, &sources).unwrap();
    assert_eq!(results.len(), 5 * 4 / 2);
    for r in results.iter() {
        assert!(r.0 < r.1);
    }
    for (a, b) in results.iter().zip(results.iter().skip(1)) {
        assert!(a.0 < b.0 || (a.0 == b.0 && a.1 < b.1));
    }
}

#[test]
fn matrix_of_one_or_zero_trees_is_empty() {
    assert_eq!(compare_matrix(2, 3, &vec![]).unwrap().len(), 0);
    assert_eq!(compare_matrix(2, 3, &vec![leaf(1, "x")]).unwrap().len(), 0);
}

#[test]
fn many_to_many_covers_the_cross_product() {
    let lhs = vec![two_leaf_source(1, 2, 3), leaf(9, "l")];
    let rhs = vec![two_leaf_source(1, 2, 3), leaf(9, "r"), leaf(8, "r")];
    let results = compare_many_to_many(2, 3, &lhs, &rhs).unwrap();
    assert_eq!(results.len(), 2 * 3);
    let pairs: Vec<(usize, usize)> = results.iter().map(|r| (r.0, r.1)).collect();
    assert_eq!(pairs, vec![(0, 0), (0, 1), (0, 2), (1, 0), (1, 1), (1, 2)]);
    // The identical pair across the two collections is kept and is 0.
    assert_eq!(results[0].2.num, 0);
    assert_eq!(results[4].2.num, 0);
}

#[test]
fn many_to_many_with_an_empty_side_is_empty() {
    let lhs = vec![leaf(1, "x")];
    assert_eq!(compare_many_to_many(2, 3, &lhs, &vec![]).unwrap().len(), 0);
    assert_eq!(compare_many_to_many(2, 3, &vec![], &lhs).unwrap().len(), 0);
}

#[test]
fn one_to_many_indices_follow_the_collection() {
    let anchor = two_leaf_source(1, 2, 3);
    let many = vec![two_leaf_source(1, 2, 3), leaf(1, "m"), two_leaf_source(4, 5, 6)];
    let results = compare_one_to_many(2, 3, &anchor, &many).unwrap();
    assert_eq!(results.len(), 3);
    for (j, r) in results.iter().enumerate() {
        assert_eq!(r.0, j);
    }
    assert_eq!(results[0].1.num, 0);
    assert!(results[2].1.num > 0);
}

#[test]
fn one_to_many_against_empty_collection_yields_zero_results() {
    let anchor = two_leaf_source(1, 2, 3);
    let results = compare_one_to_many(2, 3, &anchor, &vec![]).unwrap();
    assert_eq!(results.len(), 0);
}

#[test]
fn batch_modes_reject_zero_shape() {
    let sources = vec![leaf(1, "x")];
    assert_eq!(compare_matrix(0, 3, &sources).unwrap_err(), PqgramError::InvalidShape);
    assert_eq!(
        compare_many_to_many(2, 0, &sources, &sources).unwrap_err(),
        PqgramError::InvalidShape
    );
    assert_eq!(
        compare_one_to_many(0, 0, &sources[0], &sources).unwrap_err(),
        PqgramError::InvalidShape
    );
    assert_eq!(profile_trees(0, 1, &sources).unwrap_err(), PqgramError::InvalidShape);
}

#[test]
fn profile_trees_flattens_and_merges_maps() {
    let sources = vec![two_leaf_source(1, 2, 3), leaf(7, "seven")];
    let (profiles, map) = profile_trees(2, 3, &sources).unwrap();
    assert_eq!(profiles.len(), 2);
    let expected_first: Vec<Vec<i64>> = vec![
        vec![F, 1, F, F, 2],
        vec![1, 2, F, F, F],
        vec![F, 1, F, 2, 3],
        vec![1, 3, F, F, F],
        vec![F, 1, 2, 3, F],
        vec![F, 1, 3, F, F],
    ];
    assert_eq!(profiles[0], expected_first);
    assert_eq!(profiles[1], vec![vec![F, 7, F, F, F]]);
    assert_eq!(map.len(), 4);
    assert_eq!(map.get(&1).map(|s| s.as_str()), Some("root"));
    assert_eq!(map.get(&2).map(|s| s.as_str()), Some("left"));
    assert_eq!(map.get(&3).map(|s| s.as_str()), Some("right"));
    assert_eq!(map.get(&7).map(|s| s.as_str()), Some("seven"));
}

#[test]
fn profile_trees_reports_a_sentinel_collision() {
    let sources = vec![leaf(1, "ok"), leaf(FILLER_RANDOM_INT, "bad"), leaf(2, "ok")];
    match profile_trees(2, 3, &sources).unwrap_err() {
        PqgramError::LabelCollision { index, label } => {
            assert_eq!(index, 1);
            assert_eq!(label, FILLER_RANDOM_INT);
        },
        other => panic!("unexpected error {:?}", other),
    }
}

#[test]
fn profile_trees_of_empty_collection() {
    let (profiles, map) = profile_trees(2, 3, &vec![]).unwrap();
    assert_eq!(profiles.len(), 0);
    assert_eq!(map.len(), 0);
}
