//! Cross-checks against the pqgrams crate: the same trees, profiled by
//! both implementations, must yield the same flattened grams and the
//! same distances.

use pqgram::{pqgram_distance, pqgram_profile, Tree, FILLER_RANDOM_INT};

const F: i64 = FILLER_RANDOM_INT;

// Labels: a = 1, b = 2, c = 3, e = 5, x = 9.
fn ours_known_tree_1() -> Tree {
    Tree::new(1)
        .add_node(Tree::new(1).add_node(Tree::new(5)).add_node(Tree::new(2)))
        .add_node(Tree::new(2))
        .add_node(Tree::new(3))
}

fn theirs_known_tree_1() -> pqgrams::Tree<i64> {
    pqgrams::Tree::new(1)
        .add_node(pqgrams::Tree::new(1).add_node(pqgrams::Tree::new(5)).add_node(pqgrams::Tree::new(2)))
        .add_node(pqgrams::Tree::new(2))
        .add_node(pqgrams::Tree::new(3))
}

fn ours_known_tree_2() -> Tree {
    Tree::new(1)
        .add_node(Tree::new(1).add_node(Tree::new(5)).add_node(Tree::new(2)))
        .add_node(Tree::new(2))
        .add_node(Tree::new(9))
}

fn theirs_known_tree_2() -> pqgrams::Tree<i64> {
    pqgrams::Tree::new(1)
        .add_node(pqgrams::Tree::new(1).add_node(pqgrams::Tree::new(5)).add_node(pqgrams::Tree::new(2)))
        .add_node(pqgrams::Tree::new(2))
        .add_node(pqgrams::Tree::new(9))
}

fn ours_flat(t: &Tree, p: usize, q: usize) -> Vec<Vec<i64>> {
    pqgram_profile(t, p, q).unwrap().iter().map(|g| g.concat(F)).collect()
}

fn theirs_flat(t: pqgrams::Tree<i64>, p: usize, q: usize) -> Vec<Vec<i64>> {
    pqgrams::flatten_profile(&pqgrams::pqgram_profile::<i64, pqgrams::Tree<i64>>(t, p, q, false), F)
}

#[test]
fn profiles_agree_with_the_pqgrams_crate() {
    for (p, q) in [(2, 3), (1, 1), (3, 2), (2, 4)] {
        assert_eq!(ours_flat(&ours_known_tree_1(), p, q), theirs_flat(theirs_known_tree_1(), p, q));
        assert_eq!(ours_flat(&ours_known_tree_2(), p, q), theirs_flat(theirs_known_tree_2(), p, q));
    }
}

#[test]
fn known_tree_distance_agrees_with_the_pqgrams_crate() {
    // Our exact rational distance for the two known trees.
    let a = pqgram_profile(&ours_known_tree_1(), 2, 3).unwrap();
    let b = pqgram_profile(&ours_known_tree_2(), 2, 3).unwrap();
    let d = pqgram_distance(&a, &b);
    // Both profiles hold 13 grams and 9 coincide: (26 - 18) / 26.
    assert_eq!(d.den, 26);
    assert_eq!(d.num, 8);

    // The crate computes the same value on sorted profiles. Its merge
    // substitutes the filler before ordering grams, so the filler must
    // sort below all real labels as `Node::Filler` does: the default
    // filler 0 works here since every label of the trees is positive.
    let pa = pqgrams::pqgram_profile::<i64, pqgrams::Tree<i64>>(theirs_known_tree_1(), 2, 3, true);
    let pb = pqgrams::pqgram_profile::<i64, pqgrams::Tree<i64>>(theirs_known_tree_2(), 2, 3, true);
    let theirs = pqgrams::pqgram_distance::<i64, pqgrams::Tree<i64>>(&pa, &pb, None);
    let ours = (d.num as f64) / (d.den as f64);
    assert!((ours - theirs).abs() < 1e-9);
}

fn ours_bushy(depth: i64, width: i64, label: i64) -> Tree {
    let mut t = Tree::new(label);
    if depth > 0 {
        for w in 0..width {
            t = t.add_node(ours_bushy(depth - 1, width, label * 7 + w + 1));
        }
    }
    t
}

fn theirs_bushy(depth: i64, width: i64, label: i64) -> pqgrams::Tree<i64> {
    let mut t = pqgrams::Tree::new(label);
    if depth > 0 {
        for w in 0..width {
            t = t.add_node(theirs_bushy(depth - 1, width, label * 7 + w + 1));
        }
    }
    t
}

#[test]
fn bushy_tree_profiles_agree_with_the_pqgrams_crate() {
    for (p, q) in [(1, 1), (2, 3), (3, 3), (4, 2)] {
        assert_eq!(ours_flat(&ours_bushy(3, 3, 1), p, q), theirs_flat(theirs_bushy(3, 3, 1), p, q));
        assert_eq!(ours_flat(&ours_bushy(4, 2, 2), p, q), theirs_flat(theirs_bushy(4, 2, 2), p, q));
    }
}

#[test]
fn bushy_tree_distance_agrees_with_the_pqgrams_crate() {
    let a = pqgram_profile(&ours_bushy(3, 3, 1), 2, 3).unwrap();
    let b = pqgram_profile(&ours_bushy(3, 2, 1), 2, 3).unwrap();
    let d = pqgram_distance(&a, &b);
    let pa = pqgrams::pqgram_profile::<i64, pqgrams::Tree<i64>>(theirs_bushy(3, 3, 1), 2, 3, true);
    let pb = pqgrams::pqgram_profile::<i64, pqgrams::Tree<i64>>(theirs_bushy(3, 2, 1), 2, 3, true);
    let theirs = pqgrams::pqgram_distance::<i64, pqgrams::Tree<i64>>(&pa, &pb, None);
    let ours = (d.num as f64) / (d.den as f64);
    assert!((ours - theirs).abs() < 1e-9);
}

#[test]
fn self_distance_agrees_with_the_pqgrams_crate() {
    let a = pqgram_profile(&ours_known_tree_1(), 2, 3).unwrap();
    let d = pqgram_distance(&a, &a);
    assert_eq!(d.num, 0);
    let pa = pqgrams::pqgram_profile::<i64, pqgrams::Tree<i64>>(theirs_known_tree_1(), 2, 3, true);
    let pb = pqgrams::pqgram_profile::<i64, pqgrams::Tree<i64>>(theirs_known_tree_1(), 2, 3, true);
    let theirs = pqgrams::pqgram_distance::<i64, pqgrams::Tree<i64>>(&pa, &pb, None);
    assert!(theirs.abs() < 1e-9);
}
