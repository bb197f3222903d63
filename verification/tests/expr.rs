//! Expressions: their conjuncts and what is remembered of them.

use std::sync::Arc;

use vortex_core::expr::expression::{
    binary, dynamic, get_item, lit_i32, root, Expression, Operator,
};
use vortex_core::expr::extract_conjuncts::{
    balanced_spine_depth, conjuncts, conjuncts_with_spine_depth,
};
use vortex_core::layout::expr_cache::{ExpressionCache, MAX_ENTRIES};

fn and(lhs: Arc<Expression>, rhs: Arc<Expression>) -> Arc<Expression> {
    binary(Operator::And, lhs, rhs)
}

fn texts(exprs: &[Arc<Expression>]) -> Vec<String> {
    exprs.iter().map(|e| e.to_string()).collect()
}

#[test]
fn conjuncts_come_from_left_to_right() {
    let chain = and(and(lit_i32(1), lit_i32(2)), and(lit_i32(3), lit_i32(4)));
    assert_eq!(texts(&conjuncts(&chain)), ["1i32", "2i32", "3i32", "4i32"]);
    // Another operator is a conjunct itself.
    let either = binary(Operator::Or, lit_i32(1), and(lit_i32(2), lit_i32(3)));
    assert_eq!(texts(&conjuncts(&either)), ["(1i32 or (2i32 and 3i32))"]);
}

#[test]
fn a_chain_is_deeper_than_a_balanced_tree() {
    let mut chain = lit_i32(0);
    for i in 1..8 {
        chain = and(chain, lit_i32(i));
    }
    let (found, depth) = conjuncts_with_spine_depth(&chain);
    assert_eq!(found.len(), 8);
    assert_eq!(depth, 7);
    assert_eq!(balanced_spine_depth(8), 3);
    let single = lit_i32(0);
    assert_eq!(conjuncts_with_spine_depth(&single).1, 0);
}

#[test]
fn the_depth_of_balanced_trees() {
    for (n, depth) in [(0, 0), (1, 0), (2, 1), (3, 2), (4, 2), (5, 3), (8, 3), (9, 4), (1024, 10)] {
        assert_eq!(balanced_spine_depth(n), depth);
    }
}

#[test]
fn expressions_are_compared_by_what_they_are() {
    let a = get_item("x", root());
    assert!(a.equals(&get_item("x", root())));
    assert!(!a.equals(&get_item("y", root())));
    assert!(!a.equals(&root()));
    assert!(!lit_i32(1).equals(&lit_i32(2)));
    assert!(binary(Operator::Lt, lit_i32(1), root()).equals(&binary(Operator::Lt, lit_i32(1), root())));
}

#[test]
fn an_expression_is_dynamic_if_a_part_of_it_is() {
    let filter = dynamic(7, get_item("x", root()));
    assert!(filter.contains_dynamic());
    assert!(and(lit_i32(1), filter).contains_dynamic());
    assert!(!and(lit_i32(1), root()).contains_dynamic());
}

#[test]
fn concurrent_insertions_stay_bounded() {
    let mut cache = ExpressionCache::default();
    for worker in 0..8 {
        for value in 0..1_000i32 {
            let key = lit_i32(worker * 1_000 + value);
            assert_eq!(cache.get_or_insert_with(&key, || value), value);
            assert!(cache.len() <= MAX_ENTRIES);
        }
    }
}

#[test]
fn eviction_releases_cached_values() {
    let mut cache = ExpressionCache::default();
    let value = Arc::new(0usize);
    let weak = Arc::downgrade(&value);
    cache.get_or_insert_with(&lit_i32(0), || value);
    assert!(weak.upgrade().is_some());
    for key in 1..=MAX_ENTRIES {
        cache.get_or_insert_with(&lit_i32(key as i32), || Arc::new(key));
    }
    assert!(weak.upgrade().is_none());
}

#[test]
fn failed_initialization_is_retried() {
    let mut cache = ExpressionCache::default();
    let key = lit_i32(1);
    assert_eq!(
        cache.get_or_try_insert_with(&key, || Err::<i32, _>("error")),
        Err("error")
    );
    assert_eq!(
        cache.get_or_try_insert_with(&key, || Ok::<_, &str>(7)),
        Ok(7)
    );
    assert_eq!(cache.get_or_insert_with(&key, || 8), 7);
}

#[test]
fn a_dynamic_expression_is_never_kept() {
    let mut cache = ExpressionCache::default();
    let filter = dynamic(1, root());
    assert_eq!(cache.get_or_insert_with(&filter, || 1), 1);
    assert_eq!(cache.get_or_insert_with(&filter, || 2), 2);
    assert_eq!(cache.len(), 0);
}

#[test]
fn the_first_of_two_values_is_kept() {
    let mut cache = ExpressionCache::default();
    let key = lit_i32(1);
    assert_eq!(cache.lookup(&key), None);
    assert_eq!(cache.store(&key, 5), 5);
    assert_eq!(cache.store(&key, 6), 5);
    assert_eq!(cache.lookup(&key), Some(5));
    // The insertion into a full cache clears it first.
    for i in 0..MAX_ENTRIES as i32 {
        cache.store(&lit_i32(100 + i), i);
    }
    assert_eq!(cache.lookup(&key), None);
    assert_eq!(cache.len(), 1);
}
