use solitaire_quest::progression::goals::GoalProgress;

#[test]
fn goal_progress_insert_get_clear() {
    let mut g = GoalProgress::new();
    assert!(g.is_empty());
    assert_eq!(g.insert("a".to_string(), 1), None);
    assert_eq!(g.insert("b".to_string(), 2), None);
    assert_eq!(g.insert("a".to_string(), 5), Some(1));
    assert_eq!(g.get("a"), Some(&5));
    assert_eq!(g.get("b"), Some(&2));
    assert_eq!(g.get("c"), None);
    assert!(!g.is_empty());
    let copy = g.clone();
    g.clear();
    assert!(g.is_empty());
    assert_eq!(g.get("a"), None);
    assert_eq!(copy.get("a"), Some(&5));
}

#[test]
fn goal_progress_to_vec_lists_each_goal_once() {
    let mut g = GoalProgress::new();
    g.insert("x".to_string(), 3);
    g.insert("y".to_string(), 4);
    g.insert("x".to_string(), 9);
    let mut v = g.to_vec();
    v.sort();
    assert_eq!(v, vec![("x".to_string(), 9), ("y".to_string(), 4)]);
}
