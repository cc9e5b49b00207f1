use sparrow::opt::tabu::TabuList;

#[test]
fn tabu_list_keeps_newest_first_within_capacity() {
    let mut t = TabuList::new(2, 5);
    t.push(1);
    t.push(2);
    assert_eq!(t.list, vec![2, 1]);
    t.push(3);
    assert_eq!(t.list, vec![3, 2]);
    t.clear();
    assert!(t.list.is_empty());
    assert_eq!(t.capacity, 2);
}

#[test]
fn tabu_list_with_zero_capacity_stays_empty() {
    let mut t = TabuList::new(0, 5);
    t.push('x');
    assert!(t.list.is_empty());
}

#[test]
fn tabu_decision_compares_similarities_with_limit() {
    let mut t = TabuList::new(3, 5);
    t.push("s1");
    t.push("s2");
    assert!(!t.sol_is_tabu(&vec![5, 0]));
    assert!(t.sol_is_tabu(&vec![2, 6]));
}

#[test]
fn pushed_solution_is_tabu_when_similar_to_itself() {
    let mut t: TabuList<u32> = TabuList::new(2, 3);
    t.push(10);
    t.push(20);
    t.push(30);
    assert_eq!(t.list, vec![30, 20]);
    // the newest entry is the solution itself: all 4 relevant placements are similar
    assert!(t.sol_is_tabu(&vec![4, 0]));
    assert!(!t.sol_is_tabu(&vec![3, 3]));
}
