use sparrow::eval::custom_cde::GeneralizedBitReversalIterator;

fn drain(n: usize) -> Vec<usize> {
    let mut it = GeneralizedBitReversalIterator::new(n);
    let mut out = vec![];
    while let Some(i) = it.next() {
        out.push(i);
    }
    assert_eq!(it.next(), None);
    out
}

#[test]
fn bit_reversal_order_of_five() {
    // 3 bits: 0,4,2,6,1,5,3,7 -> keep those below 5
    assert_eq!(drain(5), vec![0, 4, 2, 1, 3]);
}

#[test]
fn bit_reversal_order_of_powers_of_two() {
    assert_eq!(drain(1), vec![0]);
    assert_eq!(drain(2), vec![0, 1]);
    assert_eq!(drain(4), vec![0, 2, 1, 3]);
    assert_eq!(drain(8), vec![0, 4, 2, 6, 1, 5, 3, 7]);
}

#[test]
fn bit_reversal_of_empty_range_yields_nothing() {
    assert_eq!(drain(0), Vec::<usize>::new());
}

#[test]
fn bit_reversal_visits_every_index_once() {
    for n in 0..70 {
        let mut v = drain(n);
        assert_eq!(v.len(), n);
        v.sort();
        assert_eq!(v, (0..n).collect::<Vec<_>>());
    }
}
