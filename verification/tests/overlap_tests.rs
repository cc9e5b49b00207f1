use slotmap::Key;
use sparrow::overlap::item_index::ItemIndexMap;
use sparrow::overlap::matrix::Matrix;
use sparrow::overlap::pair_matrix::{calc_idx, OTPairMatrix};

#[test]
fn calc_idx_enumerates_upper_triangle_row_by_row() {
    // 0 1 2 3
    //   4 5 6
    //     7 8
    //       9
    assert_eq!(calc_idx(0, 0, 4), 0);
    assert_eq!(calc_idx(0, 3, 4), 3);
    assert_eq!(calc_idx(1, 1, 4), 4);
    assert_eq!(calc_idx(1, 3, 4), 6);
    assert_eq!(calc_idx(2, 2, 4), 7);
    assert_eq!(calc_idx(2, 3, 4), 8);
    assert_eq!(calc_idx(3, 3, 4), 9);
}

#[test]
fn calc_idx_is_symmetric() {
    for r in 0..6 {
        for c in 0..6 {
            assert_eq!(calc_idx(r, c, 6), calc_idx(c, r, 6));
        }
    }
}

#[test]
fn calc_idx_gives_each_pair_its_own_cell() {
    let n = 7;
    let mut seen = vec![false; n * (n + 1) / 2];
    for r in 0..n {
        for c in r..n {
            let i = calc_idx(r, c, n);
            assert!(!seen[i]);
            seen[i] = true;
        }
    }
    assert!(seen.iter().all(|b| *b));
}

#[test]
fn pair_matrix_new_fills_triangle_with_default() {
    let m = OTPairMatrix::new(4, 1u32);
    assert_eq!(m.size, 4);
    assert_eq!(m.data.len(), 10);
    assert!(m.data.iter().all(|e| *e == 1));
    let empty = OTPairMatrix::new(0, 7u8);
    assert_eq!(empty.data.len(), 0);
}

#[test]
fn pair_matrix_set_is_seen_from_both_sides() {
    let mut m = OTPairMatrix::new(3, 0i32);
    m.set(2, 0, 5);
    assert_eq!(m.get(0, 2), 5);
    assert_eq!(m.get(2, 0), 5);
    assert_eq!(m.get(1, 2), 0);
    assert_eq!(m.get(0, 0), 0);
    m.set(1, 1, -3);
    assert_eq!(m.get(1, 1), -3);
    assert_eq!(m.get(0, 2), 5);
}

#[test]
fn matrix_new_and_row() {
    let mut m = Matrix::new(3, 0u8);
    assert_eq!(m.data.len(), 9);
    m.set(1, 2, 9);
    assert_eq!(*m.get(1, 2), 9);
    assert_eq!(m.row(1), &[0, 0, 9]);
    assert_eq!(m.row(0), &[0, 0, 0]);
    let z: Matrix<u8> = Matrix::new(0, 1);
    assert_eq!(z.row(5).len(), 0);
}

#[test]
fn matrix_reset_row_and_col_clears_only_that_cross() {
    let mut m = Matrix::new(3, 0u32);
    for r in 0..3 {
        for c in 0..3 {
            m.set(r, c, (10 * r + c + 1) as u32);
        }
    }
    m.reset_row_and_col(1);
    assert_eq!(m.row(0), &[1, 0, 3]);
    assert_eq!(m.row(1), &[0, 0, 0]);
    assert_eq!(m.row(2), &[21, 0, 23]);
    let mut e: Matrix<u32> = Matrix::new(0, 4);
    e.reset_row_and_col(3);
    assert_eq!(e.data.len(), 0);
}

use sparrow::overlap::jump_cooldown::JumpCooldown;

#[test]
fn fresh_jump_tracking_has_nobody_on_cooldown() {
    let j = JumpCooldown::new(3, 2);
    for i in 0..3 {
        assert!(!j.is_on_jump_cooldown(i));
    }
}

#[test]
fn jump_cooldown_lasts_cooldown_iterations() {
    let mut j = JumpCooldown::new(2, 2);
    j.register_jump(1);
    assert!(j.is_on_jump_cooldown(1));
    assert!(!j.is_on_jump_cooldown(0));
    j.next_iter();
    assert!(j.is_on_jump_cooldown(1));
    j.next_iter();
    assert!(!j.is_on_jump_cooldown(1));
}

#[test]
fn fast_forward_ends_every_cooldown() {
    let mut j = JumpCooldown::new(2, 5);
    j.register_jump(0);
    j.register_jump(1);
    j.fast_forward();
    assert!(!j.is_on_jump_cooldown(0));
    assert!(!j.is_on_jump_cooldown(1));
}

#[test]
fn zero_cooldown_never_holds_an_item() {
    let mut j = JumpCooldown::new(1, 0);
    j.register_jump(0);
    assert!(!j.is_on_jump_cooldown(0));
}

fn key(slot: u32, version: u32) -> u64 {
    ((version as u64) << 32) | slot as u64
}

#[test]
fn item_index_map_gives_each_key_its_position() {
    let keys = vec![key(0, 1), key(1, 1), key(2, 3)];
    let m = ItemIndexMap::new(3, &keys);
    assert_eq!(m.index_of(key(0, 1)), Some(0));
    assert_eq!(m.index_of(key(1, 1)), Some(1));
    assert_eq!(m.index_of(key(2, 3)), Some(2));
    assert_eq!(m.index_of(key(2, 1)), None);
    assert_eq!(m.index_of(key(3, 1)), None);
    // an even version stands for the odd one above it
    assert_eq!(m.index_of(key(2, 2)), Some(2));
}

#[test]
fn item_index_map_moves_index_to_new_key() {
    let keys = vec![key(0, 1), key(1, 1), key(2, 1)];
    let mut m = ItemIndexMap::new(3, &keys);
    m.register_move(key(1, 1), key(1, 3));
    assert_eq!(m.index_of(key(1, 1)), None);
    assert_eq!(m.index_of(key(1, 3)), Some(1));
    assert_eq!(m.index_of(key(0, 1)), Some(0));
    assert_eq!(m.index_of(key(2, 1)), Some(2));
    m.register_move(key(0, 1), key(5, 1));
    assert_eq!(m.index_of(key(5, 1)), Some(0));
    assert_eq!(m.index_of(key(0, 1)), None);
    let d = m.duplicate();
    assert_eq!(d.index_of(key(5, 1)), Some(0));
    assert_eq!(d.index_of(key(1, 3)), Some(1));
}

#[test]
fn item_index_map_keeps_newer_version_and_ignores_null_key() {
    let keys = vec![key(0, 3), key(0, 1), key(u32::MAX, 1), key(1, 1)];
    let m = ItemIndexMap::new(4, &keys);
    assert_eq!(m.index_of(key(0, 3)), Some(0));
    assert_eq!(m.index_of(key(0, 1)), None);
    assert_eq!(m.index_of(key(u32::MAX, 1)), None);
    assert_eq!(m.index_of(key(1, 1)), Some(3));
}

#[test]
fn item_index_map_follows_slot_map_keys() {
    let mut sm: slotmap::SlotMap<jagua_rs::entities::PItemKey, ()> = slotmap::SlotMap::with_key();
    let a = sm.insert(());
    let b = sm.insert(());
    let c = sm.insert(());
    let data: Vec<u64> = [a, b, c].iter().map(|k| k.data().as_ffi()).collect();
    let mut m = ItemIndexMap::new(3, &data);
    sm.remove(b);
    let b2 = sm.insert(());
    assert_ne!(b, b2);
    m.register_move(b.data().as_ffi(), b2.data().as_ffi());
    assert_eq!(m.index_of(b2.data().as_ffi()), Some(1));
    assert_eq!(m.index_of(b.data().as_ffi()), None);
    assert_eq!(m.index_of(a.data().as_ffi()), Some(0));
    assert_eq!(m.index_of(c.data().as_ffi()), Some(2));
}
