use game_of_life::layout::{cell_index, dimensions_fit, ring_pred, ring_succ};

#[test]
fn dimensions_need_at_least_one_cell_each_way() {
    assert!(dimensions_fit(1, 1));
    assert!(dimensions_fit(80, 60));
    assert!(!dimensions_fit(0, 60));
    assert!(!dimensions_fit(80, 0));
    assert!(!dimensions_fit(0, 0));
}

#[test]
fn dimensions_must_not_overflow_the_cell_count() {
    assert!(dimensions_fit(usize::MAX, 1));
    assert!(dimensions_fit(1, usize::MAX));
    assert!(!dimensions_fit(usize::MAX, 2));
    assert!(!dimensions_fit(usize::MAX / 2 + 1, 2));
    assert!(dimensions_fit(usize::MAX / 2, 2));
}

#[test]
fn cell_index_is_row_major() {
    assert_eq!(cell_index(4, 3, 0, 0), 0);
    assert_eq!(cell_index(4, 3, 3, 0), 3);
    assert_eq!(cell_index(4, 3, 0, 1), 4);
    assert_eq!(cell_index(4, 3, 2, 1), 6);
    assert_eq!(cell_index(4, 3, 3, 2), 11);
    assert_eq!(cell_index(80, 60, 79, 59), 4799);
}

#[test]
fn cell_index_is_different_for_different_cells() {
    let width: usize = 5;
    let height: usize = 4;
    let mut seen: Vec<bool> = vec![false; width * height];
    for y in 0..height {
        for x in 0..width {
            let index: usize = cell_index(width, height, x, y);
            assert!(index < width * height);
            assert!(!seen[index]);
            seen[index] = true;
        }
    }
    assert!(seen.iter().all(|&s| s));
}

#[test]
fn ring_steps_stay_inside() {
    assert_eq!(ring_pred(3, 5), 2);
    assert_eq!(ring_succ(3, 5), 4);
    assert_eq!(ring_pred(1, 5), 0);
    assert_eq!(ring_succ(0, 5), 1);
}

#[test]
fn ring_steps_wrap_at_the_ends() {
    assert_eq!(ring_pred(0, 5), 4);
    assert_eq!(ring_succ(4, 5), 0);
    assert_eq!(ring_pred(0, 3), 2);
    assert_eq!(ring_succ(2, 3), 0);
}

#[test]
fn ring_of_one_cell_is_its_own_neighbour() {
    assert_eq!(ring_pred(0, 1), 0);
    assert_eq!(ring_succ(0, 1), 0);
}

#[test]
fn ring_of_two_cells_has_one_neighbour_both_ways() {
    assert_eq!(ring_pred(0, 2), 1);
    assert_eq!(ring_succ(0, 2), 1);
    assert_eq!(ring_pred(1, 2), 0);
    assert_eq!(ring_succ(1, 2), 0);
}
