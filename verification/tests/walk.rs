use kusanagi_kernel::{next_window, WINDOW};

#[test]
fn a_walk_asks_for_one_then_doubles_up_to_the_window() {
    let mut index = 0_u64;
    let mut width = 1_usize;
    let mut widths = Vec::new();
    for _ in 0..6 {
        widths.push(width);
        let (next, wider) = next_window(index, width).unwrap();
        assert_eq!(next, index + width as u64);
        index = next;
        width = wider;
    }
    assert_eq!(widths, vec![1, 2, 4, 8, 8, 8]);
    assert_eq!(WINDOW, 8);
    assert_eq!(index, 31);
}

#[test]
fn a_walk_at_the_last_height_ends() {
    assert_eq!(next_window(u64::MAX, 1), None);
    assert_eq!(next_window(u64::MAX - 8, 8), Some((u64::MAX, 8)));
    assert_eq!(next_window(u64::MAX - 7, 8), None);
}

#[test]
fn a_width_past_any_window_is_brought_back_to_it() {
    assert_eq!(next_window(0, usize::MAX), Some((usize::MAX as u64, WINDOW)));
}
