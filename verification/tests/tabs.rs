use rime::tabs::{reorder_slice, Reorder, Tab};

#[test]
fn reorder_slice_moves_right_and_left() {
    let mut v = vec!['a', 'b', 'c', 'd'];
    reorder_slice(&mut v, 0, 2); // a past b,c
    assert_eq!(v, ['b', 'c', 'a', 'd']);
    reorder_slice(&mut v, 3, 1); // d back between b and c
    assert_eq!(v, ['b', 'd', 'c', 'a']);
}

#[test]
fn reorder_slice_ignores_bad_indices() {
    let mut v = vec![1, 2, 3];
    reorder_slice(&mut v, 1, 1); // same index
    reorder_slice(&mut v, 0, 9); // out of range
    reorder_slice(&mut v, 9, 0);
    assert_eq!(v, [1, 2, 3]);
}

#[test]
fn reorder_tracker_follows_the_drag() {
    let mut r = Reorder::default();
    assert!(!r.is_active());
    r.begin(0);
    assert!(r.is_active());
    assert_eq!(r.drag_to(0), None); // already on the anchor
    assert_eq!(r.drag_to(2), Some((0, 2))); // 0 -> 2, anchor advances
    assert_eq!(r.anchor(), Some(2));
    assert_eq!(r.drag_to(1), Some((2, 1))); // keeps following
    assert_eq!(r.end(), Some(1));
    assert!(!r.is_active());
    assert_eq!(r.drag_to(0), None); // disarmed
}

#[test]
fn reorder_then_reverse_restores_the_order() {
    let start = vec!["a", "b", "c", "d", "e"];
    let mut v = start.clone();
    reorder_slice(&mut v, 4, 1);
    assert_eq!(v, ["a", "e", "b", "c", "d"]);
    reorder_slice(&mut v, 1, 4);
    assert_eq!(v, start);
}

#[test]
fn applying_each_drag_keeps_the_tab_under_the_pointer() {
    let mut tabs = vec!["one", "two", "three", "four"];
    let mut r = Reorder::default();
    r.begin(0);
    for target in [2, 3, 1] {
        let (from, to) = r.drag_to(target).expect("armed and moving");
        reorder_slice(&mut tabs, from, to);
        assert_eq!(tabs[target], "one");
        assert_eq!(r.anchor(), Some(target));
    }
    assert_eq!(tabs, ["two", "one", "three", "four"]);
}

#[test]
fn tabs_start_clean_and_mark_dirty() {
    let tab = Tab::new("main.rs");
    assert_eq!(tab.label, "main.rs");
    assert!(!tab.dirty);
    let tab = tab.dirty(true);
    assert!(tab.dirty);
    assert_eq!(tab.label, "main.rs");
}

#[test]
fn a_dirty_tab_is_marked_with_a_leading_dot() {
    assert_eq!(Tab::new("main.rs").display_label(), "main.rs");
    assert_eq!(Tab::new("main.rs").dirty(true).display_label(), "● main.rs");
    assert_eq!(Tab::new("").dirty(true).display_label(), "● ");
    assert_eq!(Tab::new("x").dirty(true).dirty(false).display_label(), "x");
}
