use usagi::input::{
    is_valid_action, ACTION_CANCEL, ACTION_CONFIRM, ACTION_DOWN, ACTION_LEFT, ACTION_RIGHT, ACTION_UP,
};
use usagi::menu::{move_selection, resolve_row, top_count, TopRow};

#[test]
fn resolve_row_with_no_menu_items_matches_static_layout() {
    assert!(matches!(resolve_row(0, 0), Some(TopRow::Continue)));
    assert!(matches!(resolve_row(1, 0), Some(TopRow::Settings)));
    assert!(matches!(resolve_row(2, 0), Some(TopRow::Clear)));
    assert!(matches!(resolve_row(3, 0), Some(TopRow::Reset)));
    assert!(matches!(resolve_row(4, 0), Some(TopRow::Quit)));
}

#[test]
fn resolve_row_shifts_static_rows_when_menu_items_registered() {
    assert!(matches!(resolve_row(0, 2), Some(TopRow::Continue)));
    assert!(matches!(resolve_row(1, 2), Some(TopRow::MenuItem(0))));
    assert!(matches!(resolve_row(2, 2), Some(TopRow::MenuItem(1))));
    assert!(matches!(resolve_row(3, 2), Some(TopRow::Settings)));
    assert!(matches!(resolve_row(4, 2), Some(TopRow::Clear)));
}

#[test]
fn top_count_grows_with_registered_items() {
    assert_eq!(top_count(0), 5);
    assert_eq!(top_count(3), 8);
    assert!(resolve_row(7, 3).is_some());
    assert!(resolve_row(8, 3).is_none());
}

#[test]
fn move_selection_wraps_at_both_ends() {
    let total = top_count(0);
    assert_eq!(move_selection(0, total, true, false), 4);
    assert_eq!(move_selection(4, total, false, true), 0);
    assert_eq!(move_selection(2, total, false, true), 3);
    assert_eq!(move_selection(2, total, true, true), 2);
}

#[test]
fn all_known_actions_are_valid() {
    for a in [ACTION_LEFT, ACTION_RIGHT, ACTION_UP, ACTION_DOWN, ACTION_CONFIRM, ACTION_CANCEL] {
        assert!(is_valid_action(a), "action {a} should be valid");
    }
}

#[test]
fn unknown_actions_are_not_valid() {
    assert!(!is_valid_action(0));
    assert!(!is_valid_action(7));
    assert!(!is_valid_action(99));
    assert!(!is_valid_action(u32::MAX));
}
