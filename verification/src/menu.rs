//! The rows of the pause menu's top view: Continue, the menu items a
//! game registers, Settings, Clear Save Data, Reset Game and Quit, and
//! how the selection moves through them.

use vstd::prelude::*;

verus! {

/// The rows of the top view besides the registered menu items.
pub const STATIC_TOP_COUNT: usize = 5;

/// The number of rows of the top view with `menu_item_count` registered
/// items, which sit between Continue and Settings.
pub fn top_count(menu_item_count: usize) -> (r: usize)
    requires
        menu_item_count + STATIC_TOP_COUNT <= usize::MAX,
    ensures
        r == STATIC_TOP_COUNT + menu_item_count,
{
    STATIC_TOP_COUNT + menu_item_count
}

/// What a row of the top view does.
#[derive(Copy, Clone, Debug, PartialEq, Eq, Structural)]
pub enum TopRow {
    Continue,
    /// The registered menu item with this 0-based index.
    MenuItem(usize),
    Settings,
    Clear,
    Reset,
    Quit,
}

/// The row at position `selected` with `menu_item_count` registered items.
pub open spec fn resolve_row_spec(selected: int, menu_item_count: int) -> Option<TopRow> {
    if selected == 0 {
        Some(TopRow::Continue)
    } else if selected <= menu_item_count {
        Some(TopRow::MenuItem((selected - 1) as usize))
    } else {
        let after = selected - menu_item_count - 1;
        if after == 0 {
            Some(TopRow::Settings)
        } else if after == 1 {
            Some(TopRow::Clear)
        } else if after == 2 {
            Some(TopRow::Reset)
        } else if after == 3 {
            Some(TopRow::Quit)
        } else {
            None
        }
    }
}

/// Resolves the selected position to the row it shows, shifting the
/// fixed rows down by the number of registered items.
pub fn resolve_row(selected: usize, menu_item_count: usize) -> (r: Option<TopRow>)
    ensures
        r == resolve_row_spec(selected as int, menu_item_count as int),
{
    if selected == 0 {
        return Some(TopRow::Continue);
    }
    if selected <= menu_item_count {
        return Some(TopRow::MenuItem(selected - 1));
    }
    let after_menu = selected - menu_item_count - 1;
    match after_menu {
        0 => Some(TopRow::Settings),
        1 => Some(TopRow::Clear),
        2 => Some(TopRow::Reset),
        3 => Some(TopRow::Quit),
        _ => None,
    }
}

/// The selection after pressing up and/or down in a list of `total`
/// rows: up from the first row wraps to the last, down from the last
/// wraps to the first; up is applied before down.
pub open spec fn move_selection_spec(selected: int, total: int, up: bool, down: bool) -> int {
    let s = if up { if selected == 0 { total - 1 } else { selected - 1 } } else { selected };
    if down { (s + 1) % total } else { s }
}

/// Moves the selection through `total` rows, wrapping at both ends.
pub fn move_selection(selected: usize, total: usize, up: bool, down: bool) -> (r: usize)
    requires
        selected < total,
    ensures
        r == move_selection_spec(selected as int, total as int, up, down),
        r < total,
{
    let mut s = selected;
    if up {
        s = if s == 0 { total - 1 } else { s - 1 };
    }
    if down {
        s = (s + 1) % total;
    }
    s
}

/// Every position of the top view shows a row, and no position past it
/// does.
pub proof fn lemma_rows_cover_top_view(selected: int, menu_item_count: int)
    requires
        0 <= selected,
        0 <= menu_item_count,
    ensures
        resolve_row_spec(selected, menu_item_count) is Some <==> selected < STATIC_TOP_COUNT + menu_item_count,
{
}

/// Registered menu items only push the fixed rows down: past the items,
/// the row at `selected` with `n` items is the row at `selected - n`
/// with none, so Settings, Clear Save Data, Reset Game and Quit keep
/// their order whatever the game registers.
pub proof fn lemma_items_shift_fixed_rows(selected: int, n: int)
    requires
        0 <= n < selected,
    ensures
        resolve_row_spec(selected, n) == resolve_row_spec(selected - n, 0),
{
}

/// With `n` registered items the top view reads Continue, the items in
/// registration order, then Settings, Clear Save Data, Reset Game and
/// Quit.
pub proof fn lemma_top_view_order(n: int, k: int)
    requires
        0 <= n,
        0 <= k < n,
    ensures
        resolve_row_spec(0, n) == Some(TopRow::Continue),
        resolve_row_spec(k + 1, n) == Some(TopRow::MenuItem(k as usize)),
        resolve_row_spec(n + 1, n) == Some(TopRow::Settings),
        resolve_row_spec(n + 2, n) == Some(TopRow::Clear),
        resolve_row_spec(n + 3, n) == Some(TopRow::Reset),
        resolve_row_spec(n + 4, n) == Some(TopRow::Quit),
{
}

/// No two positions of the top view show the same row (item indices are
/// `usize`s, so the count of items is one too).
pub proof fn lemma_rows_distinct(a: int, b: int, n: int)
    requires
        0 <= a,
        0 <= b,
        0 <= n <= usize::MAX,
        resolve_row_spec(a, n) is Some,
        resolve_row_spec(a, n) == resolve_row_spec(b, n),
    ensures
        a == b,
{
}

/// Down undoes up, and up undoes down: the selection wraps cyclically.
pub proof fn lemma_up_down_cancel(selected: int, total: int)
    requires
        0 <= selected < total,
    ensures
        move_selection_spec(move_selection_spec(selected, total, true, false), total, false, true) == selected,
        move_selection_spec(move_selection_spec(selected, total, false, true), total, true, false) == selected,
{
    if selected + 1 < total {
        vstd::arithmetic::div_mod::lemma_small_mod((selected + 1) as nat, total as nat);
    } else {
        vstd::arithmetic::div_mod::lemma_mod_self_0(total);
    }
    if selected == 0 {
        vstd::arithmetic::div_mod::lemma_mod_self_0(total);
    } else {
        vstd::arithmetic::div_mod::lemma_small_mod(selected as nat, total as nat);
    }
}

} // verus!
