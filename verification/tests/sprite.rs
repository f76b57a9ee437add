use usagi::sprite::cell_for;

#[test]
fn first_sprite_is_the_top_left_cell() {
    assert_eq!(cell_for(64, 64, 1, 8), Some((0, 0, 8)));
}

#[test]
fn sprites_run_left_to_right_then_down() {
    assert_eq!(cell_for(64, 64, 8, 8), Some((7, 0, 8)));
    assert_eq!(cell_for(64, 64, 9, 8), Some((0, 1, 8)));
    assert_eq!(cell_for(64, 32, 27, 8), Some((2, 3, 8)));
}

#[test]
fn sprite_past_the_bottom_edge_is_none() {
    assert_eq!(cell_for(64, 64, 64, 8), Some((7, 7, 8)));
    assert_eq!(cell_for(64, 64, 65, 8), None);
}

#[test]
fn index_or_cell_below_one_is_none() {
    assert_eq!(cell_for(64, 64, 0, 8), None);
    assert_eq!(cell_for(64, 64, -3, 8), None);
    assert_eq!(cell_for(64, 64, 1, 0), None);
}

#[test]
fn sheet_narrower_than_a_cell_is_none() {
    assert_eq!(cell_for(4, 64, 1, 8), None);
}
