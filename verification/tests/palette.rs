use usagi::palette::{engine_color, Palette, Rgba};

fn rgb(c: Rgba) -> (u8, u8, u8, u8) {
    (c.r, c.g, c.b, c.a)
}

fn custom() -> Palette {
    Palette::from_colors(vec![
        Rgba { r: 10, g: 20, b: 30, a: 255 },
        Rgba { r: 40, g: 50, b: 60, a: 255 },
    ])
}

#[test]
fn black() {
    assert_eq!(rgb(Palette::pico8().lookup(1)), (0, 0, 0, 255));
}

#[test]
fn white() {
    assert_eq!(rgb(Palette::pico8().lookup(8)), (255, 241, 232, 255));
}

#[test]
fn red() {
    assert_eq!(rgb(Palette::pico8().lookup(9)), (255, 0, 77, 255));
}

#[test]
fn peach() {
    assert_eq!(rgb(Palette::pico8().lookup(16)), (255, 204, 170, 255));
}

#[test]
fn every_palette_index_is_opaque() {
    let p = Palette::pico8();
    for i in 1..=16 {
        assert_eq!(p.lookup(i).a, 255, "index {i} should be fully opaque");
    }
}

#[test]
fn unknown_indices_return_magenta() {
    let p = Palette::pico8();
    for i in [-1, 17, 99, i32::MAX, i32::MIN] {
        assert_eq!(rgb(p.lookup(i)), (255, 0, 255, 255), "index {i} should return magenta");
    }
}

#[test]
fn slot_zero_is_true_white() {
    assert_eq!(rgb(Palette::pico8().lookup(0)), (255, 255, 255, 255));
}

#[test]
fn slot_zero_is_true_white_under_custom_palette() {
    assert_eq!(rgb(custom().lookup(0)), (255, 255, 255, 255));
}

#[test]
fn pico8_palette_has_16_colors() {
    assert_eq!(Palette::pico8().len(), 16);
}

#[test]
fn index_of_returns_one_based_slot_for_every_pico8_color() {
    let p = Palette::pico8();
    for slot in 1..=16i32 {
        let c = p.lookup(slot);
        assert_eq!(p.index_of(c.r, c.g, c.b), Some(slot), "slot {slot}'s RGB should round-trip");
    }
}

#[test]
fn index_of_returns_none_for_off_palette_rgb() {
    let p = Palette::pico8();
    assert!(p.index_of(1, 1, 1).is_none());
    assert!(p.index_of(255, 0, 0).is_none());
}

#[test]
fn index_of_ignores_alpha() {
    let p = Palette::pico8();
    let black = p.lookup(1);
    assert_eq!(p.index_of(black.r, black.g, black.b), Some(1));
}

#[test]
fn index_of_matches_translucent_slots_by_rgb() {
    let p = Palette::from_colors(vec![Rgba { r: 0, g: 0, b: 0, a: 7 }]);
    assert_eq!(p.index_of(0, 0, 0), Some(1));
}

#[test]
fn index_of_uses_active_palette() {
    let p = custom();
    assert_eq!(p.index_of(10, 20, 30), Some(1));
    assert_eq!(p.index_of(40, 50, 60), Some(2));
    assert!(p.index_of(0, 0, 0).is_none());
}

#[test]
fn custom_palette_replaces_lookups() {
    let p = custom();
    assert_eq!(rgb(p.lookup(1)), (10, 20, 30, 255));
    assert_eq!(rgb(p.lookup(2)), (40, 50, 60, 255));
    assert_eq!(rgb(p.lookup(3)), (255, 0, 255, 255));
}

#[test]
fn engine_color_ignores_the_game_palette() {
    assert_eq!(rgb(engine_color(8)), (255, 241, 232, 255));
    assert_eq!(rgb(engine_color(17)), (255, 0, 255, 255));
}

#[test]
fn palette_from_image_pixels() {
    let px = |v: u8| Rgba { r: v, g: v, b: v, a: 255 };
    assert_eq!(Palette::from_image_pixels(0, 4, vec![px(1)]).err().as_deref(), Some("palette.png is empty"));
    assert_eq!(
        Palette::from_image_pixels(2, 2, vec![]).err().as_deref(),
        Some("palette.png decoded to zero pixels")
    );
    let p = Palette::from_image_pixels(2, 1, vec![px(1), px(2), px(3)]).unwrap();
    assert_eq!(p.len(), 2);
    assert_eq!(rgb(p.lookup(2)), (2, 2, 2, 255));
    let short = Palette::from_image_pixels(4, 4, vec![px(9)]).unwrap();
    assert_eq!(short.len(), 1);
}
