use ecp::color::Color;
use ecp::color::ColorMap;

#[test]
fn scale_by_one_is_identity() {
    let c = Color { red: 13, green: 200, blue: 255, alpha: 77 };
    for den in [1u32, 3, 255, 1000] {
        assert_eq!(c.scale(den, den), c);
    }
}

#[test]
fn scale_by_zero_is_black_with_alpha() {
    let c = Color { red: 13, green: 200, blue: 255, alpha: 77 };
    let z = c.scale(0, 9);
    assert_eq!(z, Color { red: 0, green: 0, blue: 0, alpha: 77 });
}

#[test]
fn scale_rounds_to_nearest() {
    let c = Color { red: 10, green: 5, blue: 1, alpha: 0 };
    // 10/3 rounds down to 3, 5/2 rounds half up to 3, 1/3 rounds to 0
    let s = c.scale(1, 3);
    assert_eq!(s.red, 3);
    assert_eq!(s.blue, 0);
    let h = c.scale(1, 2);
    assert_eq!(h.green, 3);
}

#[test]
fn scale_saturates_at_255() {
    let c = Color { red: 200, green: 128, blue: 255, alpha: 9 };
    let s = c.scale(2, 1);
    assert_eq!(s, Color { red: 255, green: 255, blue: 255, alpha: 9 });
}

#[test]
fn bgra_round_trip() {
    let c = Color { red: 1, green: 2, blue: 3, alpha: 4 };
    assert_eq!(c.to_bgra(), [3, 2, 1, 4]);
    assert_eq!(c.to_bgr(), [3, 2, 1]);
    assert_eq!(Color::from_bgra(c.to_bgra()), c);
}

#[test]
fn rgb_channel_order() {
    // to_rgb and to_rgba put the blue channel second
    let c = Color { red: 1, green: 2, blue: 3, alpha: 4 };
    assert_eq!(c.to_rgb(), [1, 3, 2]);
    assert_eq!(c.to_rgba(), [1, 3, 2, 4]);
}

#[test]
fn default_palette_reserved_indices() {
    let cm = ColorMap::default();
    assert_eq!(cm.len(), 256);
    assert_eq!(cm.get(0), Color { red: 0, green: 0, blue: 0, alpha: 0 });
    assert_eq!(cm.get(1), Color::red());
    assert_eq!(cm.get(2), Color::orange_norm());
    assert_eq!(cm.get(3), Color::yellow_norm());
    assert_eq!(cm.get(4), Color::green());
    assert_eq!(cm.get(5), Color::blue());
    assert_eq!(cm.get(6), Color::magenta_norm());
    assert_eq!(cm.get(7), Color::black());
    assert_eq!(cm.get(255), Color::black());
}

#[test]
fn color_map_set_and_get() {
    let mut cm = ColorMap::default();
    cm.set(42, Color::purple());
    assert_eq!(cm.get(42), Color::purple());
    assert_eq!(cm.get(41), Color::black());
}

#[test]
fn color_map_scale_range() {
    let mut cm = ColorMap::default();
    cm.scale_range(5, 1, 5);
    // index 1 (red 255) scaled by a fifth, index 4 too, index 5 untouched
    assert_eq!(cm.get(1), Color { red: 51, green: 0, blue: 0, alpha: 0 });
    assert_eq!(cm.get(4), Color { red: 0, green: 51, blue: 0, alpha: 0 });
    assert_eq!(cm.get(5), Color::blue());
}

#[test]
fn named_colors() {
    assert_eq!(Color::white(), Color { red: 255, green: 255, blue: 255, alpha: 0 });
    assert_eq!(Color::white_norm(), Color { red: 85, green: 85, blue: 85, alpha: 0 });
    assert_eq!(Color::orange(), Color { red: 255, green: 127, blue: 0, alpha: 0 });
    assert_eq!(Color::yellow(), Color { red: 255, green: 255, blue: 0, alpha: 0 });
    assert_eq!(Color::magenta(), Color { red: 255, green: 0, blue: 255, alpha: 0 });
    assert_eq!(Color::default(), Color::black());
}
