use gui_layout::{paint_button, Color, DrawRectangle, Space, Theme, WidgetStyle};

#[test]
fn approach_moves_a_fortieth_of_the_way() {
    let mut c = Color { r: 255, g: 0, b: 100, a: 255 };
    c.approach(Color { r: 0, g: 255, b: 100, a: 0 });
    assert_eq!(c, Color { r: 248, g: 7, b: 100, a: 248 });
}

#[test]
fn approach_always_moves_and_reaches_the_target() {
    let mut c = Color { r: 10, g: 1, b: 0, a: 0 };
    let t = Color { r: 0, g: 0, b: 1, a: 39 };
    c.approach(t);
    assert_eq!(c, Color { r: 9, g: 0, b: 1, a: 1 });
    let mut c = Color { r: 0, g: 255, b: 37, a: 200 };
    let t = Color { r: 255, g: 0, b: 200, a: 37 };
    for _ in 0..1000 {
        c.approach(t);
    }
    assert_eq!(c, t);
}

#[test]
fn default_theme_colors() {
    let t = Theme::new();
    assert_eq!(t.style, WidgetStyle::Modern);
    assert_eq!(t.active, Color { r: 192, g: 192, b: 192, a: 255 });
    assert_eq!(t.inactive, Color { r: 255, g: 255, b: 255, a: 255 });
    assert_eq!(t.hover, Color { r: 0, g: 255, b: 255, a: 255 });
    assert_eq!(t.border, Color { r: 0, g: 0, b: 0, a: 255 });
    assert_eq!(t.background, Color { r: 240, g: 240, b: 240, a: 255 });
}

#[test]
fn button_paints_its_background_with_a_border() {
    let space = Space::new(30, 20);
    let fg = Color { r: 1, g: 2, b: 3, a: 4 };
    let bg = Color { r: 5, g: 6, b: 7, a: 8 };
    let border = Color { r: 9, g: 10, b: 11, a: 12 };
    assert_eq!(
        paint_button(&space, &fg, &bg, &border),
        DrawRectangle { space, border_color: Some(border), fill_color: Some(bg) }
    );
}
