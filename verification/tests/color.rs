use rayshot::color::{from_rgb, marker_color, Color};

/// Every product that the marker can need, against exact integer rounding.
#[test]
fn marker_color_rounds_every_channel() {
    for v in 0..=255u32 {
        let c = marker_color(Color { r: v as u8, g: 0, b: 255, a: 255 });
        let exact = (2 * v * 110 + 255) / 510;
        assert_eq!(c.r as u32, exact);
        assert_eq!(c.g, 0);
        assert_eq!(c.b, 110);
        assert_eq!(c.a, 110);
    }
}

/// The rounding that is claimed of the multiplication, for every value and every alpha.
#[test]
fn unmultiplied_colors_are_rounded_to_nearest() {
    for a in 0..=255u32 {
        for v in 0..=255u32 {
            let c = egui::Color32::from_rgba_unmultiplied(v as u8, v as u8, v as u8, a as u8);
            let exact = ((2 * v * a + 255) / 510) as u8;
            assert_eq!((c.r(), c.g(), c.b(), c.a()), (exact, exact, exact, a as u8));
        }
    }
}

#[test]
fn marker_of_the_first_color() {
    let c = marker_color(from_rgb(255, 60, 60));
    assert_eq!(c, Color { r: 110, g: 26, b: 26, a: 110 });
}

#[test]
fn rgb_is_opaque() {
    assert_eq!(from_rgb(1, 2, 3), Color { r: 1, g: 2, b: 3, a: 255 });
    let c = egui::Color32::from_rgb(1, 2, 3);
    assert_eq!((c.r(), c.g(), c.b(), c.a()), (1, 2, 3, 255));
}
