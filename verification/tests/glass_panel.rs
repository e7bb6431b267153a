use gpui::glass_panel::{glass_panel, GlassPanelElement, TransparentBlack};

#[derive(Clone, Copy, Debug, PartialEq)]
struct Rgba(u8, u8, u8, u8);

impl TransparentBlack for Rgba {
    fn transparent_black() -> Self {
        Rgba(0, 0, 0, 0)
    }
}

type Panel = GlassPanelElement<Vec<u32>, u32, Rgba, [u16; 4]>;

#[test]
fn glass_panel_starts_from_defaults() {
    let panel: Panel = glass_panel(0xff00ffu32);
    let request = panel.paint((0u32, 0u32, 10u32, 20u32));
    assert_eq!(request.background, 0xff00ff);
    assert_eq!(request.border_color, Rgba(0, 0, 0, 0));
    assert_eq!(request.corner_radii, [0u16; 4]);
    assert!(!request.strong);
    assert_eq!(request.bounds, (0, 0, 10, 20));
}

#[test]
fn builders_set_only_their_parameter() {
    let panel: Panel = glass_panel(7u32)
        .corner_radii([1, 2, 3, 4])
        .border_color(Rgba(9, 8, 7, 6))
        .strong(true);
    let request = panel.paint(());
    assert_eq!(request.background, 7);
    assert_eq!(request.corner_radii, [1, 2, 3, 4]);
    assert_eq!(request.border_color, Rgba(9, 8, 7, 6));
    assert!(request.strong);

    let panel = panel.strong(false).into_element();
    let request = panel.paint(());
    assert!(!request.strong);
    assert_eq!(request.corner_radii, [1, 2, 3, 4]);
}

#[test]
fn style_is_refined_in_place() {
    let mut panel: Panel = glass_panel(1u32).border_color(Rgba(1, 1, 1, 1));
    panel.style().push(12);
    panel.style().push(34);
    assert_eq!(panel.style().clone(), vec![12, 34]);
    let request = panel.paint(());
    assert_eq!(request.border_color, Rgba(1, 1, 1, 1));
    assert_eq!(request.background, 1);
}
