//! The glass panel element: a panel whose paint parameters are set with
//! builder methods and handed to the renderer as one glass-panel request.
//!
//! The element is generic over the framework's style, background, colour and
//! corner-radii types, which it stores and hands on without reading them.
//! Laying the panel out (refining the default style and requesting a layout
//! node from the window) and the framework's element-trait hooks (`id`,
//! `source_location`, `request_layout`, `prepaint`) need the framework's
//! window and style types and are not part of this library; `paint` here
//! computes the request that painting hands to the window.

use vstd::prelude::*;

verus! {

/// A colour type with a transparent black value, the panel's initial border
/// colour.
pub trait TransparentBlack: Sized {
    /// The fully transparent black colour.
    fn transparent_black() -> Self;
}

/// A glass panel element; see [`glass_panel`].
pub struct GlassPanelElement<S, B, H, C> {
    style: S,
    background: B,
    border_color: H,
    corner_radii: C,
    strong: bool,
}

/// What painting a glass panel hands to the window: the solid fill of the
/// bounds with the panel's background, corner radii and border colour, and
/// whether the `FILL_STRONG` mapping is selected.
pub struct GlassPanelPaint<Bounds, B, H, C> {
    pub bounds: Bounds,
    pub background: B,
    pub corner_radii: C,
    pub border_color: H,
    pub strong: bool,
}

impl<S, B, H, C> GlassPanelElement<S, B, H, C> {
    /// The style refinement the panel is laid out with.
    pub closed spec fn style_of(&self) -> S {
        self.style
    }

    /// The panel's background.
    pub closed spec fn background_of(&self) -> B {
        self.background
    }

    /// The panel's border colour.
    pub closed spec fn border_color_of(&self) -> H {
        self.border_color
    }

    /// The panel's corner radii.
    pub closed spec fn corner_radii_of(&self) -> C {
        self.corner_radii
    }

    /// Whether the `FILL_STRONG` mapping is selected.
    pub closed spec fn is_strong(&self) -> bool {
        self.strong
    }

    /// Sets the rounded-rect corner radii of the panel.
    pub fn corner_radii(self, corner_radii: C) -> (panel: Self)
        ensures
            panel.corner_radii_of() == corner_radii,
            panel.style_of() == self.style_of(),
            panel.background_of() == self.background_of(),
            panel.border_color_of() == self.border_color_of(),
            panel.is_strong() == self.is_strong(),
    {
        let mut panel = self;
        panel.corner_radii = corner_radii;
        panel
    }

    /// Sets the border colour used by the solid mapping.
    pub fn border_color(self, border_color: H) -> (panel: Self)
        ensures
            panel.border_color_of() == border_color,
            panel.style_of() == self.style_of(),
            panel.background_of() == self.background_of(),
            panel.corner_radii_of() == self.corner_radii_of(),
            panel.is_strong() == self.is_strong(),
    {
        let mut panel = self;
        panel.border_color = border_color;
        panel
    }

    /// Selects (or deselects) the `FILL_STRONG` mapping.
    pub fn strong(self, strong: bool) -> (panel: Self)
        ensures
            panel.is_strong() == strong,
            panel.style_of() == self.style_of(),
            panel.background_of() == self.background_of(),
            panel.border_color_of() == self.border_color_of(),
            panel.corner_radii_of() == self.corner_radii_of(),
    {
        let mut panel = self;
        panel.strong = strong;
        panel
    }

    /// The element itself: a glass panel is its own element.
    pub fn into_element(self) -> (element: Self)
        ensures
            element == self,
    {
        self
    }

    /// The style refinement, for the styling builder methods to change.
    pub fn style(&mut self) -> (style: &mut S)
        ensures
            *style == old(self).style_of(),
            final(self).style_of() == *final(style),
            final(self).background_of() == old(self).background_of(),
            final(self).border_color_of() == old(self).border_color_of(),
            final(self).corner_radii_of() == old(self).corner_radii_of(),
            final(self).is_strong() == old(self).is_strong(),
    {
        &mut self.style
    }
}

impl<S, B: Copy, H: Copy, C: Copy> GlassPanelElement<S, B, H, C> {
    /// The glass-panel request that painting the panel over `bounds` makes:
    /// the bounds filled with the background, with the panel's corner radii
    /// and border colour, and its `strong` selection.
    pub fn paint<Bounds>(&self, bounds: Bounds) -> (request: GlassPanelPaint<Bounds, B, H, C>)
        ensures
            request.bounds == bounds,
            request.background == self.background_of(),
            request.corner_radii == self.corner_radii_of(),
            request.border_color == self.border_color_of(),
            request.strong == self.is_strong(),
    {
        GlassPanelPaint {
            bounds,
            background: self.background,
            corner_radii: self.corner_radii,
            border_color: self.border_color,
            strong: self.strong,
        }
    }
}

/// Constructs a glass panel element with the given background. The style
/// refinement and corner radii start at their types' default values, the
/// border colour is transparent black, and the strong mapping is off.
pub fn glass_panel<S: Default, B, H: TransparentBlack, C: Default>(background: B) -> (panel:
    GlassPanelElement<S, B, H, C>)
    ensures
        panel.background_of() == background,
        call_ensures(S::default, (), panel.style_of()),
        call_ensures(H::transparent_black, (), panel.border_color_of()),
        call_ensures(C::default, (), panel.corner_radii_of()),
        !panel.is_strong(),
{
    GlassPanelElement {
        style: S::default(),
        background,
        border_color: H::transparent_black(),
        corner_radii: C::default(),
        strong: false,
    }
}

} // verus!
