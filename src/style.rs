use vstd::prelude::*;

verus! {

/// A color with 8-bit channels.
///     * r: red
///     * g: green
///     * b: blue
///     * a: alpha (255 is opaque)
#[derive(Debug, Clone, Copy, PartialEq, Eq, Structural)]
pub struct Color {
    pub r: u8,
    pub g: u8,
    pub b: u8,
    pub a: u8,
}

/// One step of `c` toward `t`: a fortieth of the distance, rounded away from `c`, so
/// that a channel that differs from its target always moves and never overshoots.
pub open spec fn approach_channel(c: int, t: int) -> int {
    if c <= t {
        c + (t - c + 39) / 40
    } else {
        c - (c - t + 39) / 40
    }
}

/// One step of each channel of `c` toward the same channel of `t`.
pub open spec fn approached(c: Color, t: Color) -> Color {
    Color {
        r: approach_channel(c.r as int, t.r as int) as u8,
        g: approach_channel(c.g as int, t.g as int) as u8,
        b: approach_channel(c.b as int, t.b as int) as u8,
        a: approach_channel(c.a as int, t.a as int) as u8,
    }
}

/// One step of a channel toward its target.
fn approach_value(c: u8, t: u8) -> (r: u8)
    ensures
        r == approach_channel(c as int, t as int),
{
    if c <= t {
        let step: u8 = (((t - c) as u16 + 39) / 40) as u8;
        proof {
            assert(((t - c) + 39) / 40 <= t - c);
        }
        c + step
    } else {
        let step: u8 = (((c - t) as u16 + 39) / 40) as u8;
        proof {
            assert(((c - t) + 39) / 40 <= c - t);
        }
        c - step
    }
}

impl Color {
    /// Moves this color one step toward `color`, channel by channel: a fortieth of the
    /// remaining distance, at least one unit while the channels differ.
    pub fn approach(&mut self, color: Color)
        ensures
            *final(self) == approached(*old(self), color),
    {
        self.r = approach_value(self.r, color.r);
        self.g = approach_value(self.g, color.g);
        self.b = approach_value(self.b, color.b);
        self.a = approach_value(self.a, color.a);
    }
}

/// Styles for the widgets
///     * Classic: hard edges, straight lines
///     * Modern: rounded widgets
#[derive(Debug, Clone, Copy, PartialEq, Eq, Structural)]
pub enum WidgetStyle {
    Classic,
    Modern,
}

/// Colors for the widgets
#[derive(Debug, Clone, Copy, PartialEq, Eq, Structural)]
pub struct Theme {
    pub style: WidgetStyle,
    pub active: Color,
    pub inactive: Color,
    pub right: Color,
    pub wrong: Color,
    pub hover: Color,
    pub border: Color,
    pub background: Color,
}

/// An opaque color.
pub open spec fn opaque(r: u8, g: u8, b: u8) -> Color {
    Color { r, g, b, a: 255 }
}

impl Theme {
    /// The default theme: modern style, grey when active, white when inactive, cyan
    /// when hovered, black borders on a light grey background.
    pub fn new() -> (r: Theme)
        ensures
            r.style == WidgetStyle::Modern,
            r.active == opaque(192, 192, 192),
            r.inactive == opaque(255, 255, 255),
            r.right == opaque(0, 255, 0),
            r.wrong == opaque(255, 0, 0),
            r.hover == opaque(0, 255, 255),
            r.border == opaque(0, 0, 0),
            r.background == opaque(240, 240, 240),
    {
        Theme {
            style: WidgetStyle::Modern,
            active: Color { r: 192, g: 192, b: 192, a: 255 },
            inactive: Color { r: 255, g: 255, b: 255, a: 255 },
            right: Color { r: 0, g: 255, b: 0, a: 255 },
            wrong: Color { r: 255, g: 0, b: 0, a: 255 },
            hover: Color { r: 0, g: 255, b: 255, a: 255 },
            border: Color { r: 0, g: 0, b: 0, a: 255 },
            background: Color { r: 240, g: 240, b: 240, a: 255 },
        }
    }
}

} // verus!
