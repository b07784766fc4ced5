use vstd::prelude::*;

use crate::space::Space;
use crate::style::{approached, Color, Theme};
use crate::window::UpdateData;

verus! {

/// A filled rectangle to draw, with an optional border.
#[derive(Debug, Clone, Copy, PartialEq, Eq)]
pub struct DrawRectangle {
    pub space: Space,
    pub border_color: Option<Color>,
    pub fill_color: Option<Color>,
}

/// What a button draws: its space filled with the background color, with a border in
/// the border color. The foreground color is for its content.
pub fn paint_button(space: &Space, color_fg: &Color, color_bg: &Color, color_border: &Color) -> (r: DrawRectangle)
    ensures
        r == (DrawRectangle { space: *space, border_color: Some(*color_border), fill_color: Some(*color_bg) }),
{
    DrawRectangle { space: *space, border_color: Some(*color_border), fill_color: Some(*color_bg) }
}

/// The state of a widget, which decides the color it moves toward.
#[derive(Debug, Clone, Copy, PartialEq, Eq, Structural)]
pub enum WidgetStatus {
    Inactive,
    Active,
    Disabled,
    Hover,
}

/// A control at a leaf of the layout: a button, with its own space and colors.
#[derive(Debug, Clone, Copy, PartialEq, Eq)]
pub struct Widget {
    pub space: Space,
    pub theme: Theme,
    pub color_fg: Color,
    pub color_bg: Color,
    pub color_border: Color,
    pub status: WidgetStatus,
}

impl Widget {
    /// This widget placed at `sp`, with everything else kept.
    pub open spec fn with_space(self, sp: Space) -> Widget {
        Widget { space: sp, ..self }
    }

    /// The background color that a widget in status `st` moves toward.
    pub open spec fn target_bg(self, st: WidgetStatus) -> Color {
        match st {
            WidgetStatus::Inactive => self.theme.inactive,
            WidgetStatus::Active => self.theme.active,
            WidgetStatus::Disabled => self.theme.inactive,
            WidgetStatus::Hover => self.theme.hover,
        }
    }

    /// The status that the pointer at (x, y) gives: hovered when it is strictly inside.
    pub open spec fn status_at(self, x: int, y: int) -> WidgetStatus {
        if self.space.contains(x, y) {
            WidgetStatus::Hover
        } else {
            WidgetStatus::Inactive
        }
    }

    /// This widget after one frame with the pointer as `data` gives it.
    pub open spec fn updated(self, data: UpdateData) -> Widget {
        let st = self.status_at(data.mouse_position.0 as int, data.mouse_position.1 as int);
        Widget {
            status: st,
            color_fg: approached(self.color_fg, self.theme.border),
            color_bg: approached(self.color_bg, self.target_bg(st)),
            color_border: approached(self.color_border, self.theme.border),
            ..self
        }
    }

    /// What the widget draws.
    pub open spec fn drawn(self) -> DrawRectangle {
        DrawRectangle { space: self.space, border_color: Some(self.color_border), fill_color: Some(self.color_bg) }
    }

    /// A button drawn with the colors of `theme`, not yet placed: its space is the
    /// whole of a one-pixel screen until the layout gives it one.
    pub fn new_button(signal: u32, theme: Theme) -> (r: Widget)
        ensures
            r.space == (Space { total: (1u32, 1u32), pixel_coords: (0u32, 0u32, 1u32, 1u32) }),
            r.space.wf(),
            r.theme == theme,
            r.color_fg == theme.border,
            r.color_bg == theme.inactive,
            r.color_border == theme.border,
            r.status == WidgetStatus::Inactive,
    {
        Widget {
            space: Space::new(1, 1),
            theme,
            color_fg: theme.border,
            color_bg: theme.inactive,
            color_border: theme.border,
            status: WidgetStatus::Inactive,
        }
    }

    /// Places the widget at `space`.
    pub fn set_space(&mut self, space: Space)
        ensures
            *final(self) == old(self).with_space(space),
    {
        self.space = space;
    }

    /// One frame: the widget is hovered when the pointer is strictly inside its space,
    /// else inactive, and each of its colors takes one step toward the color of that
    /// status.
    pub fn update(&mut self, data: &UpdateData)
        ensures
            *final(self) == old(self).updated(*data),
    {
        self.status = if self.space.is_inside(data.mouse_position.0, data.mouse_position.1) {
            WidgetStatus::Hover
        } else {
            WidgetStatus::Inactive
        };
        let target = match self.status {
            WidgetStatus::Inactive => self.theme.inactive,
            WidgetStatus::Active => self.theme.active,
            WidgetStatus::Disabled => self.theme.inactive,
            WidgetStatus::Hover => self.theme.hover,
        };
        let border = self.theme.border;
        self.color_fg.approach(border);
        self.color_bg.approach(target);
        self.color_border.approach(border);
    }

    /// What the widget draws: its space filled with its background color, with a
    /// border in its border color.
    pub fn paint(&self) -> (r: DrawRectangle)
        ensures
            r == self.drawn(),
    {
        paint_button(&self.space, &self.theme.active, &self.color_bg, &self.color_border)
    }
}

/// A colored panel that a group of the layout draws behind its content.
#[derive(Debug, Clone, Copy, PartialEq, Eq)]
pub struct Panel {
    pub space: Space,
    pub color: Color,
    pub border_color: Option<Color>,
}

impl Panel {
    /// This panel placed at `sp`, with everything else kept.
    pub open spec fn with_space(self, sp: Space) -> Panel {
        Panel { space: sp, ..self }
    }

    /// What the panel draws.
    pub open spec fn drawn(self) -> DrawRectangle {
        DrawRectangle { space: self.space, border_color: self.border_color, fill_color: Some(self.color) }
    }

    /// A panel of the given colors, not yet placed: its space is the whole of a
    /// one-pixel screen until the layout gives it one.
    pub fn new(color: Color, border_color: Option<Color>) -> (r: Panel)
        ensures
            r == (Panel { space: Space { total: (1u32, 1u32), pixel_coords: (0u32, 0u32, 1u32, 1u32) }, color, border_color }),
            r.space.wf(),
    {
        Panel { space: Space::new(1, 1), color, border_color }
    }

    /// Places the panel at `space`.
    pub fn set_space(&mut self, space: Space)
        ensures
            *final(self) == old(self).with_space(space),
    {
        self.space = space;
    }

    /// What the panel draws: its whole space filled with its color, with its border
    /// color if it has one.
    pub fn paint(&self) -> (r: DrawRectangle)
        ensures
            r == self.drawn(),
    {
        DrawRectangle { space: self.space, border_color: self.border_color, fill_color: Some(self.color) }
    }
}

} // verus!
