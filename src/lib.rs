//! A retained-mode layout engine: a tree of partition operations (splits by a
//! proportion, trims by a number of pixels, divisions into equal parts, and panel
//! groups with an inset) that turns a window's area into the rectangles of its
//! widgets and panels, propagates resizes down the tree and collects widgets and
//! panels back up in a fixed order.

pub mod direction;
pub mod layout;
pub mod message;
pub mod screen;
pub mod space;
pub mod style;
pub mod widget;
pub mod window;

pub use direction::{Direction, Sense};
pub use layout::{Layout, LayoutError, LayoutOperation};
pub use message::{CommandState, ValueState};
pub use screen::Screen;
pub use space::Space;
pub use style::{Color, Theme, WidgetStyle};
pub use widget::{paint_button, DrawRectangle, Panel, Widget, WidgetStatus};
pub use window::{KeyboardStatus, MouseStatus, UpdateData};
