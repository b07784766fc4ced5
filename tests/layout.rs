use gui_layout::{
    Color, Direction, DrawRectangle, Layout, LayoutError, LayoutOperation, MouseStatus, Panel, Screen, Sense, Space,
    Theme, UpdateData, Widget, WidgetStatus,
};

fn button() -> Widget {
    Widget::new_button(0, Theme::new())
}

fn widget_rects(layout: &Layout) -> Vec<(u32, u32, u32, u32)> {
    layout.get_widgets().iter().map(|w| w.space.pixel_coords).collect()
}

fn toolbar(layout: &mut Layout) -> &mut Layout {
    let (toolbar_sp, remaining_sp) = layout.trim(158, Direction::Vertical, Sense::Forward).unwrap();
    let (b, rest) = toolbar_sp.trim(128, Direction::Horizontal, Sense::Forward).unwrap();
    b.set_widget(button());
    let (b, rest) = rest.trim(128, Direction::Horizontal, Sense::Forward).unwrap();
    b.set_widget(button());
    let (b, rest) = rest.trim(128, Direction::Horizontal, Sense::Forward).unwrap();
    b.set_widget(button());
    let (b, rest) = rest.trim(128, Direction::Horizontal, Sense::Forward).unwrap();
    b.set_widget(button());
    let (b, rest) = rest.trim(128, Direction::Horizontal, Sense::Forward).unwrap();
    b.set_widget(button());
    rest.set_widget(button());
    remaining_sp
}

fn toolbar_screen(layout: &mut Layout) {
    let remaining = toolbar(layout);
    remaining.set_widget(button());
}

#[test]
fn toolbar_trims_give_exact_pixel_rectangles() {
    let mut layout = Layout::new();
    toolbar_screen(&mut layout);
    layout.resize(Space::new(800, 600));
    assert_eq!(
        widget_rects(&layout),
        vec![
            (0, 0, 128, 158),
            (128, 0, 256, 158),
            (256, 0, 384, 158),
            (384, 0, 512, 158),
            (512, 0, 640, 158),
            (640, 0, 800, 158),
            (0, 158, 800, 600),
        ]
    );
}

#[test]
fn toolbar_inside_a_panel_is_inset() {
    let mut layout = Layout::new();
    let (toolbar_sp, remaining) = layout.trim(158, Direction::Vertical, Sense::Forward).unwrap();
    let content = toolbar_sp.set_panel(15, Panel::new(Theme::new().background, None));
    let (b, rest) = content.trim(128, Direction::Horizontal, Sense::Forward).unwrap();
    b.set_widget(button());
    let (b, _) = rest.trim(128, Direction::Horizontal, Sense::Forward).unwrap();
    b.set_widget(button());
    let (b, second) = remaining.trim(100, Direction::Horizontal, Sense::Forward).unwrap();
    b.set_widget(button());
    let (_, b) = second.trim(200, Direction::Vertical, Sense::Forward).unwrap();
    b.set_widget(button());
    layout.resize(Space::new(800, 600));
    assert_eq!(
        widget_rects(&layout),
        vec![(15, 15, 143, 143), (143, 15, 271, 143), (0, 158, 100, 600), (100, 358, 800, 600)]
    );
    let panels = layout.get_panels();
    assert_eq!(panels.len(), 1);
    assert_eq!(panels[0].space.pixel_coords, (0, 0, 800, 158));
}

#[test]
fn new_layout_is_empty_and_resizes_to_nothing() {
    let mut layout = Layout::new();
    assert!(matches!(layout, Layout::Operation { op: LayoutOperation::Nop, dir: Direction::Horizontal, sense: Sense::Forward }));
    layout.resize(Space::new(100, 100));
    assert!(layout.get_widgets().is_empty());
    assert!(layout.get_panels().is_empty());
}

#[test]
fn split_on_a_control_fails_and_keeps_the_node() {
    let mut layout = Layout::new();
    layout.set_widget(button());
    assert_eq!(layout.split(1, 2, Direction::Horizontal, Sense::Forward).err(), Some(LayoutError::NotAnOperation));
    assert_eq!(layout.trim(10, Direction::Horizontal, Sense::Forward).err(), Some(LayoutError::NotAnOperation));
    assert_eq!(layout.divide(3, Direction::Horizontal, Sense::Forward).err(), Some(LayoutError::NotAnOperation));
    assert!(matches!(layout, Layout::Control(_)));
    assert_eq!(layout.get_widgets().len(), 1);
}

#[test]
fn split_on_a_group_fails_and_keeps_the_node() {
    let mut layout = Layout::new();
    let content = layout.set_panel(5, Panel::new(Theme::new().background, None));
    content.set_widget(button());
    assert_eq!(layout.split(1, 3, Direction::Vertical, Sense::Backwards).err(), Some(LayoutError::NotAnOperation));
    assert_eq!(layout.trim(1, Direction::Vertical, Sense::Backwards).err(), Some(LayoutError::NotAnOperation));
    assert_eq!(layout.divide(1, Direction::Vertical, Sense::Backwards).err(), Some(LayoutError::NotAnOperation));
    assert!(matches!(layout, Layout::Group { span: 5, .. }));
    assert_eq!(layout.get_widgets().len(), 1);
    assert_eq!(layout.get_panels().len(), 1);
}

#[test]
fn invalid_arguments_are_refused() {
    let mut layout = Layout::new();
    assert_eq!(layout.split(0, 2, Direction::Horizontal, Sense::Forward).err(), Some(LayoutError::InvalidProportion));
    assert_eq!(layout.split(2, 2, Direction::Horizontal, Sense::Forward).err(), Some(LayoutError::InvalidProportion));
    assert_eq!(layout.split(3, 2, Direction::Horizontal, Sense::Forward).err(), Some(LayoutError::InvalidProportion));
    assert_eq!(layout.trim(0, Direction::Horizontal, Sense::Forward).err(), Some(LayoutError::NoPixels));
    assert_eq!(layout.divide(0, Direction::Horizontal, Sense::Forward).err(), Some(LayoutError::NoDivisions));
    assert!(matches!(layout, Layout::Operation { op: LayoutOperation::Nop, .. }));
    assert!(!LayoutError::NoPixels.message().is_empty());
}

#[test]
fn resplitting_discards_the_old_children() {
    let mut layout = Layout::new();
    let (a, b) = layout.split(1, 2, Direction::Horizontal, Sense::Forward).unwrap();
    a.set_widget(button());
    b.set_widget(button());
    let parts = layout.divide(3, Direction::Vertical, Sense::Forward).unwrap();
    assert_eq!(parts.len(), 3);
    parts[2].set_widget(button());
    layout.resize(Space::new(90, 90));
    assert_eq!(widget_rects(&layout), vec![(0, 60, 90, 90)]);
}

#[test]
fn divide_assigns_spaces_by_sense() {
    let mut layout = Layout::new();
    let parts = layout.divide(3, Direction::Horizontal, Sense::Backwards).unwrap();
    for p in parts.iter_mut() {
        p.set_widget(button());
    }
    layout.resize(Space::new(300, 100));
    assert_eq!(widget_rects(&layout), vec![(200, 0, 300, 100), (100, 0, 200, 100), (0, 0, 100, 100)]);
}

#[test]
fn split_assigns_spaces_in_both_senses() {
    let mut layout = Layout::new();
    let (a, b) = layout.split(1, 4, Direction::Vertical, Sense::Backwards).unwrap();
    a.set_widget(button());
    b.set_widget(button());
    layout.resize(Space::new(100, 400));
    assert_eq!(widget_rects(&layout), vec![(0, 300, 100, 400), (0, 0, 100, 300)]);
}

#[test]
fn nested_groups_give_outer_panel_first() {
    let mut layout = Layout::new();
    let outer_color = Color { r: 1, g: 1, b: 1, a: 255 };
    let inner_color = Color { r: 2, g: 2, b: 2, a: 255 };
    let outer = layout.set_panel(10, Panel::new(outer_color, None));
    let (left, right) = outer.split(1, 2, Direction::Horizontal, Sense::Backwards).unwrap();
    let inner = left.set_panel(5, Panel::new(inner_color, Some(outer_color)));
    let (x, y) = inner.trim(20, Direction::Vertical, Sense::Backwards).unwrap();
    x.set_widget(Widget::new_button(1, Theme::new()));
    y.set_widget(Widget::new_button(2, Theme::new()));
    right.set_widget(Widget::new_button(3, Theme::new()));
    layout.resize(Space::new(200, 100));
    let panels = layout.get_panels();
    assert_eq!(panels.len(), 2);
    assert_eq!(panels[0].color, outer_color);
    assert_eq!(panels[0].space.pixel_coords, (0, 0, 200, 100));
    assert_eq!(panels[1].color, inner_color);
    assert_eq!(panels[1].space.pixel_coords, (100, 10, 190, 90));
    assert_eq!(
        widget_rects(&layout),
        vec![(105, 65, 185, 85), (105, 15, 185, 65), (10, 10, 100, 90)]
    );
}

#[test]
fn resizing_twice_gives_identical_spaces() {
    let mut layout = Layout::new();
    let (a, b) = layout.split(2, 7, Direction::Horizontal, Sense::Forward).unwrap();
    let parts = a.divide(3, Direction::Vertical, Sense::Backwards).unwrap();
    for p in parts.iter_mut() {
        p.set_widget(button());
    }
    let inner = b.set_panel(9, Panel::new(Theme::new().background, None));
    let (c, d) = inner.trim(33, Direction::Horizontal, Sense::Backwards).unwrap();
    c.set_widget(button());
    d.set_widget(button());
    layout.resize(Space::new(1023, 767));
    let first: Vec<Space> = layout.get_widgets().iter().map(|w| w.space).collect();
    let first_panels: Vec<Space> = layout.get_panels().iter().map(|p| p.space).collect();
    layout.resize(Space::new(1023, 767));
    let second: Vec<Space> = layout.get_widgets().iter().map(|w| w.space).collect();
    let second_panels: Vec<Space> = layout.get_panels().iter().map(|p| p.space).collect();
    assert_eq!(first, second);
    assert_eq!(first_panels, second_panels);
    assert_eq!(first.len(), 5);
}

#[test]
fn widgets_mut_writes_reach_the_tree() {
    let mut layout = Layout::new();
    let (a, b) = layout.trim(10, Direction::Horizontal, Sense::Forward).unwrap();
    a.set_widget(button());
    let parts = b.divide(2, Direction::Horizontal, Sense::Forward).unwrap();
    parts[0].set_widget(button());
    parts[1].set_widget(button());
    {
        let mut ws = layout.get_widgets_mut();
        assert_eq!(ws.len(), 3);
        ws[1].status = WidgetStatus::Active;
        ws[2].set_space(Space::new(5, 5));
    }
    let ws = layout.get_widgets();
    assert_eq!(ws[0].status, WidgetStatus::Inactive);
    assert_eq!(ws[1].status, WidgetStatus::Active);
    assert_eq!(ws[2].space.pixel_coords, (0, 0, 5, 5));
}

#[test]
fn well_formedness_of_built_trees() {
    let mut layout = Layout::new();
    assert!(layout.is_well_formed());
    let (a, _) = layout.split(1, 2, Direction::Horizontal, Sense::Forward).unwrap();
    a.divide(2, Direction::Vertical, Sense::Forward).unwrap();
    assert!(layout.is_well_formed());
    let bad = Layout::Operation {
        op: LayoutOperation::Divide(Vec::new()),
        dir: Direction::Horizontal,
        sense: Sense::Forward,
    };
    assert!(!bad.is_well_formed());
}

#[test]
fn screen_paints_panels_then_widgets() {
    let mut screen = Screen::new(|layout: &mut Layout| {
        let (top, bottom) = layout.trim(50, Direction::Vertical, Sense::Forward).unwrap();
        top.set_widget(button());
        let content = bottom.set_panel(10, Panel::new(Theme::new().background, None));
        content.set_widget(button());
    });
    screen.resize(Space::new(200, 150));
    let drawn = screen.paint();
    assert_eq!(drawn.len(), 3);
    assert_eq!(
        drawn[0],
        DrawRectangle {
            space: Space { total: (200, 150), pixel_coords: (0, 50, 200, 150) },
            border_color: None,
            fill_color: Some(Theme::new().background),
        }
    );
    assert_eq!(drawn[1].space.pixel_coords, (0, 0, 200, 50));
    assert_eq!(drawn[1].fill_color, Some(Theme::new().inactive));
    assert_eq!(drawn[1].border_color, Some(Theme::new().border));
    assert_eq!(drawn[2].space.pixel_coords, (10, 60, 190, 140));
}

#[test]
fn screen_update_hovers_the_widget_under_the_pointer() {
    let mut screen = Screen::new(toolbar_screen);
    screen.resize(Space::new(800, 600));
    screen.update(&UpdateData { mouse_position: (130, 10), mouse_status: MouseStatus::Idle });
    let ws = screen.layout().get_widgets();
    assert_eq!(ws[0].status, WidgetStatus::Inactive);
    assert_eq!(ws[1].status, WidgetStatus::Hover);
    assert_eq!(ws[1].color_bg, Color { r: 248, g: 255, b: 255, a: 255 });
    assert_eq!(ws[0].color_bg, Color { r: 255, g: 255, b: 255, a: 255 });
    screen.update(&UpdateData { mouse_position: (128, 10), mouse_status: MouseStatus::Clicked });
    let ws = screen.layout().get_widgets();
    assert_eq!(ws[1].status, WidgetStatus::Inactive);
    assert_eq!(ws[1].color_bg, Color { r: 249, g: 255, b: 255, a: 255 });
}

#[test]
fn malformed_screen_is_left_alone_by_resize() {
    let mut screen = Screen::new(|layout: &mut Layout| {
        *layout = Layout::Operation {
            op: LayoutOperation::Trim { pixels: 0, first: Box::new(Layout::new()), second: Box::new(Layout::new()) },
            dir: Direction::Horizontal,
            sense: Sense::Forward,
        };
    });
    screen.resize(Space::new(10, 10));
    assert!(screen.paint().is_empty());
}
