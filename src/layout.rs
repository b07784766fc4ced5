use vstd::prelude::*;

use crate::direction::{Direction, Sense};
use crate::space::Space;
use crate::widget::{Panel, Widget};
use crate::window::UpdateData;

verus! {

/// How an operation node divides its space.
///     * Nop: empty placeholder; only in this case is an operation node a leaf
///     * Split: two parts, the first taking `numerator / denominator` of the extent
///     * Divide: as many parts of equal extent as there are children
///     * Trim: two parts, the first `pixels` pixels long
#[derive(Debug)]
pub enum LayoutOperation {
    Nop,
    Split { numerator: u32, denominator: u32, first: Box<Layout>, second: Box<Layout> },
    Divide(Vec<Layout>),
    Trim { pixels: u32, first: Box<Layout>, second: Box<Layout> },
}

/// A node of the tree that lays out a screen.
///     * Operation: divides its space among its children
///     * Group: a panel over the whole space, with content inset by `span` pixels
///     * Control: a leaf that holds a widget
#[derive(Debug)]
pub enum Layout {
    Operation { op: LayoutOperation, dir: Direction, sense: Sense },
    Group { span: u32, panel: Panel, content: Box<Layout> },
    Control(Widget),
}

/// Why a node refused to be divided.
///     * NotAnOperation: the node is a group or a control
///     * InvalidProportion: the proportion of a split is not strictly between 0 and 1
///     * NoPixels: a trim of zero pixels
///     * NoDivisions: a division into zero parts
#[derive(Debug, Clone, Copy, PartialEq, Eq, Structural)]
pub enum LayoutError {
    NotAnOperation,
    InvalidProportion,
    NoPixels,
    NoDivisions,
}

impl LayoutError {
    /// A description of the error.
    pub fn message(&self) -> (r: &'static str) {
        match self {
            LayoutError::NotAnOperation => "Cannot be used with a item assigned to a Control",
            LayoutError::InvalidProportion => "The proportion must lie strictly between 0 and 1",
            LayoutError::NoPixels => "A trim needs at least one pixel",
            LayoutError::NoDivisions => "A division needs at least one part",
        }
    }
}

/// A fresh node: an empty operation.
pub open spec fn empty_layout() -> Layout {
    Layout::Operation { op: LayoutOperation::Nop, dir: Direction::Horizontal, sense: Sense::Forward }
}

/// Every node of `s` is fresh.
pub open spec fn all_empty(s: Seq<Layout>) -> bool {
    forall|i: int| 0 <= i < s.len() ==> #[trigger] s[i] == empty_layout()
}

/// The widgets of the nodes of `s`, one node after the other.
pub open spec fn widgets_of(s: Seq<Layout>) -> Seq<Widget>
    decreases s,
{
    if s.len() == 0 {
        Seq::empty()
    } else {
        widgets_of(s.subrange(0, s.len() - 1)) + s[s.len() - 1].widgets()
    }
}

/// The panels of the nodes of `s`, one node after the other.
pub open spec fn panels_of(s: Seq<Layout>) -> Seq<Panel>
    decreases s,
{
    if s.len() == 0 {
        Seq::empty()
    } else {
        panels_of(s.subrange(0, s.len() - 1)) + s[s.len() - 1].panels()
    }
}

/// `n` is the nodes of `c` with their widgets replaced, in order, by those of `ws`.
pub open spec fn rewidgeted_of(c: Seq<Layout>, n: Seq<Layout>, ws: Seq<Widget>) -> bool
    decreases c,
{
    &&& n.len() == c.len()
    &&& ws.len() == widgets_of(c).len()
    &&& c.len() > 0 ==> {
        let last = c.len() - 1;
        let k = widgets_of(c.subrange(0, last)).len();
        &&& rewidgeted_of(c.subrange(0, last), n.subrange(0, last), ws.subrange(0, k as int))
        &&& c[last].rewidgeted(n[last], ws.subrange(k as int, ws.len() as int))
    }
}

impl Layout {
    /// Every split has a proportion strictly between 0 and 1, every trim at least one
    /// pixel, every division at least one part.
    pub open spec fn wf(self) -> bool
        decreases self,
    {
        match self {
            Layout::Operation { op, .. } => match op {
                LayoutOperation::Nop => true,
                LayoutOperation::Split { numerator, denominator, first, second } => {
                    &&& 0 < numerator < denominator
                    &&& first.wf()
                    &&& second.wf()
                },
                LayoutOperation::Divide(children) => {
                    &&& children.len() > 0
                    &&& forall|i: int| 0 <= i < children.len() ==> (#[trigger] children@[i]).wf()
                },
                LayoutOperation::Trim { pixels, first, second } => {
                    &&& pixels > 0
                    &&& first.wf()
                    &&& second.wf()
                },
            },
            Layout::Group { content, .. } => content.wf(),
            Layout::Control(_) => true,
        }
    }

    /// The widgets of the tree, depth first, left to right in document order.
    pub open spec fn widgets(self) -> Seq<Widget>
        decreases self,
    {
        match self {
            Layout::Operation { op, .. } => match op {
                LayoutOperation::Nop => Seq::empty(),
                LayoutOperation::Split { first, second, .. } => first.widgets() + second.widgets(),
                LayoutOperation::Divide(children) => widgets_of(children@),
                LayoutOperation::Trim { first, second, .. } => first.widgets() + second.widgets(),
            },
            Layout::Group { content, .. } => content.widgets(),
            Layout::Control(w) => seq![w],
        }
    }

    /// The panels of the tree, depth first, each group's panel before the panels
    /// inside its content.
    pub open spec fn panels(self) -> Seq<Panel>
        decreases self,
    {
        match self {
            Layout::Operation { op, .. } => match op {
                LayoutOperation::Nop => Seq::empty(),
                LayoutOperation::Split { first, second, .. } => first.panels() + second.panels(),
                LayoutOperation::Divide(children) => panels_of(children@),
                LayoutOperation::Trim { first, second, .. } => first.panels() + second.panels(),
            },
            Layout::Group { panel, content, .. } => seq![panel] + content.panels(),
            Layout::Control(_) => Seq::empty(),
        }
    }

    /// `n` is this tree after a resize to `sp`: the same tree, where each control's
    /// widget has the space that its position gives, and each group's panel the whole
    /// space of the group, while the group's content gets that space shrunk by the
    /// group's span on each side.
    pub open spec fn resized(self, n: Layout, sp: Space) -> bool
        decreases self,
    {
        match self {
            Layout::Operation { op, dir, sense } => {
                &&& n matches Layout::Operation { op: nop, dir: ndir, sense: nsense }
                &&& ndir == dir
                &&& nsense == sense
                &&& match op {
                    LayoutOperation::Nop => nop is Nop,
                    LayoutOperation::Split { numerator, denominator, first, second } => {
                        let parts = sp.cut(dir, sense, sp.split_extent(dir, numerator as int, denominator as int));
                        &&& nop matches LayoutOperation::Split { numerator: nn, denominator: nd, first: nf, second: ns }
                        &&& nn == numerator
                        &&& nd == denominator
                        &&& first.resized(*nf, parts.0)
                        &&& second.resized(*ns, parts.1)
                    },
                    LayoutOperation::Divide(children) => {
                        &&& nop matches LayoutOperation::Divide(nc)
                        &&& nc.len() == children.len()
                        &&& forall|i: int| 0 <= i < children.len() ==>
                            (#[trigger] children@[i]).resized(nc@[i], sp.slice(dir, sense, children.len() as int, i))
                    },
                    LayoutOperation::Trim { pixels, first, second } => {
                        let parts = sp.cut(dir, sense, sp.trim_extent(dir, pixels as int));
                        &&& nop matches LayoutOperation::Trim { pixels: np, first: nf, second: ns }
                        &&& np == pixels
                        &&& first.resized(*nf, parts.0)
                        &&& second.resized(*ns, parts.1)
                    },
                }
            },
            Layout::Group { span, panel, content } => {
                &&& n matches Layout::Group { span: nspan, panel: npanel, content: ncontent }
                &&& nspan == span
                &&& npanel == panel.with_space(sp)
                &&& content.resized(*ncontent, sp.shrunk(span as int, span as int))
            },
            Layout::Control(w) => n == Layout::Control(w.with_space(sp)),
        }
    }

    /// `n` is this tree after one frame with the pointer as `data` gives it: the same
    /// tree, where each control's widget is updated and everything else is kept.
    pub open spec fn updated(self, n: Layout, data: UpdateData) -> bool
        decreases self,
    {
        match self {
            Layout::Operation { op, dir, sense } => {
                &&& n matches Layout::Operation { op: nop, dir: ndir, sense: nsense }
                &&& ndir == dir
                &&& nsense == sense
                &&& match op {
                    LayoutOperation::Nop => nop is Nop,
                    LayoutOperation::Split { numerator, denominator, first, second } => {
                        &&& nop matches LayoutOperation::Split { numerator: nn, denominator: nd, first: nf, second: ns }
                        &&& nn == numerator
                        &&& nd == denominator
                        &&& first.updated(*nf, data)
                        &&& second.updated(*ns, data)
                    },
                    LayoutOperation::Divide(children) => {
                        &&& nop matches LayoutOperation::Divide(nc)
                        &&& nc.len() == children.len()
                        &&& forall|i: int| 0 <= i < children.len() ==> (#[trigger] children@[i]).updated(nc@[i], data)
                    },
                    LayoutOperation::Trim { pixels, first, second } => {
                        &&& nop matches LayoutOperation::Trim { pixels: np, first: nf, second: ns }
                        &&& np == pixels
                        &&& first.updated(*nf, data)
                        &&& second.updated(*ns, data)
                    },
                }
            },
            Layout::Group { span, panel, content } => {
                &&& n matches Layout::Group { span: nspan, panel: npanel, content: ncontent }
                &&& nspan == span
                &&& npanel == panel
                &&& content.updated(*ncontent, data)
            },
            Layout::Control(w) => n == Layout::Control(w.updated(data)),
        }
    }

    /// `n` is this tree with its widgets replaced, in document order, by those of
    /// `ws`: the same tree otherwise.
    pub open spec fn rewidgeted(self, n: Layout, ws: Seq<Widget>) -> bool
        decreases self,
    {
        &&& ws.len() == self.widgets().len()
        &&& match self {
            Layout::Operation { op, dir, sense } => {
                &&& n matches Layout::Operation { op: nop, dir: ndir, sense: nsense }
                &&& ndir == dir
                &&& nsense == sense
                &&& match op {
                    LayoutOperation::Nop => nop is Nop,
                    LayoutOperation::Split { numerator, denominator, first, second } => {
                        let k = first.widgets().len();
                        &&& nop matches LayoutOperation::Split { numerator: nn, denominator: nd, first: nf, second: ns }
                        &&& nn == numerator
                        &&& nd == denominator
                        &&& first.rewidgeted(*nf, ws.subrange(0, k as int))
                        &&& second.rewidgeted(*ns, ws.subrange(k as int, ws.len() as int))
                    },
                    LayoutOperation::Divide(children) => {
                        &&& nop matches LayoutOperation::Divide(nc)
                        &&& rewidgeted_of(children@, nc@, ws)
                    },
                    LayoutOperation::Trim { pixels, first, second } => {
                        let k = first.widgets().len();
                        &&& nop matches LayoutOperation::Trim { pixels: np, first: nf, second: ns }
                        &&& np == pixels
                        &&& first.rewidgeted(*nf, ws.subrange(0, k as int))
                        &&& second.rewidgeted(*ns, ws.subrange(k as int, ws.len() as int))
                    },
                }
            },
            Layout::Group { span, panel, content } => {
                &&& n matches Layout::Group { span: nspan, panel: npanel, content: ncontent }
                &&& nspan == span
                &&& npanel == panel
                &&& content.rewidgeted(*ncontent, ws)
            },
            Layout::Control(_) => n == Layout::Control(ws[0]),
        }
    }

    /// A fresh node: an empty operation, which lays nothing out.
    pub fn new() -> (r: Layout)
        ensures
            r == empty_layout(),
            r.wf(),
    {
        Layout::Operation { op: LayoutOperation::Nop, dir: Direction::Horizontal, sense: Sense::Forward }
    }

    /// Splits this node in two along `direction`, the first part taking
    /// `numerator / denominator` of the extent measured from the end that `sense`
    /// names. Works on an operation node of any kind, whose children it discards;
    /// fails, leaving the node as it was, on a group or a control, or when the
    /// proportion is not strictly between 0 and 1. Returns the two new children.
    pub fn split(&mut self, numerator: u32, denominator: u32, direction: Direction, sense: Sense) -> (r: Result<(&mut Layout, &mut Layout), LayoutError>)
        ensures
            r is Ok <==> (*old(self) is Operation && 0 < numerator < denominator),
            r == Err::<(&mut Layout, &mut Layout), LayoutError>(LayoutError::NotAnOperation) <==> *old(self) !is Operation,
            r == Err::<(&mut Layout, &mut Layout), LayoutError>(LayoutError::InvalidProportion) <==> (*old(self) is Operation && !(0 < numerator < denominator)),
            r is Err ==> *final(self) == *old(self),
            r matches Ok((first, second)) ==> {
                &&& *first == empty_layout()
                &&& *second == empty_layout()
                &&& *final(self) == (Layout::Operation {
                    op: LayoutOperation::Split { numerator, denominator, first: Box::new(*final(first)), second: Box::new(*final(second)) },
                    dir: direction,
                    sense,
                })
            },
    {
        match self {
            Layout::Operation { op, dir, sense: my_sense } => {
                if !(0 < numerator && numerator < denominator) {
                    return Err(LayoutError::InvalidProportion);
                }
                *op = LayoutOperation::Split {
                    numerator,
                    denominator,
                    first: Box::new(Layout::new()),
                    second: Box::new(Layout::new()),
                };
                *dir = direction;
                *my_sense = sense;
                match op {
                    LayoutOperation::Split { first, second, .. } => Ok((&mut **first, &mut **second)),
                    _ => {
                        proof {
                            assert(false);
                        }
                        Err(LayoutError::NotAnOperation)
                    },
                }
            },
            _ => Err(LayoutError::NotAnOperation),
        }
    }

    /// Cuts from this node a first child `pixels` pixels long along `direction`, at
    /// the end that `sense` names; the second child takes the rest. Works on an
    /// operation node of any kind, whose children it discards; fails, leaving the node
    /// as it was, on a group or a control, or when `pixels` is 0. Returns the two new
    /// children.
    pub fn trim(&mut self, pixels: u32, direction: Direction, sense: Sense) -> (r: Result<(&mut Layout, &mut Layout), LayoutError>)
        ensures
            r is Ok <==> (*old(self) is Operation && pixels > 0),
            r == Err::<(&mut Layout, &mut Layout), LayoutError>(LayoutError::NotAnOperation) <==> *old(self) !is Operation,
            r == Err::<(&mut Layout, &mut Layout), LayoutError>(LayoutError::NoPixels) <==> (*old(self) is Operation && pixels == 0),
            r is Err ==> *final(self) == *old(self),
            r matches Ok((first, second)) ==> {
                &&& *first == empty_layout()
                &&& *second == empty_layout()
                &&& *final(self) == (Layout::Operation {
                    op: LayoutOperation::Trim { pixels, first: Box::new(*final(first)), second: Box::new(*final(second)) },
                    dir: direction,
                    sense,
                })
            },
    {
        match self {
            Layout::Operation { op, dir, sense: my_sense } => {
                if pixels == 0 {
                    return Err(LayoutError::NoPixels);
                }
                *op = LayoutOperation::Trim { pixels, first: Box::new(Layout::new()), second: Box::new(Layout::new()) };
                *dir = direction;
                *my_sense = sense;
                match op {
                    LayoutOperation::Trim { first, second, .. } => Ok((&mut **first, &mut **second)),
                    _ => {
                        proof {
                            assert(false);
                        }
                        Err(LayoutError::NotAnOperation)
                    },
                }
            },
            _ => Err(LayoutError::NotAnOperation),
        }
    }

    /// Divides this node into `divisions` children of equal extent along `direction`,
    /// counted from the end that `sense` names. Works on an operation node of any
    /// kind, whose children it discards; fails, leaving the node as it was, on a group
    /// or a control, or when `divisions` is 0. Returns the new children.
    pub fn divide(&mut self, divisions: usize, direction: Direction, sense: Sense) -> (r: Result<&mut [Layout], LayoutError>)
        ensures
            r is Ok <==> (*old(self) is Operation && divisions > 0),
            r == Err::<&mut [Layout], LayoutError>(LayoutError::NotAnOperation) <==> *old(self) !is Operation,
            r == Err::<&mut [Layout], LayoutError>(LayoutError::NoDivisions) <==> (*old(self) is Operation && divisions == 0),
            r is Err ==> *final(self) == *old(self),
            r matches Ok(children) ==> {
                &&& children@.len() == divisions
                &&& all_empty(children@)
                &&& *final(self) matches Layout::Operation { op: LayoutOperation::Divide(v), dir, sense: s }
                &&& v@ == final(children)@
                &&& dir == direction
                &&& s == sense
            },
    {
        match self {
            Layout::Operation { op, dir, sense: my_sense } => {
                if divisions == 0 {
                    return Err(LayoutError::NoDivisions);
                }
                let mut children: Vec<Layout> = Vec::new();
                let mut i: usize = 0;
                while i < divisions
                    invariant
                        i <= divisions,
                        children@.len() == i,
                        all_empty(children@),
                    decreases divisions - i,
                {
                    children.push(Layout::new());
                    i = i + 1;
                }
                *op = LayoutOperation::Divide(children);
                *dir = direction;
                *my_sense = sense;
                match op {
                    LayoutOperation::Divide(elems) => Ok(elems.as_mut_slice()),
                    _ => {
                        proof {
                            assert(false);
                        }
                        Err(LayoutError::NotAnOperation)
                    },
                }
            },
            _ => Err(LayoutError::NotAnOperation),
        }
    }

    /// Turns this node, whatever it was, into a group that paints `panel` over its
    /// whole space and insets its content by `pixels` pixels on each side. Returns
    /// the content, a fresh node.
    pub fn set_panel(&mut self, pixels: u32, panel: Panel) -> (r: &mut Layout)
        ensures
            *r == empty_layout(),
            *final(self) == (Layout::Group { span: pixels, panel, content: Box::new(*final(r)) }),
    {
        *self = Layout::Group { span: pixels, panel, content: Box::new(Layout::new()) };
        match self {
            Layout::Group { content, .. } => &mut **content,
            _ => {
                proof {
                    assert(false);
                }
                self
            },
        }
    }

    /// Turns this node, whatever it was, into a leaf that holds `widget`.
    pub fn set_widget(&mut self, widget: Widget)
        ensures
            *final(self) == Layout::Control(widget),
    {
        *self = Layout::Control(widget);
    }

    /// Lays out the tree on `space`: each operation divides its space among its
    /// children, each group gives its panel the whole space and its content the space
    /// shrunk by its span, and each control's widget takes the space that reaches it.
    pub fn resize(&mut self, space: Space)
        requires
            old(self).wf(),
            space.wf(),
        ensures
            old(self).resized(*final(self), space),
            final(self).wf(),
        decreases *old(self),
    {
        match self {
            Layout::Operation { op, dir, sense } => {
                match op {
                    LayoutOperation::Nop => {},
                    LayoutOperation::Split { numerator, denominator, first, second } => {
                        let (first_sp, second_sp) = space.split(*numerator, *denominator, *dir, *sense);
                        first.resize(first_sp);
                        second.resize(second_sp);
                    },
                    LayoutOperation::Divide(layouts) => {
                        let spaces = space.divide(layouts.len(), *dir, *sense);
                        resize_all(layouts, &spaces);
                    },
                    LayoutOperation::Trim { pixels, first, second } => {
                        let (first_sp, second_sp) = space.trim(*pixels, *dir, *sense);
                        first.resize(first_sp);
                        second.resize(second_sp);
                    },
                }
            },
            Layout::Group { span, panel, content } => {
                let content_space = space.shrink(*span, *span);
                panel.set_space(space);
                content.resize(content_space);
            },
            Layout::Control(widget) => widget.set_space(space),
        }
    }

    /// The widgets of the tree, depth first, left to right in document order
    /// whatever the direction and sense of each node.
    pub fn get_widgets(&self) -> (r: Vec<&Widget>)
        ensures
            r@.map_values(|w: &Widget| *w) == self.widgets(),
        decreases self,
    {
        match self {
            Layout::Operation { op, .. } => match op {
                LayoutOperation::Nop => {
                    let result: Vec<&Widget> = Vec::new();
                    proof {
                        assert(result@.map_values(|w: &Widget| *w) =~= self.widgets());
                    }
                    result
                },
                LayoutOperation::Split { first, second, .. } => {
                    let mut result = first.get_widgets();
                    let mut rest = second.get_widgets();
                    let ghost (a, b) = (result@, rest@);
                    result.append(&mut rest);
                    proof {
                        assert((a + b).map_values(|w: &Widget| *w) =~= a.map_values(|w: &Widget| *w) + b.map_values(|w: &Widget| *w));
                    }
                    result
                },
                LayoutOperation::Divide(layouts) => {
                    let mut result: Vec<&Widget> = Vec::new();
                    proof {
                        assert(result@.map_values(|w: &Widget| *w) =~= widgets_of(layouts@.subrange(0, 0)));
                    }
                    let mut i: usize = 0;
                    proof {
                        assert(decreases_to!(*self => *op));
                        assert(decreases_to!(*op => *layouts));
                        assert(decreases_to!(*layouts => layouts@));
                    }
                    while i < layouts.len()
                        invariant
                            decreases_to!(*self => layouts@),
                            i <= layouts@.len(),
                            result@.map_values(|w: &Widget| *w) == widgets_of(layouts@.subrange(0, i as int)),
                        decreases layouts@.len() - i,
                    {
                        proof {
                            assert(decreases_to!(layouts@ => layouts@[i as int]));
                            lemma_widgets_of_step(layouts@, i as int);
                        }
                        let mut more = layouts[i].get_widgets();
                        let ghost (a, b) = (result@, more@);
                        result.append(&mut more);
                        proof {
                            assert((a + b).map_values(|w: &Widget| *w) =~= a.map_values(|w: &Widget| *w) + b.map_values(|w: &Widget| *w));
                        }
                        i = i + 1;
                    }
                    proof {
                        assert(layouts@.subrange(0, layouts@.len() as int) == layouts@);
                    }
                    result
                },
                LayoutOperation::Trim { first, second, .. } => {
                    let mut result = first.get_widgets();
                    let mut rest = second.get_widgets();
                    let ghost (a, b) = (result@, rest@);
                    result.append(&mut rest);
                    proof {
                        assert((a + b).map_values(|w: &Widget| *w) =~= a.map_values(|w: &Widget| *w) + b.map_values(|w: &Widget| *w));
                    }
                    result
                },
            },
            Layout::Group { content, .. } => content.get_widgets(),
            Layout::Control(widget) => {
                let mut result: Vec<&Widget> = Vec::new();
                result.push(widget);
                proof {
                    assert(result@.map_values(|w: &Widget| *w) =~= self.widgets());
                }
                result
            },
        }
    }

    /// The panels of the tree, depth first, each group's panel before the panels
    /// inside its content; this is the order in which they are painted.
    pub fn get_panels(&self) -> (r: Vec<&Panel>)
        ensures
            r@.map_values(|p: &Panel| *p) == self.panels(),
        decreases self,
    {
        match self {
            Layout::Operation { op, .. } => match op {
                LayoutOperation::Nop => {
                    let result: Vec<&Panel> = Vec::new();
                    proof {
                        assert(result@.map_values(|p: &Panel| *p) =~= self.panels());
                    }
                    result
                },
                LayoutOperation::Split { first, second, .. } => {
                    let mut result = first.get_panels();
                    let mut rest = second.get_panels();
                    let ghost (a, b) = (result@, rest@);
                    result.append(&mut rest);
                    proof {
                        assert((a + b).map_values(|p: &Panel| *p) =~= a.map_values(|p: &Panel| *p) + b.map_values(|p: &Panel| *p));
                    }
                    result
                },
                LayoutOperation::Divide(layouts) => {
                    let mut result: Vec<&Panel> = Vec::new();
                    proof {
                        assert(result@.map_values(|p: &Panel| *p) =~= panels_of(layouts@.subrange(0, 0)));
                    }
                    let mut i: usize = 0;
                    proof {
                        assert(decreases_to!(*self => *op));
                        assert(decreases_to!(*op => *layouts));
                        assert(decreases_to!(*layouts => layouts@));
                    }
                    while i < layouts.len()
                        invariant
                            decreases_to!(*self => layouts@),
                            i <= layouts@.len(),
                            result@.map_values(|p: &Panel| *p) == panels_of(layouts@.subrange(0, i as int)),
                        decreases layouts@.len() - i,
                    {
                        proof {
                            assert(decreases_to!(layouts@ => layouts@[i as int]));
                            lemma_panels_of_step(layouts@, i as int);
                        }
                        let mut more = layouts[i].get_panels();
                        let ghost (a, b) = (result@, more@);
                        result.append(&mut more);
                        proof {
                            assert((a + b).map_values(|p: &Panel| *p) =~= a.map_values(|p: &Panel| *p) + b.map_values(|p: &Panel| *p));
                        }
                        i = i + 1;
                    }
                    proof {
                        assert(layouts@.subrange(0, layouts@.len() as int) == layouts@);
                    }
                    result
                },
                LayoutOperation::Trim { first, second, .. } => {
                    let mut result = first.get_panels();
                    let mut rest = second.get_panels();
                    let ghost (a, b) = (result@, rest@);
                    result.append(&mut rest);
                    proof {
                        assert((a + b).map_values(|p: &Panel| *p) =~= a.map_values(|p: &Panel| *p) + b.map_values(|p: &Panel| *p));
                    }
                    result
                },
            },
            Layout::Group { panel, content, .. } => {
                let mut result: Vec<&Panel> = Vec::new();
                result.push(panel);
                let mut rest = content.get_panels();
                let ghost (a, b) = (result@, rest@);
                result.append(&mut rest);
                proof {
                    assert((a + b).map_values(|p: &Panel| *p) =~= a.map_values(|p: &Panel| *p) + b.map_values(|p: &Panel| *p));
                    assert(a.map_values(|p: &Panel| *p) =~= seq![*panel]);
                }
                result
            },
            Layout::Control(_) => {
                let result: Vec<&Panel> = Vec::new();
                proof {
                    assert(result@.map_values(|p: &Panel| *p) =~= self.panels());
                }
                result
            },
        }
    }

    /// Whether every split has a proportion strictly between 0 and 1, every trim at
    /// least one pixel and every division at least one part.
    pub fn is_well_formed(&self) -> (r: bool)
        ensures
            r == self.wf(),
        decreases self,
    {
        match self {
            Layout::Operation { op, .. } => match op {
                LayoutOperation::Nop => true,
                LayoutOperation::Split { numerator, denominator, first, second } => {
                    0 < *numerator && *numerator < *denominator && first.is_well_formed() && second.is_well_formed()
                },
                LayoutOperation::Divide(layouts) => {
                    if layouts.len() == 0 {
                        return false;
                    }
                    proof {
                        assert(decreases_to!(*self => *op));
                        assert(decreases_to!(*op => *layouts));
                        assert(decreases_to!(*layouts => layouts@));
                    }
                    let mut i: usize = 0;
                    while i < layouts.len()
                        invariant
                            decreases_to!(*self => layouts@),
                            self.wf() == (forall|j: int| 0 <= j < layouts@.len() ==> (#[trigger] layouts@[j]).wf()),
                            i <= layouts@.len(),
                            forall|j: int| 0 <= j < i ==> (#[trigger] layouts@[j]).wf(),
                        decreases layouts@.len() - i,
                    {
                        proof {
                            assert(decreases_to!(layouts@ => layouts@[i as int]));
                        }
                        if !layouts[i].is_well_formed() {
                            return false;
                        }
                        i = i + 1;
                    }
                    true
                },
                LayoutOperation::Trim { pixels, first, second } => {
                    *pixels > 0 && first.is_well_formed() && second.is_well_formed()
                },
            },
            Layout::Group { content, .. } => content.is_well_formed(),
            Layout::Control(_) => true,
        }
    }

    /// One frame: updates every widget of the tree with the pointer as `data` gives
    /// it, in document order.
    pub fn update(&mut self, data: &UpdateData)
        ensures
            old(self).updated(*final(self), *data),
        decreases *old(self),
    {
        match self {
            Layout::Operation { op, .. } => {
                match op {
                    LayoutOperation::Nop => {},
                    LayoutOperation::Split { first, second, .. } => {
                        first.update(data);
                        second.update(data);
                    },
                    LayoutOperation::Divide(layouts) => {
                        update_all(layouts, data);
                    },
                    LayoutOperation::Trim { first, second, .. } => {
                        first.update(data);
                        second.update(data);
                    },
                }
            },
            Layout::Group { content, .. } => {
                content.update(data);
            },
            Layout::Control(widget) => widget.update(data),
        }
    }

    /// Mutable access to the widgets of the tree, depth first, left to right in
    /// document order. Whatever is written through them is what the tree holds
    /// afterwards, in the same places.
    pub fn get_widgets_mut(&mut self) -> (r: Vec<&mut Widget>)
        ensures
            r@.map_values(|w: &mut Widget| *w) == old(self).widgets(),
            old(self).rewidgeted(*final(self), r@.map_values(|w: &mut Widget| *final(w))),
        decreases *old(self),
    {
        match self {
            Layout::Operation { op, .. } => match op {
                LayoutOperation::Nop => {
                    let result: Vec<&mut Widget> = Vec::new();
                    proof {
                        assert(result@.map_values(|w: &mut Widget| *w) =~= Seq::<Widget>::empty());
                        assert(result@.map_values(|w: &mut Widget| *final(w)) =~= Seq::<Widget>::empty());
                    }
                    result
                },
                LayoutOperation::Split { first, second, .. } => {
                    let mut result = first.get_widgets_mut();
                    let mut rest = second.get_widgets_mut();
                    let ghost (a, b) = (result@, rest@);
                    result.append(&mut rest);
                    proof {
                        lemma_concat_mut_refs(a, b);
                        lemma_split_mut_refs(a, b);
                    }
                    result
                },
                LayoutOperation::Divide(layouts) => widgets_mut_of(layouts.as_mut_slice()),
                LayoutOperation::Trim { first, second, .. } => {
                    let mut result = first.get_widgets_mut();
                    let mut rest = second.get_widgets_mut();
                    let ghost (a, b) = (result@, rest@);
                    result.append(&mut rest);
                    proof {
                        lemma_concat_mut_refs(a, b);
                        lemma_split_mut_refs(a, b);
                    }
                    result
                },
            },
            Layout::Group { content, .. } => content.get_widgets_mut(),
            Layout::Control(widget) => {
                let ghost current = *widget;
                let mut result: Vec<&mut Widget> = Vec::new();
                result.push(widget);
                proof {
                    assert(result@.map_values(|w: &mut Widget| *w) =~= seq![current]);
                }
                result
            },
        }
    }
}

/// Lays out each node of `layouts` on the space of the same index.
fn resize_all(layouts: &mut Vec<Layout>, spaces: &Vec<Space>)
    requires
        old(layouts)@.len() == spaces@.len(),
        forall|i: int| 0 <= i < old(layouts)@.len() ==> (#[trigger] old(layouts)@[i]).wf(),
        forall|i: int| 0 <= i < spaces@.len() ==> (#[trigger] spaces@[i]).wf(),
    ensures
        final(layouts)@.len() == old(layouts)@.len(),
        forall|i: int| 0 <= i < old(layouts)@.len() ==> (#[trigger] old(layouts)@[i]).resized(final(layouts)@[i], spaces@[i]),
        forall|i: int| 0 <= i < old(layouts)@.len() ==> (#[trigger] final(layouts)@[i]).wf(),
    decreases old(layouts)@,
{
    let ghost start = layouts@;
    let mut i: usize = 0;
    while i < layouts.len()
        invariant
            start == old(layouts)@,
            layouts@.len() == start.len(),
            start.len() == spaces@.len(),
            i <= start.len(),
            forall|j: int| 0 <= j < start.len() ==> (#[trigger] start[j]).wf(),
            forall|j: int| 0 <= j < spaces@.len() ==> (#[trigger] spaces@[j]).wf(),
            forall|j: int| 0 <= j < i ==> (#[trigger] start[j]).resized(layouts@[j], spaces@[j]),
            forall|j: int| 0 <= j < i ==> (#[trigger] layouts@[j]).wf(),
            forall|j: int| i <= j < start.len() ==> #[trigger] layouts@[j] == start[j],
        decreases start.len() - i,
    {
        proof {
            assert(decreases_to!(start => start[i as int]));
        }
        layouts[i].resize(spaces[i]);
        i = i + 1;
    }
}

/// Updates each node of `layouts` with the pointer as `data` gives it.
fn update_all(layouts: &mut Vec<Layout>, data: &UpdateData)
    ensures
        final(layouts)@.len() == old(layouts)@.len(),
        forall|i: int| 0 <= i < old(layouts)@.len() ==> (#[trigger] old(layouts)@[i]).updated(final(layouts)@[i], *data),
    decreases old(layouts)@,
{
    let ghost start = layouts@;
    let mut i: usize = 0;
    while i < layouts.len()
        invariant
            start == old(layouts)@,
            layouts@.len() == start.len(),
            i <= start.len(),
            forall|j: int| 0 <= j < i ==> (#[trigger] start[j]).updated(layouts@[j], *data),
            forall|j: int| i <= j < start.len() ==> #[trigger] layouts@[j] == start[j],
        decreases start.len() - i,
    {
        proof {
            assert(decreases_to!(start => start[i as int]));
        }
        layouts[i].update(data);
        i = i + 1;
    }
}

/// Mutable access to the widgets of the nodes of `s`, one node after the other.
fn widgets_mut_of(s: &mut [Layout]) -> (r: Vec<&mut Widget>)
    ensures
        r@.map_values(|w: &mut Widget| *w) == widgets_of(old(s)@),
        rewidgeted_of(old(s)@, final(s)@, r@.map_values(|w: &mut Widget| *final(w))),
    decreases old(s)@,
{
    let len = s.len();
    if len == 0 {
        let result: Vec<&mut Widget> = Vec::new();
        proof {
            assert(result@.map_values(|w: &mut Widget| *w) =~= Seq::<Widget>::empty());
            assert(result@.map_values(|w: &mut Widget| *final(w)) =~= Seq::<Widget>::empty());
        }
        return result;
    }
    let ghost fs = final(s)@;
    let (init, rest) = s.split_at_mut(len - 1);
    let ghost fi = final(init)@;
    let ghost ii = init@;
    proof {
        assert(decreases_to!(old(s)@ => old(s)@.subrange(0, len - 1)));
        assert(decreases_to!(old(s)@ => old(s)@[len - 1]));
    }
    let mut result = widgets_mut_of(init);
    match rest.first_mut() {
        Some(last) => {
            let ghost fl = *final(last);
            let mut more = last.get_widgets_mut();
            let ghost (a, b) = (result@, more@);
            result.append(&mut more);
            proof {
                lemma_concat_mut_refs(a, b);
                lemma_split_mut_refs(a, b);
                assert(fs.subrange(0, len - 1) =~= fi);
                assert(fs[len - 1] == fl);
                assert(old(s)@.subrange(0, len - 1) =~= ii);
            }
            result
        },
        None => {
            proof {
                assert(false);
            }
            result
        },
    }
}

/// Putting two sequences of mutable references end to end puts their current
/// values, and their final values, end to end.
proof fn lemma_concat_mut_refs(a: Seq<&mut Widget>, b: Seq<&mut Widget>)
    ensures
        (a + b).map_values(|w: &mut Widget| *w) == a.map_values(|w: &mut Widget| *w) + b.map_values(|w: &mut Widget| *w),
        (a + b).map_values(|w: &mut Widget| *final(w)) == a.map_values(|w: &mut Widget| *final(w)) + b.map_values(
            |w: &mut Widget| *final(w),
        ),
{
    assert((a + b).map_values(|w: &mut Widget| *w) =~= a.map_values(|w: &mut Widget| *w) + b.map_values(|w: &mut Widget| *w));
    assert((a + b).map_values(|w: &mut Widget| *final(w)) =~= a.map_values(|w: &mut Widget| *final(w)) + b.map_values(
        |w: &mut Widget| *final(w),
    ));
}

/// The final values of two sequences of mutable references put end to end give back
/// each sequence's final values as the matching part.
proof fn lemma_split_mut_refs(a: Seq<&mut Widget>, b: Seq<&mut Widget>)
    ensures
        ({
            let fa = a.map_values(|w: &mut Widget| *final(w));
            let fb = b.map_values(|w: &mut Widget| *final(w));
            &&& (fa + fb).subrange(0, a.len() as int) == fa
            &&& (fa + fb).subrange(a.len() as int, (a.len() + b.len()) as int) == fb
        }),
{
    let fa = a.map_values(|w: &mut Widget| *final(w));
    let fb = b.map_values(|w: &mut Widget| *final(w));
    assert((fa + fb).subrange(0, a.len() as int) =~= fa);
    assert((fa + fb).subrange(a.len() as int, (a.len() + b.len()) as int) =~= fb);
}

/// The widgets of the first `i + 1` nodes of `s` are those of the first `i` nodes,
/// then those of node `i`.
proof fn lemma_widgets_of_step(s: Seq<Layout>, i: int)
    requires
        0 <= i < s.len(),
    ensures
        widgets_of(s.subrange(0, i + 1)) == widgets_of(s.subrange(0, i)) + s[i].widgets(),
{
    assert(s.subrange(0, i + 1).subrange(0, i) == s.subrange(0, i));
}

/// The panels of the first `i + 1` nodes of `s` are those of the first `i` nodes,
/// then those of node `i`.
proof fn lemma_panels_of_step(s: Seq<Layout>, i: int)
    requires
        0 <= i < s.len(),
    ensures
        panels_of(s.subrange(0, i + 1)) == panels_of(s.subrange(0, i)) + s[i].panels(),
{
    assert(s.subrange(0, i + 1).subrange(0, i) == s.subrange(0, i));
}

/// Nodes with the same widgets, one by one, have the same widgets in all.
proof fn lemma_widgets_of_congruent(a: Seq<Layout>, b: Seq<Layout>)
    requires
        a.len() == b.len(),
        forall|i: int| 0 <= i < a.len() ==> (#[trigger] a[i]).widgets() == b[i].widgets(),
    ensures
        widgets_of(a) == widgets_of(b),
    decreases a.len(),
{
    if a.len() > 0 {
        lemma_widgets_of_congruent(a.subrange(0, a.len() - 1), b.subrange(0, b.len() - 1));
    }
}

/// Nodes with the same panels, one by one, have the same panels in all.
proof fn lemma_panels_of_congruent(a: Seq<Layout>, b: Seq<Layout>)
    requires
        a.len() == b.len(),
        forall|i: int| 0 <= i < a.len() ==> (#[trigger] a[i]).panels() == b[i].panels(),
    ensures
        panels_of(a) == panels_of(b),
    decreases a.len(),
{
    if a.len() > 0 {
        lemma_panels_of_congruent(a.subrange(0, a.len() - 1), b.subrange(0, b.len() - 1));
    }
}

/// Resizing is idempotent: a tree resized to `sp` and then resized to `sp` again has
/// exactly the same widgets and panels, spaces included, as after the first resize.
pub proof fn lemma_resize_idempotent(l0: Layout, l1: Layout, l2: Layout, sp: Space)
    requires
        l0.resized(l1, sp),
        l1.resized(l2, sp),
    ensures
        l2.widgets() == l1.widgets(),
        l2.panels() == l1.panels(),
    decreases l0,
{
    match l0 {
        Layout::Operation { op, dir, sense } => {
            match (op, l1, l2) {
                (
                    LayoutOperation::Split { numerator, denominator, first, second },
                    Layout::Operation { op: LayoutOperation::Split { first: f1, second: s1, .. }, .. },
                    Layout::Operation { op: LayoutOperation::Split { first: f2, second: s2, .. }, .. },
                ) => {
                    let parts = sp.cut(dir, sense, sp.split_extent(dir, numerator as int, denominator as int));
                    lemma_resize_idempotent(*first, *f1, *f2, parts.0);
                    lemma_resize_idempotent(*second, *s1, *s2, parts.1);
                },
                (
                    LayoutOperation::Trim { pixels, first, second },
                    Layout::Operation { op: LayoutOperation::Trim { first: f1, second: s1, .. }, .. },
                    Layout::Operation { op: LayoutOperation::Trim { first: f2, second: s2, .. }, .. },
                ) => {
                    let parts = sp.cut(dir, sense, sp.trim_extent(dir, pixels as int));
                    lemma_resize_idempotent(*first, *f1, *f2, parts.0);
                    lemma_resize_idempotent(*second, *s1, *s2, parts.1);
                },
                (
                    LayoutOperation::Divide(c0),
                    Layout::Operation { op: LayoutOperation::Divide(c1), .. },
                    Layout::Operation { op: LayoutOperation::Divide(c2), .. },
                ) => {
                    let n = c0.len() as int;
                    assert forall|i: int| 0 <= i < n implies {
                        &&& (#[trigger] c2@[i]).widgets() == c1@[i].widgets()
                        &&& c2@[i].panels() == c1@[i].panels()
                    } by {
                        assert(decreases_to!(c0 => c0@[i]));
                        lemma_resize_idempotent(c0@[i], c1@[i], c2@[i], sp.slice(dir, sense, n, i));
                    }
                    lemma_widgets_of_congruent(c2@, c1@);
                    lemma_panels_of_congruent(c2@, c1@);
                },
                _ => {},
            }
        },
        Layout::Group { span, panel, content } => {
            match (l1, l2) {
                (Layout::Group { content: c1, .. }, Layout::Group { content: c2, .. }) => {
                    lemma_resize_idempotent(*content, *c1, *c2, sp.shrunk(span as int, span as int));
                },
                _ => {},
            }
        },
        Layout::Control(_) => {},
    }
}

/// The order in which widgets and panels are collected follows the tree alone: the
/// direction and sense of an operation node, which only place its children, do not
/// change it.
pub proof fn lemma_order_ignores_geometry(op: LayoutOperation, d1: Direction, s1: Sense, d2: Direction, s2: Sense)
    ensures
        (Layout::Operation { op, dir: d1, sense: s1 }).widgets() == (Layout::Operation { op, dir: d2, sense: s2 }).widgets(),
        (Layout::Operation { op, dir: d1, sense: s1 }).panels() == (Layout::Operation { op, dir: d2, sense: s2 }).panels(),
{
}

/// A group's panel comes before every panel inside its content, which follow in
/// their own order; the group's widgets are those of its content.
pub proof fn lemma_group_panel_first(span: u32, panel: Panel, content: Layout)
    ensures
        (Layout::Group { span, panel, content: Box::new(content) }).panels() == seq![panel] + content.panels(),
        (Layout::Group { span, panel, content: Box::new(content) }).panels()[0] == panel,
        (Layout::Group { span, panel, content: Box::new(content) }).widgets() == content.widgets(),
{
}

/// An update keeps a well-formed tree well formed and keeps its panels.
pub proof fn lemma_update_keeps_tree(o: Layout, n: Layout, data: UpdateData)
    requires
        o.updated(n, data),
    ensures
        o.wf() ==> n.wf(),
        n.panels() == o.panels(),
    decreases o,
{
    match o {
        Layout::Operation { op, .. } => {
            match (op, n) {
                (
                    LayoutOperation::Split { first, second, .. },
                    Layout::Operation { op: LayoutOperation::Split { first: nf, second: ns, .. }, .. },
                ) => {
                    lemma_update_keeps_tree(*first, *nf, data);
                    lemma_update_keeps_tree(*second, *ns, data);
                },
                (
                    LayoutOperation::Trim { first, second, .. },
                    Layout::Operation { op: LayoutOperation::Trim { first: nf, second: ns, .. }, .. },
                ) => {
                    lemma_update_keeps_tree(*first, *nf, data);
                    lemma_update_keeps_tree(*second, *ns, data);
                },
                (LayoutOperation::Divide(c), Layout::Operation { op: LayoutOperation::Divide(nc), .. }) => {
                    assert forall|i: int| #![trigger c@[i]] #![trigger nc@[i]] 0 <= i < c.len() implies {
                        &&& c@[i].wf() ==> nc@[i].wf()
                        &&& nc@[i].panels() == c@[i].panels()
                    } by {
                        assert(decreases_to!(c => c@[i]));
                        lemma_update_keeps_tree(c@[i], nc@[i], data);
                    }
                    lemma_panels_of_congruent(nc@, c@);
                },
                _ => {},
            }
        },
        Layout::Group { content, .. } => {
            match n {
                Layout::Group { content: nc, .. } => {
                    lemma_update_keeps_tree(*content, *nc, data);
                },
                _ => {},
            }
        },
        Layout::Control(w) => {},
    }
}

/// An update updates each widget of the tree in place, in document order.
pub proof fn lemma_update_widgets(o: Layout, n: Layout, data: UpdateData)
    requires
        o.updated(n, data),
    ensures
        n.widgets() == o.widgets().map_values(|w: Widget| w.updated(data)),
    decreases o,
{
    match o {
        Layout::Operation { op, .. } => {
            match (op, n) {
                (
                    LayoutOperation::Split { first, second, .. },
                    Layout::Operation { op: LayoutOperation::Split { first: nf, second: ns, .. }, .. },
                ) => {
                    lemma_update_widgets(*first, *nf, data);
                    lemma_update_widgets(*second, *ns, data);
                    assert(n.widgets() =~= o.widgets().map_values(|w: Widget| w.updated(data)));
                },
                (
                    LayoutOperation::Trim { first, second, .. },
                    Layout::Operation { op: LayoutOperation::Trim { first: nf, second: ns, .. }, .. },
                ) => {
                    lemma_update_widgets(*first, *nf, data);
                    lemma_update_widgets(*second, *ns, data);
                    assert(n.widgets() =~= o.widgets().map_values(|w: Widget| w.updated(data)));
                },
                (LayoutOperation::Divide(c), Layout::Operation { op: LayoutOperation::Divide(nc), .. }) => {
                    assert forall|i: int| 0 <= i < c.len() implies
                        (#[trigger] nc@[i]).widgets() == c@[i].widgets().map_values(|w: Widget| w.updated(data)) by {
                        assert(decreases_to!(c => c@[i]));
                        lemma_update_widgets(c@[i], nc@[i], data);
                    }
                    lemma_widgets_of_updated(c@, nc@, data);
                },
                _ => {
                    assert(n.widgets() =~= o.widgets().map_values(|w: Widget| w.updated(data)));
                },
            }
        },
        Layout::Group { content, .. } => {
            match n {
                Layout::Group { content: nc, .. } => {
                    lemma_update_widgets(*content, *nc, data);
                },
                _ => {},
            }
        },
        Layout::Control(w) => {
            assert(n.widgets() =~= o.widgets().map_values(|w: Widget| w.updated(data)));
        },
    }
}

/// Nodes whose widgets are updated one by one have, in all, their widgets updated.
proof fn lemma_widgets_of_updated(a: Seq<Layout>, b: Seq<Layout>, data: UpdateData)
    requires
        a.len() == b.len(),
        forall|i: int| 0 <= i < a.len() ==> (#[trigger] b[i]).widgets() == a[i].widgets().map_values(|w: Widget| w.updated(data)),
    ensures
        widgets_of(b) == widgets_of(a).map_values(|w: Widget| w.updated(data)),
    decreases a.len(),
{
    if a.len() > 0 {
        let k = a.len() - 1;
        assert forall|i: int| 0 <= i < k implies (#[trigger] b.subrange(0, k)[i]).widgets() == a.subrange(0, k)[i].widgets().map_values(|w: Widget| w.updated(data)) by {
            assert(b.subrange(0, k)[i] == b[i]);
            assert(a.subrange(0, k)[i] == a[i]);
        }
        lemma_widgets_of_updated(a.subrange(0, k), b.subrange(0, k), data);
        assert(widgets_of(b) =~= widgets_of(a).map_values(|w: Widget| w.updated(data)));
    }
}

/// After writes through `get_widgets_mut`, the tree's widgets are exactly what was
/// written, in the same order; its panels are unchanged and a well-formed tree stays
/// well formed.
pub proof fn lemma_rewidgeted(o: Layout, n: Layout, ws: Seq<Widget>)
    requires
        o.rewidgeted(n, ws),
    ensures
        n.widgets() == ws,
        n.panels() == o.panels(),
        o.wf() ==> n.wf(),
    decreases o,
{
    match o {
        Layout::Operation { op, .. } => {
            match (op, n) {
                (
                    LayoutOperation::Split { first, second, .. },
                    Layout::Operation { op: LayoutOperation::Split { first: nf, second: ns, .. }, .. },
                ) => {
                    let k = first.widgets().len() as int;
                    lemma_rewidgeted(*first, *nf, ws.subrange(0, k));
                    lemma_rewidgeted(*second, *ns, ws.subrange(k, ws.len() as int));
                    assert(ws =~= ws.subrange(0, k) + ws.subrange(k, ws.len() as int));
                },
                (
                    LayoutOperation::Trim { first, second, .. },
                    Layout::Operation { op: LayoutOperation::Trim { first: nf, second: ns, .. }, .. },
                ) => {
                    let k = first.widgets().len() as int;
                    lemma_rewidgeted(*first, *nf, ws.subrange(0, k));
                    lemma_rewidgeted(*second, *ns, ws.subrange(k, ws.len() as int));
                    assert(ws =~= ws.subrange(0, k) + ws.subrange(k, ws.len() as int));
                },
                (LayoutOperation::Divide(c), Layout::Operation { op: LayoutOperation::Divide(nc), .. }) => {
                    assert(decreases_to!(c => c@));
                    lemma_rewidgeted_of(c@, nc@, ws);
                    if o.wf() {
                        assert forall|i: int| 0 <= i < nc.len() implies (#[trigger] nc@[i]).wf() by {
                            assert(c@[i].wf());
                        }
                    }
                },
                _ => {
                    assert(n.widgets() =~= ws);
                },
            }
        },
        Layout::Group { content, .. } => {
            match n {
                Layout::Group { content: nc, .. } => {
                    lemma_rewidgeted(*content, *nc, ws);
                },
                _ => {},
            }
        },
        Layout::Control(_) => {
            assert(n.widgets() =~= ws);
        },
    }
}

/// The same as `lemma_rewidgeted`, for the children of a division.
proof fn lemma_rewidgeted_of(c: Seq<Layout>, n: Seq<Layout>, ws: Seq<Widget>)
    requires
        rewidgeted_of(c, n, ws),
    ensures
        n.len() == c.len(),
        widgets_of(n) == ws,
        panels_of(n) == panels_of(c),
        forall|i: int| #![trigger c[i]] #![trigger n[i]] 0 <= i < c.len() ==> c[i].wf() ==> n[i].wf(),
    decreases c,
{
    if c.len() > 0 {
        let last = c.len() - 1;
        let k = widgets_of(c.subrange(0, last)).len() as int;
        assert(decreases_to!(c => c.subrange(0, last)));
        assert(decreases_to!(c => c[last]));
        lemma_rewidgeted_of(c.subrange(0, last), n.subrange(0, last), ws.subrange(0, k));
        lemma_rewidgeted(c[last], n[last], ws.subrange(k, ws.len() as int));
        assert(ws =~= ws.subrange(0, k) + ws.subrange(k, ws.len() as int));
        assert forall|i: int| #![trigger c[i]] #![trigger n[i]] 0 <= i < c.len() && c[i].wf() implies n[i].wf() by {
            if i < last {
                assert(c.subrange(0, last)[i] == c[i]);
                assert(n.subrange(0, last)[i] == n[i]);
            }
        }
    } else {
        assert(ws =~= Seq::<Widget>::empty());
    }
}

} // verus!
