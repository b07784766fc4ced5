use vstd::prelude::*;

use crate::layout::{empty_layout, lemma_update_keeps_tree, lemma_update_widgets, Layout};
use crate::space::Space;
use crate::widget::{DrawRectangle, Panel, Widget};
use crate::window::UpdateData;

verus! {

/// A screen: it owns the root of a layout tree, lays it out on the window, updates
/// its widgets each frame and says what to paint.
pub struct Screen {
    layout: Layout,
}

impl Screen {
    /// The layout tree of the screen.
    pub closed spec fn tree(self) -> Layout {
        self.layout
    }

    /// Builds the layout tree: `init_function` is called once on a fresh root and
    /// configures the whole tree.
    pub fn new<F: FnOnce(&mut Layout)>(init_function: F) -> (r: Screen)
        requires
            forall|l: &mut Layout| init_function.requires((l,)),
        ensures
            exists|l: &mut Layout| {
                &&& *l == empty_layout()
                &&& *final(l) == r.tree()
                &&& init_function.ensures((l,), ())
            },
    {
        let mut layout = Layout::new();
        let root = &mut layout;
        let ghost g = root;
        init_function(root);
        proof {
            assert(*g == empty_layout());
        }
        Screen { layout }
    }

    /// The layout tree of the screen.
    pub fn layout(&self) -> (r: &Layout)
        ensures
            *r == self.tree(),
    {
        &self.layout
    }

    /// Lays the tree out on `space`, the whole window. A tree that is not well formed
    /// (which the tree's own operations never build) is left as it is.
    pub fn resize(&mut self, space: Space)
        requires
            space.wf(),
        ensures
            old(self).tree().wf() ==> old(self).tree().resized(final(self).tree(), space) && final(self).tree().wf(),
            !old(self).tree().wf() ==> final(self).tree() == old(self).tree(),
    {
        if self.layout.is_well_formed() {
            self.layout.resize(space);
        }
    }

    /// One frame: updates every widget, in document order, with the pointer as `data`
    /// gives it. The panels do not change.
    pub fn update(&mut self, data: &UpdateData)
        ensures
            old(self).tree().updated(final(self).tree(), *data),
            final(self).tree().widgets() == old(self).tree().widgets().map_values(|w: Widget| w.updated(*data)),
            final(self).tree().panels() == old(self).tree().panels(),
            old(self).tree().wf() ==> final(self).tree().wf(),
    {
        let ghost before = self.layout;
        self.layout.update(data);
        proof {
            lemma_update_keeps_tree(before, self.layout, *data);
            lemma_update_widgets(before, self.layout, *data);
        }
    }

    /// What to paint, in order: first every panel, each group's before those inside
    /// it, then every widget in document order, so that no panel covers a widget.
    pub fn paint(&self) -> (r: Vec<DrawRectangle>)
        ensures
            r@ == self.tree().panels().map_values(|p: Panel| p.drawn()) + self.tree().widgets().map_values(
                |w: Widget| w.drawn(),
            ),
    {
        let panels = self.layout.get_panels();
        let widgets = self.layout.get_widgets();
        let ghost ps = panels@.map_values(|p: &Panel| *p);
        let ghost ws = widgets@.map_values(|w: &Widget| *w);
        let mut result: Vec<DrawRectangle> = Vec::new();
        let mut i: usize = 0;
        while i < panels.len()
            invariant
                ps == panels@.map_values(|p: &Panel| *p),
                i <= panels@.len(),
                result@ == ps.subrange(0, i as int).map_values(|p: Panel| p.drawn()),
            decreases panels@.len() - i,
        {
            result.push(panels[i].paint());
            i = i + 1;
            proof {
                assert(result@ =~= ps.subrange(0, i as int).map_values(|p: Panel| p.drawn()));
            }
        }
        proof {
            assert(ps.subrange(0, ps.len() as int) =~= ps);
        }
        let mut j: usize = 0;
        while j < widgets.len()
            invariant
                ws == widgets@.map_values(|w: &Widget| *w),
                ps == panels@.map_values(|p: &Panel| *p),
                j <= widgets@.len(),
                result@ == ps.map_values(|p: Panel| p.drawn()) + ws.subrange(0, j as int).map_values(|w: Widget| w.drawn()),
            decreases widgets@.len() - j,
        {
            result.push(widgets[j].paint());
            j = j + 1;
            proof {
                assert(result@ =~= ps.map_values(|p: Panel| p.drawn()) + ws.subrange(0, j as int).map_values(|w: Widget| w.drawn()));
            }
        }
        proof {
            assert(ws.subrange(0, ws.len() as int) =~= ws);
        }
        result
    }
}

} // verus!
