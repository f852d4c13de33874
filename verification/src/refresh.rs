//! When the preview is rendered again.

use crate::document::ViewMode;
use vstd::prelude::*;

verus! {

/// Whether the preview missed a change of the text.
#[derive(Clone, Copy, Debug, PartialEq, Eq, Structural)]
pub struct Refresh {
    /// The text changed while the preview was out of sight.
    pub dirty: bool,
}

impl Refresh {
    /// What becomes of a change of the text while the preview is in sight or not, and the tab
    /// is selected or not, and whether the preview is rendered.
    pub open spec fn after_change(self, visible: bool, selected: bool) -> (Refresh, bool) {
        (Refresh { dirty: !(visible && selected) }, visible && selected)
    }

    /// Take note of a change of the text: render the preview now, or leave it for later while
    /// it is out of sight, in the source or in a tab that is not selected.
    pub fn render_tick(&mut self, visible: bool, selected: bool) -> (render: bool)
        ensures
            (*final(self), render) == old(self).after_change(visible, selected),
    {
        self.dirty = !(visible && selected);
        visible && selected
    }

    /// What becomes of what the preview missed when its tab is selected, and whether the preview
    /// is rendered.
    pub open spec fn after_selection(self, visible: bool, selected: bool) -> (Refresh, bool) {
        if self.dirty && visible {
            self.after_change(visible, selected)
        } else {
            (self, false)
        }
    }

    /// Render what the preview missed while the tab was not selected.
    pub fn render_missed(&mut self, visible: bool, selected: bool) -> (render: bool)
        ensures
            (*final(self), render) == old(self).after_selection(visible, selected),
    {
        if self.dirty && visible {
            self.render_tick(visible, selected)
        } else {
            false
        }
    }

    /// What becomes of what the preview missed when a view is shown, and whether the preview is
    /// rendered.
    pub open spec fn after_view(self, mode: ViewMode, selected: bool) -> (Refresh, bool) {
        let render = mode != ViewMode::Edit && selected && self.dirty;
        (Refresh { dirty: self.dirty && !render }, render)
    }

    /// Render what the preview missed if the view that is shown has it in sight.
    pub fn apply_view_mode(&mut self, mode: ViewMode, selected: bool) -> (render: bool)
        ensures
            (*final(self), render) == old(self).after_view(mode, selected),
    {
        let render = mode != ViewMode::Edit && selected && self.dirty;
        if render {
            self.dirty = false;
        }
        render
    }
}

/// No change of the text is missed for good: one that the preview misses is rendered as soon as
/// the preview is in sight in the selected tab, and rendered once.
pub proof fn missed_changes_are_rendered(refresh: Refresh, mode: ViewMode)
    ensures
        refresh.after_change(false, true).0.after_view(mode, true).1 == (mode != ViewMode::Edit),
        refresh.after_change(true, false).0.after_selection(true, true).1,
        refresh.after_change(true, true).1,
        !refresh.after_change(true, true).0.after_selection(true, true).1,
        !refresh.after_change(true, true).0.after_view(mode, true).1,
{
}

}
