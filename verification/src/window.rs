//! A window: how it closes, its folder and its sidebar, and the view its documents take.

use crate::document::{ViewMode, Views};
use vstd::prelude::*;

verus! {

/// A window.
#[derive(Clone, Copy, Debug, PartialEq, Eq, Structural)]
pub struct Window {
    /// The window closes the next time it is asked to.
    pub closing: bool,
    /// The window's documents are being closed one after the other.
    pub closing_all: bool,
    /// The window shows a folder.
    pub has_folder: bool,
    /// The window is too narrow for the split view.
    pub narrow: bool,
    pub focus_mode: bool,
    /// The sidebar is shown.
    pub sidebar: bool,
    /// The sidebar was shown when focus mode was entered.
    pub sidebar_before_focus: bool,
    /// The folder is being read.
    pub scanning: bool,
    /// The folder is to be read again once that is done.
    pub rescan: bool,
}

/// What is done when a window is asked to close.
#[derive(Clone, Copy, Debug, PartialEq, Eq, Structural)]
pub enum CloseStep {
    /// The window closes.
    Close,
    /// The next document closes, asking about its unsaved changes.
    CloseNext,
    /// Nothing more.
    Wait,
}

impl Window {
    /// A new window.
    pub open spec fn fresh() -> Window {
        Window {
            closing: false,
            closing_all: false,
            has_folder: false,
            narrow: false,
            focus_mode: false,
            sidebar: false,
            sidebar_before_focus: false,
            scanning: false,
            rescan: false,
        }
    }

    /// A new window.
    pub fn new() -> (window: Self)
        ensures
            window == Window::fresh(),
    {
        Window {
            closing: false,
            closing_all: false,
            has_folder: false,
            narrow: false,
            focus_mode: false,
            sidebar: false,
            sidebar_before_focus: false,
            scanning: false,
            rescan: false,
        }
    }

    /// What a window with so many documents becomes and does when it is asked to close.
    pub open spec fn asked(self, pages: int) -> (Window, CloseStep) {
        if self.closing || pages == 0 {
            (self, CloseStep::Close)
        } else if self.closing_all {
            (self, CloseStep::Wait)
        } else {
            (Window { closing_all: true, ..self }, CloseStep::CloseNext)
        }
    }

    /// Closing closes the documents one by one, each asking about its unsaved changes, and
    /// closes the window again once none is left.
    pub fn close_request(&mut self, pages: usize) -> (step: CloseStep)
        ensures
            (*final(self), step) == old(self).asked(pages as int),
    {
        if self.closing || pages == 0 {
            CloseStep::Close
        } else if self.closing_all {
            CloseStep::Wait
        } else {
            self.closing_all = true;
            CloseStep::CloseNext
        }
    }

    /// What a window becomes and does once a document was asked whether it may close, with so
    /// many documents left.
    pub open spec fn answered(self, close: bool, pages: int) -> (Window, CloseStep) {
        if !close {
            (Window { closing_all: false, ..self }, CloseStep::Wait)
        } else if self.closing_all && pages > 0 {
            (self, CloseStep::CloseNext)
        } else {
            (self, CloseStep::Wait)
        }
    }

    /// Take note of whether a document may close, with so many documents left. Cancelling one
    /// question stops there, with the documents not yet closed still open.
    pub fn document_answered(&mut self, close: bool, pages: usize) -> (step: CloseStep)
        ensures
            (*final(self), step) == old(self).answered(close, pages as int),
    {
        if !close {
            self.closing_all = false;
            CloseStep::Wait
        } else if self.closing_all && pages > 0 {
            CloseStep::CloseNext
        } else {
            CloseStep::Wait
        }
    }

    /// What a window becomes when a document left it, with so many left.
    pub open spec fn left(self, pages: int) -> Window {
        Window {
            closing: self.closing || (pages == 0 && (!self.has_folder || self.closing_all)),
            ..self
        }
    }

    /// Take note that a document was closed or went to another window, and say whether the
    /// window closes. A window with a folder stays for the next file from it, unless it is
    /// closing.
    pub fn page_detached(&mut self, pages: usize) -> (close: bool)
        ensures
            *final(self) == old(self).left(pages as int),
            close == (pages == 0 && (!old(self).has_folder || old(self).closing_all)),
    {
        let close = pages == 0 && (!self.has_folder || self.closing_all);
        if close {
            self.closing = true;
        }
        close
    }

    /// Whether a blank document made for a file that failed to open is closed, and with it its
    /// window when it has no other tab. The last window of the application stays.
    pub fn discards_blank(&self, pages: usize, windows: usize) -> (discard: bool)
        ensures
            discard == (pages > 1 || self.has_folder || windows > 1),
    {
        pages > 1 || self.has_folder || windows > 1
    }

    /// Whether a tab can be moved to a window of its own: a window's only document already is in
    /// one, unless the window stays for its folder.
    pub fn can_move_tab(&self, pages: usize) -> (can: bool)
        ensures
            can == (pages > 1 || self.has_folder),
    {
        pages > 1 || self.has_folder
    }
}

/// A window with `pages` documents that is closing, and how many are left, once the first of
/// them have answered whether they may close.
pub open spec fn close_documents(window: Window, pages: int, answers: Seq<bool>) -> (Window, int)
    decreases answers.len(),
{
    if answers.len() == 0 || pages <= 0 {
        (window, pages)
    } else {
        let left = if answers[0] {
            pages - 1
        } else {
            pages
        };
        let detached = if answers[0] {
            window.left(left)
        } else {
            window
        };
        let (next, step) = detached.answered(answers[0], left);
        if step == CloseStep::CloseNext {
            close_documents(next, left, answers.skip(1))
        } else {
            (next, left)
        }
    }
}

/// How many documents close before one may not.
pub open spec fn closed_first(answers: Seq<bool>) -> int
    decreases answers.len(),
{
    if answers.len() == 0 || !answers[0] {
        0
    } else {
        1 + closed_first(answers.skip(1))
    }
}

/// Closing a window closes its documents one after the other up to the first that may not
/// close, and the window closes only once none is left; a refusal leaves it open, with the rest.
pub proof fn windows_close_when_all_documents_do(window: Window, pages: int, answers: Seq<bool>)
    requires
        !window.closing,
        window.closing_all,
        pages > 0,
        answers.len() == pages,
    ensures
        ({
            let (next, left) = close_documents(window, pages, answers);
            &&& left == pages - closed_first(answers)
            &&& next.closing <==> left == 0
            &&& left > 0 ==> !next.closing_all
            &&& next.asked(left).1 == CloseStep::Close <==> left == 0
            &&& 0 <= left
        }),
    decreases pages,
{
    if answers[0] {
        let detached = window.left(pages - 1);
        if pages - 1 > 0 {
            windows_close_when_all_documents_do(detached, pages - 1, answers.skip(1));
        } else {
            assert(answers.skip(1).len() == 0);
            assert(closed_first(answers.skip(1)) == 0);
        }
    }
}

impl Window {
    /// Ask for the folder to be read, and say whether it is to be read now. One scan runs at a
    /// time: a large folder takes long enough to walk that switching windows would otherwise
    /// start scans faster than they end.
    pub fn scan_folder(&mut self) -> (start: bool)
        ensures
            start == (old(self).has_folder && !old(self).scanning),
            *final(self) == (if !old(self).has_folder {
                *old(self)
            } else if old(self).scanning {
                Window { rescan: true, ..*old(self) }
            } else {
                Window { scanning: true, ..*old(self) }
            }),
    {
        if !self.has_folder {
            return false;
        }
        if self.scanning {
            self.rescan = true;
            return false;
        }
        self.scanning = true;
        true
    }

    /// Take note that the folder was read, and say whether it is to be read again.
    pub fn scan_done(&mut self) -> (again: bool)
        ensures
            again == (old(self).rescan && old(self).has_folder),
            *final(self) == (Window { scanning: again, rescan: false, ..*old(self) }),
    {
        self.scanning = false;
        let rescan = self.rescan;
        self.rescan = false;
        if rescan {
            self.scan_folder()
        } else {
            false
        }
    }

    /// Show a folder, and say whether the window's only document, if it is blank, gives way to
    /// the page that asks for a file from the folder.
    pub fn set_folder(&mut self, pages: usize, blank: bool) -> (gives_way: bool)
        ensures
            *final(self) == (Window { has_folder: true, sidebar: true, ..*old(self) }),
            gives_way == (pages == 1 && blank),
    {
        self.has_folder = true;
        self.sidebar = true;
        pages == 1 && blank
    }

    /// The window in focus mode or not. The sidebar is hidden in focus mode, and comes back as
    /// it was.
    pub open spec fn focused(self, focus_mode: bool) -> Window {
        if self.focus_mode == focus_mode {
            self
        } else if focus_mode {
            Window {
                focus_mode,
                sidebar_before_focus: self.sidebar,
                sidebar: false,
                ..self
            }
        } else {
            Window { focus_mode, sidebar: self.sidebar || self.sidebar_before_focus, ..self }
        }
    }

    /// Enter or leave focus mode, and say whether that changes anything.
    pub fn set_focus_mode(&mut self, focus_mode: bool) -> (changed: bool)
        ensures
            *final(self) == old(self).focused(focus_mode),
            changed == (old(self).focus_mode != focus_mode),
    {
        if self.focus_mode == focus_mode {
            return false;
        }
        self.focus_mode = focus_mode;
        if focus_mode {
            self.sidebar_before_focus = self.sidebar;
            self.sidebar = false;
        } else if self.sidebar_before_focus {
            self.sidebar = true;
        }
        true
    }

    /// Take note that the window became too narrow for the split view. The sidebar collapsing
    /// hides it, and with no document it is all there is to pick from, so it is shown again.
    pub fn narrowed(&mut self, has_document: bool)
        ensures
            *final(self) == (Window {
                narrow: true,
                sidebar: old(self).sidebar || (!has_document && old(self).has_folder),
                ..*old(self)
            }),
    {
        self.narrow = true;
        if !has_document && self.has_folder {
            self.sidebar = true;
        }
    }

    /// Take note that the window is wide enough for the split view.
    pub fn widened(&mut self)
        ensures
            *final(self) == (Window { narrow: false, ..*old(self) }),
    {
        self.narrow = false;
    }

    /// The views of a document that is switched to in a window that shows `mode`.
    pub open spec fn view_for(self, views: Views, pages: int, mode: Option<ViewMode>) -> Views {
        let taken = if pages > 1 && mode is Some && mode->0 != views.mode {
            views.showing(mode->0)
        } else {
            views
        };
        if self.narrow && taken.mode == ViewMode::Split {
            taken.showing(taken.last_single)
        } else {
            taken
        }
    }

    /// Give a document that is switched to the view of the window, which shows `mode`. A
    /// window's only document brings its own, as when a tab arrives in a new window.
    pub fn select_view(&self, views: &mut Views, pages: usize, mode: Option<ViewMode>)
        ensures
            *final(views) == self.view_for(*old(views), pages as int, mode),
    {
        if pages > 1 {
            if let Some(mode) = mode {
                if mode != views.mode {
                    let _ = views.set_view_mode(mode);
                }
            }
        }
        if self.narrow {
            let _ = views.leave_split();
        }
    }
}

/// Focus mode hides the sidebar and leaves it as it was.
pub proof fn focus_mode_gives_the_sidebar_back(window: Window)
    requires
        !window.focus_mode,
    ensures
        !window.focused(true).sidebar,
        window.focused(true).focused(false).sidebar == window.sidebar,
        window.focused(true).focused(true) == window.focused(true),
{
}

/// Switching tabs keeps the view of the window, but for the split view in a narrow one, which
/// no document is in.
pub proof fn switching_tabs_keeps_the_view(
    window: Window,
    views: Views,
    pages: int,
    mode: ViewMode,
)
    requires
        views.wf(),
        pages > 1,
    ensures
        ({
            let next = window.view_for(views, pages, Some(mode));
            &&& next.wf()
            &&& next.mode == mode || (window.narrow && mode == ViewMode::Split)
            &&& window.narrow ==> next.mode != ViewMode::Split
        }),
{
}

/// What is done with a row of the sidebar while the file of the selected document is looked for.
#[derive(Clone, Copy, Debug, PartialEq, Eq, Structural)]
pub enum RowStep {
    /// The row is the file's.
    Found,
    /// The row is a folder that the file is in, and is opened.
    Expand,
    Pass,
}

/// What is done with a row, which is the file's or not, is a folder or not and has the file in
/// it or not. Folders are opened only when the file comes to be selected.
pub fn row_step(is_file: bool, reveal: bool, expandable: bool, inside: bool) -> (step: RowStep)
    ensures
        step == (if is_file {
            RowStep::Found
        } else if reveal && expandable && inside {
            RowStep::Expand
        } else {
            RowStep::Pass
        }),
{
    if is_file {
        RowStep::Found
    } else if reveal && expandable && inside {
        RowStep::Expand
    } else {
        RowStep::Pass
    }
}

}
