//! The windows of clients, and the workspaces that they are on.

use vstd::prelude::*;

verus! {

/// Identifies a window.
pub type WindowId = u32;

/// A rectangle on the screen.
#[derive(Debug, Clone, Copy, PartialEq, Eq, Structural)]
pub struct Area {
    pub x: i32,
    pub y: i32,
    pub w: i32,
    pub h: i32,
}

impl Area {
    /// Whether the point is inside: the left and upper edges belong to the
    /// rectangle, the right and lower ones do not.
    pub open spec fn has(self, px: int, py: int) -> bool {
        self.x <= px < self.x + self.w && self.y <= py < self.y + self.h
    }

    pub fn contains(self, px: i32, py: i32) -> (r: bool)
        ensures
            r == self.has(px as int, py as int),
    {
        self.x <= px && (px as i64) < self.x as i64 + self.w as i64 && self.y <= py && (py as i64)
            < self.y as i64 + self.h as i64
    }
}

/// A window of a client.
#[derive(Debug)]
pub struct Window {
    pub id: WindowId,
    pub app_id: String,
    pub title: String,
    /// The index of its workspace.
    pub workspace: usize,
    pub rect: Area,
    pub floating: bool,
    pub fullscreen: bool,
    pub maximized: bool,
}

/// What a [`Window`] holds.
pub struct WindowView {
    pub id: WindowId,
    pub app_id: Seq<char>,
    pub title: Seq<char>,
    pub workspace: usize,
    pub rect: Area,
    pub floating: bool,
    pub fullscreen: bool,
    pub maximized: bool,
}

impl View for Window {
    type V = WindowView;

    open spec fn view(&self) -> WindowView {
        WindowView {
            id: self.id,
            app_id: self.app_id@,
            title: self.title@,
            workspace: self.workspace,
            rect: self.rect,
            floating: self.floating,
            fullscreen: self.fullscreen,
            maximized: self.maximized,
        }
    }
}

pub open spec fn windows_view(v: Seq<Window>) -> Seq<WindowView> {
    Seq::new(v.len(), |i: int| v[i]@)
}

/// A workspace.
#[derive(Debug)]
pub struct Space {
    pub focused: Option<WindowId>,
    /// Its windows, the topmost last.
    pub windows: Vec<WindowId>,
    /// Whether only the focused window is shown.
    pub monocle: bool,
}

/// What a [`Space`] holds.
pub struct SpaceView {
    pub focused: Option<WindowId>,
    pub windows: Seq<WindowId>,
    pub monocle: bool,
}

impl View for Space {
    type V = SpaceView;

    open spec fn view(&self) -> SpaceView {
        SpaceView { focused: self.focused, windows: self.windows@, monocle: self.monocle }
    }
}

pub open spec fn spaces_view(v: Seq<Space>) -> Seq<SpaceView> {
    Seq::new(v.len(), |i: int| v[i]@)
}

/// The windows and the workspaces.
#[derive(Debug)]
pub struct Desk {
    pub windows: Vec<Window>,
    pub spaces: Vec<Space>,
    /// The index of the workspace that is shown.
    pub active: usize,
    /// The width of the borders.
    pub border: u32,
}

/// What a [`Desk`] holds.
pub struct DeskView {
    pub windows: Seq<WindowView>,
    pub spaces: Seq<SpaceView>,
    pub active: int,
    pub border: u32,
}

impl View for Desk {
    type V = DeskView;

    open spec fn view(&self) -> DeskView {
        DeskView {
            windows: windows_view(self.windows@),
            spaces: spaces_view(self.spaces@),
            active: self.active as int,
            border: self.border,
        }
    }
}

/// The window `id` among `windows`.
pub open spec fn window_in(windows: Seq<WindowView>, id: WindowId) -> Option<WindowView>
    decreases windows.len(),
{
    if windows.len() == 0 {
        None
    } else if windows[0].id == id {
        Some(windows[0])
    } else {
        window_in(windows.skip(1), id)
    }
}

impl DeskView {
    pub open spec fn window(self, id: WindowId) -> Option<WindowView> {
        window_in(self.windows, id)
    }

    /// Whether the window `id` is at a point.
    pub open spec fn covers(self, id: WindowId, px: int, py: int) -> bool {
        self.window(id) matches Some(w) && w.rect.has(px, py)
    }

    /// The window that has the focus.
    pub open spec fn focus(self) -> Option<WindowId> {
        if self.active < self.spaces.len() {
            self.spaces[self.active].focused
        } else {
            None
        }
    }

    /// The topmost of `ids` that is at a point.
    pub open spec fn topmost(self, ids: Seq<WindowId>, px: int, py: int) -> Option<WindowId>
        decreases ids.len(),
    {
        if ids.len() == 0 {
            None
        } else if self.covers(ids.last(), px, py) {
            Some(ids.last())
        } else {
            self.topmost(ids.drop_last(), px, py)
        }
    }

    /// The window at a point: the focused one where it is there, else the
    /// topmost of the workspace.
    pub open spec fn hit(self, px: int, py: int) -> Option<WindowId> {
        if self.active < self.spaces.len() {
            let s = self.spaces[self.active];
            if s.focused is Some && self.covers(s.focused->0, px, py) {
                s.focused
            } else {
                self.topmost(s.windows, px, py)
            }
        } else {
            None
        }
    }

    /// A coordinate within the window `id`, behind its border; 0 where there is
    /// no such window.
    pub open spec fn local(self, id: Option<WindowId>, p: int, vertical: bool) -> int {
        match id {
            Some(id) => match self.window(id) {
                Some(w) => p - (if vertical {
                    w.rect.y as int
                } else {
                    w.rect.x as int
                }) - self.border,
                None => 0,
            },
            None => 0,
        }
    }
}

impl Desk {
    /// The index of the window `id`.
    pub fn find(&self, id: WindowId) -> (r: Option<usize>)
        ensures
            match r {
                Some(i) => i < self.windows@.len() && self@.window(id) == Some(
                    self.windows@[i as int]@,
                ),
                None => self@.window(id) is None,
            },
    {
        let ghost all = self@.windows;
        let mut i: usize = 0;
        assert(all.skip(0) =~= all);
        while i < self.windows.len()
            invariant
                i <= self.windows@.len(),
                all == windows_view(self.windows@),
                window_in(all.skip(i as int), id) == window_in(all, id),
            decreases self.windows@.len() - i,
        {
            assert(all.skip(i as int)[0] == self.windows@[i as int]@);
            if self.windows[i].id == id {
                return Some(i);
            }
            i += 1;
            assert(all.skip(i - 1).skip(1) =~= all.skip(i as int));
        }
        assert(all.skip(i as int).len() == 0);
        None
    }

    /// The index of the workspace that is shown.
    pub fn active_ws(&self) -> (r: usize)
        ensures
            r == self@.active,
    {
        self.active
    }

    /// The window that has the focus.
    pub fn focused_window(&self) -> (r: Option<WindowId>)
        ensures
            r == self@.focus(),
    {
        if self.active < self.spaces.len() {
            assert(self@.spaces[self@.active] == self.spaces@[self.active as int]@);
            self.spaces[self.active].focused
        } else {
            None
        }
    }

    fn is_at(&self, id: WindowId, px: i32, py: i32) -> (r: bool)
        ensures
            r == self@.covers(id, px as int, py as int),
    {
        match self.find(id) {
            Some(i) => self.windows[i].rect.contains(px, py),
            None => false,
        }
    }

    /// The window at a point.
    pub fn hit_test(&self, px: i32, py: i32) -> (r: Option<WindowId>)
        ensures
            r == self@.hit(px as int, py as int),
    {
        if self.active >= self.spaces.len() {
            return None;
        }
        assert(self@.spaces[self@.active] == self.spaces@[self.active as int]@);
        let s = &self.spaces[self.active];
        if let Some(f) = s.focused {
            if self.is_at(f, px, py) {
                return Some(f);
            }
        }
        let ghost ids = s.windows@;
        let mut n: usize = s.windows.len();
        assert(ids.take(n as int) =~= ids);
        assert(self@.hit(px as int, py as int) == self@.topmost(ids, px as int, py as int));
        while n > 0
            invariant
                n <= s.windows@.len(),
                ids == s.windows@,
                self@.hit(px as int, py as int) == self@.topmost(ids, px as int, py as int),
                self@.topmost(ids.take(n as int), px as int, py as int) == self@.topmost(
                    ids,
                    px as int,
                    py as int,
                ),
            decreases n,
        {
            assert(ids.take(n as int).last() == ids[n - 1]);
            assert(ids.take(n as int).drop_last() =~= ids.take(n - 1));
            if self.is_at(s.windows[n - 1], px, py) {
                return Some(s.windows[n - 1]);
            }
            n -= 1;
        }
        assert(ids.take(0).len() == 0);
        None
    }

    /// Where a column of the screen is within the window `id`.
    pub fn surface_local_x(&self, id: Option<WindowId>, px: i32) -> (r: i64)
        ensures
            r == self@.local(id, px as int, false),
    {
        match id {
            Some(id) => match self.find(id) {
                Some(i) => px as i64 - self.windows[i].rect.x as i64 - self.border as i64,
                None => 0,
            },
            None => 0,
        }
    }

    /// Where a row of the screen is within the window `id`.
    pub fn surface_local_y(&self, id: Option<WindowId>, py: i32) -> (r: i64)
        ensures
            r == self@.local(id, py as int, true),
    {
        match id {
            Some(id) => match self.find(id) {
                Some(i) => py as i64 - self.windows[i].rect.y as i64 - self.border as i64,
                None => 0,
            },
            None => 0,
        }
    }
}

// ── Laws ─────────────────────────────────────────────────────────────────────

proof fn lemma_topmost(d: DeskView, ids: Seq<WindowId>, px: int, py: int)
    ensures
        match d.topmost(ids, px, py) {
            Some(id) => ids.contains(id) && d.covers(id, px, py),
            None => forall|id: WindowId| ids.contains(id) ==> !d.covers(id, px, py),
        },
    decreases ids.len(),
{
    if ids.len() > 0 {
        lemma_topmost(d, ids.drop_last(), px, py);
        assert(ids =~= ids.drop_last().push(ids.last()));
        if d.covers(ids.last(), px, py) {
            assert(ids[ids.len() - 1] == ids.last());
        } else {
            assert forall|id: WindowId| ids.contains(id) implies !d.covers(id, px, py) || (d.topmost(
                ids,
                px,
                py,
            ) is Some) by {
                let i = choose|i: int| 0 <= i < ids.len() && ids[i] == id;
                if i < ids.len() - 1 {
                    assert(ids.drop_last()[i] == id);
                    assert(ids.drop_last().contains(id));
                }
            }
            if d.topmost(ids, px, py) is Some {
                let id = d.topmost(ids, px, py)->0;
                let i = choose|i: int| 0 <= i < ids.drop_last().len() && ids.drop_last()[i] == id;
                assert(ids[i] == id);
            }
        }
    }
}

/// The window that is found at a point is there; none is found only where no
/// window of the workspace that is shown is there.
pub proof fn law_hit_is_there(d: DeskView, px: int, py: int)
    requires
        0 <= d.active < d.spaces.len(),
    ensures
        d.hit(px, py) matches Some(id) ==> d.covers(id, px, py),
        d.hit(px, py) is None ==> forall|id: WindowId|
            #[trigger] d.spaces[d.active].windows.contains(id) ==> !d.covers(id, px, py),
{
    lemma_topmost(d, d.spaces[d.active].windows, px, py);
}

} // verus!
