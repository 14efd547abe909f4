//! Windows as clients ask for them.

use vstd::prelude::*;

use crate::desk::seat::{after, Serials};
use crate::desk::windows::{Desk, DeskView, WindowId, WindowView};
use crate::json::opt_text;

verus! {

// ── Surfaces ─────────────────────────────────────────────────────────────────

/// A window as its client describes it.
#[derive(Debug)]
pub struct ToplevelData {
    /// The window, once there is one.
    pub window_id: Option<WindowId>,
    pub title: Option<String>,
    pub app_id: Option<String>,
    /// The serial number of the last configuration that was sent.
    pub configure_serial: u32,
    pub ever_acked: bool,
    /// Whether the window was introduced.
    pub mapped: bool,
}

/// What a [`ToplevelData`] holds.
pub struct ToplevelView {
    pub window_id: Option<WindowId>,
    pub title: Option<Seq<char>>,
    pub app_id: Option<Seq<char>>,
    pub configure_serial: u32,
    pub ever_acked: bool,
    pub mapped: bool,
}

impl View for ToplevelData {
    type V = ToplevelView;

    open spec fn view(&self) -> ToplevelView {
        ToplevelView {
            window_id: self.window_id,
            title: opt_text(self.title),
            app_id: opt_text(self.app_id),
            configure_serial: self.configure_serial,
            ever_acked: self.ever_acked,
            mapped: self.mapped,
        }
    }
}

/// A surface that can become a window.
#[derive(Debug)]
pub struct XdgSurfaceData {
    /// The number of the surface that it was made of.
    pub surface: u32,
    pub toplevel: Option<ToplevelData>,
    /// The serial number of the first configuration.
    pub configure_serial: u32,
    pub ever_acked: bool,
    /// Whether commits of the surface are for this window.
    pub registered: bool,
}

/// What an [`XdgSurfaceData`] holds.
pub struct XdgSurfaceView {
    pub surface: u32,
    pub toplevel: Option<ToplevelView>,
    pub configure_serial: u32,
    pub ever_acked: bool,
    pub registered: bool,
}

impl View for XdgSurfaceData {
    type V = XdgSurfaceView;

    open spec fn view(&self) -> XdgSurfaceView {
        XdgSurfaceView {
            surface: self.surface,
            toplevel: match self.toplevel {
                Some(t) => Some(t@),
                None => None,
            },
            configure_serial: self.configure_serial,
            ever_acked: self.ever_acked,
            registered: self.registered,
        }
    }
}

pub open spec fn surfaces_view(v: Seq<XdgSurfaceData>) -> Seq<XdgSurfaceView> {
    Seq::new(v.len(), |i: int| v[i]@)
}

impl XdgSurfaceView {
    /// The window of this surface.
    pub open spec fn window(self) -> Option<WindowId> {
        match self.toplevel {
            Some(t) => t.window_id,
            None => None,
        }
    }
}

/// The surfaces, by their number here, and the serial numbers.
#[derive(Debug)]
pub struct Shell {
    pub surfaces: Vec<XdgSurfaceData>,
    pub serials: Serials,
}

/// What a [`Shell`] holds.
pub struct ShellView {
    pub surfaces: Seq<XdgSurfaceView>,
    pub next: u32,
}

impl View for Shell {
    type V = ShellView;

    open spec fn view(&self) -> ShellView {
        ShellView { surfaces: surfaces_view(self.surfaces@), next: self.serials.next }
    }
}

// ── What clients ask for ─────────────────────────────────────────────────────

/// A request about a window.
#[derive(Debug)]
pub enum ToplevelRequest {
    SetTitle(String),
    SetAppId(String),
    Destroy,
    SetMaximized,
    UnsetMaximized,
    SetFullscreen,
    UnsetFullscreen,
    SetMinimized,
    /// A request that changes nothing: to move or to resize by hand, to hold a
    /// size, to belong to another window.
    Other,
}

/// What a request leads to.
#[derive(Debug)]
pub enum ShellAction {
    SetTitle { window: WindowId, title: String },
    SetAppId { window: WindowId, app_id: String },
    Close(WindowId),
    SetMaximized { window: WindowId, on: bool },
    SetFullscreen { window: WindowId, on: bool },
    /// The client is told the size and the state of its window.
    Configure(WindowId),
    MoveToWorkspace { window: WindowId, workspace: usize },
    /// The window gets the focus, and the keyboard follows.
    Focus(WindowId),
    /// Scripts are told that the window is there.
    Opened(WindowId),
    Redraw,
}

/// What a [`ShellAction`] holds.
pub enum ActionView {
    SetTitle { window: WindowId, title: Seq<char> },
    SetAppId { window: WindowId, app_id: Seq<char> },
    Close(WindowId),
    SetMaximized { window: WindowId, on: bool },
    SetFullscreen { window: WindowId, on: bool },
    Configure(WindowId),
    MoveToWorkspace { window: WindowId, workspace: usize },
    Focus(WindowId),
    Opened(WindowId),
    Redraw,
}

impl View for ShellAction {
    type V = ActionView;

    open spec fn view(&self) -> ActionView {
        match *self {
            ShellAction::SetTitle { window, title } => ActionView::SetTitle {
                window,
                title: title@,
            },
            ShellAction::SetAppId { window, app_id } => ActionView::SetAppId {
                window,
                app_id: app_id@,
            },
            ShellAction::Close(id) => ActionView::Close(id),
            ShellAction::SetMaximized { window, on } => ActionView::SetMaximized { window, on },
            ShellAction::SetFullscreen { window, on } => ActionView::SetFullscreen { window, on },
            ShellAction::Configure(id) => ActionView::Configure(id),
            ShellAction::MoveToWorkspace { window, workspace } => ActionView::MoveToWorkspace {
                window,
                workspace,
            },
            ShellAction::Focus(id) => ActionView::Focus(id),
            ShellAction::Opened(id) => ActionView::Opened(id),
            ShellAction::Redraw => ActionView::Redraw,
        }
    }
}

pub open spec fn actions_view(v: Seq<ShellAction>) -> Seq<ActionView> {
    Seq::new(v.len(), |i: int| v[i]@)
}

/// A state of a window that its client is told.
#[derive(Debug, Clone, Copy, PartialEq, Eq, Structural)]
pub enum ToplevelState {
    Activated,
    Fullscreen,
    Maximized,
    TiledLeft,
    TiledRight,
    TiledTop,
    TiledBottom,
}

/// What a client is told of its window.
#[derive(Debug)]
pub struct Configure {
    /// The surface, by its number here.
    pub handle: usize,
    pub serial: u32,
    pub w: i32,
    pub h: i32,
    pub states: Vec<ToplevelState>,
}

/// What a [`Configure`] holds.
pub struct ConfigureView {
    pub handle: int,
    pub serial: u32,
    pub w: i32,
    pub h: i32,
    pub states: Seq<ToplevelState>,
}

impl View for Configure {
    type V = ConfigureView;

    open spec fn view(&self) -> ConfigureView {
        ConfigureView {
            handle: self.handle as int,
            serial: self.serial,
            w: self.w,
            h: self.h,
            states: self.states@,
        }
    }
}

pub open spec fn configures_view(v: Seq<Configure>) -> Seq<ConfigureView> {
    Seq::new(v.len(), |i: int| v[i]@)
}

// ── Model ────────────────────────────────────────────────────────────────────

/// A window that was just asked for.
pub open spec fn fresh_toplevel(serial: u32) -> ToplevelView {
    ToplevelView {
        window_id: None,
        title: None,
        app_id: None,
        configure_serial: serial,
        ever_acked: false,
        mapped: false,
    }
}

/// That commits of the surface `s` are for no window.
pub open spec fn unregistered(v: Seq<XdgSurfaceView>, s: u32) -> Seq<XdgSurfaceView> {
    Seq::new(
        v.len(),
        |i: int|
            if v[i].surface == s {
                XdgSurfaceView { registered: false, ..v[i] }
            } else {
                v[i]
            },
    )
}

/// The first surface from `i` on that commits of `s` are for.
pub open spec fn registered_from(v: Seq<XdgSurfaceView>, i: int, s: u32) -> Option<int>
    decreases v.len() - i,
{
    if i >= v.len() {
        None
    } else if v[i].registered && v[i].surface == s {
        Some(i)
    } else {
        registered_from(v, i + 1, s)
    }
}

/// The first surface from `i` on that shows the window `id`.
pub open spec fn showing_from(v: Seq<XdgSurfaceView>, i: int, id: WindowId) -> Option<int>
    decreases v.len() - i,
{
    if i >= v.len() {
        None
    } else if v[i].registered && v[i].window() == Some(id) {
        Some(i)
    } else {
        showing_from(v, i + 1, id)
    }
}

/// The states of a window that its client is told. A window that is tiled hears
/// that it is on all sides.
pub open spec fn states_of(w: Option<WindowView>, focused: bool) -> Seq<ToplevelState> {
    let fs = w matches Some(w) && w.fullscreen;
    let max = w matches Some(w) && w.maximized;
    let floats = w matches Some(w) && w.floating;
    let a = if focused {
        seq![ToplevelState::Activated]
    } else {
        Seq::empty()
    };
    let b = if fs {
        a.push(ToplevelState::Fullscreen)
    } else {
        a
    };
    let c = if max {
        b.push(ToplevelState::Maximized)
    } else {
        b
    };
    if !floats && !fs {
        c.push(ToplevelState::TiledLeft).push(ToplevelState::TiledRight).push(
            ToplevelState::TiledTop,
        ).push(ToplevelState::TiledBottom)
    } else {
        c
    }
}

impl ShellView {
    /// A window is asked for on the surface `h`.
    pub open spec fn with_toplevel(self, h: int) -> ShellView {
        let s = self.surfaces[h];
        ShellView {
            surfaces: unregistered(self.surfaces, s.surface).update(
                h,
                XdgSurfaceView {
                    toplevel: Some(fresh_toplevel(self.next)),
                    configure_serial: self.next,
                    registered: true,
                    ..s
                },
            ),
            next: after(self.next),
        }
    }

    /// The client has seen the configuration `serial`: only the first one of a
    /// window counts.
    pub open spec fn acked(self, h: int, serial: u32) -> ShellView {
        let s = self.surfaces[h];
        if s.configure_serial == serial {
            ShellView {
                surfaces: self.surfaces.update(
                    h,
                    XdgSurfaceView {
                        ever_acked: true,
                        toplevel: match s.toplevel {
                            Some(t) => Some(ToplevelView { ever_acked: true, ..t }),
                            None => None,
                        },
                        ..s
                    },
                ),
                ..self
            }
        } else {
            self
        }
    }

    pub open spec fn with_title(self, h: int, title: Seq<char>) -> ShellView {
        let s = self.surfaces[h];
        ShellView {
            surfaces: self.surfaces.update(
                h,
                XdgSurfaceView {
                    toplevel: match s.toplevel {
                        Some(t) => Some(ToplevelView { title: Some(title), ..t }),
                        None => None,
                    },
                    ..s
                },
            ),
            ..self
        }
    }

    pub open spec fn with_app_id(self, h: int, app_id: Seq<char>) -> ShellView {
        let s = self.surfaces[h];
        ShellView {
            surfaces: self.surfaces.update(
                h,
                XdgSurfaceView {
                    toplevel: match s.toplevel {
                        Some(t) => Some(ToplevelView { app_id: Some(app_id), ..t }),
                        None => None,
                    },
                    ..s
                },
            ),
            ..self
        }
    }

    /// What a request about the window of the surface `h` changes here.
    pub open spec fn requested(self, h: int, req: ToplevelRequest) -> ShellView {
        match req {
            ToplevelRequest::SetTitle(t) => self.with_title(h, t@),
            ToplevelRequest::SetAppId(a) => self.with_app_id(h, a@),
            _ => self,
        }
    }

    /// What a request about the window of the surface `h` leads to, with
    /// `spaces` workspaces: a window that was not introduced yet is left alone.
    pub open spec fn actions(self, h: int, req: ToplevelRequest, spaces: int) -> Seq<ActionView> {
        match self.surfaces[h].window() {
            Some(id) => match req {
                ToplevelRequest::SetTitle(t) => seq![
                    ActionView::SetTitle { window: id, title: t@ },
                ],
                ToplevelRequest::SetAppId(a) => seq![
                    ActionView::SetAppId { window: id, app_id: a@ },
                ],
                ToplevelRequest::Destroy => seq![ActionView::Close(id)],
                ToplevelRequest::SetMaximized => seq![
                    ActionView::SetMaximized { window: id, on: true },
                    ActionView::Configure(id),
                    ActionView::Redraw,
                ],
                ToplevelRequest::UnsetMaximized => seq![
                    ActionView::SetMaximized { window: id, on: false },
                    ActionView::Configure(id),
                    ActionView::Redraw,
                ],
                ToplevelRequest::SetFullscreen => seq![
                    ActionView::SetFullscreen { window: id, on: true },
                    ActionView::Configure(id),
                    ActionView::Redraw,
                ],
                ToplevelRequest::UnsetFullscreen => seq![
                    ActionView::SetFullscreen { window: id, on: false },
                    ActionView::Configure(id),
                    ActionView::Redraw,
                ],
                ToplevelRequest::SetMinimized => seq![
                    ActionView::MoveToWorkspace {
                        window: id,
                        workspace: if spaces > 0 {
                            (spaces - 1) as usize
                        } else {
                            0
                        },
                    },
                    ActionView::Redraw,
                ],
                ToplevelRequest::Other => Seq::empty(),
            },
            None => Seq::empty(),
        }
    }

    /// The surface `h` is gone.
    pub open spec fn surface_gone(self, h: int) -> ShellView {
        if self.surfaces[h].toplevel is Some {
            ShellView {
                surfaces: unregistered(self.surfaces, self.surfaces[h].surface),
                ..self
            }
        } else {
            self
        }
    }

    /// The window of the surface `h` is introduced as `id`.
    pub open spec fn introduced(self, h: int, id: WindowId) -> ShellView {
        let s = self.surfaces[h];
        ShellView {
            surfaces: self.surfaces.update(
                h,
                XdgSurfaceView {
                    toplevel: match s.toplevel {
                        Some(t) => Some(
                            ToplevelView { window_id: Some(id), mapped: true, ..t },
                        ),
                        None => None,
                    },
                    ..s
                },
            ),
            ..self
        }
    }

    /// What follows when a window is introduced as `id`.
    pub open spec fn introduction(self, h: int, id: WindowId) -> Seq<ActionView> {
        let t = self.surfaces[h].toplevel->0;
        let a = match t.title {
            Some(title) => seq![ActionView::SetTitle { window: id, title }],
            None => Seq::empty(),
        };
        let b = match t.app_id {
            Some(app_id) => a.push(ActionView::SetAppId { window: id, app_id }),
            None => a,
        };
        b.push(ActionView::Focus(id)).push(ActionView::Opened(id)).push(
            ActionView::Configure(id),
        ).push(ActionView::Redraw)
    }

    /// A client is told of the window `id` on the surface `h`.
    pub open spec fn configured(self, h: int) -> ShellView {
        let s = self.surfaces[h];
        ShellView {
            surfaces: self.surfaces.update(
                h,
                XdgSurfaceView {
                    toplevel: match s.toplevel {
                        Some(t) => Some(ToplevelView { configure_serial: self.next, ..t }),
                        None => None,
                    },
                    ..s
                },
            ),
            next: after(self.next),
        }
    }

    /// What the client is told of the window `id` on the surface `h`.
    pub open spec fn configuration(self, h: int, id: WindowId, d: DeskView) -> ConfigureView {
        let w = d.window(id);
        ConfigureView {
            handle: h,
            serial: self.next,
            w: match w {
                Some(w) => w.rect.w,
                None => 0,
            },
            h: match w {
                Some(w) => w.rect.h,
                None => 0,
            },
            states: states_of(w, d.focus() == Some(id)),
        }
    }

    /// That every client is told of its window, up to the surface `n`.
    pub open spec fn all_configured(self, n: int, d: DeskView) -> (ShellView, Seq<ConfigureView>)
        decreases n,
    {
        if n <= 0 {
            (self, Seq::empty())
        } else {
            let (v, done) = self.all_configured(n - 1, d);
            let s = v.surfaces[n - 1];
            if s.registered && s.window() is Some {
                (v.configured(n - 1), done.push(v.configuration(n - 1, s.window()->0, d)))
            } else {
                (v, done)
            }
        }
    }
}

// ── Operations ───────────────────────────────────────────────────────────────

/// What a commit of a surface leads to.
#[derive(Debug, Clone, Copy, PartialEq, Eq, Structural)]
pub enum CommitStep {
    Nothing,
    Redraw,
    /// The window of the surface with this number here is to be introduced.
    Introduce(usize),
}

pub open spec fn commit_step(v: ShellView, s: u32) -> CommitStep {
    match registered_from(v.surfaces, 0, s) {
        Some(h) => {
            let t = v.surfaces[h].toplevel->0;
            if !t.ever_acked {
                CommitStep::Nothing
            } else if t.window_id is None {
                CommitStep::Introduce(h as usize)
            } else {
                CommitStep::Redraw
            }
        },
        None => CommitStep::Nothing,
    }
}

fn copy_text(s: &Option<String>) -> (r: Option<String>)
    ensures
        opt_text(r) == opt_text(*s),
{
    match s {
        Some(t) => Some(t.as_str().to_owned()),
        None => None,
    }
}

impl Shell {
    /// That commits are only for surfaces on which a window was asked for.
    pub open spec fn inv(&self) -> bool {
        forall|i: int|
            0 <= i < self.surfaces@.len() ==> ((#[trigger] self.surfaces@[i]).registered
                ==> self.surfaces@[i].toplevel is Some)
    }

    pub fn new() -> (r: Self)
        ensures
            r.inv(),
            r@ == (ShellView { surfaces: Seq::empty(), next: 1 }),
    {
        let r = Shell { surfaces: Vec::new(), serials: Serials::new() };
        assert(r@.surfaces =~= Seq::empty());
        r
    }

    /// A client wants to make a window of the surface `surface`.
    pub fn get_xdg_surface(&mut self, surface: u32) -> (r: usize)
        requires
            old(self).inv(),
        ensures
            final(self).inv(),
            r == old(self)@.surfaces.len(),
            final(self)@ == (ShellView {
                surfaces: old(self)@.surfaces.push(
                    XdgSurfaceView {
                        surface,
                        toplevel: None,
                        configure_serial: 0,
                        ever_acked: false,
                        registered: false,
                    },
                ),
                ..old(self)@
            }),
    {
        let r: usize = self.surfaces.len();
        self.surfaces.push(
            XdgSurfaceData {
                surface,
                toplevel: None,
                configure_serial: 0,
                ever_acked: false,
                registered: false,
            },
        );
        assert(self@.surfaces =~= old(self)@.surfaces.push(self.surfaces@[r as int]@));
        r
    }

    fn unregister(&mut self, surface: u32)
        requires
            old(self).inv(),
        ensures
            final(self).inv(),
            final(self)@ == (ShellView {
                surfaces: unregistered(old(self)@.surfaces, surface),
                ..old(self)@
            }),
            final(self).surfaces@.len() == old(self).surfaces@.len(),
    {
        let ghost before = self.surfaces@;
        let mut i: usize = 0;
        while i < self.surfaces.len()
            invariant
                i <= self.surfaces@.len(),
                self.surfaces@.len() == before.len(),
                self.serials == old(self).serials,
                before == old(self).surfaces@,
                old(self).inv(),
                forall|k: int|
                    0 <= k < before.len() ==> (#[trigger] self.surfaces@[k]) == if k < i
                        && before[k].surface == surface {
                        XdgSurfaceData { registered: false, ..before[k] }
                    } else {
                        before[k]
                    },
            decreases self.surfaces@.len() - i,
        {
            if self.surfaces[i].surface == surface {
                self.surfaces[i].registered = false;
            }
            i += 1;
        }
        proof {
            assert(self@.surfaces =~= unregistered(old(self)@.surfaces, surface));
            assert forall|k: int| 0 <= k < self.surfaces@.len() implies ((
            #[trigger] self.surfaces@[k]).registered ==> self.surfaces@[k].toplevel is Some) by {
                assert(before[k].registered ==> before[k].toplevel is Some);
            }
        }
    }

    /// A client asks for a window on the surface `h`, and is told that it may
    /// choose its size.
    pub fn get_toplevel(&mut self, h: usize) -> (r: Configure)
        requires
            old(self).inv(),
            h < old(self)@.surfaces.len(),
        ensures
            final(self).inv(),
            final(self)@ == old(self)@.with_toplevel(h as int),
            r@ == (ConfigureView {
                handle: h as int,
                serial: old(self)@.next,
                w: 0,
                h: 0,
                states: Seq::empty(),
            }),
    {
        let serial: u32 = self.serials.next_serial();
        let surface: u32 = self.surfaces[h].surface;
        assert(self.inv());
        self.unregister(surface);
        let ghost mid = self.surfaces@;
        self.surfaces[h].toplevel = Some(
            ToplevelData {
                window_id: None,
                title: None,
                app_id: None,
                configure_serial: serial,
                ever_acked: false,
                mapped: false,
            },
        );
        self.surfaces[h].configure_serial = serial;
        self.surfaces[h].registered = true;
        proof {
            let v = unregistered(old(self)@.surfaces, surface);
            assert forall|i: int| 0 <= i < mid.len() implies #[trigger] mid[i]@ == v[i] by {
                assert(surfaces_view(mid)[i] == v[i]);
            }
            let w = old(self)@.with_toplevel(h as int).surfaces;
            let now = self.surfaces@;
            assert forall|i: int| 0 <= i < now.len() implies #[trigger] now[i]@ == w[i] by {
                if i != h {
                    assert(now[i] == mid[i]);
                } else {
                    assert(old(self).surfaces@[i]@ == old(self)@.surfaces[i]);
                    assert(mid[i]@ == v[i]);
                }
            }
            assert(self@.surfaces =~= w);
        }
        let r = Configure { handle: h, serial, w: 0, h: 0, states: Vec::new() };
        assert(r@.states =~= Seq::empty());
        r
    }

    /// A client has seen the configuration `serial`.
    pub fn ack_configure(&mut self, h: usize, serial: u32)
        requires
            old(self).inv(),
            h < old(self)@.surfaces.len(),
        ensures
            final(self).inv(),
            final(self)@ == old(self)@.acked(h as int, serial),
    {
        if self.surfaces[h].configure_serial == serial {
            self.surfaces[h].ever_acked = true;
            if let Some(t) = self.take_toplevel(h) {
                self.surfaces[h].toplevel = Some(ToplevelData { ever_acked: true, ..t });
            }
            assert(self@.surfaces =~= old(self)@.acked(h as int, serial).surfaces);
        }
    }

    fn take_toplevel(&mut self, h: usize) -> (r: Option<ToplevelData>)
        requires
            h < old(self).surfaces@.len(),
        ensures
            r == old(self).surfaces@[h as int].toplevel,
            final(self).serials == old(self).serials,
            final(self).surfaces@ == old(self).surfaces@.update(
                h as int,
                XdgSurfaceData { toplevel: None, ..old(self).surfaces@[h as int] },
            ),
    {
        self.surfaces[h].toplevel.take()
    }

    /// The window of the surface `h`.
    fn window_of(&self, h: usize) -> (r: Option<WindowId>)
        requires
            h < self.surfaces@.len(),
        ensures
            r == self@.surfaces[h as int].window(),
    {
        match &self.surfaces[h].toplevel {
            Some(t) => t.window_id,
            None => None,
        }
    }

    /// A client asks something about the window of the surface `h`; there are
    /// `spaces` workspaces.
    pub fn request(&mut self, h: usize, req: ToplevelRequest, spaces: usize) -> (r:
        Vec<ShellAction>)
        requires
            old(self).inv(),
            h < old(self)@.surfaces.len(),
        ensures
            final(self).inv(),
            final(self)@ == old(self)@.requested(h as int, req),
            actions_view(r@) == old(self)@.actions(h as int, req, spaces as int),
    {
        let window = self.window_of(h);
        let mut r: Vec<ShellAction> = Vec::new();
        let ghost asked = req;
        match req {
            ToplevelRequest::SetTitle(title) => {
                let copy = title.as_str().to_owned();
                if let Some(t) = self.take_toplevel(h) {
                    self.surfaces[h].toplevel = Some(ToplevelData { title: Some(title), ..t });
                }
                if let Some(window) = window {
                    r.push(ShellAction::SetTitle { window, title: copy });
                }
            },
            ToplevelRequest::SetAppId(app_id) => {
                let copy = app_id.as_str().to_owned();
                if let Some(t) = self.take_toplevel(h) {
                    self.surfaces[h].toplevel = Some(ToplevelData { app_id: Some(app_id), ..t });
                }
                if let Some(window) = window {
                    r.push(ShellAction::SetAppId { window, app_id: copy });
                }
            },
            ToplevelRequest::Destroy => {
                if let Some(id) = window {
                    r.push(ShellAction::Close(id));
                }
            },
            ToplevelRequest::SetMaximized => {
                if let Some(id) = window {
                    r.push(ShellAction::SetMaximized { window: id, on: true });
                    r.push(ShellAction::Configure(id));
                    r.push(ShellAction::Redraw);
                }
            },
            ToplevelRequest::UnsetMaximized => {
                if let Some(id) = window {
                    r.push(ShellAction::SetMaximized { window: id, on: false });
                    r.push(ShellAction::Configure(id));
                    r.push(ShellAction::Redraw);
                }
            },
            ToplevelRequest::SetFullscreen => {
                if let Some(id) = window {
                    r.push(ShellAction::SetFullscreen { window: id, on: true });
                    r.push(ShellAction::Configure(id));
                    r.push(ShellAction::Redraw);
                }
            },
            ToplevelRequest::UnsetFullscreen => {
                if let Some(id) = window {
                    r.push(ShellAction::SetFullscreen { window: id, on: false });
                    r.push(ShellAction::Configure(id));
                    r.push(ShellAction::Redraw);
                }
            },
            ToplevelRequest::SetMinimized => {
                if let Some(id) = window {
                    let last: usize = if spaces > 0 {
                        spaces - 1
                    } else {
                        0
                    };
                    r.push(ShellAction::MoveToWorkspace { window: id, workspace: last });
                    r.push(ShellAction::Redraw);
                }
            },
            ToplevelRequest::Other => {},
        }
        proof {
            assert(self@.surfaces =~= old(self)@.requested(h as int, asked).surfaces);
            assert(actions_view(r@) =~= old(self)@.actions(h as int, asked, spaces as int));
        }
        r
    }

    /// The surface `h` is gone: its window is closed.
    pub fn surface_destroyed(&mut self, h: usize) -> (r: Option<WindowId>)
        requires
            old(self).inv(),
            h < old(self)@.surfaces.len(),
        ensures
            final(self).inv(),
            final(self)@ == old(self)@.surface_gone(h as int),
            r == old(self)@.surfaces[h as int].window(),
    {
        let window = self.window_of(h);
        if self.surfaces[h].toplevel.is_some() {
            let surface: u32 = self.surfaces[h].surface;
            self.unregister(surface);
        }
        window
    }

    /// The window of the surface `h` is gone: it is closed.
    pub fn toplevel_destroyed(&self, h: usize) -> (r: Option<WindowId>)
        requires
            h < self@.surfaces.len(),
        ensures
            r == self@.surfaces[h as int].window(),
    {
        self.window_of(h)
    }

    /// A surface was committed.
    pub fn on_surface_commit(&self, surface: u32) -> (r: CommitStep)
        requires
            self.inv(),
        ensures
            r == commit_step(self@, surface),
    {
        let ghost v = self@.surfaces;
        let mut i: usize = 0;
        while i < self.surfaces.len()
            invariant
                i <= self.surfaces@.len(),
                v == surfaces_view(self.surfaces@),
                v == self@.surfaces,
                self.inv(),
                registered_from(v, i as int, surface) == registered_from(v, 0, surface),
            decreases self.surfaces@.len() - i,
        {
            assert(v[i as int] == self.surfaces@[i as int]@);
            if self.surfaces[i].registered && self.surfaces[i].surface == surface {
                assert(self.surfaces@[i as int].toplevel is Some);
                return match &self.surfaces[i].toplevel {
                    Some(t) => if !t.ever_acked {
                        CommitStep::Nothing
                    } else if t.window_id.is_none() {
                        CommitStep::Introduce(i)
                    } else {
                        CommitStep::Redraw
                    },
                    None => CommitStep::Nothing,
                };
            }
            i += 1;
        }
        CommitStep::Nothing
    }

    /// The window of the surface `h` is introduced as `id`.
    pub fn introduce(&mut self, h: usize, id: WindowId) -> (r: Vec<ShellAction>)
        requires
            old(self).inv(),
            h < old(self)@.surfaces.len(),
            old(self)@.surfaces[h as int].toplevel is Some,
        ensures
            final(self).inv(),
            final(self)@ == old(self)@.introduced(h as int, id),
            actions_view(r@) == old(self)@.introduction(h as int, id),
    {
        let mut r: Vec<ShellAction> = Vec::new();
        if let Some(t) = self.take_toplevel(h) {
            if let Some(title) = copy_text(&t.title) {
                r.push(ShellAction::SetTitle { window: id, title });
            }
            if let Some(app_id) = copy_text(&t.app_id) {
                r.push(ShellAction::SetAppId { window: id, app_id });
            }
            self.surfaces[h].toplevel = Some(
                ToplevelData { window_id: Some(id), mapped: true, ..t },
            );
        }
        r.push(ShellAction::Focus(id));
        r.push(ShellAction::Opened(id));
        r.push(ShellAction::Configure(id));
        r.push(ShellAction::Redraw);
        proof {
            assert(self@.surfaces =~= old(self)@.introduced(h as int, id).surfaces);
            assert(actions_view(r@) =~= old(self)@.introduction(h as int, id));
        }
        r
    }

    /// The surface that shows the window `id`, by its number here.
    pub fn toplevel_for_window(&self, id: WindowId) -> (r: Option<usize>)
        ensures
            match r {
                Some(h) => h < self@.surfaces.len() && showing_from(self@.surfaces, 0, id) == Some(
                    h as int,
                ),
                None => showing_from(self@.surfaces, 0, id) is None,
            },
    {
        let ghost v = self@.surfaces;
        let mut i: usize = 0;
        while i < self.surfaces.len()
            invariant
                i <= self.surfaces@.len(),
                v == surfaces_view(self.surfaces@),
                v == self@.surfaces,
                showing_from(v, i as int, id) == showing_from(v, 0, id),
            decreases self.surfaces@.len() - i,
        {
            assert(v[i as int] == self.surfaces@[i as int]@);
            if self.surfaces[i].registered {
                if let Some(w) = self.window_of(i) {
                    if w == id {
                        return Some(i);
                    }
                }
            }
            i += 1;
        }
        None
    }

    fn send_configure(&mut self, h: usize, id: WindowId, desk: &Desk) -> (r: Configure)
        requires
            old(self).inv(),
            h < old(self)@.surfaces.len(),
        ensures
            final(self).inv(),
            final(self)@ == old(self)@.configured(h as int),
            final(self).surfaces@.len() == old(self).surfaces@.len(),
            r@ == old(self)@.configuration(h as int, id, desk@),
    {
        let mut states: Vec<ToplevelState> = Vec::new();
        let focused = match desk.focused_window() {
            Some(f) => f == id,
            None => false,
        };
        let found = desk.find(id);
        let (w, hh, fullscreen, maximized, floating) = match found {
            Some(i) => {
                let win = &desk.windows[i];
                (win.rect.w, win.rect.h, win.fullscreen, win.maximized, win.floating)
            },
            None => (0, 0, false, false, false),
        };
        if focused {
            states.push(ToplevelState::Activated);
        }
        if fullscreen {
            states.push(ToplevelState::Fullscreen);
        }
        if maximized {
            states.push(ToplevelState::Maximized);
        }
        if !floating && !fullscreen {
            states.push(ToplevelState::TiledLeft);
            states.push(ToplevelState::TiledRight);
            states.push(ToplevelState::TiledTop);
            states.push(ToplevelState::TiledBottom);
        }
        let serial: u32 = self.serials.next_serial();
        if let Some(t) = self.take_toplevel(h) {
            self.surfaces[h].toplevel = Some(ToplevelData { configure_serial: serial, ..t });
        }
        let r = Configure { handle: h, serial, w, h: hh, states };
        proof {
            assert(self@.surfaces =~= old(self)@.configured(h as int).surfaces);
            assert(r@.states =~= states_of(desk@.window(id), desk@.focus() == Some(id)));
        }
        r
    }

    /// Tells the client of the window `id` its size and its state.
    pub fn configure_toplevel(&mut self, id: WindowId, desk: &Desk) -> (r: Option<Configure>)
        requires
            old(self).inv(),
        ensures
            final(self).inv(),
            match showing_from(old(self)@.surfaces, 0, id) {
                Some(h) => final(self)@ == old(self)@.configured(h) && (r matches Some(c) && c@
                    == old(self)@.configuration(h, id, desk@)),
                None => final(self)@ == old(self)@ && r is None,
            },
    {
        match self.toplevel_for_window(id) {
            Some(h) => Some(self.send_configure(h, id, desk)),
            None => None,
        }
    }

    /// Tells every client the size and the state of its window.
    pub fn configure_all(&mut self, desk: &Desk) -> (r: Vec<Configure>)
        requires
            old(self).inv(),
        ensures
            final(self).inv(),
            ({
                let (v, sent) = old(self)@.all_configured(old(self)@.surfaces.len() as int, desk@);
                final(self)@ == v && configures_view(r@) == sent
            }),
    {
        let mut r: Vec<Configure> = Vec::new();
        let n: usize = self.surfaces.len();
        let mut i: usize = 0;
        assert(configures_view(r@) =~= Seq::empty());
        while i < n
            invariant
                i <= n,
                self.surfaces@.len() == n,
                self.inv(),
                (self@, configures_view(r@)) == old(self)@.all_configured(i as int, desk@),
            decreases n - i,
        {
            let ghost before = r@;
            let ghost v = self@;
            assert(v.surfaces[i as int] == self.surfaces@[i as int]@);
            if self.surfaces[i].registered {
                if let Some(id) = self.window_of(i) {
                    let c = self.send_configure(i, id, desk);
                    r.push(c);
                    assert(configures_view(r@) =~= configures_view(before).push(c@));
                }
            }
            i += 1;
        }
        r
    }
}

// ── Laws ─────────────────────────────────────────────────────────────────────

/// A window is not introduced before its client has seen the first
/// configuration.
pub proof fn law_no_window_before_ack(v: ShellView, h: int)
    requires
        0 <= h < v.surfaces.len(),
    ensures
        !(commit_step(v.with_toplevel(h), v.surfaces[h].surface) is Introduce),
{
    let w = v.with_toplevel(h);
    lemma_registered(w.surfaces, 0, h);
}

proof fn lemma_registered(s: Seq<XdgSurfaceView>, i: int, h: int)
    requires
        0 <= i <= h < s.len(),
        s[h].registered,
        forall|k: int|
            0 <= k < s.len() && k != h ==> !((#[trigger] s[k]).registered && s[k].surface
                == s[h].surface),
    ensures
        registered_from(s, i, s[h].surface) == Some(h),
    decreases h - i,
{
    if i < h {
        lemma_registered(s, i + 1, h);
    }
}

/// Once the client has seen the first configuration, its first commit
/// introduces the window, and commits after that only ask to draw again.
pub proof fn law_window_is_introduced_once(v: ShellView, h: int, id: WindowId)
    requires
        0 <= h < v.surfaces.len() <= usize::MAX,
    ensures
        ({
            let asked = v.with_toplevel(h);
            let acked = asked.acked(h, v.next);
            let shown = acked.introduced(h, id);
            let s = v.surfaces[h].surface;
            &&& commit_step(acked, s) == CommitStep::Introduce(h as usize)
            &&& commit_step(shown, s) == CommitStep::Redraw
        }),
{
    let asked = v.with_toplevel(h);
    let acked = asked.acked(h, v.next);
    let shown = acked.introduced(h, id);
    lemma_registered(acked.surfaces, 0, h);
    lemma_registered(shown.surfaces, 0, h);
}

/// A title that came before the window is told when the window is introduced.
pub proof fn law_early_title_is_told(v: ShellView, h: int, title: Seq<char>, id: WindowId)
    requires
        0 <= h < v.surfaces.len(),
        v.surfaces[h].toplevel is Some,
    ensures
        v.with_title(h, title).introduction(h, id)[0] == (ActionView::SetTitle {
            window: id,
            title,
        }),
{
}

} // verus!
