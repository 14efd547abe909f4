//! Where windows are drawn while panes move.

use vstd::prelude::*;

use crate::backend::SurfaceState;
use crate::cursor::CursorManager;
use crate::input::{inner_of, inner_rect};
use crate::shell::{SurfaceId, Surfaces, SurfacesView};
use crate::text::{chars_of, same};
use crate::twm::anim::{AnimKind, AnimSet, AnimView, Blend};
use crate::twm::pane::{PaneId, PaneView};
use crate::twm::rect::{no_rect, Rect};
use crate::twm::state::{TwmState, TwmView};

verus! {

broadcast use vstd::std_specs::hash::group_hash_axioms;

/// A rectangle on the screen, which holds a pixel at least.
#[derive(Debug, Clone, Copy, PartialEq, Eq, Structural)]
pub struct ScreenRect {
    pub x: i64,
    pub y: i64,
    pub w: i64,
    pub h: i64,
}

/// The panes that have a frame: all but those that slide out.
pub open spec fn framed(t: TwmView, a: AnimView) -> Set<PaneId> {
    Set::new(
        |id: PaneId|
            t.panes.contains_key(id) && !(a.panes.contains_key(id) && a.panes[id].kind
                == AnimKind::Close),
    )
}

/// The panes that have a frame, in no particular order.
pub fn framed_panes(twm: &TwmState, anim: &AnimSet) -> (r: Vec<PaneId>)
    ensures
        r@.to_set() == framed(twm@, anim@),
        r@.no_duplicates(),
{
    let ghost t = twm@;
    let ghost want = framed(t, anim@);
    let mut r: Vec<PaneId> = Vec::new();
    for id in it: twm.panes.keys()
        invariant_except_break
            forall|m: int|
                0 <= m < r@.len() ==> exists|k: int|
                    0 <= k < it.index() && #[trigger] *it.seq()[k] == #[trigger] r@[m],
        invariant
            t == twm@,
            want == framed(t, anim@),
            it.seq().unref().to_set() == twm.panes@.dom(),
            it.seq().no_duplicates(),
            r@.no_duplicates(),
            forall|m: int| 0 <= m < r@.len() ==> want.contains(#[trigger] r@[m]),
            forall|k: int|
                0 <= k < it.index() && want.contains(*it.seq()[k]) ==> r@.contains(
                    *#[trigger] it.seq()[k],
                ),
    {
        let ghost before = r@;
        proof {
            let n = it.index() as int;
            assert(it.seq().unref()[n] == *id);
            assert(it.seq().unref().to_set().contains(*id));
            assert(t.panes.contains_key(*id));
        }
        if !anim.is_closing(*id) {
            r.push(*id);
            assert(r@.last() == *id);
            assert forall|x: PaneId| before.contains(x) implies r@.contains(x) by {
                let m = choose|m: int| 0 <= m < before.len() && before[m] == x;
                assert(r@[m] == x);
            }
        }
    }
    assert forall|x: PaneId| want.contains(x) implies r@.contains(x) by {
        assert(twm.panes@.dom().contains(x));
    }
    assert forall|x: PaneId| r@.contains(x) implies want.contains(x) by {
        let m = choose|m: int| 0 <= m < r@.len() && r@[m] == x;
        assert(want.contains(r@[m]));
    }
    assert(r@.to_set() =~= want);
    r
}

/// Where the pane `id` is when its motion has come to `m`.
pub open spec fn moved_rect(t: TwmView, a: AnimView, id: PaneId, m: Blend) -> Rect {
    if a.panes.contains_key(id) {
        a.panes[id].rect_at(m)
    } else if t.panes.contains_key(id) {
        t.panes[id].rect
    } else {
        no_rect()
    }
}

pub open spec fn one_at_least(n: int) -> int {
    if n > 1 {
        n
    } else {
        1
    }
}

/// What is inside the frame of the pane `id`.
pub open spec fn frame_of(t: TwmView, a: AnimView, border: u32, id: PaneId, m: Blend) -> ScreenRect {
    let r = moved_rect(t, a, id, m);
    if (t.panes.contains_key(id) && t.panes[id].fullscreen) || border == 0 {
        ScreenRect {
            x: r.x as i64,
            y: r.y as i64,
            w: one_at_least(r.w as int) as i64,
            h: one_at_least(r.h as int) as i64,
        }
    } else {
        ScreenRect {
            x: (r.x + border) as i64,
            y: (r.y + border) as i64,
            w: one_at_least(r.w - 2 * border) as i64,
            h: one_at_least(r.h - 2 * border) as i64,
        }
    }
}

/// What is inside the frame of the pane `id` when its motion has come to `m`.
pub fn resolve_pane_inner_rect(
    twm: &TwmState,
    anim: &AnimSet,
    border: u32,
    id: PaneId,
    m: Blend,
) -> (r: ScreenRect)
    requires
        m.wf(),
    ensures
        r == frame_of(twm@, anim@, border, id, m),
{
    let (rect, fullscreen) = match twm.panes.get(&id) {
        Some(p) => {
            assert(twm@.panes[id] == p@);
            (p.rect, p.fullscreen)
        },
        None => (Rect::default(), false),
    };
    let rect = anim.get_rect(id, rect, m);
    let bw: i64 = if fullscreen || border == 0 {
        0
    } else {
        border as i64
    };
    let w: i64 = rect.w as i64 - 2 * bw;
    let h: i64 = rect.h as i64 - 2 * bw;
    ScreenRect {
        x: rect.x as i64 + bw,
        y: rect.y as i64 + bw,
        w: if w > 1 {
            w
        } else {
            1
        },
        h: if h > 1 {
            h
        } else {
            1
        },
    }
}

/// The first of the first `n` of `ids` that is a pane of `app_id`.
pub open spec fn first_of_app(
    panes: Map<PaneId, PaneView>,
    ids: Seq<PaneId>,
    app_id: Seq<char>,
) -> Option<PaneId>
    decreases ids.len(),
{
    if ids.len() == 0 {
        None
    } else if panes.contains_key(ids[0]) && panes[ids[0]].content.app() == app_id {
        Some(ids[0])
    } else {
        first_of_app(panes, ids.skip(1), app_id)
    }
}

/// The pane of a window: that of its surface, else the first one of its app on
/// the workspace that is shown.
pub open spec fn pane_of(
    t: TwmView,
    s: SurfacesView,
    surface: SurfaceId,
    app_id: Seq<char>,
) -> Option<PaneId> {
    if s.panes.contains_key(surface) {
        Some(s.panes[surface])
    } else if app_id.len() == 0 {
        None
    } else {
        first_of_app(t.panes, t.ws().panes, app_id)
    }
}

/// The pane of a window of the app `app_id`.
pub fn window_pane(twm: &TwmState, surfaces: &Surfaces, surface: SurfaceId, app_id: &str) -> (r:
    Option<PaneId>)
    requires
        twm@.wf(),
    ensures
        r == pane_of(twm@, surfaces@, surface, app_id@),
{
    if let Some(id) = surfaces.panes.get(&surface) {
        return Some(*id);
    }
    if chars_of(app_id).len() == 0 {
        return None;
    }
    let ghost t = twm@;
    let a: usize = twm.active_ws;
    assert(t.ws() == twm.workspaces@[a as int]@);
    let ghost ids = t.ws().panes;
    let n: usize = twm.workspaces[a].panes.len();
    let mut i: usize = 0;
    assert(ids.skip(0) =~= ids);
    while i < n
        invariant
            t == twm@,
            a == twm.active_ws,
            a < twm.workspaces@.len(),
            ids == twm.workspaces@[a as int].panes@,
            n == ids.len(),
            i <= n,
            first_of_app(t.panes, ids.skip(i as int), app_id@) == first_of_app(
                t.panes,
                ids,
                app_id@,
            ),
            pane_of(t, surfaces@, surface, app_id@) == first_of_app(t.panes, ids, app_id@),
        decreases n - i,
    {
        let id: PaneId = twm.workspaces[a].panes[i];
        assert(ids.skip(i as int)[0] == id);
        match twm.panes.get(&id) {
            Some(p) => {
                assert(t.panes[id] == p@);
                if same(p.content.app_id(), app_id) {
                    return Some(id);
                }
            },
            None => {},
        }
        i += 1;
        assert(ids.skip(i - 1).skip(1) =~= ids.skip(i as int));
    }
    assert(ids.skip(i as int).len() == 0);
    None
}

/// A window with its frame.
#[derive(Debug)]
pub struct WindowInfo {
    pub rect: ScreenRect,
    pub title: String,
    pub focused: bool,
    /// The pane of the window.
    pub tag: u64,
}

/// The window of the pane `id` with its frame, when its motion has come to `m`.
pub fn window_info(twm: &TwmState, anim: &AnimSet, border: u32, id: PaneId, m: Blend) -> (r: Option<
    WindowInfo,
>)
    requires
        twm@.wf(),
        m.wf(),
    ensures
        r is Some == framed(twm@, anim@).contains(id),
        r matches Some(w) ==> {
            &&& w.rect == frame_of(twm@, anim@, border, id, m)
            &&& w.title@ == twm@.panes[id].content.name()
            &&& w.focused == (twm@.ws().focused == Some(id))
            &&& w.tag == id
        },
{
    if anim.is_closing(id) {
        return None;
    }
    match twm.panes.get(&id) {
        Some(p) => {
            assert(twm@.panes[id] == p@);
            let a: usize = twm.active_ws;
            assert(twm@.ws() == twm.workspaces@[a as int]@);
            let focused = match twm.workspaces[a].focused {
                Some(f) => f == id,
                None => false,
            };
            Some(
                WindowInfo {
                    rect: resolve_pane_inner_rect(twm, anim, border, id, m),
                    title: p.content.title().to_owned(),
                    focused,
                    tag: id as u64,
                },
            )
        },
        None => None,
    }
}

/// Where the window of the pane `id` is when its motion has come to `m`.
pub open spec fn window_rect(t: TwmView, a: AnimView, id: PaneId, m: Blend) -> Option<Rect> {
    if t.panes.contains_key(id) {
        let r = moved_rect(t, a, id, m);
        Some(
            if t.panes[id].fullscreen {
                r
            } else {
                inner_of(r, t.border_w)
            },
        )
    } else {
        None
    }
}

/// Where the window of the pane `id` is when its motion has come to `m`.
pub fn resolve_window_rect(twm: &TwmState, anim: &AnimSet, id: PaneId, m: Blend) -> (r: Option<
    Rect,
>)
    requires
        m.wf(),
    ensures
        r == window_rect(twm@, anim@, id, m),
{
    match twm.panes.get(&id) {
        Some(p) => {
            assert(twm@.panes[id] == p@);
            let rect = anim.get_rect(id, p.rect, m);
            if p.fullscreen {
                Some(rect)
            } else {
                Some(inner_rect(rect, twm.border_w))
            }
        },
        None => None,
    }
}

/// What a window is told before a frame.
#[derive(Debug, Clone, Copy)]
pub struct Sync {
    /// Whether it is put somewhere else.
    pub place: bool,
    /// The new size that its client is told.
    pub configure: Option<(u32, u32)>,
}

/// The size that the client of a window is to draw: while layouts change, that
/// at the end.
pub open spec fn size_asked(inner: Rect, end: Rect, morphing: bool) -> (u32, u32) {
    if morphing {
        (end.w, end.h)
    } else {
        (inner.w, inner.h)
    }
}

/// What a window needs to be inside `inner`, and inside `end` once layouts have
/// changed: it is at `at`, its client was told the size `told` and draws the size
/// `drawn`. While layouts change, the client is told though it draws the size
/// already, but only once.
pub fn sync_window(
    inner: Rect,
    end: Rect,
    at: Option<(u32, u32)>,
    told: Option<(u32, u32)>,
    drawn: (u32, u32),
    morphing: bool,
) -> (r: Sync)
    ensures
        r.place == (at != Some((inner.x, inner.y))),
        ({
            let size = size_asked(inner, end, morphing);
            r.configure == if told != Some(size) && (drawn != size || morphing) {
                Some(size)
            } else {
                None
            }
        }),
{
    let placed = match at {
        Some((x, y)) => x == inner.x && y == inner.y,
        None => false,
    };
    let (w, h) = if morphing {
        (end.w, end.h)
    } else {
        (inner.w, inner.h)
    };
    let pending = match told {
        Some((tw, th)) => tw == w && th == h,
        None => false,
    };
    let committed = drawn.0 == w && drawn.1 == h;
    Sync {
        place: !placed,
        configure: if !pending && (!committed || morphing) {
            Some((w, h))
        } else {
            None
        },
    }
}

/// What came of a step of drawing a frame.
#[derive(Debug, Clone, Copy, PartialEq, Eq, Structural)]
pub enum RenderEvent {
    /// The screen is gone.
    NoScreen,
    /// The windows are drawn; whether nothing has changed.
    Drawn { is_empty: bool },
    NotDrawn,
    /// The frame is on its way to the screen.
    Queued,
    NotQueued,
}

/// A step of drawing a frame.
#[derive(Debug, Clone, Copy, PartialEq, Eq, Structural)]
pub enum RenderStep {
    /// Borders and bars are drawn on top.
    DrawChrome,
    /// The frame is sent to the screen.
    Queue,
    /// Clients are told that they can draw again.
    SendFrames,
    /// The frame is over; whether it is on its way to the screen.
    Finish(bool),
}

/// What follows a step of drawing a frame.
pub open spec fn render_steps(event: RenderEvent) -> Seq<RenderStep> {
    match event {
        RenderEvent::NoScreen => seq![RenderStep::Finish(false)],
        RenderEvent::Drawn { is_empty: true } => seq![RenderStep::Queue],
        RenderEvent::Drawn { is_empty: false } => seq![RenderStep::DrawChrome, RenderStep::Queue],
        RenderEvent::NotDrawn => seq![RenderStep::Finish(false)],
        RenderEvent::Queued => seq![RenderStep::SendFrames, RenderStep::Finish(true)],
        RenderEvent::NotQueued => seq![RenderStep::Finish(false)],
    }
}

/// What follows a step of drawing a frame on a screen; while a frame is on its
/// way, the screen waits for it.
pub fn render(surface: &mut SurfaceState, event: RenderEvent) -> (r: Vec<RenderStep>)
    ensures
        r@ == render_steps(event),
        *final(surface) == (SurfaceState {
            pending_frame: event == RenderEvent::Queued || old(surface).pending_frame,
            ..*old(surface)
        }),
{
    let mut r: Vec<RenderStep> = Vec::new();
    match event {
        RenderEvent::Drawn { is_empty } => {
            if !is_empty {
                r.push(RenderStep::DrawChrome);
            }
            r.push(RenderStep::Queue);
        },
        RenderEvent::Queued => {
            surface.pending_frame = true;
            r.push(RenderStep::SendFrames);
            r.push(RenderStep::Finish(true));
        },
        RenderEvent::NoScreen | RenderEvent::NotDrawn | RenderEvent::NotQueued => {
            r.push(RenderStep::Finish(false));
        },
    }
    assert(r@ =~= render_steps(event));
    r
}

/// A part of a frame.
#[derive(Debug, Clone, Copy, PartialEq, Eq, Structural)]
pub enum Element {
    /// The pointer, drawn by the compositor.
    Cursor { x: i32, y: i32 },
    /// A window, by its index.
    Window { index: usize, x: i64, y: i64 },
    Background { w: u32, h: u32 },
}

/// A window: where it is, and where its contents start in its surface.
#[derive(Debug, Clone, Copy, PartialEq, Eq, Structural)]
pub struct Placed {
    pub inner: Rect,
    pub geometry_x: i32,
    pub geometry_y: i32,
}

/// The parts of the windows, moved aside by `slide`.
pub open spec fn window_elements(windows: Seq<Placed>, slide: i32) -> Seq<Element> {
    Seq::new(
        windows.len(),
        |i: int|
            Element::Window {
                index: i as usize,
                x: (windows[i].inner.x - windows[i].geometry_x + slide) as i64,
                y: (windows[i].inner.y - windows[i].geometry_y) as i64,
            },
    )
}

/// The parts of a frame from front to back: the pointer where the display does
/// not show it, the windows, and what is behind them.
pub fn build_elements(
    cursor: &CursorManager,
    pointer: (i32, i32),
    windows: &Vec<Placed>,
    slide: i32,
    screen: (u32, u32),
) -> (r: Vec<Element>)
    requires
        cursor.inv(),
    ensures
        ({
            let top = if cursor.hw_cursor_ok {
                Seq::empty()
            } else {
                seq![
                    Element::Cursor {
                        x: crate::cursor::origin_of(pointer.0 as int, cursor.bitmap.hotspot.0)
                            as i32,
                        y: crate::cursor::origin_of(pointer.1 as int, cursor.bitmap.hotspot.1)
                            as i32,
                    },
                ]
            };
            r@ == top + window_elements(windows@, slide) + seq![
                Element::Background {
                    w: one_at_least(screen.0 as int) as u32,
                    h: one_at_least(screen.1 as int) as u32,
                },
            ]
        }),
{
    let mut r: Vec<Element> = Vec::new();
    if !cursor.hw_cursor_ok {
        let (x, y) = cursor.software_origin(pointer.0, pointer.1);
        r.push(Element::Cursor { x, y });
    }
    let ghost top = r@;
    let mut i: usize = 0;
    while i < windows.len()
        invariant
            i <= windows@.len(),
            r@.len() == top.len() + i,
            forall|k: int| 0 <= k < top.len() ==> r@[k] == top[k],
            forall|k: int|
                0 <= k < i ==> #[trigger] r@[top.len() + k] == window_elements(windows@, slide)[k],
        decreases windows@.len() - i,
    {
        let w = windows[i];
        r.push(
            Element::Window {
                index: i,
                x: w.inner.x as i64 - w.geometry_x as i64 + slide as i64,
                y: w.inner.y as i64 - w.geometry_y as i64,
            },
        );
        i += 1;
    }
    let background = Element::Background {
        w: if screen.0 > 1 {
            screen.0
        } else {
            1
        },
        h: if screen.1 > 1 {
            screen.1
        } else {
            1
        },
    };
    proof {
        let all = window_elements(windows@, slide);
        assert forall|k: int| top.len() <= k < r@.len() implies r@[k] == all[k - top.len()] by {
            assert(r@[top.len() + (k - top.len())] == all[k - top.len()]);
        }
        assert(r@ =~= top + all);
    }
    r.push(background);
    assert(r@ =~= top + window_elements(windows@, slide) + seq![background]);
    r
}

/// A frame shows at least a pixel, however narrow its pane is.
pub proof fn law_frames_show(t: TwmView, a: AnimView, border: u32, id: PaneId, m: Blend)
    ensures
        frame_of(t, a, border, id, m).w >= 1,
        frame_of(t, a, border, id, m).h >= 1,
{
}

} // verus!
