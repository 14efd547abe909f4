//! What holds of the windows that clients ask for.

use vstd::prelude::*;

use crate::desk::seat::after;
use crate::desk::shell::{states_of, ActionView, ShellView, ToplevelRequest, ToplevelState};
use crate::desk::windows::{DeskView, WindowId, WindowView};

verus! {

/// What is done for a request about a window is about that window, and is what was asked
/// for. A window that is to be small goes to the last workspace.
pub proof fn law_done_for_the_window(
    v: ShellView,
    h: int,
    req: ToplevelRequest,
    spaces: int,
    id: WindowId,
    i: int,
)
    requires
        0 <= h < v.surfaces.len(),
        v.surfaces[h].toplevel matches Some(t) && t.window_id == Some(id),
        0 <= i < v.actions(h, req, spaces).len(),
        0 < spaces <= usize::MAX,
    ensures
        match v.actions(h, req, spaces)[i] {
            ActionView::SetTitle { window, title } => window == id
                && (req matches ToplevelRequest::SetTitle(t) && t@ == title),
            ActionView::SetAppId { window, app_id } => window == id
                && (req matches ToplevelRequest::SetAppId(a) && a@ == app_id),
            ActionView::Close(window) => window == id && req is Destroy,
            ActionView::SetMaximized { window, on } => window == id && if on {
                req is SetMaximized
            } else {
                req is UnsetMaximized
            },
            ActionView::SetFullscreen { window, on } => window == id && if on {
                req is SetFullscreen
            } else {
                req is UnsetFullscreen
            },
            ActionView::Configure(window) => window == id && (req is SetMaximized || req
                is UnsetMaximized || req is SetFullscreen || req is UnsetFullscreen),
            ActionView::MoveToWorkspace { window, workspace } => window == id && req is SetMinimized
                && workspace == spaces - 1,
            ActionView::Focus(_) => false,
            ActionView::Opened(_) => false,
            ActionView::Redraw => req is SetMaximized || req is UnsetMaximized || req
                is SetFullscreen || req is UnsetFullscreen || req is SetMinimized,
        },
{
}

/// What was asked for comes first; its client hears of a change that it asked for, and the
/// picture is drawn. Nothing is done for a window that was not introduced.
pub proof fn law_asked_of_windows_is_done(v: ShellView, h: int, req: ToplevelRequest, spaces: int)
    requires
        0 <= h < v.surfaces.len(),
        v.surfaces[h].toplevel is Some,
    ensures
        ({
            let done = v.actions(h, req, spaces);
            if v.surfaces[h].toplevel->0.window_id is None || req is Other {
                done.len() == 0
            } else {
                &&& req is SetTitle ==> done.len() == 1 && done[0] is SetTitle
                &&& req is SetAppId ==> done.len() == 1 && done[0] is SetAppId
                &&& req is Destroy ==> done.len() == 1 && done[0] is Close
                &&& req is SetMinimized ==> done.len() == 2 && done[0] is MoveToWorkspace && done[1]
                    is Redraw
                &&& req is SetMaximized || req is UnsetMaximized ==> done.len() == 3 && done[0]
                    is SetMaximized && done[1] is Configure && done[2] is Redraw
                &&& req is SetFullscreen || req is UnsetFullscreen ==> done.len() == 3 && done[0]
                    is SetFullscreen && done[1] is Configure && done[2] is Redraw
            }
        }),
{
}

/// A title and an app id are those of the window that they are set for, and change
/// nothing else.
pub proof fn law_titles_and_app_ids(v: ShellView, h: int, req: ToplevelRequest)
    requires
        0 <= h < v.surfaces.len(),
        v.surfaces[h].toplevel is Some,
    ensures
        ({
            let u = v.requested(h, req);
            let t = v.surfaces[h].toplevel->0;
            &&& u.next == v.next
            &&& u.surfaces.len() == v.surfaces.len()
            &&& forall|i: int|
                0 <= i < v.surfaces.len() && i != h ==> #[trigger] u.surfaces[i] == v.surfaces[i]
            &&& u.surfaces[h].surface == v.surfaces[h].surface && u.surfaces[h].registered
                == v.surfaces[h].registered && u.surfaces[h].ever_acked == v.surfaces[h].ever_acked
                && u.surfaces[h].configure_serial == v.surfaces[h].configure_serial
            &&& u.surfaces[h].toplevel matches Some(w) && {
                &&& w.title == (match req {
                    ToplevelRequest::SetTitle(s) => Some(s@),
                    _ => t.title,
                })
                &&& w.app_id == (match req {
                    ToplevelRequest::SetAppId(s) => Some(s@),
                    _ => t.app_id,
                })
                &&& w.window_id == t.window_id && w.mapped == t.mapped && w.ever_acked
                    == t.ever_acked && w.configure_serial == t.configure_serial
            }
        }),
{
}

/// A client hears that its window has the focus just where it has, that it fills the screen
/// or is as large as it can be just where it does, and that it is tiled, on all four sides,
/// just where it neither floats nor fills the screen.
#[verifier::spinoff_prover]
pub proof fn law_states_are_told(w: WindowView, focused: bool)
    ensures
        ({
            let s = states_of(Some(w), focused);
            let tiled = !w.floating && !w.fullscreen;
            &&& s.contains(ToplevelState::Activated) <==> focused
            &&& s.contains(ToplevelState::Fullscreen) <==> w.fullscreen
            &&& s.contains(ToplevelState::Maximized) <==> w.maximized
            &&& s.contains(ToplevelState::TiledLeft) <==> tiled
            &&& s.contains(ToplevelState::TiledRight) <==> tiled
            &&& s.contains(ToplevelState::TiledTop) <==> tiled
            &&& s.contains(ToplevelState::TiledBottom) <==> tiled
        }),
{
    let s = states_of(Some(w), focused);
    let a = if focused {
        1int
    } else {
        0
    };
    let b = if w.fullscreen {
        a + 1
    } else {
        a
    };
    let c = if w.maximized {
        b + 1
    } else {
        b
    };
    if focused {
        assert(s[0] == ToplevelState::Activated);
    }
    if w.fullscreen {
        assert(s[a] == ToplevelState::Fullscreen);
    }
    if w.maximized {
        assert(s[b] == ToplevelState::Maximized);
    }
    if !w.floating && !w.fullscreen {
        assert(s[c] == ToplevelState::TiledLeft);
        assert(s[c + 1] == ToplevelState::TiledRight);
        assert(s[c + 2] == ToplevelState::TiledTop);
        assert(s[c + 3] == ToplevelState::TiledBottom);
    }
}

/// A client is told the size of its window under the next serial number, and nothing of
/// the size where there is no such window.
pub proof fn law_sizes_are_told(v: ShellView, h: int, id: WindowId, d: DeskView)
    requires
        0 <= d.active < d.spaces.len(),
    ensures
        ({
            let c = v.configuration(h, id, d);
            &&& c.handle == h && c.serial == v.next
            &&& d.window(id) matches Some(w) ==> c.w == w.rect.w && c.h == w.rect.h
            &&& d.window(id) is None ==> c.w == 0 && c.h == 0
            &&& c.states == states_of(d.window(id), d.spaces[d.active].focused == Some(id))
        }),
        v.configured(h).next == after(v.next),
{
}

/// Only the serial number of the first configuration counts, and only for its own surface.
pub proof fn law_only_the_first_serial_counts(v: ShellView, h: int, serial: u32)
    requires
        0 <= h < v.surfaces.len(),
    ensures
        ({
            let u = v.acked(h, serial);
            &&& serial != v.surfaces[h].configure_serial ==> u == v
            &&& serial == v.surfaces[h].configure_serial ==> u.surfaces[h].ever_acked && (
            u.surfaces[h].toplevel matches Some(t) ==> t.ever_acked)
            &&& u.surfaces[h].toplevel is Some <==> v.surfaces[h].toplevel is Some
            &&& u.surfaces.len() == v.surfaces.len() && u.next == v.next
            &&& forall|i: int|
                0 <= i < v.surfaces.len() && i != h ==> #[trigger] u.surfaces[i] == v.surfaces[i]
        }),
{
}

/// When a window is introduced, its title and app id are told where they are known, it gets
/// the focus, its client is told of it, and it is drawn.
pub proof fn law_introductions(v: ShellView, h: int, id: WindowId)
    requires
        0 <= h < v.surfaces.len(),
        v.surfaces[h].toplevel is Some,
    ensures
        ({
            let t = v.surfaces[h].toplevel->0;
            let done = v.introduction(h, id);
            let n = done.len() as int;
            &&& n == 4 + (if t.title is Some {
                1int
            } else {
                0
            }) + (if t.app_id is Some {
                1int
            } else {
                0
            })
            &&& t.title matches Some(title) ==> done[0] == (ActionView::SetTitle {
                window: id,
                title,
            })
            &&& t.app_id matches Some(app_id) ==> done[n - 5] == (ActionView::SetAppId {
                window: id,
                app_id,
            })
            &&& done[n - 4] == ActionView::Focus(id)
            &&& done[n - 3] == ActionView::Opened(id)
            &&& done[n - 2] == ActionView::Configure(id)
            &&& done[n - 1] == ActionView::Redraw
        }),
        v.introduced(h, id).surfaces[h].toplevel matches Some(t) && t.window_id == Some(id)
            && t.mapped,
{
}

/// When all clients are told of their windows, each surface that shows one is told once.
pub proof fn law_all_are_told(v: ShellView, n: int, d: DeskView)
    requires
        0 <= n <= v.surfaces.len(),
    ensures
        ({
            let (u, done) = v.all_configured(n, d);
            &&& u.surfaces.len() == v.surfaces.len()
            &&& forall|i: int|
                0 <= i < v.surfaces.len() ==> (#[trigger] u.surfaces[i]).registered
                    == v.surfaces[i].registered && u.surfaces[i].window() == v.surfaces[i].window()
            &&& forall|k: int|
                0 <= k < done.len() ==> 0 <= (#[trigger] done[k]).handle < n
                    && v.surfaces[done[k].handle].registered && v.surfaces[done[k].handle].window()
                    is Some
            &&& forall|i: int|
                0 <= i < n && (#[trigger] v.surfaces[i]).registered && v.surfaces[i].window()
                    is Some ==> exists|k: int| 0 <= k < done.len() && (#[trigger] done[k]).handle == i
            &&& forall|j: int, k: int|
                #![trigger done[j], done[k]]
                0 <= j < k < done.len() ==> done[j].handle < done[k].handle
        }),
    decreases n,
{
    if n > 0 {
        law_all_are_told(v, n - 1, d);
        let (u, done) = v.all_configured(n - 1, d);
        let s = u.surfaces[n - 1];
        let (w, all) = v.all_configured(n, d);
        if s.registered && s.window() is Some {
            assert(all == done.push(u.configuration(n - 1, s.window()->0, d)));
            assert(all[done.len() as int].handle == n - 1);
        }
        assert forall|i: int|
            0 <= i < n && (#[trigger] v.surfaces[i]).registered && v.surfaces[i].window()
                is Some implies exists|k: int| 0 <= k < all.len() && (#[trigger] all[k]).handle
            == i by {
            if i < n - 1 {
                let k = choose|k: int| 0 <= k < done.len() && (#[trigger] done[k]).handle == i;
                assert(all[k].handle == i);
            } else {
                assert(u.surfaces[i].registered);
            }
        }
    }
}

} // verus!
