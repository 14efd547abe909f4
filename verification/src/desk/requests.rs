//! What holds of requests: each does its own thing, and the answers tell what is.

use vstd::prelude::*;

use crate::desk::ipc::{
    active_text, command_name, plain_command, request_actions, request_answer, request_text,
    space_text, window_text, ActionView, IpcRequest, ResponseView,
};
use crate::desk::windows::{window_in, DeskView, SpaceView, WindowView};
use crate::integer::{decimal, decimal_int, lemma_decimal_is_read, unsigned_of};
use crate::json::{json_bool, json_quoted, json_with};

verus! {

// ── What is done ─────────────────────────────────────────────────────────────

/// Everything that is done was asked for: each kind of action comes of one kind of
/// request, and is about what that names.
pub proof fn law_done_is_asked(req: IpcRequest, d: DeskView, i: int)
    requires
        0 <= i < request_actions(req, d).len(),
        0 <= d.active < d.spaces.len() <= usize::MAX,
    ensures
        match request_actions(req, d)[i] {
            ActionView::Exit => req is Exit,
            ActionView::Reload => req is Reload,
            ActionView::Exec(c) => req matches IpcRequest::Exec { command } && command@ == c,
            ActionView::Lua(c) => req matches IpcRequest::Lua { code } && code@ == c,
            ActionView::SwitchWorkspace(n) => req matches IpcRequest::SwitchWorkspace { workspace }
                && (workspace == n + 1 || (workspace == 0 && n == 0)),
            ActionView::Close(w) => req matches IpcRequest::CloseWindow { id } && (id == Some(w) || (
            id is None && d.spaces[d.active].focused == Some(w))),
            ActionView::ToggleFloat(w) => req is ToggleFloat && d.spaces[d.active].focused == Some(
                w,
            ),
            ActionView::SetFullscreen { window, on } => req is ToggleFullscreen
                && d.spaces[d.active].focused == Some(window),
            ActionView::SetLayout { workspace, layout } => req matches IpcRequest::SetLayout {
                layout: l,
            } && l@ == layout && workspace == d.active,
            ActionView::Redraw => req is SwitchWorkspace || req is ToggleFloat || req
                is ToggleFullscreen || req is SetLayout,
        },
{
}

/// Everything that is asked for is done, once, and what changes the picture is drawn.
pub proof fn law_asked_is_done(req: IpcRequest, d: DeskView)
    requires
        0 <= d.active < d.spaces.len() <= usize::MAX,
    ensures
        ({
            let done = request_actions(req, d);
            let focus = d.spaces[d.active].focused;
            &&& req is Exit ==> done.len() == 1 && done[0] is Exit
            &&& req is Reload ==> done.len() == 1 && done[0] is Reload
            &&& req is Exec ==> done.len() == 1 && done[0] is Exec
            &&& req is Lua ==> done.len() == 1 && done[0] is Lua
            &&& req is CloseWindow ==> done.len() == (if req->CloseWindow_id is Some || focus
                is Some {
                1nat
            } else {
                0nat
            })
            &&& req is SwitchWorkspace || req is SetLayout || ((req is ToggleFloat || req
                is ToggleFullscreen) && focus is Some) ==> done.len() == 2 && !(done[0] is Redraw)
                && done[1] is Redraw
            &&& (req is ToggleFloat || req is ToggleFullscreen) && focus is None ==> done.len() == 0
            &&& req is Clients || req is Workspaces || req is Monitors || req is ActiveWindow || req
                is Version || req is FocusWindow || req is MoveToWorkspace ==> done.len() == 0
        }),
{
}

/// A window that fills the screen does not after the request that toggles it, and the
/// other way round.
pub proof fn law_fullscreen_is_toggled(d: DeskView, k: int)
    requires
        0 <= d.active < d.spaces.len(),
        0 <= k < d.windows.len(),
        d.spaces[d.active].focused == Some(d.windows[k].id),
        forall|i: int| 0 <= i < k ==> (#[trigger] d.windows[i]).id != d.windows[k].id,
    ensures
        ({
            let done = request_actions(IpcRequest::ToggleFullscreen, d);
            &&& done.len() > 0
            &&& done[0] matches ActionView::SetFullscreen { window, on } && window
                == d.windows[k].id && on != d.windows[k].fullscreen
        }),
{
    lemma_window_in(d.windows, k);
}

pub proof fn lemma_window_in(v: Seq<WindowView>, k: int)
    requires
        0 <= k < v.len(),
        forall|i: int| 0 <= i < k ==> (#[trigger] v[i]).id != v[k].id,
    ensures
        window_in(v, v[k].id) == Some(v[k]),
    decreases v.len(),
{
    if v[0].id != v[k].id {
        assert forall|i: int| 0 <= i < k - 1 implies (#[trigger] v.skip(1)[i]).id != v[k].id by {
            assert(v.skip(1)[i] == v[i + 1]);
        }
        lemma_window_in(v.skip(1), k - 1);
    } else {
        assert(k == 0);
    }
}

// ── What is answered ─────────────────────────────────────────────────────────

/// Queries are answered with data, what is done is answered with nothing, and only
/// what cannot be done with an error.
pub proof fn law_kinds_of_answers(req: IpcRequest, d: DeskView, version: Seq<char>)
    ensures
        ({
            let a = request_answer(req, d, version);
            &&& a is Error <==> req is Monitors || req is FocusWindow || req is MoveToWorkspace
            &&& a is Data <==> req is Clients || req is Workspaces || req is ActiveWindow || req
                is Version
            &&& a is Done ==> !(req is Clients) && !(req is Workspaces) && !(req is ActiveWindow)
                && !(req is Version)
        }),
{
}

/// Whether `text` is an object in which `key` was set to `value`, and nothing was set
/// for that key afterwards; `n` members were set at most.
pub open spec fn sets(text: Seq<char>, key: Seq<char>, value: Seq<char>, n: nat) -> bool
    decreases n,
{
    n > 0 && exists|object: Seq<char>, k: Seq<char>, v: Seq<char>|
        text == #[trigger] json_with(object, k, v) && if k == key {
            v == value
        } else {
            sets(object, key, value, (n - 1) as nat)
        }
}

pub proof fn lemma_sets_here(object: Seq<char>, key: Seq<char>, value: Seq<char>, n: nat)
    requires
        n > 0,
    ensures
        sets(json_with(object, key, value), key, value, n),
{
}

pub proof fn lemma_sets_below(
    object: Seq<char>,
    k: Seq<char>,
    v: Seq<char>,
    key: Seq<char>,
    value: Seq<char>,
    n: nat,
)
    requires
        k != key,
        sets(object, key, value, n),
    ensures
        sets(json_with(object, k, v), key, value, n + 1),
{
    assert((n + 1 - 1) as nat == n);
}

proof fn lemma_keys()
    ensures
        "id"@ != "app_id"@ && "id"@ != "title"@ && "id"@ != "workspace"@ && "id"@ != "x"@ && "id"@
            != "y"@ && "id"@ != "w"@ && "id"@ != "h"@ && "id"@ != "floating"@ && "id"@
            != "fullscreen"@,
        "app_id"@ != "title"@ && "app_id"@ != "workspace"@ && "app_id"@ != "x"@ && "app_id"@ != "y"@
            && "app_id"@ != "w"@ && "app_id"@ != "h"@ && "app_id"@ != "floating"@ && "app_id"@
            != "fullscreen"@,
        "title"@ != "workspace"@ && "title"@ != "x"@ && "title"@ != "y"@ && "title"@ != "w"@
            && "title"@ != "h"@ && "title"@ != "floating"@ && "title"@ != "fullscreen"@,
        "workspace"@ != "x"@ && "workspace"@ != "y"@ && "workspace"@ != "w"@ && "workspace"@ != "h"@
            && "workspace"@ != "floating"@ && "workspace"@ != "fullscreen"@,
        "x"@ != "y"@ && "x"@ != "w"@ && "x"@ != "h"@ && "x"@ != "floating"@ && "x"@
            != "fullscreen"@,
        "y"@ != "w"@ && "y"@ != "h"@ && "y"@ != "floating"@ && "y"@ != "fullscreen"@,
        "w"@ != "h"@ && "w"@ != "floating"@ && "w"@ != "fullscreen"@,
        "h"@ != "floating"@ && "h"@ != "fullscreen"@,
        "floating"@ != "fullscreen"@,
        "index"@ != "focused"@ && "index"@ != "window_count"@ && "index"@ != "active"@,
        "focused"@ != "window_count"@ && "focused"@ != "active"@,
        "window_count"@ != "active"@,
{
    reveal_strlit("id");
    reveal_strlit("app_id");
    reveal_strlit("title");
    reveal_strlit("workspace");
    reveal_strlit("x");
    reveal_strlit("y");
    reveal_strlit("w");
    reveal_strlit("h");
    reveal_strlit("floating");
    reveal_strlit("fullscreen");
    reveal_strlit("index");
    reveal_strlit("focused");
    reveal_strlit("window_count");
    reveal_strlit("active");
    assert("x"@[0] == 'x' && "y"@[0] == 'y' && "w"@[0] == 'w' && "h"@[0] == 'h');
    assert("id"@.len() == 2 && "app_id"@.len() == 6 && "title"@.len() == 5 && "workspace"@.len()
        == 9 && "x"@.len() == 1 && "y"@.len() == 1 && "w"@.len() == 1 && "h"@.len() == 1
        && "floating"@.len() == 8 && "fullscreen"@.len() == 10);
    assert("index"@.len() == 5 && "focused"@.len() == 7 && "window_count"@.len() == 12
        && "active"@.len() == 6);
}

/// A window is told with its name, its program, its workspace, counted from one, its
/// place and its state, each under its own key.
#[verifier::spinoff_prover]
pub proof fn law_window_is_told(w: WindowView)
    ensures
        sets(window_text(w), "id"@, decimal(w.id as nat), 10),
        sets(window_text(w), "app_id"@, json_quoted(w.app_id), 10),
        sets(window_text(w), "title"@, json_quoted(w.title), 10),
        sets(window_text(w), "workspace"@, decimal((w.workspace + 1) as nat), 10),
        sets(window_text(w), "x"@, decimal_int(w.rect.x as int), 10),
        sets(window_text(w), "y"@, decimal_int(w.rect.y as int), 10),
        sets(window_text(w), "w"@, decimal_int(w.rect.w as int), 10),
        sets(window_text(w), "h"@, decimal_int(w.rect.h as int), 10),
        sets(window_text(w), "floating"@, if w.floating { "true"@ } else { "false"@ }, 10),
        sets(window_text(w), "fullscreen"@, if w.fullscreen { "true"@ } else { "false"@ }, 10),
{
    lemma_keys();
    let a = crate::json::json_one("id"@, decimal(w.id as nat));
    let b = json_with(a, "app_id"@, json_quoted(w.app_id));
    let c = json_with(b, "title"@, json_quoted(w.title));
    let d = json_with(c, "workspace"@, decimal((w.workspace + 1) as nat));
    let e = json_with(d, "x"@, decimal_int(w.rect.x as int));
    let f = json_with(e, "y"@, decimal_int(w.rect.y as int));
    let g = json_with(f, "w"@, decimal_int(w.rect.w as int));
    let h = json_with(g, "h"@, decimal_int(w.rect.h as int));
    let i = json_with(h, "floating"@, json_bool(w.floating));
    let j = json_with(i, "fullscreen"@, json_bool(w.fullscreen));
    assert(j == window_text(w));
    lemma_sets_here("{}"@, "id"@, decimal(w.id as nat), 1);
    lemma_sets_here(a, "app_id"@, json_quoted(w.app_id), 2);
    lemma_sets_here(b, "title"@, json_quoted(w.title), 3);
    lemma_sets_here(c, "workspace"@, decimal((w.workspace + 1) as nat), 4);
    lemma_sets_here(d, "x"@, decimal_int(w.rect.x as int), 5);
    lemma_sets_here(e, "y"@, decimal_int(w.rect.y as int), 6);
    lemma_sets_here(f, "w"@, decimal_int(w.rect.w as int), 7);
    lemma_sets_here(g, "h"@, decimal_int(w.rect.h as int), 8);
    lemma_sets_here(h, "floating"@, json_bool(w.floating), 9);
    lemma_sets_here(i, "fullscreen"@, json_bool(w.fullscreen), 10);
    assert forall|key: Seq<char>, v: Seq<char>|
        #![trigger sets(i, key, v, 9)]
        sets(i, key, v, 9) && key != "fullscreen"@ implies sets(j, key, v, 10) by {
        lemma_sets_below(i, "fullscreen"@, json_bool(w.fullscreen), key, v, 9);
    }
    assert forall|key: Seq<char>, v: Seq<char>|
        #![trigger sets(h, key, v, 8)]
        sets(h, key, v, 8) && key != "floating"@ implies sets(i, key, v, 9) by {
        lemma_sets_below(h, "floating"@, json_bool(w.floating), key, v, 8);
    }
    assert forall|key: Seq<char>, v: Seq<char>|
        #![trigger sets(g, key, v, 7)]
        sets(g, key, v, 7) && key != "h"@ implies sets(h, key, v, 8) by {
        lemma_sets_below(g, "h"@, decimal_int(w.rect.h as int), key, v, 7);
    }
    assert forall|key: Seq<char>, v: Seq<char>|
        #![trigger sets(f, key, v, 6)]
        sets(f, key, v, 6) && key != "w"@ implies sets(g, key, v, 7) by {
        lemma_sets_below(f, "w"@, decimal_int(w.rect.w as int), key, v, 6);
    }
    assert forall|key: Seq<char>, v: Seq<char>|
        #![trigger sets(e, key, v, 5)]
        sets(e, key, v, 5) && key != "y"@ implies sets(f, key, v, 6) by {
        lemma_sets_below(e, "y"@, decimal_int(w.rect.y as int), key, v, 5);
    }
    assert forall|key: Seq<char>, v: Seq<char>|
        #![trigger sets(d, key, v, 4)]
        sets(d, key, v, 4) && key != "x"@ implies sets(e, key, v, 5) by {
        lemma_sets_below(d, "x"@, decimal_int(w.rect.x as int), key, v, 4);
    }
    assert forall|key: Seq<char>, v: Seq<char>|
        #![trigger sets(c, key, v, 3)]
        sets(c, key, v, 3) && key != "workspace"@ implies sets(d, key, v, 4) by {
        lemma_sets_below(c, "workspace"@, decimal((w.workspace + 1) as nat), key, v, 3);
    }
    lemma_sets_below(b, "title"@, json_quoted(w.title), "app_id"@, json_quoted(w.app_id), 2);
    lemma_sets_below(a, "app_id"@, json_quoted(w.app_id), "id"@, decimal(w.id as nat), 1);
    lemma_sets_below(b, "title"@, json_quoted(w.title), "id"@, decimal(w.id as nat), 2);
}

/// The window with the focus is told with its name and its program.
pub proof fn law_active_window_is_told(d: DeskView, version: Seq<char>, k: int)
    requires
        0 <= d.active < d.spaces.len(),
        0 <= k < d.windows.len(),
        d.spaces[d.active].focused == Some(d.windows[k].id),
        forall|i: int| 0 <= i < k ==> (#[trigger] d.windows[i]).id != d.windows[k].id,
    ensures
        request_answer(IpcRequest::ActiveWindow, d, version) matches ResponseView::Data(t) && sets(
            t,
            "id"@,
            decimal(d.windows[k].id as nat),
            3,
        ) && sets(t, "app_id"@, json_quoted(d.windows[k].app_id), 3) && sets(
            t,
            "title"@,
            json_quoted(d.windows[k].title),
            3,
        ),
{
    lemma_window_in(d.windows, k);
    lemma_keys();
    let w = d.windows[k];
    let a = crate::json::json_one("id"@, decimal(w.id as nat));
    let b = json_with(a, "app_id"@, json_quoted(w.app_id));
    lemma_sets_here("{}"@, "id"@, decimal(w.id as nat), 1);
    lemma_sets_here(a, "app_id"@, json_quoted(w.app_id), 2);
    lemma_sets_here(b, "title"@, json_quoted(w.title), 3);
    lemma_sets_below(a, "app_id"@, json_quoted(w.app_id), "id"@, decimal(w.id as nat), 1);
    lemma_sets_below(b, "title"@, json_quoted(w.title), "id"@, decimal(w.id as nat), 2);
    lemma_sets_below(b, "title"@, json_quoted(w.title), "app_id"@, json_quoted(w.app_id), 2);
    assert(request_answer(IpcRequest::ActiveWindow, d, version) == ResponseView::Data(
        active_text(w),
    ));
}

/// Where no window has the focus, none is told.
pub proof fn law_no_active_window(d: DeskView, version: Seq<char>)
    requires
        0 <= d.active < d.spaces.len(),
        d.spaces[d.active].focused is None,
    ensures
        request_answer(IpcRequest::ActiveWindow, d, version) == ResponseView::Data("null"@),
{
}

/// A workspace is told with its number, counted from one, the window with its focus,
/// how many windows it has, and whether it is the one that is shown.
pub proof fn law_space_is_told(s: SpaceView, i: int, active: int)
    ensures
        sets(space_text(s, i, active), "index"@, decimal((i + 1) as nat), 4),
        s.focused matches Some(id) ==> sets(
            space_text(s, i, active),
            "focused"@,
            decimal(id as nat),
            4,
        ),
        s.focused is None ==> sets(space_text(s, i, active), "focused"@, "null"@, 4),
        sets(space_text(s, i, active), "window_count"@, decimal(s.windows.len()), 4),
        i == active ==> sets(space_text(s, i, active), "active"@, "true"@, 4),
        i != active ==> sets(space_text(s, i, active), "active"@, "false"@, 4),
{
    lemma_keys();
    let f = match s.focused {
        Some(id) => decimal(id as nat),
        None => "null"@,
    };
    let n = decimal(s.windows.len());
    let x = decimal((i + 1) as nat);
    let a = crate::json::json_one("index"@, x);
    let b = json_with(a, "focused"@, f);
    let c = json_with(b, "window_count"@, n);
    let v = json_bool(i == active);
    lemma_sets_here("{}"@, "index"@, x, 1);
    lemma_sets_here(a, "focused"@, f, 2);
    lemma_sets_here(b, "window_count"@, n, 3);
    lemma_sets_here(c, "active"@, v, 4);
    lemma_sets_below(a, "focused"@, f, "index"@, x, 1);
    lemma_sets_below(b, "window_count"@, n, "index"@, x, 2);
    lemma_sets_below(c, "active"@, v, "index"@, x, 3);
    lemma_sets_below(b, "window_count"@, n, "focused"@, f, 2);
    lemma_sets_below(c, "active"@, v, "focused"@, f, 3);
    lemma_sets_below(c, "active"@, v, "window_count"@, n, 3);
}

// ── The sender's side ────────────────────────────────────────────────────────

/// A word with `_` for each `-`.
pub open spec fn underscored(word: Seq<char>) -> Seq<char> {
    Seq::new(
        word.len(),
        |i: int|
            if word[i] == '-' {
                '_'
            } else {
                word[i]
            },
    )
}

/// The name of a request is the word for it, with `_` for each `-`; only the one that
/// closes a window has a longer name. So no two words make the same request.
#[verifier::spinoff_prover]
pub proof fn law_requests_are_named_by_their_words(word: Seq<char>)
    ensures
        command_name(word) matches Some(name) ==> name == underscored(word) || (name
            == "close_window"@ && word == "close"@),
        plain_command(word) is Some ==> plain_command(word) == command_name(word),
{
    reveal_strlit("clients");
    reveal_strlit("workspaces");
    reveal_strlit("monitors");
    reveal_strlit("active-window");
    reveal_strlit("active_window");
    reveal_strlit("version");
    reveal_strlit("toggle-float");
    reveal_strlit("toggle_float");
    reveal_strlit("toggle-fullscreen");
    reveal_strlit("toggle_fullscreen");
    reveal_strlit("reload");
    reveal_strlit("exit");
    reveal_strlit("switch-workspace");
    reveal_strlit("switch_workspace");
    reveal_strlit("set-layout");
    reveal_strlit("set_layout");
    reveal_strlit("exec");
    reveal_strlit("lua");
    assert("clients"@ =~= underscored("clients"@));
    assert("workspaces"@ =~= underscored("workspaces"@));
    assert("monitors"@ =~= underscored("monitors"@));
    assert("active_window"@ =~= underscored("active-window"@));
    assert("version"@ =~= underscored("version"@));
    assert("toggle_float"@ =~= underscored("toggle-float"@));
    assert("toggle_fullscreen"@ =~= underscored("toggle-fullscreen"@));
    assert("reload"@ =~= underscored("reload"@));
    assert("exit"@ =~= underscored("exit"@));
    assert("switch_workspace"@ =~= underscored("switch-workspace"@));
    assert("set_layout"@ =~= underscored("set-layout"@));
    assert("exec"@ =~= underscored("exec"@));
    assert("lua"@ =~= underscored("lua"@));
}

/// A request holds its name, and what the words behind the first one say: a number, the
/// number of a window where there is one, a layout, or all the words.
pub proof fn law_requests_hold_their_words(args: Seq<Seq<char>>)
    requires
        args.len() > 0,
    ensures
        request_text(args) is Some <==> command_name(args[0]) is Some,
        request_text(args) matches Some(t) ==> sets(
            t,
            "cmd"@,
            json_quoted(command_name(args[0])->0),
            2,
        ),
        args[0] == "exec"@ && args.len() == 2 ==> sets(
            request_text(args)->0,
            "command"@,
            json_quoted(args[1]),
            2,
        ),
        args[0] == "lua"@ && args.len() == 2 ==> sets(
            request_text(args)->0,
            "code"@,
            json_quoted(args[1]),
            2,
        ),
        args[0] == "set-layout"@ && args.len() > 1 ==> sets(
            request_text(args)->0,
            "layout"@,
            json_quoted(args[1]),
            2,
        ),
        forall|n: nat|
            n <= u64::MAX && args[0] == "switch-workspace"@ && args.len() > 1 && args[1]
                == #[trigger] decimal(n) ==> sets(
                request_text(args)->0,
                "workspace"@,
                decimal(n),
                2,
            ),
        args[0] == "switch-workspace"@ && args.len() == 1 ==> sets(
            request_text(args)->0,
            "workspace"@,
            decimal(1),
            2,
        ),
        forall|n: nat|
            n <= u32::MAX && args[0] == "close"@ && args.len() > 1 && args[1] == #[trigger] decimal(n)
                ==> sets(request_text(args)->0, "id"@, decimal(n), 2),
        args[0] == "close"@ && args.len() == 1 ==> sets(request_text(args)->0, "id"@, "null"@, 2),
{
    lemma_words();
    let word = args[0];
    if command_name(word) is Some {
        let name = command_name(word)->0;
        let head = crate::desk::ipc::command(name);
        assert(head == json_with("{}"@, "cmd"@, json_quoted(name)));
        lemma_sets_here("{}"@, "cmd"@, json_quoted(name), 1);
        lemma_sets_here("{}"@, "cmd"@, json_quoted(name), 2);
        assert forall|k: Seq<char>, v: Seq<char>| k != "cmd"@ implies sets(
            #[trigger] json_with(head, k, v),
            "cmd"@,
            json_quoted(name),
            2,
        ) && sets(json_with(head, k, v), k, v, 2) by {
            lemma_sets_below(head, k, v, "cmd"@, json_quoted(name), 1);
            lemma_sets_here(head, k, v, 2);
        }
    }
    assert forall|n: nat| n <= u64::MAX implies unsigned_of(#[trigger] decimal(n), 10, u64::MAX as nat)
        == Some(n) by {
        lemma_decimal_is_read(n, u64::MAX as nat);
    }
    assert forall|n: nat| n <= u32::MAX implies unsigned_of(#[trigger] decimal(n), 10, u32::MAX as nat)
        == Some(n) by {
        lemma_decimal_is_read(n, u32::MAX as nat);
    }
}

proof fn lemma_words()
    ensures
        plain_command("switch-workspace"@) is None,
        plain_command("close"@) is None,
        plain_command("set-layout"@) is None,
        plain_command("exec"@) is None,
        plain_command("lua"@) is None,
        "exec"@ != "switch-workspace"@ && "exec"@ != "close"@ && "exec"@ != "set-layout"@,
        "lua"@ != "switch-workspace"@ && "lua"@ != "close"@ && "lua"@ != "set-layout"@ && "lua"@
            != "exec"@,
        "set-layout"@ != "switch-workspace"@ && "set-layout"@ != "close"@,
        "close"@ != "switch-workspace"@,
        "cmd"@ != "workspace"@ && "cmd"@ != "id"@ && "cmd"@ != "layout"@ && "cmd"@ != "command"@
            && "cmd"@ != "code"@,
{
    reveal_strlit("clients");
    reveal_strlit("workspaces");
    reveal_strlit("monitors");
    reveal_strlit("active-window");
    reveal_strlit("version");
    reveal_strlit("toggle-float");
    reveal_strlit("toggle-fullscreen");
    reveal_strlit("reload");
    reveal_strlit("exit");
    reveal_strlit("switch-workspace");
    reveal_strlit("set-layout");
    reveal_strlit("close");
    reveal_strlit("exec");
    reveal_strlit("lua");
    reveal_strlit("cmd");
    reveal_strlit("workspace");
    reveal_strlit("id");
    reveal_strlit("layout");
    reveal_strlit("command");
    reveal_strlit("code");
    assert("cmd"@.len() == 3 && "workspace"@.len() == 9 && "id"@.len() == 2 && "layout"@.len() == 6
        && "command"@.len() == 7 && "code"@.len() == 4);
    assert("clients"@.len() == 7 && "workspaces"@.len() == 10 && "monitors"@.len() == 8
        && "active-window"@.len() == 13 && "version"@.len() == 7 && "toggle-float"@.len() == 12
        && "toggle-fullscreen"@.len() == 17 && "reload"@.len() == 6 && "exit"@.len() == 4);
    assert("switch-workspace"@.len() == 16 && "set-layout"@.len() == 10 && "close"@.len() == 5
        && "exec"@.len() == 4 && "lua"@.len() == 3);
    assert("set-layout"@[0] == 's' && "workspaces"@[0] == 'w');
    assert("exec"@[3] == 'c' && "exit"@[3] == 't');
}

} // verus!
