//! Requests of other programs, and what they are answered.

use vstd::prelude::*;

use crate::desk::windows::{Desk, DeskView, SpaceView, WindowId, WindowView};
use crate::integer::{decimal, decimal_int, i64_text, parse_u64, parse_unsigned, unsigned_of};
use crate::json::{
    array_text, bool_text, json_array, json_bool, json_one, json_quoted, json_with, number_text,
    one_member, quoted, string_member, with_member,
};
use crate::text::{chars_of, same, strings_view};

verus! {

// ── Requests ─────────────────────────────────────────────────────────────────

#[derive(Debug)]
pub enum IpcRequest {
    Clients,
    Workspaces,
    Monitors,
    ActiveWindow,
    Version,
    CloseWindow { id: Option<WindowId> },
    FocusWindow { id: Option<WindowId> },
    MoveToWorkspace { workspace: usize },
    ToggleFloat,
    ToggleFullscreen,
    SwitchWorkspace { workspace: usize },
    SetLayout { layout: String },
    Reload,
    Exec { command: String },
    Exit,
    Lua { code: String },
}

/// What a request makes the desktop do.
#[derive(Debug)]
pub enum IpcAction {
    SwitchWorkspace(usize),
    Close(WindowId),
    ToggleFloat(WindowId),
    SetFullscreen { window: WindowId, on: bool },
    /// The layout of a workspace, by its name.
    SetLayout { workspace: usize, layout: String },
    Exec(String),
    Reload,
    Exit,
    /// A script is run, and its result is the answer.
    Lua(String),
    Redraw,
}

/// What an [`IpcAction`] holds.
pub enum ActionView {
    SwitchWorkspace(usize),
    Close(WindowId),
    ToggleFloat(WindowId),
    SetFullscreen { window: WindowId, on: bool },
    SetLayout { workspace: usize, layout: Seq<char> },
    Exec(Seq<char>),
    Reload,
    Exit,
    Lua(Seq<char>),
    Redraw,
}

impl View for IpcAction {
    type V = ActionView;

    open spec fn view(&self) -> ActionView {
        match *self {
            IpcAction::SwitchWorkspace(n) => ActionView::SwitchWorkspace(n),
            IpcAction::Close(id) => ActionView::Close(id),
            IpcAction::ToggleFloat(id) => ActionView::ToggleFloat(id),
            IpcAction::SetFullscreen { window, on } => ActionView::SetFullscreen { window, on },
            IpcAction::SetLayout { workspace, layout } => ActionView::SetLayout {
                workspace,
                layout: layout@,
            },
            IpcAction::Exec(c) => ActionView::Exec(c@),
            IpcAction::Reload => ActionView::Reload,
            IpcAction::Exit => ActionView::Exit,
            IpcAction::Lua(c) => ActionView::Lua(c@),
            IpcAction::Redraw => ActionView::Redraw,
        }
    }
}

pub open spec fn actions_view(v: Seq<IpcAction>) -> Seq<ActionView> {
    Seq::new(v.len(), |i: int| v[i]@)
}

// ── Responses ────────────────────────────────────────────────────────────────

#[derive(Debug)]
pub enum IpcResponse {
    Done,
    Error { error: String },
    /// An answer, as JSON.
    Data(String),
}

/// What an [`IpcResponse`] holds.
pub enum ResponseView {
    Done,
    Error(Seq<char>),
    Data(Seq<char>),
}

impl View for IpcResponse {
    type V = ResponseView;

    open spec fn view(&self) -> ResponseView {
        match *self {
            IpcResponse::Done => ResponseView::Done,
            IpcResponse::Error { error } => ResponseView::Error(error@),
            IpcResponse::Data(t) => ResponseView::Data(t@),
        }
    }
}

/// A response as JSON.
pub open spec fn response_text(r: ResponseView) -> Seq<char> {
    match r {
        ResponseView::Done => "null"@,
        ResponseView::Error(e) => json_one("error"@, json_quoted(e)),
        ResponseView::Data(t) => t,
    }
}

impl IpcResponse {
    /// The line that is sent.
    pub fn encode(&self) -> (r: String)
        ensures
            r@ == response_text(self@) + "\n"@,
    {
        let mut r = match self {
            IpcResponse::Done => "null".to_owned(),
            IpcResponse::Error { error } => one_member("error", quoted(error.as_str()).as_str()),
            IpcResponse::Data(t) => t.as_str().to_owned(),
        };
        r.append("\n");
        r
    }
}

/// The answer to a script: `error` is why it failed, where it did.
pub fn lua_response(error: Option<String>) -> (r: IpcResponse)
    ensures
        r@ == match error {
            Some(e) => ResponseView::Error(e@),
            None => ResponseView::Done,
        },
{
    match error {
        Some(error) => IpcResponse::Error { error },
        None => IpcResponse::Done,
    }
}

/// The answer to what is no request, with the reason.
pub fn parse_error(reason: &str) -> (r: IpcResponse)
    ensures
        r@ == ResponseView::Error("parse: "@ + reason@),
{
    let mut error = "parse: ".to_owned();
    error.append(reason);
    IpcResponse::Error { error }
}

// ── What is told ─────────────────────────────────────────────────────────────

/// A window as it is told.
pub open spec fn window_text(w: WindowView) -> Seq<char> {
    let a = json_one("id"@, decimal(w.id as nat));
    let a = json_with(a, "app_id"@, json_quoted(w.app_id));
    let a = json_with(a, "title"@, json_quoted(w.title));
    let a = json_with(a, "workspace"@, decimal((w.workspace + 1) as nat));
    let a = json_with(a, "x"@, decimal_int(w.rect.x as int));
    let a = json_with(a, "y"@, decimal_int(w.rect.y as int));
    let a = json_with(a, "w"@, decimal_int(w.rect.w as int));
    let a = json_with(a, "h"@, decimal_int(w.rect.h as int));
    let a = json_with(a, "floating"@, json_bool(w.floating));
    json_with(a, "fullscreen"@, json_bool(w.fullscreen))
}

pub open spec fn window_texts(v: Seq<WindowView>) -> Seq<Seq<char>> {
    Seq::new(v.len(), |i: int| window_text(v[i]))
}

/// The window with the focus as it is told.
pub open spec fn active_text(w: WindowView) -> Seq<char> {
    json_with(
        json_with(
            json_one("id"@, decimal(w.id as nat)),
            "app_id"@,
            json_quoted(w.app_id),
        ),
        "title"@,
        json_quoted(w.title),
    )
}

/// The workspace with the index `i` as it is told.
pub open spec fn space_text(s: SpaceView, i: int, active: int) -> Seq<char> {
    let a = json_one("index"@, decimal((i + 1) as nat));
    let a = json_with(
        a,
        "focused"@,
        match s.focused {
            Some(id) => decimal(id as nat),
            None => "null"@,
        },
    );
    let a = json_with(a, "window_count"@, decimal(s.windows.len()));
    json_with(a, "active"@, json_bool(i == active))
}

pub open spec fn space_texts(v: Seq<SpaceView>, active: int) -> Seq<Seq<char>> {
    Seq::new(v.len(), |i: int| space_text(v[i], i, active))
}

fn write_windows(desk: &Desk) -> (r: String)
    requires
        forall|i: int|
            0 <= i < desk.windows@.len() ==> (#[trigger] desk.windows@[i]).workspace < usize::MAX,
    ensures
        r@ == json_array(window_texts(desk@.windows)),
{
    let mut items: Vec<String> = Vec::new();
    let mut i: usize = 0;
    while i < desk.windows.len()
        invariant
            i <= desk.windows@.len(),
            i == items@.len(),
            forall|k: int|
                0 <= k < desk.windows@.len() ==> (#[trigger] desk.windows@[k]).workspace
                    < usize::MAX,
            forall|k: int|
                0 <= k < i ==> (#[trigger] items@[k])@ == window_text(desk.windows@[k]@),
        decreases desk.windows@.len() - i,
    {
        let w = &desk.windows[i];
        let t = one_member("id", number_text(w.id as u64).as_str());
        let t = with_member(t.as_str(), "app_id", quoted(w.app_id.as_str()).as_str());
        let t = with_member(t.as_str(), "title", quoted(w.title.as_str()).as_str());
        let t = with_member(
            t.as_str(),
            "workspace",
            number_text((w.workspace + 1) as u64).as_str(),
        );
        let t = with_member(t.as_str(), "x", i64_text(w.rect.x as i64).as_str());
        let t = with_member(t.as_str(), "y", i64_text(w.rect.y as i64).as_str());
        let t = with_member(t.as_str(), "w", i64_text(w.rect.w as i64).as_str());
        let t = with_member(t.as_str(), "h", i64_text(w.rect.h as i64).as_str());
        let t = with_member(t.as_str(), "floating", bool_text(w.floating));
        let t = with_member(t.as_str(), "fullscreen", bool_text(w.fullscreen));
        items.push(t);
        i += 1;
    }
    assert(strings_view(items@) =~= window_texts(desk@.windows));
    array_text(&items)
}

fn write_spaces(desk: &Desk) -> (r: String)
    ensures
        r@ == json_array(space_texts(desk@.spaces, desk@.active)),
{
    let mut items: Vec<String> = Vec::new();
    let mut i: usize = 0;
    let n: usize = desk.spaces.len();
    while i < n
        invariant
            i <= n,
            n == desk.spaces@.len(),
            i == items@.len(),
            forall|k: int|
                0 <= k < i ==> (#[trigger] items@[k])@ == space_text(
                    desk.spaces@[k]@,
                    k,
                    desk.active as int,
                ),
        decreases n - i,
    {
        let s = &desk.spaces[i];
        let t = one_member("index", number_text((i + 1) as u64).as_str());
        let t = match s.focused {
            Some(id) => with_member(t.as_str(), "focused", number_text(id as u64).as_str()),
            None => with_member(t.as_str(), "focused", "null"),
        };
        let t = with_member(
            t.as_str(),
            "window_count",
            number_text(s.windows.len() as u64).as_str(),
        );
        let t = with_member(t.as_str(), "active", bool_text(i == desk.active));
        items.push(t);
        i += 1;
    }
    assert(strings_view(items@) =~= space_texts(desk@.spaces, desk@.active));
    array_text(&items)
}

// ── Requests, met ────────────────────────────────────────────────────────────

/// What a request makes the desktop do.
pub open spec fn request_actions(req: IpcRequest, d: DeskView) -> Seq<ActionView> {
    match req {
        IpcRequest::SwitchWorkspace { workspace } => seq![
            ActionView::SwitchWorkspace(
                if workspace > 0 {
                    (workspace - 1) as usize
                } else {
                    0
                },
            ),
            ActionView::Redraw,
        ],
        IpcRequest::CloseWindow { id } => match (if id is Some {
            id
        } else {
            d.focus()
        }) {
            Some(id) => seq![ActionView::Close(id)],
            None => Seq::empty(),
        },
        IpcRequest::ToggleFloat => match d.focus() {
            Some(id) => seq![ActionView::ToggleFloat(id), ActionView::Redraw],
            None => Seq::empty(),
        },
        IpcRequest::ToggleFullscreen => match d.focus() {
            Some(id) => seq![
                ActionView::SetFullscreen { window: id, on: !d.window(id)->0.fullscreen },
                ActionView::Redraw,
            ],
            None => Seq::empty(),
        },
        IpcRequest::SetLayout { layout } => seq![
            ActionView::SetLayout { workspace: d.active as usize, layout: layout@ },
            ActionView::Redraw,
        ],
        IpcRequest::Exec { command } => seq![ActionView::Exec(command@)],
        IpcRequest::Reload => seq![ActionView::Reload],
        IpcRequest::Exit => seq![ActionView::Exit],
        IpcRequest::Lua { code } => seq![ActionView::Lua(code@)],
        _ => Seq::empty(),
    }
}

/// What a request is answered; a script answers by its result.
pub open spec fn request_answer(req: IpcRequest, d: DeskView, version: Seq<char>) -> ResponseView {
    match req {
        IpcRequest::Version => ResponseView::Data(json_one("version"@, json_quoted(version))),
        IpcRequest::Clients => ResponseView::Data(json_array(window_texts(d.windows))),
        IpcRequest::Workspaces => ResponseView::Data(json_array(space_texts(d.spaces, d.active))),
        IpcRequest::ActiveWindow => ResponseView::Data(
            if d.focus() is Some && d.window(d.focus()->0) is Some {
                active_text(d.window(d.focus()->0)->0)
            } else {
                "null"@
            },
        ),
        IpcRequest::Monitors => ResponseView::Error("not implemented"@),
        IpcRequest::FocusWindow { .. } => ResponseView::Error("not implemented"@),
        IpcRequest::MoveToWorkspace { .. } => ResponseView::Error("not implemented"@),
        _ => ResponseView::Done,
    }
}

/// Meets a request: what the desktop does, and what the answer is. The answer to
/// a script is [`lua_response`] in its place.
pub fn process_request(req: IpcRequest, desk: &Desk, version: &str) -> (r: (
    Vec<IpcAction>,
    IpcResponse,
))
    requires
        req is Clients ==> forall|i: int|
            0 <= i < desk.windows@.len() ==> (#[trigger] desk.windows@[i]).workspace < usize::MAX,
        req is ToggleFullscreen && desk@.focus() is Some ==> desk@.window(desk@.focus()->0) is Some,
    ensures
        actions_view(r.0@) == request_actions(req, desk@),
        r.1@ == request_answer(req, desk@, version@),
        // What was answered can be read back.
        req is Version ==> (r.1@ matches ResponseView::Data(t) && string_member(t, "version"@)
            == Some(version@)),
        req is ActiveWindow && desk@.focus() is Some ==> (desk@.window(desk@.focus()->0) matches Some(
            w,
        ) ==> (r.1@ matches ResponseView::Data(t) && string_member(t, "app_id"@) == Some(w.app_id)
            && string_member(t, "title"@) == Some(w.title))),
{
    let ghost asked = req;
    proof {
        reveal_strlit("app_id");
        reveal_strlit("title");
        assert("app_id"@.len() == 6 && "title"@.len() == 5);
    }
    let mut actions: Vec<IpcAction> = Vec::new();
    let answer = match req {
        IpcRequest::Version => IpcResponse::Data(one_member("version", quoted(version).as_str())),
        IpcRequest::Clients => IpcResponse::Data(write_windows(desk)),
        IpcRequest::Workspaces => IpcResponse::Data(write_spaces(desk)),
        IpcRequest::ActiveWindow => {
            let found = match desk.focused_window() {
                Some(id) => desk.find(id),
                None => None,
            };
            match found {
                Some(i) => {
                    let w = &desk.windows[i];
                    let t = one_member("id", number_text(w.id as u64).as_str());
                    let t = with_member(t.as_str(), "app_id", quoted(w.app_id.as_str()).as_str());
                    IpcResponse::Data(
                        with_member(t.as_str(), "title", quoted(w.title.as_str()).as_str()),
                    )
                },
                None => IpcResponse::Data("null".to_owned()),
            }
        },
        IpcRequest::SwitchWorkspace { workspace } => {
            let index: usize = if workspace > 0 {
                workspace - 1
            } else {
                0
            };
            actions.push(IpcAction::SwitchWorkspace(index));
            actions.push(IpcAction::Redraw);
            IpcResponse::Done
        },
        IpcRequest::CloseWindow { id } => {
            let id = match id {
                Some(id) => Some(id),
                None => desk.focused_window(),
            };
            if let Some(id) = id {
                actions.push(IpcAction::Close(id));
            }
            IpcResponse::Done
        },
        IpcRequest::ToggleFloat => {
            if let Some(id) = desk.focused_window() {
                actions.push(IpcAction::ToggleFloat(id));
                actions.push(IpcAction::Redraw);
            }
            IpcResponse::Done
        },
        IpcRequest::ToggleFullscreen => {
            if let Some(id) = desk.focused_window() {
                if let Some(i) = desk.find(id) {
                    let on = !desk.windows[i].fullscreen;
                    actions.push(IpcAction::SetFullscreen { window: id, on });
                    actions.push(IpcAction::Redraw);
                }
            }
            IpcResponse::Done
        },
        IpcRequest::SetLayout { layout } => {
            actions.push(IpcAction::SetLayout { workspace: desk.active_ws(), layout });
            actions.push(IpcAction::Redraw);
            IpcResponse::Done
        },
        IpcRequest::Exec { command } => {
            actions.push(IpcAction::Exec(command));
            IpcResponse::Done
        },
        IpcRequest::Reload => {
            actions.push(IpcAction::Reload);
            IpcResponse::Done
        },
        IpcRequest::Exit => {
            actions.push(IpcAction::Exit);
            IpcResponse::Done
        },
        IpcRequest::Lua { code } => {
            actions.push(IpcAction::Lua(code));
            IpcResponse::Done
        },
        _ => IpcResponse::Error { error: "not implemented".to_owned() },
    };
    assert(actions_view(actions@) =~= request_actions(asked, desk@));
    (actions, answer)
}

/// A request for a query changes nothing.
pub proof fn law_queries_do_nothing(req: IpcRequest, d: DeskView)
    requires
        req is Version || req is Clients || req is Workspaces || req is ActiveWindow,
    ensures
        request_actions(req, d).len() == 0,
{
}

// ── The sender's side ────────────────────────────────────────────────────────

/// The words from `from` on, with a space between them.
pub open spec fn spaced(words: Seq<Seq<char>>, from: int) -> Seq<char>
    decreases words.len() - from,
{
    if from >= words.len() {
        Seq::empty()
    } else if from == words.len() - 1 {
        words[from]
    } else {
        words[from] + " "@ + spaced(words, from + 1)
    }
}

fn join_words(words: &Vec<String>, from: usize) -> (r: String)
    requires
        from <= words@.len(),
    ensures
        r@ == spaced(strings_view(words@), from as int),
    decreases words@.len() - from,
{
    let ghost v = strings_view(words@);
    assert(v.len() == words@.len());
    if from >= words.len() {
        let r = String::new();
        assert(r@ =~= Seq::<char>::empty());
        return r;
    }
    assert(v[from as int] == words@[from as int]@);
    let mut r = words[from].as_str().to_owned();
    if from + 1 < words.len() {
        r.append(" ");
        r.append(join_words(words, from + 1).as_str());
        assert(r@ =~= v[from as int] + " "@ + spaced(v, from + 1));
    }
    r
}

/// Whether a word is a request as it stands, and the name that is sent for it.
pub open spec fn plain_command(word: Seq<char>) -> Option<Seq<char>> {
    if word == "clients"@ {
        Some("clients"@)
    } else if word == "workspaces"@ {
        Some("workspaces"@)
    } else if word == "monitors"@ {
        Some("monitors"@)
    } else if word == "active-window"@ {
        Some("active_window"@)
    } else if word == "version"@ {
        Some("version"@)
    } else if word == "toggle-float"@ {
        Some("toggle_float"@)
    } else if word == "toggle-fullscreen"@ {
        Some("toggle_fullscreen"@)
    } else if word == "reload"@ {
        Some("reload"@)
    } else if word == "exit"@ {
        Some("exit"@)
    } else {
        None
    }
}

fn plain_name(word: &str) -> (r: Option<&'static str>)
    ensures
        match r {
            Some(n) => plain_command(word@) == Some(n@),
            None => plain_command(word@) is None,
        },
{
    if same(word, "clients") {
        Some("clients")
    } else if same(word, "workspaces") {
        Some("workspaces")
    } else if same(word, "monitors") {
        Some("monitors")
    } else if same(word, "active-window") {
        Some("active_window")
    } else if same(word, "version") {
        Some("version")
    } else if same(word, "toggle-float") {
        Some("toggle_float")
    } else if same(word, "toggle-fullscreen") {
        Some("toggle_fullscreen")
    } else if same(word, "reload") {
        Some("reload")
    } else if same(word, "exit") {
        Some("exit")
    } else {
        None
    }
}

/// A request of the name `name`.
pub open spec fn command(name: Seq<char>) -> Seq<char> {
    json_one("cmd"@, json_quoted(name))
}

fn write_command(name: &str) -> (r: String)
    ensures
        r@ == command(name@),
        string_member(r@, "cmd"@) == Some(name@),
{
    one_member("cmd", quoted(name).as_str())
}

/// The name of the request that the words of a command line make.
pub open spec fn command_name(word: Seq<char>) -> Option<Seq<char>> {
    if plain_command(word) is Some {
        plain_command(word)
    } else if word == "switch-workspace"@ {
        Some("switch_workspace"@)
    } else if word == "close"@ {
        Some("close_window"@)
    } else if word == "set-layout"@ {
        Some("set_layout"@)
    } else if word == "exec"@ {
        Some("exec"@)
    } else if word == "lua"@ {
        Some("lua"@)
    } else {
        None
    }
}

/// The request that the words of a command line make.
pub open spec fn request_text(args: Seq<Seq<char>>) -> Option<Seq<char>> {
    let word = args[0];
    if plain_command(word) is Some {
        Some(command(plain_command(word)->0))
    } else if word == "switch-workspace"@ {
        let n = if args.len() > 1 && unsigned_of(args[1], 10, u64::MAX as nat) is Some {
            unsigned_of(args[1], 10, u64::MAX as nat)->0
        } else {
            1
        };
        Some(json_with(command("switch_workspace"@), "workspace"@, decimal(n)))
    } else if word == "close"@ {
        let id = if args.len() > 1 && unsigned_of(args[1], 10, u32::MAX as nat) is Some {
            decimal(unsigned_of(args[1], 10, u32::MAX as nat)->0)
        } else {
            "null"@
        };
        Some(json_with(command("close_window"@), "id"@, id))
    } else if word == "set-layout"@ {
        let layout = if args.len() > 1 {
            args[1]
        } else {
            "master_stack"@
        };
        Some(json_with(command("set_layout"@), "layout"@, json_quoted(layout)))
    } else if word == "exec"@ {
        Some(json_with(command("exec"@), "command"@, json_quoted(spaced(args, 1))))
    } else if word == "lua"@ {
        Some(json_with(command("lua"@), "code"@, json_quoted(spaced(args, 1))))
    } else {
        None
    }
}

/// The request that the words of a command line make; `None` where the first is
/// no command. Who reads the request finds its name in it.
pub fn build_request(args: &Vec<String>) -> (r: Option<String>)
    requires
        args@.len() > 0,
    ensures
        match r {
            Some(t) => request_text(strings_view(args@)) == Some(t@),
            None => request_text(strings_view(args@)) is None,
        },
        r matches Some(t) ==> string_member(t@, "cmd"@) == command_name(args@[0]@),
{
    proof {
        reveal_strlit("cmd");
        reveal_strlit("workspace");
        reveal_strlit("id");
        reveal_strlit("layout");
        reveal_strlit("command");
        reveal_strlit("code");
        assert("cmd"@.len() == 3 && "workspace"@.len() == 9 && "id"@.len() == 2 && "layout"@.len()
            == 6 && "command"@.len() == 7 && "code"@.len() == 4);
    }
    let ghost v = strings_view(args@);
    assert(v[0] == args@[0]@ && v.len() == args@.len());
    let word = args[0].as_str();
    if let Some(name) = plain_name(word) {
        return Some(write_command(name));
    }
    if same(word, "switch-workspace") {
        let mut n: u64 = 1;
        if args.len() > 1 {
            assert(v[1] == args@[1]@);
            let c = chars_of(args[1].as_str());
            if let Some(m) = parse_u64(c.as_slice()) {
                n = m;
            }
        }
        let head = write_command("switch_workspace");
        Some(with_member(head.as_str(), "workspace", number_text(n).as_str()))
    } else if same(word, "close") {
        let mut id = "null".to_owned();
        if args.len() > 1 {
            assert(v[1] == args@[1]@);
            let c = chars_of(args[1].as_str());
            if let Some(m) = parse_unsigned(c.as_slice(), 10, u32::MAX) {
                id = number_text(m as u64);
            }
        }
        let head = write_command("close_window");
        Some(with_member(head.as_str(), "id", id.as_str()))
    } else if same(word, "set-layout") {
        let layout = if args.len() > 1 {
            assert(v[1] == args@[1]@);
            args[1].as_str()
        } else {
            "master_stack"
        };
        let head = write_command("set_layout");
        Some(with_member(head.as_str(), "layout", quoted(layout).as_str()))
    } else if same(word, "exec") {
        let head = write_command("exec");
        let words = join_words(args, 1);
        Some(with_member(head.as_str(), "command", quoted(words.as_str()).as_str()))
    } else if same(word, "lua") {
        let head = write_command("lua");
        let words = join_words(args, 1);
        Some(with_member(head.as_str(), "code", quoted(words.as_str()).as_str()))
    } else {
        None
    }
}

/// Where the socket of a program is: its name and that of the display, in the
/// directory for such files.
pub fn socket_path(name: &str, display: Option<&str>, runtime: Option<&str>) -> (r: String)
    ensures
        r@ == (match runtime {
            Some(d) => d@,
            None => "/tmp"@,
        }) + "/"@ + name@ + "-"@ + (match display {
            Some(d) => d@,
            None => "wayland-0"@,
        }) + ".sock"@,
{
    let mut r = match runtime {
        Some(d) => d.to_owned(),
        None => "/tmp".to_owned(),
    };
    r.append("/");
    r.append(name);
    r.append("-");
    match display {
        Some(d) => r.append(d),
        None => r.append("wayland-0"),
    }
    r.append(".sock");
    r
}

} // verus!
