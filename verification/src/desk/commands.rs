//! The requests and the answers of the control program.

use vstd::prelude::*;
use vstd::slice::slice_subrange;


verus! {

/// A request.
#[derive(Debug)]
pub enum IpcRequest {
    /// The windows on the workspace that is shown.
    Clients,
    Workspaces,
    Monitors,
    ActiveWindow,
    Version,
    /// Close a window, the one with the focus where none is given.
    CloseWindow { id: Option<u32> },
    FocusWindow { id: u32 },
    /// Move the window with the focus to a workspace, counted from 1.
    MoveToWorkspace { workspace: usize },
    ToggleFloat,
    ToggleFullscreen,
    ToggleMaximize,
    /// Place a window that floats.
    SetWindowGeometry { id: u32, x: i32, y: i32, w: i32, h: i32 },
    /// Show a workspace, counted from 1.
    SwitchWorkspace { workspace: usize },
    SetLayout { layout: String },
    Reload,
    Exec { command: String },
    Exit,
    Lua { code: String },
    /// Act as if keys were pressed.
    Bind { key: String },
}

/// An answer; its data are JSON.
#[derive(Debug)]
pub struct IpcResponse {
    pub ok: bool,
    pub error: Option<String>,
    pub data: Option<String>,
}

impl IpcResponse {
    pub fn ok(data: String) -> (r: Self)
        ensures
            r.ok && r.error is None && r.data == Some(data),
    {
        IpcResponse { ok: true, error: None, data: Some(data) }
    }

    pub fn ok_empty() -> (r: Self)
        ensures
            r.ok && r.error is None && r.data is None,
    {
        IpcResponse { ok: true, error: None, data: None }
    }

    pub fn err(msg: String) -> (r: Self)
        ensures
            !r.ok && r.error == Some(msg) && r.data is None,
    {
        IpcResponse { ok: false, error: Some(msg), data: None }
    }
}

/// A message as it is sent: a line.
pub fn line_of(text: Vec<u8>) -> (r: Vec<u8>)
    ensures
        r@ == text@.push(10u8),
{
    let mut r = text;
    r.push(10);
    r
}

/// Whether a byte is white space.
pub open spec fn space_byte(b: u8) -> bool {
    b == 32 || b == 9 || b == 10 || b == 12 || b == 13
}

/// A message without the white space at its end.
pub open spec fn trimmed(b: Seq<u8>) -> Seq<u8>
    decreases b.len(),
{
    if b.len() > 0 && space_byte(b.last()) {
        trimmed(b.drop_last())
    } else {
        b
    }
}

/// What a message says, without the white space at its end.
pub fn message_of(buf: &[u8]) -> (r: &[u8])
    ensures
        r@ == trimmed(buf@),
{
    let mut n: usize = buf.len();
    assert(buf@.take(n as int) =~= buf@);
    while n > 0 && (buf[n - 1] == 32 || buf[n - 1] == 9 || buf[n - 1] == 10 || buf[n - 1] == 12
        || buf[n - 1] == 13)
        invariant
            n <= buf@.len(),
            trimmed(buf@) == trimmed(buf@.take(n as int)),
        decreases n,
    {
        assert(buf@.take(n as int).drop_last() =~= buf@.take(n - 1));
        n -= 1;
    }
    assert(buf@.subrange(0, n as int) =~= buf@.take(n as int));
    slice_subrange(buf, 0, n)
}

/// A message that is sent as a line is read as it was, where it does not end in
/// white space.
pub proof fn law_line_reads_back(text: Seq<u8>)
    requires
        text.len() > 0 ==> !space_byte(text.last()),
    ensures
        trimmed(text.push(10u8)) == text,
{
    assert(text.push(10u8).drop_last() =~= text);
    reveal_with_fuel(trimmed, 2);
}

/// What is told of a window.
#[derive(Debug)]
pub struct ClientInfo {
    pub id: u32,
    pub app_id: String,
    pub title: String,
    pub workspace: usize,
    pub floating: bool,
    pub fullscreen: bool,
    pub maximized: bool,
    pub x: i32,
    pub y: i32,
    pub w: i32,
    pub h: i32,
    pub xwayland: bool,
}

/// What is told of a workspace.
#[derive(Debug)]
pub struct WorkspaceInfo {
    pub index: usize,
    pub name: String,
    pub active: bool,
    pub window_count: usize,
    pub focused_id: Option<u32>,
}

/// What is told of the program itself.
#[derive(Debug)]
pub struct VersionInfo {
    pub compositor: &'static str,
    pub version: &'static str,
    pub wayland_display: String,
}

} // verus!
