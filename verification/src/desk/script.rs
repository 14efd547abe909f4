//! What scripts can do.

use vstd::prelude::*;
use vstd::slice::slice_subrange;

use crate::desk::windows::{Desk, DeskView, SpaceView, WindowId};
use crate::integer::{parse_unsigned, unsigned_of};
use crate::text::{
    after_prefix, byte_len, byte_offset, char_width, chars_of, lemma_byte_offset_monotone,
    lemma_byte_offset_step, run, run_end, same, slices_view, string_of, strings_view, strip_prefix,
    words, words_spec, CharSet,
};

verus! {

// ── Actions ──────────────────────────────────────────────────────────────────

/// What a script asks for.
#[derive(Debug)]
pub enum LuaAction {
    Spawn(String),
    FocusId(WindowId),
    CloseId(WindowId),
    MoveToWorkspace(WindowId, usize),
    SwitchWorkspace(usize),
    /// The layout of a workspace, by its name.
    SetLayout(usize, String),
    SetFloat(WindowId, bool),
    SetFullscreen(WindowId, bool),
    FocusDirection(u8),
    CycleFocus(i32),
    IncMaster,
    DecMaster,
    Reload,
    Quit,
}

/// What a [`LuaAction`] holds.
pub enum LuaView {
    Spawn(Seq<char>),
    FocusId(WindowId),
    CloseId(WindowId),
    MoveToWorkspace(WindowId, usize),
    SwitchWorkspace(usize),
    SetLayout(usize, Seq<char>),
    SetFloat(WindowId, bool),
    SetFullscreen(WindowId, bool),
    FocusDirection(u8),
    CycleFocus(i32),
    IncMaster,
    DecMaster,
    Reload,
    Quit,
}

impl View for LuaAction {
    type V = LuaView;

    open spec fn view(&self) -> LuaView {
        match *self {
            LuaAction::Spawn(c) => LuaView::Spawn(c@),
            LuaAction::FocusId(id) => LuaView::FocusId(id),
            LuaAction::CloseId(id) => LuaView::CloseId(id),
            LuaAction::MoveToWorkspace(id, n) => LuaView::MoveToWorkspace(id, n),
            LuaAction::SwitchWorkspace(n) => LuaView::SwitchWorkspace(n),
            LuaAction::SetLayout(n, l) => LuaView::SetLayout(n, l@),
            LuaAction::SetFloat(id, on) => LuaView::SetFloat(id, on),
            LuaAction::SetFullscreen(id, on) => LuaView::SetFullscreen(id, on),
            LuaAction::FocusDirection(d) => LuaView::FocusDirection(d),
            LuaAction::CycleFocus(n) => LuaView::CycleFocus(n),
            LuaAction::IncMaster => LuaView::IncMaster,
            LuaAction::DecMaster => LuaView::DecMaster,
            LuaAction::Reload => LuaView::Reload,
            LuaAction::Quit => LuaView::Quit,
        }
    }
}

/// A call that a script makes. Workspaces are counted from 1.
#[derive(Debug)]
pub enum ScriptCall {
    Spawn(String),
    Workspace(usize),
    Send(usize),
    Layout(usize, String),
    Focus(String),
    Cycle(i32),
    Move,
    Close,
    Float,
    Fullscreen,
    IncMaster,
    DecMaster,
    Reload,
    Quit,
    Notify(String),
}

/// The number of a direction; a name that is none means to the left.
pub open spec fn direction(name: Seq<char>) -> u8 {
    if name == "right"@ {
        1
    } else if name == "up"@ {
        2
    } else if name == "down"@ {
        3
    } else {
        0
    }
}

pub fn dir_to_u8(s: &str) -> (r: u8)
    ensures
        r == direction(s@),
{
    if same(s, "right") {
        1
    } else if same(s, "up") {
        2
    } else if same(s, "down") {
        3
    } else {
        0
    }
}

/// The index of a workspace that is counted from 1.
pub open spec fn index_from_one(n: usize) -> usize {
    if n > 0 {
        (n - 1) as usize
    } else {
        0
    }
}

fn to_index(n: usize) -> (r: usize)
    ensures
        r == index_from_one(n),
{
    if n > 0 {
        n - 1
    } else {
        0
    }
}

/// The command that shows a message; `sender` is the name that it stands under.
pub open spec fn notice(sender: Seq<char>, msg: Seq<char>) -> Seq<char> {
    "notify-send "@ + sender + " \""@ + msg + "\""@
}

/// What a call asks for when the window `focused` has the focus.
pub open spec fn called(
    call: ScriptCall,
    focused: Option<WindowId>,
    sender: Seq<char>,
) -> Option<LuaView> {
    match call {
        ScriptCall::Spawn(c) => Some(LuaView::Spawn(c@)),
        ScriptCall::Workspace(n) => Some(LuaView::SwitchWorkspace(index_from_one(n))),
        ScriptCall::Send(n) => match focused {
            Some(id) => Some(LuaView::MoveToWorkspace(id, index_from_one(n))),
            None => None,
        },
        ScriptCall::Layout(n, name) => Some(LuaView::SetLayout(index_from_one(n), name@)),
        ScriptCall::Focus(d) => Some(LuaView::FocusDirection(direction(d@))),
        ScriptCall::Cycle(n) => Some(LuaView::CycleFocus(n)),
        ScriptCall::Move => None,
        ScriptCall::Close => match focused {
            Some(id) => Some(LuaView::CloseId(id)),
            None => None,
        },
        ScriptCall::Float => match focused {
            Some(id) => Some(LuaView::SetFloat(id, true)),
            None => None,
        },
        ScriptCall::Fullscreen => match focused {
            Some(id) => Some(LuaView::SetFullscreen(id, true)),
            None => None,
        },
        ScriptCall::IncMaster => Some(LuaView::IncMaster),
        ScriptCall::DecMaster => Some(LuaView::DecMaster),
        ScriptCall::Reload => Some(LuaView::Reload),
        ScriptCall::Quit => Some(LuaView::Quit),
        ScriptCall::Notify(m) => Some(LuaView::Spawn(notice(sender, m@))),
    }
}

/// What a call asks for when the window `focused` has the focus; `sender` is the
/// name under which messages are shown.
pub fn call_action(call: ScriptCall, focused: Option<WindowId>, sender: &str) -> (r: Option<
    LuaAction,
>)
    ensures
        match r {
            Some(a) => called(call, focused, sender@) == Some(a@),
            None => called(call, focused, sender@) is None,
        },
{
    match call {
        ScriptCall::Spawn(c) => Some(LuaAction::Spawn(c)),
        ScriptCall::Workspace(n) => Some(LuaAction::SwitchWorkspace(to_index(n))),
        ScriptCall::Send(n) => match focused {
            Some(id) => Some(LuaAction::MoveToWorkspace(id, to_index(n))),
            None => None,
        },
        ScriptCall::Layout(n, name) => Some(LuaAction::SetLayout(to_index(n), name)),
        ScriptCall::Focus(d) => Some(LuaAction::FocusDirection(dir_to_u8(d.as_str()))),
        ScriptCall::Cycle(n) => Some(LuaAction::CycleFocus(n)),
        ScriptCall::Move => None,
        ScriptCall::Close => match focused {
            Some(id) => Some(LuaAction::CloseId(id)),
            None => None,
        },
        ScriptCall::Float => match focused {
            Some(id) => Some(LuaAction::SetFloat(id, true)),
            None => None,
        },
        ScriptCall::Fullscreen => match focused {
            Some(id) => Some(LuaAction::SetFullscreen(id, true)),
            None => None,
        },
        ScriptCall::IncMaster => Some(LuaAction::IncMaster),
        ScriptCall::DecMaster => Some(LuaAction::DecMaster),
        ScriptCall::Reload => Some(LuaAction::Reload),
        ScriptCall::Quit => Some(LuaAction::Quit),
        ScriptCall::Notify(m) => {
            let mut c = "notify-send ".to_owned();
            c.append(sender);
            c.append(" \"");
            c.append(m.as_str());
            c.append("\"");
            Some(LuaAction::Spawn(c))
        },
    }
}

// ── Acting ───────────────────────────────────────────────────────────────────

/// What the desktop does for a script.
#[derive(Debug)]
pub enum DeskAction {
    /// A program is started.
    Run { program: String, args: Vec<String> },
    /// Settings take effect; they stand here as JSON.
    Configure(String),
    SwitchWorkspace(usize),
    MoveToWorkspace(WindowId, usize),
    /// The layout of a workspace, where there is one with that index.
    SetLayout(usize, String),
    /// Whether a window floats, where there is one.
    SetFloat(WindowId, bool),
    SetFullscreen(WindowId, bool),
    FocusDirection(u8),
    CycleFocus(i32),
    Focus(WindowId),
    Close(WindowId),
    IncMaster,
    DecMaster,
    /// The windows are laid out anew.
    Reflow,
    /// The keyboard goes to the window with the focus.
    SyncKeyboard,
    Reload,
    Quit,
    Redraw,
}

/// What a [`DeskAction`] holds.
pub enum DeskActionView {
    Run { program: Seq<char>, args: Seq<Seq<char>> },
    Configure(Seq<char>),
    SwitchWorkspace(usize),
    MoveToWorkspace(WindowId, usize),
    SetLayout(usize, Seq<char>),
    SetFloat(WindowId, bool),
    SetFullscreen(WindowId, bool),
    FocusDirection(u8),
    CycleFocus(i32),
    Focus(WindowId),
    Close(WindowId),
    IncMaster,
    DecMaster,
    Reflow,
    SyncKeyboard,
    Reload,
    Quit,
    Redraw,
}

impl View for DeskAction {
    type V = DeskActionView;

    open spec fn view(&self) -> DeskActionView {
        match *self {
            DeskAction::Run { program, args } => DeskActionView::Run {
                program: program@,
                args: strings_view(args@),
            },
            DeskAction::Configure(t) => DeskActionView::Configure(t@),
            DeskAction::SwitchWorkspace(n) => DeskActionView::SwitchWorkspace(n),
            DeskAction::MoveToWorkspace(id, n) => DeskActionView::MoveToWorkspace(id, n),
            DeskAction::SetLayout(n, l) => DeskActionView::SetLayout(n, l@),
            DeskAction::SetFloat(id, on) => DeskActionView::SetFloat(id, on),
            DeskAction::SetFullscreen(id, on) => DeskActionView::SetFullscreen(id, on),
            DeskAction::FocusDirection(d) => DeskActionView::FocusDirection(d),
            DeskAction::CycleFocus(n) => DeskActionView::CycleFocus(n),
            DeskAction::Focus(id) => DeskActionView::Focus(id),
            DeskAction::Close(id) => DeskActionView::Close(id),
            DeskAction::IncMaster => DeskActionView::IncMaster,
            DeskAction::DecMaster => DeskActionView::DecMaster,
            DeskAction::Reflow => DeskActionView::Reflow,
            DeskAction::SyncKeyboard => DeskActionView::SyncKeyboard,
            DeskAction::Reload => DeskActionView::Reload,
            DeskAction::Quit => DeskActionView::Quit,
            DeskAction::Redraw => DeskActionView::Redraw,
        }
    }
}

pub open spec fn desk_actions_view(v: Seq<DeskAction>) -> Seq<DeskActionView> {
    Seq::new(v.len(), |i: int| v[i]@)
}

/// The program that a command line starts, with its arguments; none where it is
/// empty.
pub open spec fn started(cmd: Seq<char>) -> Seq<DeskActionView> {
    let w = words_spec(cmd);
    if w.len() > 0 {
        seq![DeskActionView::Run { program: w[0], args: w.skip(1) }]
    } else {
        Seq::empty()
    }
}

/// What an action makes the desktop do. A command that starts with `__cfg__`
/// carries settings.
pub open spec fn applied(a: LuaView) -> Seq<DeskActionView> {
    match a {
        LuaView::Spawn(cmd) => match after_prefix(cmd, "__cfg__"@) {
            Some(json) => seq![DeskActionView::Configure(json)],
            None => started(cmd),
        },
        LuaView::SwitchWorkspace(n) => seq![
            DeskActionView::SwitchWorkspace(n),
            DeskActionView::Redraw,
        ],
        LuaView::MoveToWorkspace(id, n) => seq![
            DeskActionView::MoveToWorkspace(id, n),
            DeskActionView::Redraw,
        ],
        LuaView::SetLayout(n, l) => seq![
            DeskActionView::SetLayout(n, l),
            DeskActionView::Reflow,
            DeskActionView::Redraw,
        ],
        LuaView::SetFloat(id, on) => seq![
            DeskActionView::SetFloat(id, on),
            DeskActionView::Reflow,
            DeskActionView::Redraw,
        ],
        LuaView::SetFullscreen(id, on) => seq![
            DeskActionView::SetFullscreen(id, on),
            DeskActionView::Redraw,
        ],
        LuaView::FocusDirection(d) => seq![
            DeskActionView::FocusDirection(d),
            DeskActionView::SyncKeyboard,
            DeskActionView::Redraw,
        ],
        LuaView::CycleFocus(n) => seq![
            DeskActionView::CycleFocus(n),
            DeskActionView::SyncKeyboard,
            DeskActionView::Redraw,
        ],
        LuaView::FocusId(id) => seq![
            DeskActionView::Focus(id),
            DeskActionView::SyncKeyboard,
            DeskActionView::Redraw,
        ],
        LuaView::CloseId(id) => seq![DeskActionView::Close(id)],
        LuaView::IncMaster => seq![DeskActionView::IncMaster, DeskActionView::Redraw],
        LuaView::DecMaster => seq![DeskActionView::DecMaster, DeskActionView::Redraw],
        LuaView::Reload => seq![DeskActionView::Reload],
        LuaView::Quit => seq![DeskActionView::Quit],
    }
}

/// The program and the arguments of a command line.
pub fn command_line(cmd: &str) -> (r: Option<(String, Vec<String>)>)
    ensures
        match r {
            Some((p, a)) => words_spec(cmd@).len() > 0 && p@ == words_spec(cmd@)[0] && strings_view(
                a@,
            ) == words_spec(cmd@).skip(1),
            None => words_spec(cmd@).len() == 0,
        },
{
    let c = chars_of(cmd);
    let w = words(c.as_slice());
    let ghost v = words_spec(cmd@);
    assert(slices_view(w@) == v && v.len() == w@.len());
    if w.len() == 0 {
        return None;
    }
    let program = string_of(w[0]);
    assert(slices_view(w@)[0] == w@[0]@);
    let mut args: Vec<String> = Vec::new();
    let mut i: usize = 1;
    while i < w.len()
        invariant
            1 <= i <= w@.len(),
            args@.len() == i - 1,
            v == slices_view(w@),
            forall|k: int| 0 <= k < i - 1 ==> (#[trigger] args@[k])@ == v[k + 1],
        decreases w@.len() - i,
    {
        assert(v[i as int] == w@[i as int]@);
        args.push(string_of(w[i]));
        i += 1;
    }
    assert(strings_view(args@) =~= v.skip(1));
    Some((program, args))
}

/// What an action makes the desktop do.
pub fn apply_action(action: LuaAction) -> (r: Vec<DeskAction>)
    ensures
        desk_actions_view(r@) == applied(action@),
{
    let ghost a = action@;
    let mut r: Vec<DeskAction> = Vec::new();
    match action {
        LuaAction::Spawn(cmd) => {
            let c = chars_of(cmd.as_str());
            match strip_prefix(c.as_slice(), "__cfg__") {
                Some(json) => {
                    r.push(DeskAction::Configure(string_of(json)));
                },
                None => {
                    if let Some((program, args)) = command_line(cmd.as_str()) {
                        r.push(DeskAction::Run { program, args });
                    }
                },
            }
        },
        LuaAction::SwitchWorkspace(n) => {
            r.push(DeskAction::SwitchWorkspace(n));
            r.push(DeskAction::Redraw);
        },
        LuaAction::MoveToWorkspace(id, n) => {
            r.push(DeskAction::MoveToWorkspace(id, n));
            r.push(DeskAction::Redraw);
        },
        LuaAction::SetLayout(n, l) => {
            r.push(DeskAction::SetLayout(n, l));
            r.push(DeskAction::Reflow);
            r.push(DeskAction::Redraw);
        },
        LuaAction::SetFloat(id, on) => {
            r.push(DeskAction::SetFloat(id, on));
            r.push(DeskAction::Reflow);
            r.push(DeskAction::Redraw);
        },
        LuaAction::SetFullscreen(id, on) => {
            r.push(DeskAction::SetFullscreen(id, on));
            r.push(DeskAction::Redraw);
        },
        LuaAction::FocusDirection(d) => {
            r.push(DeskAction::FocusDirection(d));
            r.push(DeskAction::SyncKeyboard);
            r.push(DeskAction::Redraw);
        },
        LuaAction::CycleFocus(n) => {
            r.push(DeskAction::CycleFocus(n));
            r.push(DeskAction::SyncKeyboard);
            r.push(DeskAction::Redraw);
        },
        LuaAction::FocusId(id) => {
            r.push(DeskAction::Focus(id));
            r.push(DeskAction::SyncKeyboard);
            r.push(DeskAction::Redraw);
        },
        LuaAction::CloseId(id) => {
            r.push(DeskAction::Close(id));
        },
        LuaAction::IncMaster => {
            r.push(DeskAction::IncMaster);
            r.push(DeskAction::Redraw);
        },
        LuaAction::DecMaster => {
            r.push(DeskAction::DecMaster);
            r.push(DeskAction::Redraw);
        },
        LuaAction::Reload => {
            r.push(DeskAction::Reload);
        },
        LuaAction::Quit => {
            r.push(DeskAction::Quit);
        },
    }
    assert(desk_actions_view(r@) =~= applied(a));
    r
}

// ── Colors ───────────────────────────────────────────────────────────────────

/// The number that two hexadecimal digits write, 255 where they write none.
pub open spec fn channel(s: Seq<char>) -> u8 {
    match unsigned_of(s, 16, 255) {
        Some(n) => n as u8,
        None => 255,
    }
}

/// The index of the first character at or behind byte `b`.
pub open spec fn index_at(s: Seq<char>, i: int, b: int) -> int
    decreases s.len() - i,
{
    if i < s.len() && byte_offset(s, i) < b {
        index_at(s, i + 1, b)
    } else {
        i
    }
}

/// Whether a character starts at byte `b`, or the text ends there.
pub open spec fn is_boundary(s: Seq<char>, b: int) -> bool {
    byte_offset(s, index_at(s, 0, b)) == b
}

/// What stands between two bytes of a text.
pub open spec fn between(s: Seq<char>, from: int, to: int) -> Seq<char> {
    s.subrange(index_at(s, 0, from), index_at(s, 0, to))
}

/// What stands behind the number signs at the start.
pub open spec fn digits_of(hex: Seq<char>) -> Seq<char> {
    hex.skip(run_end(hex, 0, CharSet::Only('#')))
}

/// A color that is written as six hexadecimal digits behind number signs, in
/// pairs of bytes. White where it is shorter.
pub open spec fn rgba_of(hex: Seq<char>) -> (u8, u8, u8, u8) {
    let h = digits_of(hex);
    if byte_len(h) < 6 {
        (255, 255, 255, 255)
    } else {
        (channel(between(h, 0, 2)), channel(between(h, 2, 4)), channel(between(h, 4, 6)), 255)
    }
}

/// Whether the first three pairs of bytes of a color are whole characters.
pub open spec fn has_pairs(hex: Seq<char>) -> bool {
    let h = digits_of(hex);
    byte_len(h) >= 6 ==> is_boundary(h, 2) && is_boundary(h, 4) && is_boundary(h, 6)
}

fn read_channel(s: &[char]) -> (r: u8)
    ensures
        r == channel(s@),
{
    match parse_unsigned(s, 16, 255) {
        Some(n) => n as u8,
        None => 255,
    }
}

fn find_byte(s: &[char], b: usize) -> (r: usize)
    requires
        b <= 6,
    ensures
        r == index_at(s@, 0, b as int),
        r <= s@.len(),
{
    let mut i: usize = 0;
    let mut at: usize = 0;
    assert(byte_offset(s@, 0) == 0) by {
        assert(s@.take(0) =~= Seq::empty());
    }
    while i < s.len() && at < b
        invariant
            i <= s@.len(),
            b <= 6,
            at <= 9,
            at == byte_offset(s@, i as int),
            index_at(s@, 0, b as int) == index_at(s@, i as int, b as int),
        decreases s@.len() - i,
    {
        proof {
            lemma_byte_offset_step(s@, i as int);
        }
        at = at + char_width(s[i]);
        i += 1;
    }
    i
}

proof fn lemma_index_at(s: Seq<char>, i: int, a: int, b: int)
    requires
        0 <= i <= s.len(),
        a <= b,
    ensures
        i <= index_at(s, i, a) <= index_at(s, i, b) <= s.len(),
    decreases s.len() - i,
{
    if i < s.len() {
        lemma_index_at(s, i + 1, a, b);
    }
}

/// A color such as `#b4befe`.
pub fn hex_to_rgba(hex: &str) -> (r: (u8, u8, u8, u8))
    requires
        has_pairs(hex@),
    ensures
        r == rgba_of(hex@),
{
    let c = chars_of(hex);
    let start: usize = run(c.as_slice(), 0, CharSet::Only('#'));
    let h = slice_subrange(c.as_slice(), start, c.len());
    assert(h@ =~= hex@.skip(start as int));
    let ghost hs = h@;
    let a: usize = find_byte(h, 2);
    let b: usize = find_byte(h, 4);
    let d: usize = find_byte(h, 6);
    proof {
        lemma_index_at(hs, 0, 0, 2);
        lemma_index_at(hs, 0, 2, 4);
        lemma_index_at(hs, 0, 4, 6);
        assert(byte_offset(hs, 0) == 0) by {
            assert(hs.take(0) =~= Seq::empty());
        }
    }
    if !reaches(h, 6) {
        return (255, 255, 255, 255);
    }
    let r: u8 = read_channel(slice_subrange(h, 0, a));
    let g: u8 = read_channel(slice_subrange(h, a, b));
    let bl: u8 = read_channel(slice_subrange(h, b, d));
    (r, g, bl, 255)
}

/// Whether a text has at least `b` bytes.
fn reaches(s: &[char], b: usize) -> (r: bool)
    requires
        b <= 6,
    ensures
        r == (byte_len(s@) >= b),
{
    let mut i: usize = 0;
    let mut at: usize = 0;
    assert(byte_offset(s@, 0) == 0) by {
        assert(s@.take(0) =~= Seq::empty());
    }
    while i < s.len() && at < b
        invariant
            i <= s@.len(),
            b <= 6,
            at <= 9,
            at == byte_offset(s@, i as int),
        decreases s@.len() - i,
    {
        proof {
            lemma_byte_offset_step(s@, i as int);
        }
        at = at + char_width(s[i]);
        i += 1;
    }
    proof {
        lemma_byte_offset_monotone(s@, i as int, s@.len() as int);
        assert(s@.take(s@.len() as int) =~= s@);
    }
    at >= b
}

// ── Settings ─────────────────────────────────────────────────────────────────

/// A color of red, green, blue and alpha.
pub type Rgba = (u8, u8, u8, u8);

/// The settings of the desktop.
#[derive(Debug, Clone, Copy, PartialEq, Eq)]
pub struct WmConfig {
    pub border_w: u32,
    pub gap: u32,
    pub outer_gap: u32,
    pub bar_height: u32,
    pub workspaces_count: usize,
    pub bar_at_bottom: bool,
    pub active_border: Rgba,
    pub inactive_border: Rgba,
    pub bar_bg: Rgba,
}

impl Default for WmConfig {
    fn default() -> (r: Self)
        ensures
            r == (WmConfig {
                border_w: 2,
                gap: 6,
                outer_gap: 0,
                bar_height: 24,
                workspaces_count: 9,
                bar_at_bottom: false,
                active_border: (0xb4, 0xbe, 0xfe, 0xff),
                inactive_border: (0x45, 0x47, 0x5a, 0xff),
                bar_bg: (0x18, 0x18, 0x25, 0xff),
            }),
    {
        WmConfig {
            border_w: 2,
            gap: 6,
            outer_gap: 0,
            bar_height: 24,
            workspaces_count: 9,
            bar_at_bottom: false,
            active_border: (0xb4, 0xbe, 0xfe, 0xff),
            inactive_border: (0x45, 0x47, 0x5a, 0xff),
            bar_bg: (0x18, 0x18, 0x25, 0xff),
        }
    }
}

/// The settings that a script gives, as far as they are of the right kind.
#[derive(Debug)]
pub struct Given {
    pub border_width: Option<u32>,
    pub gap: Option<u32>,
    pub outer_gap: Option<u32>,
    pub bar_height: Option<u32>,
    pub workspaces: Option<usize>,
    pub bar_at_bottom: Option<bool>,
    pub border_active: Option<String>,
    pub border_inactive: Option<String>,
    pub bar_bg: Option<String>,
}

pub open spec fn color_or(given: Option<String>, default: Rgba) -> Rgba {
    match given {
        Some(s) => rgba_of(s@),
        None => default,
    }
}

pub open spec fn pairs_or_none(given: Option<String>) -> bool {
    given matches Some(s) ==> has_pairs(s@)
}

fn read_color(given: &Option<String>, default: Rgba) -> (r: Rgba)
    requires
        pairs_or_none(*given),
    ensures
        r == color_or(*given, default),
{
    match given {
        Some(s) => hex_to_rgba(s.as_str()),
        None => default,
    }
}

impl WmConfig {
    /// These settings with those that a script gives in their place.
    pub fn with(self, given: &Given) -> (r: WmConfig)
        requires
            pairs_or_none(given.border_active),
            pairs_or_none(given.border_inactive),
            pairs_or_none(given.bar_bg),
        ensures
            r == (WmConfig {
                border_w: given.border_width.unwrap_or(self.border_w),
                gap: given.gap.unwrap_or(self.gap),
                outer_gap: given.outer_gap.unwrap_or(self.outer_gap),
                bar_height: given.bar_height.unwrap_or(self.bar_height),
                workspaces_count: given.workspaces.unwrap_or(self.workspaces_count),
                bar_at_bottom: given.bar_at_bottom.unwrap_or(self.bar_at_bottom),
                active_border: color_or(given.border_active, self.active_border),
                inactive_border: color_or(given.border_inactive, self.inactive_border),
                bar_bg: color_or(given.bar_bg, self.bar_bg),
            }),
    {
        WmConfig {
            border_w: given.border_width.unwrap_or(self.border_w),
            gap: given.gap.unwrap_or(self.gap),
            outer_gap: given.outer_gap.unwrap_or(self.outer_gap),
            bar_height: given.bar_height.unwrap_or(self.bar_height),
            workspaces_count: given.workspaces.unwrap_or(self.workspaces_count),
            bar_at_bottom: given.bar_at_bottom.unwrap_or(self.bar_at_bottom),
            active_border: read_color(&given.border_active, self.active_border),
            inactive_border: read_color(&given.border_inactive, self.inactive_border),
            bar_bg: read_color(&given.bar_bg, self.bar_bg),
        }
    }
}

// ── Lists and signals ────────────────────────────────────────────────────────

/// The windows of the first `n` workspaces, each once, in order.
pub open spec fn listed(spaces: Seq<SpaceView>, n: int) -> Seq<WindowId>
    decreases n,
{
    if n <= 0 {
        Seq::empty()
    } else {
        added(listed(spaces, n - 1), spaces[n - 1].windows)
    }
}

/// `list` with those of `ids` that it lacks, each once.
pub open spec fn added(list: Seq<WindowId>, ids: Seq<WindowId>) -> Seq<WindowId>
    decreases ids.len(),
{
    if ids.len() == 0 {
        list
    } else {
        let before = added(list, ids.drop_last());
        if before.contains(ids.last()) {
            before
        } else {
            before.push(ids.last())
        }
    }
}

/// Those of `ids` that are windows.
pub open spec fn existing(d: DeskView, ids: Seq<WindowId>) -> Seq<WindowId>
    decreases ids.len(),
{
    if ids.len() == 0 {
        Seq::empty()
    } else if d.window(ids.last()) is Some {
        existing(d, ids.drop_last()).push(ids.last())
    } else {
        existing(d, ids.drop_last())
    }
}

fn has_id(v: &Vec<WindowId>, id: WindowId) -> (r: bool)
    ensures
        r == v@.contains(id),
{
    let mut i: usize = 0;
    while i < v.len()
        invariant
            i <= v@.len(),
            forall|k: int| 0 <= k < i ==> v@[k] != id,
        decreases v@.len() - i,
    {
        if v[i] == id {
            return true;
        }
        i += 1;
    }
    false
}

/// The windows as scripts see them: each once, in the order of the workspaces.
pub fn client_list(desk: &Desk) -> (r: Vec<WindowId>)
    ensures
        r@ == existing(desk@, listed(desk@.spaces, desk@.spaces.len() as int)),
{
    let ghost sp = desk@.spaces;
    let mut seen: Vec<WindowId> = Vec::new();
    let mut i: usize = 0;
    while i < desk.spaces.len()
        invariant
            i <= desk.spaces@.len(),
            sp == desk@.spaces,
            seen@ == listed(sp, i as int),
        decreases desk.spaces@.len() - i,
    {
        let s = &desk.spaces[i];
        assert(sp[i as int].windows == s.windows@);
        let ghost base = seen@;
        let mut k: usize = 0;
        assert(s.windows@.take(0) =~= Seq::empty());
        while k < s.windows.len()
            invariant
                k <= s.windows@.len(),
                seen@ == added(base, s.windows@.take(k as int)),
            decreases s.windows@.len() - k,
        {
            let id: WindowId = s.windows[k];
            if !has_id(&seen, id) {
                seen.push(id);
            }
            k += 1;
            assert(s.windows@.take(k as int).drop_last() =~= s.windows@.take(k - 1));
        }
        assert(s.windows@.take(k as int) =~= s.windows@);
        i += 1;
    }
    let mut r: Vec<WindowId> = Vec::new();
    let mut j: usize = 0;
    assert(seen@.take(0) =~= Seq::empty());
    while j < seen.len()
        invariant
            j <= seen@.len(),
            r@ == existing(desk@, seen@.take(j as int)),
        decreases seen@.len() - j,
    {
        if desk.find(seen[j]).is_some() {
            r.push(seen[j]);
        }
        j += 1;
        assert(seen@.take(j as int).drop_last() =~= seen@.take(j - 1));
    }
    assert(seen@.take(j as int) =~= seen@);
    r
}

pub const SIG_MANAGE: &'static str = "manage";

pub const SIG_UNMANAGE: &'static str = "unmanage";

pub const SIG_FOCUS: &'static str = "focus";

pub const SIG_UNFOCUS: &'static str = "unfocus";

pub const SIG_PROP_TITLE: &'static str = "property::title";

pub const SIG_PROP_FLOATING: &'static str = "property::floating";

pub const SIG_PROP_FULLSCREEN: &'static str = "property::fullscreen";

pub const SIG_PROP_URGENT: &'static str = "property::urgent";

pub const SIG_TAG_SELECTED: &'static str = "property::selected";

/// The functions that are called on a signal, by numbers.
#[derive(Debug)]
pub struct Connection {
    pub signal: String,
    pub function: u64,
}

/// Which functions are called on which signals.
#[derive(Debug)]
pub struct Signals {
    pub connections: Vec<Connection>,
}

/// What a [`Connection`] holds.
pub struct ConnectionView {
    pub signal: Seq<char>,
    pub function: u64,
}

impl View for Connection {
    type V = ConnectionView;

    open spec fn view(&self) -> ConnectionView {
        ConnectionView { signal: self.signal@, function: self.function }
    }
}

impl View for Signals {
    type V = Seq<ConnectionView>;

    open spec fn view(&self) -> Seq<ConnectionView> {
        Seq::new(self.connections@.len(), |i: int| self.connections@[i]@)
    }
}

/// The functions that are called on `signal`, the first one first.
pub open spec fn functions_of(v: Seq<ConnectionView>, signal: Seq<char>) -> Seq<u64>
    decreases v.len(),
{
    if v.len() == 0 {
        Seq::empty()
    } else if v.last().signal == signal {
        functions_of(v.drop_last(), signal).push(v.last().function)
    } else {
        functions_of(v.drop_last(), signal)
    }
}

impl Signals {
    pub fn new() -> (r: Self)
        ensures
            r@ == Seq::<ConnectionView>::empty(),
    {
        let r = Signals { connections: Vec::new() };
        assert(r@ =~= Seq::empty());
        r
    }

    /// `function` is called on `signal` too, after the others.
    pub fn connect(&mut self, signal: &str, function: u64)
        ensures
            final(self)@ == old(self)@.push(ConnectionView { signal: signal@, function }),
    {
        self.connections.push(Connection { signal: signal.to_owned(), function });
        assert(self@ =~= old(self)@.push(ConnectionView { signal: signal@, function }));
    }

    /// No function is called on `signal`.
    pub fn disconnect(&mut self, signal: &str)
        ensures
            functions_of(final(self)@, signal@).len() == 0,
            forall|other: Seq<char>|
                other != signal@ ==> #[trigger] functions_of(final(self)@, other) == functions_of(
                    old(self)@,
                    other,
                ),
    {
        let mut kept: Vec<Connection> = Vec::new();
        let mut rest: Vec<Connection> = Vec::new();
        std::mem::swap(&mut rest, &mut self.connections);
        let ghost all = old(self)@;
        let ghost total = rest@;
        let n: usize = rest.len();
        let mut i: usize = 0;
        assert(all.take(0) =~= Seq::empty());
        assert(self@ =~= Seq::empty());
        while i < n
            invariant
                i <= n,
                n == total.len(),
                rest@ == total.skip(i as int),
                all == Seq::new(total.len(), |k: int| total[k]@),
                functions_of(self@, signal@).len() == 0,
                forall|other: Seq<char>|
                    other != signal@ ==> #[trigger] functions_of(self@, other) == functions_of(
                        all.take(i as int),
                        other,
                    ),
            decreases n - i,
        {
            let ghost before = self@;
            let c = rest.remove(0);
            assert(c == total[i as int]);
            let drop = same(c.signal.as_str(), signal);
            let ghost cv = c@;
            if !drop {
                self.connections.push(c);
                assert(self@ =~= before.push(cv));
            }
            i += 1;
            proof {
                assert(rest@ =~= total.skip(i as int));
                assert(all.take(i as int).drop_last() =~= all.take(i - 1));
                assert(all.take(i as int).last() == cv);
                if !drop {
                    assert(self@.drop_last() =~= before);
                    assert(self@.last() == cv);
                }
                assert forall|other: Seq<char>| other != signal@ implies #[trigger] functions_of(
                    self@,
                    other,
                ) == functions_of(all.take(i as int), other) by {
                    assert(functions_of(before, other) == functions_of(all.take(i - 1), other));
                    assert(all.take(i as int).len() > 0);
                }
            }
        }
        assert(all.take(i as int) =~= all);
    }

    /// The functions that are called on `signal`, the first one first.
    pub fn functions(&self, signal: &str) -> (r: Vec<u64>)
        ensures
            r@ == functions_of(self@, signal@),
    {
        let ghost all = self@;
        let mut r: Vec<u64> = Vec::new();
        let mut i: usize = 0;
        assert(all.take(0) =~= Seq::empty());
        while i < self.connections.len()
            invariant
                i <= self.connections@.len(),
                all == self@,
                r@ == functions_of(all.take(i as int), signal@),
            decreases self.connections@.len() - i,
        {
            let c = &self.connections[i];
            if same(c.signal.as_str(), signal) {
                r.push(c.function);
            }
            i += 1;
            assert(all.take(i as int).drop_last() =~= all.take(i - 1));
            assert(all.take(i as int).last() == c@);
        }
        assert(all.take(i as int) =~= all);
        r
    }
}

// ── Laws ─────────────────────────────────────────────────────────────────────

/// A function that was connected is called last, and the others as before.
pub proof fn law_connected_is_called(v: Seq<ConnectionView>, signal: Seq<char>, function: u64)
    ensures
        functions_of(v.push(ConnectionView { signal, function }), signal) == functions_of(
            v,
            signal,
        ).push(function),
{
    assert(v.push(ConnectionView { signal, function }).drop_last() =~= v);
}

proof fn lemma_added(list: Seq<WindowId>, ids: Seq<WindowId>)
    requires
        list.no_duplicates(),
    ensures
        added(list, ids).no_duplicates(),
    decreases ids.len(),
{
    if ids.len() > 0 {
        lemma_added(list, ids.drop_last());
    }
}

proof fn lemma_listed(spaces: Seq<SpaceView>, n: int)
    requires
        0 <= n <= spaces.len(),
    ensures
        listed(spaces, n).no_duplicates(),
    decreases n,
{
    if n > 0 {
        lemma_listed(spaces, n - 1);
        lemma_added(listed(spaces, n - 1), spaces[n - 1].windows);
    }
}

proof fn lemma_existing(d: DeskView, ids: Seq<WindowId>)
    requires
        ids.no_duplicates(),
    ensures
        existing(d, ids).no_duplicates(),
        forall|id: WindowId| #[trigger]
            existing(d, ids).contains(id) <==> ids.contains(id) && d.window(id) is Some,
    decreases ids.len(),
{
    if ids.len() > 0 {
        let front = ids.drop_last();
        lemma_existing(d, front);
        assert(ids =~= front.push(ids.last()));
        assert(!front.contains(ids.last())) by {
            if front.contains(ids.last()) {
                let k = choose|k: int| 0 <= k < front.len() && front[k] == ids.last();
                assert(ids[k] == ids[ids.len() - 1]);
            }
        }
        let e = existing(d, front);
        assert(!e.contains(ids.last()));
        if d.window(ids.last()) is Some {
            assert forall|i: int, j: int|
                0 <= i < e.len() + 1 && 0 <= j < e.len() + 1 && i != j implies #[trigger] e.push(
                ids.last(),
            )[i] != #[trigger] e.push(ids.last())[j] by {
                if i < e.len() && j < e.len() {
                    assert(e[i] != e[j]);
                } else if i < e.len() {
                    assert(e.contains(e[i]));
                } else {
                    assert(e.contains(e[j]));
                }
            }
        }
        assert forall|id: WindowId| #[trigger]
            existing(d, ids).contains(id) <==> ids.contains(id) && d.window(id) is Some by {
            if existing(d, ids).contains(id) {
                let k = choose|k: int| 0 <= k < existing(d, ids).len() && existing(d, ids)[k] == id;
                if d.window(ids.last()) is Some && k == e.len() {
                    assert(ids[ids.len() - 1] == id);
                } else {
                    assert(e[k] == id);
                    assert(e.contains(id));
                    let j = choose|j: int| 0 <= j < front.len() && front[j] == id;
                    assert(ids[j] == id);
                }
            }
            if ids.contains(id) && d.window(id) is Some {
                let k = choose|k: int| 0 <= k < ids.len() && ids[k] == id;
                if k < front.len() {
                    assert(front[k] == id);
                    assert(front.contains(id));
                    assert(e.contains(id));
                    let j = choose|j: int| 0 <= j < e.len() && e[j] == id;
                    assert(existing(d, ids)[j] == id);
                } else {
                    assert(existing(d, ids)[e.len() as int] == id);
                }
            }
        }
    }
}

/// No window is listed twice, and every one that is listed is there.
pub proof fn law_clients_are_listed_once(d: DeskView)
    ensures
        ({
            let ids = existing(d, listed(d.spaces, d.spaces.len() as int));
            ids.no_duplicates() && forall|id: WindowId| #[trigger]
                ids.contains(id) ==> d.window(id) is Some
        }),
{
    lemma_listed(d.spaces, d.spaces.len() as int);
    lemma_existing(d, listed(d.spaces, d.spaces.len() as int));
}

} // verus!
