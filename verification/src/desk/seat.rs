//! Keyboards and pointers: what their events do, and what clients are told.

use vstd::prelude::*;

use crate::desk::windows::{Desk, DeskView, WindowId};
use crate::text::{chars_of, same, to_lowercase, lowercase};

verus! {

// ── Key combinations ─────────────────────────────────────────────────────────

/// The modifiers that are held.
#[derive(Debug, Clone, Copy, PartialEq, Eq, Structural)]
pub struct Held {
    pub logo: bool,
    pub alt: bool,
    pub ctrl: bool,
    pub shift: bool,
}

/// Whether a key of this name is a modifier.
pub open spec fn is_modifier_key(name: Seq<char>) -> bool {
    name == "super_l"@ || name == "super_r"@ || name == "alt_l"@ || name == "alt_r"@ || name
        == "control_l"@ || name == "control_r"@ || name == "shift_l"@ || name == "shift_r"@
}

fn modifier_key(name: &str) -> (r: bool)
    ensures
        r == is_modifier_key(name@),
{
    same(name, "super_l") || same(name, "super_r") || same(name, "alt_l") || same(name, "alt_r")
        || same(name, "control_l") || same(name, "control_r") || same(name, "shift_l") || same(
        name,
        "shift_r",
    )
}

/// `text` with one part more, behind a plus sign where it is not the first.
pub open spec fn with_part(text: Seq<char>, first: bool, part: Seq<char>) -> Seq<char> {
    if first {
        part
    } else {
        text + "+"@ + part
    }
}

/// The parts, with plus signs between them.
pub open spec fn plus_joined(parts: Seq<Seq<char>>) -> Seq<char>
    decreases parts.len(),
{
    if parts.len() == 0 {
        Seq::empty()
    } else {
        with_part(plus_joined(parts.drop_last()), parts.len() == 1, parts.last())
    }
}

/// The names of the modifiers that are held.
pub open spec fn held_names(held: Held) -> Seq<Seq<char>> {
    let a = if held.logo {
        seq!["super"@]
    } else {
        Seq::empty()
    };
    let b = if held.alt {
        a.push("alt"@)
    } else {
        a
    };
    let c = if held.ctrl {
        b.push("ctrl"@)
    } else {
        b
    };
    if held.shift {
        c.push("shift"@)
    } else {
        c
    }
}

/// The combination that a key of the name `name` makes with modifiers.
pub open spec fn combo(held: Held, name: Seq<char>) -> Seq<char> {
    let n = lowercase(name);
    if is_modifier_key(n) {
        plus_joined(held_names(held))
    } else {
        plus_joined(held_names(held).push(n))
    }
}

fn add_part(text: &mut String, first: bool, part: &str)
    requires
        first ==> old(text)@.len() == 0,
    ensures
        final(text)@ == with_part(old(text)@, first, part@),
{
    if !first {
        text.append("+");
    }
    text.append(part);
    if first {
        assert(old(text)@ + part@ =~= part@);
    }
}

/// The combination that a key makes with modifiers, such as `super+shift+q`.
pub fn combo_for_key(held: Held, name: &str) -> (r: String)
    ensures
        r@ == combo(held, name@),
{
    let mut text = String::new();
    let mut first = true;
    let ghost mut parts: Seq<Seq<char>> = Seq::empty();
    assert(text@ =~= plus_joined(parts));
    if held.logo {
        add_part(&mut text, first, "super");
        first = false;
        proof {
            assert(parts.push("super"@).drop_last() =~= parts);
            assert(parts.push("super"@) =~= seq!["super"@]);
            parts = parts.push("super"@);
            assert(text@ == plus_joined(parts));
        }
    }
    if held.alt {
        add_part(&mut text, first, "alt");
        first = false;
        proof {
            assert(parts.push("alt"@).drop_last() =~= parts);
            parts = parts.push("alt"@);
            assert(text@ == plus_joined(parts));
        }
    }
    if held.ctrl {
        add_part(&mut text, first, "ctrl");
        first = false;
        proof {
            assert(parts.push("ctrl"@).drop_last() =~= parts);
            parts = parts.push("ctrl"@);
            assert(text@ == plus_joined(parts));
        }
    }
    if held.shift {
        add_part(&mut text, first, "shift");
        first = false;
        proof {
            assert(parts.push("shift"@).drop_last() =~= parts);
            parts = parts.push("shift"@);
            assert(text@ == plus_joined(parts));
        }
    }
    assert(parts =~= held_names(held));
    let c = chars_of(name);
    let n = to_lowercase(c.as_slice());
    if !modifier_key(n.as_str()) {
        add_part(&mut text, first, n.as_str());
        proof {
            assert(parts.push(n@).drop_last() =~= parts);
            assert(text@ == plus_joined(parts.push(n@)));
        }
    }
    text
}

// ── Focus ────────────────────────────────────────────────────────────────────

/// The windows that the keyboard and the pointer are at.
#[derive(Debug, Clone, Copy, PartialEq, Eq, Structural)]
pub struct FocusedSurface {
    pub keyboard: Option<WindowId>,
    pub pointer: Option<WindowId>,
}

impl Default for FocusedSurface {
    fn default() -> (r: Self)
        ensures
            r == (FocusedSurface { keyboard: None, pointer: None }),
    {
        FocusedSurface { keyboard: None, pointer: None }
    }
}

/// What an event leads to.
#[derive(Debug, Clone, Copy, PartialEq, Eq, Structural)]
pub enum SeatAction {
    /// The keyboard leaves a window.
    KeyboardLeave(WindowId),
    /// The keyboard enters a window.
    KeyboardEnter(WindowId),
    /// A window is told of a key.
    Key { window: WindowId, key: u32, time_ms: u32, pressed: bool },
    /// The pointer leaves one window and enters another, where there is one
    /// with that number.
    PointerCross { old: Option<WindowId>, new: WindowId, x: i64, y: i64 },
    PointerMotion { window: WindowId, time_ms: u32, x: i64, y: i64 },
    PointerButton { window: WindowId, time_ms: u32, button: u32, pressed: bool },
    /// A window is told that a wheel was turned, along the axis.
    PointerAxis { window: WindowId, time_ms: u32, vertical: bool },
    /// A window gets the focus, and the keyboard follows.
    Focus(WindowId),
    Redraw,
}

/// Microseconds as a count of milliseconds, which starts again at its end.
pub open spec fn millis(time_usec: u64) -> u32 {
    ((time_usec / 1000) % 0x1_0000_0000) as u32
}

fn to_millis(time_usec: u64) -> (r: u32)
    ensures
        r == millis(time_usec),
{
    ((time_usec / 1000) % 0x1_0000_0000) as u32
}

/// Whether a script is asked about a key before a client is told of it.
pub fn asks_script(pressed: bool, combo: &str) -> (r: bool)
    ensures
        r == (pressed && combo@.len() > 0),
{
    pressed && chars_of(combo).len() > 0
}

/// What the pointer does when it comes to (`x`, `y`).
pub open spec fn moved(
    focus: FocusedSurface,
    d: DeskView,
    x: i32,
    y: i32,
    time_usec: u64,
) -> Seq<SeatAction> {
    let hit = d.hit(x as int, y as int);
    let cross = if hit != focus.pointer {
        seq![
            SeatAction::PointerCross {
                old: focus.pointer,
                new: match hit {
                    Some(id) => id,
                    None => 0,
                },
                x: d.local(hit, x as int, false) as i64,
                y: d.local(hit, y as int, true) as i64,
            },
        ]
    } else {
        Seq::empty()
    };
    let motion = match hit {
        Some(id) => seq![
            SeatAction::PointerMotion {
                window: id,
                time_ms: millis(time_usec),
                x: d.local(Some(id), x as int, false) as i64,
                y: d.local(Some(id), y as int, true) as i64,
            },
        ],
        None => Seq::empty(),
    };
    cross + motion + seq![SeatAction::Redraw]
}

/// What a button does when the pointer is at (`x`, `y`).
pub open spec fn clicked(
    focus: FocusedSurface,
    d: DeskView,
    x: i32,
    y: i32,
    time_usec: u64,
    button: u32,
    pressed: bool,
) -> Seq<SeatAction> {
    let hit = d.hit(x as int, y as int);
    let change = if pressed && hit is Some && d.focus() != hit {
        seq![SeatAction::Focus(hit->0), SeatAction::Redraw]
    } else {
        Seq::empty()
    };
    let told = match focus.pointer {
        Some(id) => seq![
            SeatAction::PointerButton {
                window: id,
                time_ms: millis(time_usec),
                button,
                pressed,
            },
        ],
        None => Seq::empty(),
    };
    change + told
}

/// What a wheel does, turned along the axes that are true.
pub open spec fn scrolled(
    focus: FocusedSurface,
    time_usec: u64,
    vertical: bool,
    horizontal: bool,
) -> Seq<SeatAction> {
    match focus.pointer {
        Some(id) => {
            let v = if vertical {
                seq![
                    SeatAction::PointerAxis {
                        window: id,
                        time_ms: millis(time_usec),
                        vertical: true,
                    },
                ]
            } else {
                Seq::empty()
            };
            if horizontal {
                v.push(
                    SeatAction::PointerAxis {
                        window: id,
                        time_ms: millis(time_usec),
                        vertical: false,
                    },
                )
            } else {
                v
            }
        },
        None => Seq::empty(),
    }
}

/// What happens when the keyboard goes to the window `id`.
pub open spec fn keyboard_to(old: Option<WindowId>, id: WindowId) -> Seq<SeatAction> {
    if old is Some && old != Some(id) {
        seq![SeatAction::KeyboardLeave(old->0), SeatAction::KeyboardEnter(id)]
    } else {
        seq![SeatAction::KeyboardEnter(id)]
    }
}

impl FocusedSurface {
    /// A key was pressed or let go. `taken` says that a script took it, which
    /// is asked where [`asks_script`] says so.
    pub fn key(&self, key: u32, pressed: bool, time_usec: u64, combo: &str, taken: bool) -> (r:
        Option<SeatAction>)
        ensures
            r == (if pressed && combo@.len() > 0 && taken {
                None
            } else {
                match self.keyboard {
                    Some(window) => Some(
                        SeatAction::Key { window, key, time_ms: millis(time_usec), pressed },
                    ),
                    None => None,
                }
            }),
    {
        if asks_script(pressed, combo) && taken {
            return None;
        }
        match self.keyboard {
            Some(window) => Some(
                SeatAction::Key { window, key, time_ms: to_millis(time_usec), pressed },
            ),
            None => None,
        }
    }

    /// The pointer came to (`x`, `y`).
    pub fn motion(&mut self, desk: &Desk, x: i32, y: i32, time_usec: u64) -> (r: Vec<SeatAction>)
        ensures
            r@ == moved(*old(self), desk@, x, y, time_usec),
            *final(self) == (FocusedSurface {
                pointer: desk@.hit(x as int, y as int),
                ..*old(self)
            }),
    {
        let mut r: Vec<SeatAction> = Vec::new();
        let hit = desk.hit_test(x, y);
        let changed = match (hit, self.pointer) {
            (Some(a), Some(b)) => a != b,
            (None, None) => false,
            _ => true,
        };
        if changed {
            r.push(
                SeatAction::PointerCross {
                    old: self.pointer,
                    new: match hit {
                        Some(id) => id,
                        None => 0,
                    },
                    x: desk.surface_local_x(hit, x),
                    y: desk.surface_local_y(hit, y),
                },
            );
            self.pointer = hit;
        }
        if let Some(id) = self.pointer {
            r.push(
                SeatAction::PointerMotion {
                    window: id,
                    time_ms: to_millis(time_usec),
                    x: desk.surface_local_x(Some(id), x),
                    y: desk.surface_local_y(Some(id), y),
                },
            );
        }
        r.push(SeatAction::Redraw);
        assert(r@ =~= moved(*old(self), desk@, x, y, time_usec));
        r
    }

    /// A button was pressed or let go while the pointer was at (`x`, `y`).
    pub fn button(
        &self,
        desk: &Desk,
        x: i32,
        y: i32,
        time_usec: u64,
        button: u32,
        pressed: bool,
    ) -> (r: Vec<SeatAction>)
        ensures
            r@ == clicked(*self, desk@, x, y, time_usec, button, pressed),
    {
        let mut r: Vec<SeatAction> = Vec::new();
        let hit = desk.hit_test(x, y);
        if pressed {
            if let Some(id) = hit {
                let focused = match desk.focused_window() {
                    Some(f) => f == id,
                    None => false,
                };
                if !focused {
                    r.push(SeatAction::Focus(id));
                    r.push(SeatAction::Redraw);
                }
            }
        }
        if let Some(id) = self.pointer {
            r.push(
                SeatAction::PointerButton {
                    window: id,
                    time_ms: to_millis(time_usec),
                    button,
                    pressed,
                },
            );
        }
        assert(r@ =~= clicked(*self, desk@, x, y, time_usec, button, pressed));
        r
    }

    /// A wheel was turned along the axes that are true.
    pub fn scroll(&self, time_usec: u64, vertical: bool, horizontal: bool) -> (r: Vec<SeatAction>)
        ensures
            r@ == scrolled(*self, time_usec, vertical, horizontal),
    {
        let mut r: Vec<SeatAction> = Vec::new();
        if let Some(id) = self.pointer {
            if vertical {
                r.push(
                    SeatAction::PointerAxis {
                        window: id,
                        time_ms: to_millis(time_usec),
                        vertical: true,
                    },
                );
            }
            if horizontal {
                r.push(
                    SeatAction::PointerAxis {
                        window: id,
                        time_ms: to_millis(time_usec),
                        vertical: false,
                    },
                );
            }
        }
        assert(r@ =~= scrolled(*self, time_usec, vertical, horizontal));
        r
    }

    /// The keyboard goes to the window `id`.
    pub fn set_keyboard_focus(&mut self, id: WindowId) -> (r: Vec<SeatAction>)
        ensures
            r@ == keyboard_to(old(self).keyboard, id),
            *final(self) == (FocusedSurface { keyboard: Some(id), ..*old(self) }),
    {
        let mut r: Vec<SeatAction> = Vec::new();
        if let Some(old_id) = self.keyboard {
            if old_id != id {
                r.push(SeatAction::KeyboardLeave(old_id));
            }
        }
        self.keyboard = Some(id);
        r.push(SeatAction::KeyboardEnter(id));
        assert(r@ =~= keyboard_to(old(self).keyboard, id));
        r
    }

    /// The keyboard goes to no window.
    pub fn clear_keyboard_focus(&mut self) -> (r: Option<SeatAction>)
        ensures
            r == match old(self).keyboard {
                Some(id) => Some(SeatAction::KeyboardLeave(id)),
                None => None,
            },
            *final(self) == (FocusedSurface { keyboard: None, ..*old(self) }),
    {
        let r = match self.keyboard {
            Some(id) => Some(SeatAction::KeyboardLeave(id)),
            None => None,
        };
        self.keyboard = None;
        r
    }

    /// The keyboard goes to the window that has the focus.
    pub fn sync_keyboard_focus(&mut self, desk: &Desk) -> (r: Vec<SeatAction>)
        ensures
            r@ == match desk@.focus() {
                Some(id) => keyboard_to(old(self).keyboard, id),
                None => match old(self).keyboard {
                    Some(old) => seq![SeatAction::KeyboardLeave(old)],
                    None => Seq::empty(),
                },
            },
            *final(self) == (FocusedSurface { keyboard: desk@.focus(), ..*old(self) }),
    {
        match desk.focused_window() {
            Some(id) => self.set_keyboard_focus(id),
            None => {
                let mut r: Vec<SeatAction> = Vec::new();
                if let Some(a) = self.clear_keyboard_focus() {
                    r.push(a);
                    assert(r@ =~= seq![a]);
                } else {
                    assert(r@ =~= Seq::<SeatAction>::empty());
                }
                r
            },
        }
    }
}

// ── Devices ──────────────────────────────────────────────────────────────────

/// A keyboard or a pointer that a client asked for.
#[derive(Debug, Clone, Copy, PartialEq, Eq, Structural)]
pub struct Device {
    pub client: u32,
    pub alive: bool,
    pub version: u32,
}

/// What a device is told.
#[derive(Debug, Clone, Copy, PartialEq, Eq, Structural)]
pub enum Note {
    KeyboardEnter,
    KeyboardLeave,
    Key { time_ms: u32, key: u32, pressed: bool },
    Modifiers,
    PointerEnter { x: i64, y: i64 },
    PointerLeave,
    PointerMotion { time_ms: u32, x: i64, y: i64 },
    PointerButton { time_ms: u32, button: u32, pressed: bool },
    PointerAxis { time_ms: u32, vertical: bool },
    /// The end of what belongs together.
    Frame,
}

/// A note for a device, by its index, with its serial number.
#[derive(Debug, Clone, Copy, PartialEq, Eq, Structural)]
pub struct Sent {
    pub device: usize,
    pub note: Note,
    pub serial: Option<u32>,
}

/// The number behind `n`; behind the last comes 0.
pub open spec fn after(n: u32) -> u32 {
    if n == u32::MAX {
        0
    } else {
        (n + 1) as u32
    }
}

/// Gives out serial numbers.
#[derive(Debug, Clone, Copy, PartialEq, Eq, Structural)]
pub struct Serials {
    pub next: u32,
}

impl Serials {
    /// The numbers start at 1.
    pub fn new() -> (r: Self)
        ensures
            r.next == 1,
    {
        Serials { next: 1 }
    }

    pub fn next_serial(&mut self) -> (r: u32)
        ensures
            r == old(self).next,
            final(self).next == after(old(self).next),
    {
        let r: u32 = self.next;
        self.next = if r == u32::MAX {
            0
        } else {
            r + 1
        };
        r
    }
}

/// Whether a note stands under a serial number that all of its devices share.
pub open spec fn shares_serial(n: Note) -> bool {
    n is KeyboardEnter || n is KeyboardLeave || n is PointerEnter || n is PointerLeave
        || n is PointerButton
}

/// Whether a note ends with the state of the modifiers.
pub open spec fn tells_modifiers(n: Note) -> bool {
    n is KeyboardEnter || n is Key
}

/// Whether a note is for pointers.
pub open spec fn for_pointers(n: Note) -> bool {
    n is PointerEnter || n is PointerLeave || n is PointerMotion || n is PointerButton
        || n is PointerAxis
}

/// What the device `i` is sent where it is one of the client's, and the next
/// serial number.
pub open spec fn told(i: int, d: Device, note: Note, shared: Option<u32>, next: u32) -> (
    Seq<Sent>,
    u32,
) {
    let own = if note is Key {
        Some(next)
    } else {
        shared
    };
    let n1 = if note is Key {
        after(next)
    } else {
        next
    };
    let head = seq![Sent { device: i as usize, note, serial: own }];
    if tells_modifiers(note) {
        (head.push(Sent { device: i as usize, note: Note::Modifiers, serial: Some(n1) }), after(n1))
    } else if for_pointers(note) && d.version >= 5 {
        (head.push(Sent { device: i as usize, note: Note::Frame, serial: None }), n1)
    } else {
        (head, n1)
    }
}

/// What the first `n` devices are sent.
pub open spec fn delivered(
    devices: Seq<Device>,
    n: int,
    client: u32,
    note: Note,
    shared: Option<u32>,
    next: u32,
) -> (Seq<Sent>, u32)
    decreases n,
{
    if n <= 0 {
        (Seq::empty(), next)
    } else {
        let (done, at) = delivered(devices, n - 1, client, note, shared, next);
        let d = devices[n - 1];
        if d.alive && d.client == client {
            let (more, at2) = told(n - 1, d, note, shared, at);
            (done + more, at2)
        } else {
            (done, at)
        }
    }
}

/// What a client is told through its devices, and the serial numbers after it.
pub open spec fn notified(devices: Seq<Device>, client: u32, note: Note, next: u32) -> (
    Seq<Sent>,
    u32,
) {
    if shares_serial(note) {
        delivered(devices, devices.len() as int, client, note, Some(next), after(next))
    } else {
        delivered(devices, devices.len() as int, client, note, None, next)
    }
}

/// Tells a client something through each of its devices that is still there.
pub fn notify(devices: &Vec<Device>, client: u32, note: Note, serials: &mut Serials) -> (r: Vec<Sent>)
    ensures
        r@ == notified(devices@, client, note, old(serials).next).0,
        final(serials).next == notified(devices@, client, note, old(serials).next).1,
{
    let is_key = match note {
        Note::Key { .. } => true,
        _ => false,
    };
    let modifiers = match note {
        Note::Key { .. } => true,
        Note::KeyboardEnter => true,
        _ => false,
    };
    let shares = match note {
        Note::KeyboardEnter => true,
        Note::KeyboardLeave => true,
        Note::PointerEnter { .. } => true,
        Note::PointerLeave => true,
        Note::PointerButton { .. } => true,
        _ => false,
    };
    let pointer = match note {
        Note::PointerEnter { .. } => true,
        Note::PointerLeave => true,
        Note::PointerMotion { .. } => true,
        Note::PointerButton { .. } => true,
        Note::PointerAxis { .. } => true,
        _ => false,
    };
    let shared: Option<u32> = if shares {
        Some(serials.next_serial())
    } else {
        None
    };
    let ghost start = serials.next;
    let mut r: Vec<Sent> = Vec::new();
    let mut i: usize = 0;
    while i < devices.len()
        invariant
            i <= devices@.len(),
            is_key == (note is Key),
            modifiers == tells_modifiers(note),
            pointer == for_pointers(note),
            (r@, serials.next) == delivered(devices@, i as int, client, note, shared, start),
        decreases devices@.len() - i,
    {
        let d = devices[i];
        if d.alive && d.client == client {
            let ghost before = r@;
            let own: Option<u32> = if is_key {
                Some(serials.next_serial())
            } else {
                shared
            };
            r.push(Sent { device: i, note, serial: own });
            if modifiers {
                let serial: u32 = serials.next_serial();
                r.push(Sent { device: i, note: Note::Modifiers, serial: Some(serial) });
            } else if pointer && d.version >= 5 {
                r.push(Sent { device: i, note: Note::Frame, serial: None });
            }
            proof {
                let at = delivered(devices@, i as int, client, note, shared, start).1;
                let (more, at2) = told(i as int, d, note, shared, at);
                assert(r@ =~= before + more);
            }
        }
        i += 1;
    }
    r
}

/// What a client may do with its seat: it has one keyboard and one pointer.
#[derive(Debug, Clone, Copy, PartialEq, Eq, Structural)]
pub struct SeatData {}

impl Default for SeatData {
    fn default() -> (r: Self)
        ensures
            r == (SeatData {  }),
    {
        SeatData {  }
    }
}

// ── Laws ─────────────────────────────────────────────────────────────────────

proof fn lemma_delivered_to_client(
    devices: Seq<Device>,
    n: int,
    client: u32,
    note: Note,
    shared: Option<u32>,
    next: u32,
)
    requires
        0 <= n <= devices.len() <= usize::MAX,
    ensures
        forall|k: int|
            0 <= k < delivered(devices, n, client, note, shared, next).0.len() ==> {
                let s = #[trigger] delivered(devices, n, client, note, shared, next).0[k];
                s.device < n && devices[s.device as int].alive && devices[s.device as int].client
                    == client
            },
    decreases n,
{
    if n > 0 {
        lemma_delivered_to_client(devices, n - 1, client, note, shared, next);
        let (done, at) = delivered(devices, n - 1, client, note, shared, next);
        let all = delivered(devices, n, client, note, shared, next).0;
        assert forall|k: int| 0 <= k < all.len() implies ({
            let s = #[trigger] all[k];
            s.device < n && devices[s.device as int].alive && devices[s.device as int].client
                == client
        }) by {
            if k < done.len() {
                assert(all[k] == done[k]);
            }
        }
    }
}

/// Only devices of the client that are still there are told of what is meant
/// for it.
pub proof fn law_only_the_client_is_told(devices: Seq<Device>, client: u32, note: Note, next: u32)
    requires
        devices.len() <= usize::MAX,
    ensures
        forall|k: int|
            0 <= k < notified(devices, client, note, next).0.len() ==> {
                let s = #[trigger] notified(devices, client, note, next).0[k];
                s.device < devices.len() && devices[s.device as int].alive
                    && devices[s.device as int].client == client
            },
{
    lemma_delivered_to_client(
        devices,
        devices.len() as int,
        client,
        note,
        if shares_serial(note) {
            Some(next)
        } else {
            None
        },
        if shares_serial(note) {
            after(next)
        } else {
            next
        },
    );
}

/// The keyboard is at one window at most: before it enters one, it leaves the
/// one that it was at.
pub proof fn law_keyboard_leaves_first(old: Option<WindowId>, id: WindowId)
    ensures
        keyboard_to(old, id).last() == SeatAction::KeyboardEnter(id),
        old is Some && old != Some(id) ==> keyboard_to(old, id)[0] == SeatAction::KeyboardLeave(
            old->0,
        ),
        old == Some(id) || old is None ==> keyboard_to(old, id).len() == 1,
{
}

} // verus!
