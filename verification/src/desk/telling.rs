//! What holds of the keyboard and the pointer of the desktop.

use vstd::prelude::*;

use crate::config::words::{joined_by, law_split_undoes_join};
use crate::desk::requests::lemma_window_in;
use crate::desk::seat::{
    after, clicked, combo, delivered, held_names, is_modifier_key, millis, moved, notified,
    plus_joined, scrolled, shares_serial, told, Device, FocusedSurface, Held, Note, SeatAction,
    Sent,
};
use crate::desk::windows::{DeskView, WindowId};
use crate::text::{lowercase, split_spec};

verus! {

// ── Combinations ─────────────────────────────────────────────────────────────

proof fn lemma_joined_push(parts: Seq<Seq<char>>, x: Seq<char>, c: char)
    requires
        parts.len() > 0,
    ensures
        joined_by(parts.push(x), c) == joined_by(parts, c) + seq![c] + x,
    decreases parts.len(),
{
    let all = parts.push(x);
    if parts.len() == 1 {
        assert(all.skip(1) =~= seq![x]);
        assert(joined_by(seq![x], c) == x);
    } else {
        assert(all.skip(1) =~= parts.skip(1).push(x));
        lemma_joined_push(parts.skip(1), x, c);
        assert(joined_by(all, c) =~= joined_by(parts, c) + seq![c] + x);
    }
}

proof fn lemma_plus_joined(parts: Seq<Seq<char>>)
    ensures
        plus_joined(parts) == joined_by(parts, '+'),
    decreases parts.len(),
{
    reveal_strlit("+");
    assert("+"@ =~= seq!['+']);
    if parts.len() > 0 {
        let rest = parts.drop_last();
        lemma_plus_joined(rest);
        assert(rest.push(parts.last()) =~= parts);
        if rest.len() > 0 {
            lemma_joined_push(rest, parts.last(), '+');
        } else {
            assert(parts[0] == parts.last());
        }
    }
}

/// A combination names the modifiers that are held, and no others, and then the key, with
/// a plus sign between them.
#[verifier::spinoff_prover]
pub proof fn law_combinations_name_what_is_held(held: Held, name: Seq<char>)
    requires
        !lowercase(name).contains('+'),
        !is_modifier_key(lowercase(name)),
        lowercase(name) != "super"@ && lowercase(name) != "alt"@ && lowercase(name) != "ctrl"@
            && lowercase(name) != "shift"@,
    ensures
        ({
            let parts = split_spec(combo(held, name), '+');
            &&& parts.last() == lowercase(name)
            &&& parts.contains("super"@) <==> held.logo
            &&& parts.contains("alt"@) <==> held.alt
            &&& parts.contains("ctrl"@) <==> held.ctrl
            &&& parts.contains("shift"@) <==> held.shift
        }),
{
    reveal_strlit("super");
    reveal_strlit("alt");
    reveal_strlit("ctrl");
    reveal_strlit("shift");
    assert("super"@.len() == 5 && "alt"@.len() == 3 && "ctrl"@.len() == 4 && "shift"@.len() == 5);
    assert("super"@[1] == 'u' && "shift"@[1] == 'h');
    let n = lowercase(name);
    let h = held_names(held);
    let parts = h.push(n);
    lemma_plus_joined(parts);
    assert forall|i: int| 0 <= i < parts.len() implies !(#[trigger] parts[i]).contains('+') by {}
    law_split_undoes_join(parts, '+');
    assert(parts.last() == n);
    let l = if held.logo {
        1int
    } else {
        0
    };
    let a = if held.alt {
        l + 1
    } else {
        l
    };
    let c = if held.ctrl {
        a + 1
    } else {
        a
    };
    if held.logo {
        assert(parts[0] == "super"@);
    }
    if held.alt {
        assert(parts[l] == "alt"@);
    }
    if held.ctrl {
        assert(parts[a] == "ctrl"@);
    }
    if held.shift {
        assert(parts[c] == "shift"@);
    }
}

/// A modifier pressed on its own adds no name of its own.
pub proof fn law_modifiers_alone(held: Held, name: Seq<char>, other: Seq<char>)
    requires
        is_modifier_key(lowercase(name)),
        is_modifier_key(lowercase(other)),
    ensures
        combo(held, name) == combo(held, other),
        !held.logo && !held.alt && !held.ctrl && !held.shift ==> combo(held, name).len() == 0,
{
}

// ── Pointer ──────────────────────────────────────────────────────────────────

/// A place within a window is counted from its inner corner, behind the border.
pub proof fn law_places_within_windows(d: DeskView, k: int, px: int, py: int)
    requires
        0 <= k < d.windows.len(),
        forall|i: int| 0 <= i < k ==> (#[trigger] d.windows[i]).id != d.windows[k].id,
    ensures
        d.windows[k].rect.x + d.border + d.local(Some(d.windows[k].id), px, false) == px,
        d.windows[k].rect.y + d.border + d.local(Some(d.windows[k].id), py, true) == py,
{
    lemma_window_in(d.windows, k);
}

/// A window that has the focus is found before those that are above it, and else the last
/// one of the workspace that is there.
pub proof fn law_focus_is_found_first(d: DeskView, px: int, py: int, at: int)
    requires
        0 <= d.active < d.spaces.len(),
        0 <= at < d.spaces[d.active].windows.len(),
        d.covers(d.spaces[d.active].windows[at], px, py),
        forall|k: int|
            at < k < d.spaces[d.active].windows.len() ==> !d.covers(
                #[trigger] d.spaces[d.active].windows[k],
                px,
                py,
            ),
    ensures
        d.hit(px, py) == (if d.spaces[d.active].focused matches Some(f) && d.covers(f, px, py) {
            d.spaces[d.active].focused
        } else {
            Some(d.spaces[d.active].windows[at])
        }),
{
    lemma_topmost_at(d, d.spaces[d.active].windows, px, py, at);
}

proof fn lemma_topmost_at(d: DeskView, ids: Seq<WindowId>, px: int, py: int, at: int)
    requires
        0 <= at < ids.len(),
        d.covers(ids[at], px, py),
        forall|k: int| at < k < ids.len() ==> !d.covers(#[trigger] ids[k], px, py),
    ensures
        d.topmost(ids, px, py) == Some(ids[at]),
    decreases ids.len(),
{
    if at < ids.len() - 1 {
        assert(!d.covers(ids[ids.len() - 1], px, py));
        assert forall|k: int| at < k < ids.len() - 1 implies !d.covers(
            #[trigger] ids.drop_last()[k],
            px,
            py,
        ) by {
            assert(ids.drop_last()[k] == ids[k]);
        }
        lemma_topmost_at(d, ids.drop_last(), px, py, at);
    }
}

/// What the pointer does when it moves: where the window under it is another one, that is
/// told first, and then the window under it is told the place within it. At the end the
/// picture is drawn.
pub proof fn law_pointer_moves(focus: FocusedSurface, d: DeskView, x: i32, y: i32, time_usec: u64)
    requires
        d.border <= 0x7FFF_FFFF,
    ensures
        ({
            let hit = d.hit(x as int, y as int);
            let done = moved(focus, d, x, y, time_usec);
            let crosses = if hit != focus.pointer {
                1int
            } else {
                0
            };
            let moves = if hit is Some {
                1int
            } else {
                0
            };
            &&& done.len() == crosses + moves + 1
            &&& done.last() == SeatAction::Redraw
            &&& hit != focus.pointer ==> {
                &&& done[0] matches SeatAction::PointerCross { old: o, new, x: cx, y: cy } && {
                    &&& o == focus.pointer
                    &&& hit matches Some(id) ==> new == id
                    &&& hit is None ==> new == 0
                    &&& cx == d.local(hit, x as int, false) as i64 && cy == d.local(
                        hit,
                        y as int,
                        true,
                    ) as i64
                }
            }
            &&& hit is Some ==> {
                &&& done[crosses] matches SeatAction::PointerMotion { window, time_ms, x: mx, y: my }
                    && {
                    &&& hit == Some(window)
                    &&& time_ms == millis(time_usec)
                    &&& mx == d.local(hit, x as int, false) as i64 && my == d.local(
                        hit,
                        y as int,
                        true,
                    ) as i64
                }
            }
        }),
{
}

/// A press on another window than that with the focus moves the focus there; a release
/// never does. The window at the pointer is told of the button, last.
pub proof fn law_clicks(
    focus: FocusedSurface,
    d: DeskView,
    x: i32,
    y: i32,
    time_usec: u64,
    button: u32,
    pressed: bool,
)
    requires
        0 <= d.active < d.spaces.len(),
    ensures
        ({
            let hit = d.hit(x as int, y as int);
            let done = clicked(focus, d, x, y, time_usec, button, pressed);
            let changes = pressed && hit is Some && hit != d.spaces[d.active].focused;
            &&& changes ==> done.len() >= 2 && done[0] == SeatAction::Focus(hit->0) && done[1]
                == SeatAction::Redraw
            &&& forall|i: int|
                0 <= i < done.len() && (#[trigger] done[i]) is Focus ==> changes
            &&& focus.pointer matches Some(w) ==> done.len() > 0 && done.last()
                == (SeatAction::PointerButton {
                window: w,
                time_ms: millis(time_usec),
                button,
                pressed,
            })
            &&& done.len() == (if changes {
                2int
            } else {
                0
            }) + (if focus.pointer is Some {
                1int
            } else {
                0
            })
        }),
{
}

/// The window at the pointer is told of each axis along which a wheel was turned.
pub proof fn law_wheels(focus: FocusedSurface, time_usec: u64, vertical: bool, horizontal: bool)
    ensures
        ({
            let done = scrolled(focus, time_usec, vertical, horizontal);
            &&& focus.pointer is None ==> done.len() == 0
            &&& focus.pointer matches Some(w) ==> {
                let down = SeatAction::PointerAxis {
                    window: w,
                    time_ms: millis(time_usec),
                    vertical: true,
                };
                let across = SeatAction::PointerAxis {
                    window: w,
                    time_ms: millis(time_usec),
                    vertical: false,
                };
                &&& done.contains(down) <==> vertical
                &&& done.contains(across) <==> horizontal
                &&& done.len() <= 2
            }
        }),
{
    if let Some(w) = focus.pointer {
        let done = scrolled(focus, time_usec, vertical, horizontal);
        if vertical {
            assert(done[0]->PointerAxis_vertical);
        }
        if horizontal {
            assert(!done.last()->PointerAxis_vertical);
            assert(done[done.len() - 1] == done.last());
        }
    }
}

/// Times are told in whole milliseconds, and start again after 2^32 of them.
pub proof fn law_milliseconds(time_usec: u64)
    ensures
        time_usec < 1000 * 0x1_0000_0000 ==> millis(time_usec) * 1000 <= time_usec < millis(
            time_usec,
        ) * 1000 + 1000,
        time_usec + 1000 * 0x1_0000_0000 <= u64::MAX ==> millis(
            (time_usec + 1000 * 0x1_0000_0000) as u64,
        ) == millis(time_usec),
{
}

// ── Devices ──────────────────────────────────────────────────────────────────

/// Whether the device `i` is told `note` at the place `k` of what is sent, and behind it
/// the state of the modifiers, or the end of what belongs together, where it needs that.
pub open spec fn is_told_at(sent: Seq<Sent>, k: int, i: int, d: Device, note: Note) -> bool {
    &&& 0 <= k < sent.len()
    &&& sent[k].device == i && sent[k].note == note
    &&& note is Key || note is KeyboardEnter ==> k + 1 < sent.len() && sent[k + 1].device == i
        && sent[k + 1].note == Note::Modifiers && sent[k + 1].serial is Some
    &&& (note is PointerEnter || note is PointerLeave || note is PointerMotion || note
        is PointerButton || note is PointerAxis) && d.version >= 5 ==> k + 1 < sent.len() && sent[k
        + 1].device == i && sent[k + 1].note == Note::Frame
}

proof fn lemma_all_told(
    devices: Seq<Device>,
    n: int,
    client: u32,
    note: Note,
    shared: Option<u32>,
    next: u32,
    i: int,
) -> (k: int)
    requires
        0 <= i < n <= devices.len() <= usize::MAX,
        devices[i].alive,
        devices[i].client == client,
    ensures
        is_told_at(
            delivered(devices, n, client, note, shared, next).0,
            k,
            i,
            devices[i],
            note,
        ),
        !(note is Key) ==> delivered(devices, n, client, note, shared, next).0[k].serial == shared,
        note is Key ==> delivered(devices, n, client, note, shared, next).0[k].serial is Some,
    decreases n,
{
    let (done, at) = delivered(devices, n - 1, client, note, shared, next);
    if i == n - 1 {
        done.len() as int
    } else {
        lemma_all_told(devices, n - 1, client, note, shared, next, i)
    }
}

/// Every device of a client that is still there is told. Those that share a serial number
/// all get the next one.
pub proof fn law_every_device_is_told(
    devices: Seq<Device>,
    client: u32,
    note: Note,
    next: u32,
    i: int,
) -> (k: int)
    requires
        0 <= i < devices.len() <= usize::MAX,
        devices[i].alive,
        devices[i].client == client,
    ensures
        is_told_at(notified(devices, client, note, next).0, k, i, devices[i], note),
        note is KeyboardEnter || note is KeyboardLeave || note is PointerEnter || note
            is PointerLeave || note is PointerButton ==> notified(
            devices,
            client,
            note,
            next,
        ).0[k].serial == Some(next),
        note is PointerMotion || note is PointerAxis ==> notified(
            devices,
            client,
            note,
            next,
        ).0[k].serial is None,
{
    let n = devices.len() as int;
    if shares_serial(note) {
        lemma_all_told(devices, n, client, note, Some(next), after(next), i)
    } else {
        lemma_all_told(devices, n, client, note, None, next, i)
    }
}

} // verus!
