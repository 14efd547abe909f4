//! What holds of scripts: a call does its own thing, and no other.

use vstd::prelude::*;

use crate::desk::script::{applied, called, channel, index_at, rgba_of, DeskActionView, ScriptCall};
use crate::desk::windows::WindowId;
use crate::integer::{digit_value, numeral_value};
use crate::text::{
    byte_offset, char_bytes, has_at, lemma_byte_offset_step, run_end, words_spec, CharSet,
};

verus! {

/// What a call makes the desktop do.
pub open spec fn done_for(call: ScriptCall, focused: Option<WindowId>, sender: Seq<char>) -> Seq<
    DeskActionView,
> {
    match called(call, focused, sender) {
        Some(a) => applied(a),
        None => Seq::empty(),
    }
}

/// Everything that is done was called for: each kind of action comes of one kind of call,
/// and is about what that names. Workspaces are counted from one in calls and from zero
/// in actions.
#[verifier::spinoff_prover]
pub proof fn law_done_is_called(
    call: ScriptCall,
    focused: Option<WindowId>,
    sender: Seq<char>,
    i: int,
)
    requires
        0 <= i < done_for(call, focused, sender).len(),
    ensures
        match done_for(call, focused, sender)[i] {
            DeskActionView::Quit => call is Quit,
            DeskActionView::Reload => call is Reload,
            DeskActionView::IncMaster => call is IncMaster,
            DeskActionView::DecMaster => call is DecMaster,
            DeskActionView::CycleFocus(n) => call == ScriptCall::Cycle(n),
            DeskActionView::SwitchWorkspace(n) => call matches ScriptCall::Workspace(m) && (m == n
                + 1 || (m == 0 && n == 0)),
            DeskActionView::MoveToWorkspace(id, n) => focused == Some(id)
                && (call matches ScriptCall::Send(m) && (m == n + 1 || (m == 0 && n == 0))),
            DeskActionView::SetLayout(n, l) => call matches ScriptCall::Layout(m, name) && name@ == l
                && (m == n + 1 || (m == 0 && n == 0)),
            DeskActionView::SetFloat(id, on) => call is Float && focused == Some(id) && on,
            DeskActionView::SetFullscreen(id, on) => call is Fullscreen && focused == Some(id)
                && on,
            DeskActionView::Close(id) => call is Close && focused == Some(id),
            DeskActionView::FocusDirection(d) => call matches ScriptCall::Focus(word) && (d == 1
                <==> word@ == "right"@) && (d == 2 <==> word@ == "up"@) && (d == 3 <==> word@
                == "down"@) && d < 4,
            DeskActionView::Run { program, args } => call is Spawn || call is Notify,
            DeskActionView::Configure(t) => call matches ScriptCall::Spawn(c) && c@ == "__cfg__"@
                + t,
            DeskActionView::Focus(id) => false,
            DeskActionView::Reflow => call is Layout || call is Float,
            DeskActionView::SyncKeyboard => call is Focus || call is Cycle,
            DeskActionView::Redraw => !(call is Quit) && !(call is Reload) && !(call is Close) && !(
            call is Spawn) && !(call is Notify),
        },
{
    reveal_strlit("right");
    reveal_strlit("up");
    reveal_strlit("down");
    assert("right"@.len() == 5 && "up"@.len() == 2 && "down"@.len() == 4);
    reveal_strlit("__cfg__");
    reveal_strlit("notify-send ");
    if let ScriptCall::Spawn(c) = call {
        if has_at(c@, 0, "__cfg__"@) {
            let t = c@.skip(7);
            assert("__cfg__"@ + t =~= c@) by {
                assert forall|k: int| 0 <= k < 7 implies c@[k] == "__cfg__"@[k] by {
                    assert(c@.subrange(0, 7)[k] == c@[k]);
                }
            }
        }
    }
    if let ScriptCall::Notify(m) = call {
        let s = crate::desk::script::notice(sender, m@);
        assert(s[0] == 'n');
        if has_at(s, 0, "__cfg__"@) {
            assert(s.subrange(0, 7)[0] == s[0]);
        }
    }
}

/// Everything that is called for is done: what it is comes first, and what has to follow
/// comes behind it. Without a window that has the focus there is nothing to send, to
/// close, to let float or to fill the screen.
#[verifier::spinoff_prover]
pub proof fn law_called_is_done(call: ScriptCall, focused: Option<WindowId>, sender: Seq<char>)
    ensures
        ({
            let done = done_for(call, focused, sender);
            &&& call is Quit ==> done.len() == 1 && done[0] is Quit
            &&& call is Reload ==> done.len() == 1 && done[0] is Reload
            &&& call is IncMaster ==> done.len() == 2 && done[0] is IncMaster && done[1] is Redraw
            &&& call is DecMaster ==> done.len() == 2 && done[0] is DecMaster && done[1] is Redraw
            &&& call is Workspace ==> done.len() == 2 && done[0] is SwitchWorkspace && done[1]
                is Redraw
            &&& call is Layout ==> done.len() == 3 && done[0] is SetLayout && done[1] is Reflow
                && done[2] is Redraw
            &&& call is Focus ==> done.len() == 3 && done[0] is FocusDirection && done[1]
                is SyncKeyboard && done[2] is Redraw
            &&& call is Cycle ==> done.len() == 3 && done[0] is CycleFocus && done[1]
                is SyncKeyboard && done[2] is Redraw
            &&& focused is Some ==> {
                &&& call is Send ==> done.len() == 2 && done[0] is MoveToWorkspace && done[1]
                    is Redraw
                &&& call is Close ==> done.len() == 1 && done[0] is Close
                &&& call is Float ==> done.len() == 3 && done[0] is SetFloat && done[1] is Reflow
                    && done[2] is Redraw
                &&& call is Fullscreen ==> done.len() == 2 && done[0] is SetFullscreen && done[1]
                    is Redraw
            }
            &&& focused is None && (call is Send || call is Close || call is Float || call
                is Fullscreen) ==> done.len() == 0
            &&& call is Move ==> done.len() == 0
        }),
{
}

/// A command line starts the program of its first word, with the other words behind it;
/// one without words starts nothing.
pub proof fn law_spawn_starts(cmd: String, focused: Option<WindowId>, sender: Seq<char>)
    requires
        !has_at(cmd@, 0, "__cfg__"@),
    ensures
        ({
            let done = done_for(ScriptCall::Spawn(cmd), focused, sender);
            let w = words_spec(cmd@);
            &&& w.len() == 0 ==> done.len() == 0
            &&& w.len() > 0 ==> done.len() == 1 && (done[0] matches DeskActionView::Run {
                program,
                args,
            } && seq![program] + args == w)
        }),
{
    let w = words_spec(cmd@);
    if w.len() > 0 {
        assert(seq![w[0]] + w.skip(1) =~= w);
    }
}

// ── Colors ───────────────────────────────────────────────────────────────────

proof fn lemma_ascii_offset(s: Seq<char>, i: int)
    requires
        0 <= i <= s.len(),
        forall|k: int| 0 <= k < s.len() ==> char_bytes(#[trigger] s[k]) == 1,
    ensures
        byte_offset(s, i) == i,
    decreases i,
{
    if i > 0 {
        lemma_ascii_offset(s, i - 1);
        lemma_byte_offset_step(s, i - 1);
    } else {
        assert(s.take(0) =~= Seq::empty());
    }
}

proof fn lemma_ascii_index(s: Seq<char>, i: int, b: int)
    requires
        0 <= i <= b <= s.len(),
        forall|k: int| 0 <= k < s.len() ==> char_bytes(#[trigger] s[k]) == 1,
    ensures
        index_at(s, i, b) == b,
    decreases b - i,
{
    lemma_ascii_offset(s, i);
    if i < b {
        lemma_ascii_index(s, i + 1, b);
    }
}

proof fn lemma_channel(s: Seq<char>)
    requires
        s.len() == 2,
        digit_value(s[0]) < 16,
        digit_value(s[1]) < 16,
    ensures
        channel(s) == 16 * digit_value(s[0]) + digit_value(s[1]),
{
    assert(digit_value('+') == 99);
    assert(s.drop_last().drop_last() =~= Seq::<char>::empty());
    reveal_with_fuel(numeral_value, 3);
    assert(numeral_value(s, 16) == 16 * digit_value(s[0]) + digit_value(s[1]));
}

/// A color is read as it is written: two hexadecimal digits for red, two for green and two
/// for blue, behind a number sign. It is opaque.
pub proof fn law_colors_are_read(d: Seq<char>)
    requires
        d.len() == 6,
        forall|i: int| 0 <= i < 6 ==> digit_value(#[trigger] d[i]) < 16,
    ensures
        ({
            let (r, g, b, a) = rgba_of(seq!['#'] + d);
            &&& r == 16 * digit_value(d[0]) + digit_value(d[1])
            &&& g == 16 * digit_value(d[2]) + digit_value(d[3])
            &&& b == 16 * digit_value(d[4]) + digit_value(d[5])
            &&& a == 255
        }),
{
    let s = seq!['#'] + d;
    assert(s[1] == d[0]);
    assert(digit_value('#') == 99);
    assert(d[0] != '#');
    reveal_with_fuel(run_end, 3);
    assert(run_end(s, 0, CharSet::Only('#')) == 1);
    assert(s.skip(1) =~= d);
    assert forall|k: int| 0 <= k < d.len() implies char_bytes(#[trigger] d[k]) == 1 by {
        assert(digit_value(d[k]) < 16);
    }
    lemma_ascii_index(d, 0, 0);
    lemma_ascii_index(d, 0, 2);
    lemma_ascii_index(d, 0, 4);
    lemma_ascii_index(d, 0, 6);
    lemma_ascii_offset(d, 6);
    assert(d.take(6) =~= d);
    lemma_channel(d.subrange(0, 2));
    lemma_channel(d.subrange(2, 4));
    lemma_channel(d.subrange(4, 6));
}

} // verus!
