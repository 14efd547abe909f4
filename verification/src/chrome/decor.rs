//! What is seen of panes, workspaces and modules.

use vstd::prelude::*;

use crate::chrome::app::boxes_of;
use crate::chrome::custom::{polled, polls_due, EntryView};
use crate::chrome::de::title_in;
use crate::chrome::draw::OpView;
use crate::chrome::panes::{full_title, panes_ops, title_ops, title_room, truncated};
use crate::chrome::zones::{items_in, layout_icon, theme_of, ws_item, zone_items, ItemView, Theme};
use crate::config::settings::{kind_of, BarStyle, Colors, ModuleView};
use crate::integer::decimal;
use crate::twm::layout::Layout;
use crate::twm::pane::PaneId;
use crate::twm::state::{SnapView, TwmSnapshot, WsSnap};

verus! {

// ── Titles ───────────────────────────────────────────────────────────────────

/// A text that is too long is cut off, and ends in an ellipsis; what is kept is its start.
pub proof fn law_long_texts_are_cut(s: Seq<char>, max: int)
    requires
        max >= 0,
    ensures
        s.len() <= max ==> truncated(s, max) == s,
        s.len() > max ==> truncated(s, max).len() == max,
        s.len() > max && max > 0 ==> truncated(s, max)[max - 1] == '…' && forall|i: int|
            0 <= i < max - 1 ==> #[trigger] truncated(s, max)[i] == s[i],
{
    if max == 0 && s.len() == 0 {
        assert(truncated(s, max) =~= s);
    }
}

/// The title of a pane names it, its number and its kind.
pub proof fn law_titles_name_panes(p: SnapView)
    ensures
        ({
            let t = full_title(p);
            let n = p.title.len() as int;
            let d = decimal(p.id as nat).len() as int;
            &&& t.len() > n + d + 3
            &&& t.subrange(1, n + 1) == p.title
            &&& t.subrange(n + 3, n + 3 + d) == decimal(p.id as nat)
        }),
{
    reveal_strlit(" ");
    reveal_strlit(" [");
    reveal_strlit("] ");
    let t = full_title(p);
    let n = p.title.len() as int;
    let d = decimal(p.id as nat).len() as int;
    assert(t.subrange(1, n + 1) =~= p.title);
    assert(t.subrange(n + 3, n + 3 + d) =~= decimal(p.id as nat));
}

/// The title of a pane stands two characters behind its left edge, in the color of its
/// border, on a ground that is as wide; it is bold just where the pane has the focus.
pub proof fn law_titles_stand_in_borders(
    p: SnapView,
    focused: bool,
    colors: Colors,
    cell_w: u32,
    cell_h: u32,
)
    requires
        cell_w > 0,
        p.rect.x + p.rect.w + cell_w <= u32::MAX,
    ensures
        ({
            let ops = title_ops(p, focused, colors, cell_w, cell_h);
            ops.len() > 0 ==> {
                &&& ops.len() == 2
                &&& ops[0] matches OpView::Fill { rect, color } && rect.x == p.rect.x + 2 * cell_w
                    && rect.y == p.rect.y && color == colors.pane_bg && (
                ops[1] matches OpView::Text { x, text, fg, bold, .. } && {
                    &&& x == rect.x && rect.w == text.len() * cell_w
                    &&& x + rect.w <= p.rect.x + p.rect.w
                    &&& text == truncated(full_title(p), title_room(p.rect, cell_w))
                    &&& bold == focused
                    &&& fg == (if focused {
                        colors.active_border
                    } else {
                        colors.inactive_border
                    })
                })
            }
        }),
{
    let title = truncated(full_title(p), title_room(p.rect, cell_w));
    assert(title.len() * cell_w >= 0) by (nonlinear_arith);
}

/// The border of a pane lies along its edge, in the color of the focus just where the pane
/// has it; it is one or two pixels wide. A pane that fills the screen has no title.
pub proof fn law_borders_show_the_focus(
    panes: Seq<SnapView>,
    n: int,
    focused: Option<PaneId>,
    colors: Colors,
    border_w: u32,
    cell_w: u32,
    cell_h: u32,
)
    requires
        0 < n <= panes.len(),
        panes[n - 1].rect.w >= 4,
        panes[n - 1].rect.h >= 4,
    ensures
        ({
            let p = panes[n - 1];
            let ops = panes_ops(panes, n, focused, colors, border_w, cell_w, cell_h);
            let before = panes_ops(panes, n - 1, focused, colors, border_w, cell_w, cell_h);
            let k = before.len() as int;
            &&& ops.len() > k
            &&& ops.take(k) == before
            &&& ops[k] matches OpView::Border { rect, color, width } && {
                &&& rect == p.rect
                &&& color == (if focused == Some(p.id) {
                    colors.active_border
                } else {
                    colors.inactive_border
                })
                &&& border_w <= 1 ==> width == 1
                &&& border_w >= 2 ==> width == 2
            }
            &&& p.fullscreen ==> ops.len() == k + 1
        }),
{
    let ops = panes_ops(panes, n, focused, colors, border_w, cell_w, cell_h);
    let before = panes_ops(panes, n - 1, focused, colors, border_w, cell_w, cell_h);
    assert(ops.take(before.len() as int) =~= before);
}

// ── Boxes ────────────────────────────────────────────────────────────────────

/// Every pane that does not fill the screen has a box, at its place and with its title; that
/// with the focus has it in its box too.
pub proof fn law_panes_have_boxes(
    panes: Seq<SnapView>,
    n: int,
    focused: Option<PaneId>,
    border_w: u32,
    i: int,
) -> (k: int)
    requires
        0 <= i < n <= panes.len(),
        !panes[i].fullscreen,
    ensures
        0 <= k < boxes_of(panes, n, focused, border_w).len(),
        ({
            let b = boxes_of(panes, n, focused, border_w)[k];
            &&& b.area == panes[i].rect && b.title == panes[i].title && b.border_w == border_w
            &&& b.focused <==> focused == Some(panes[i].id)
        }),
    decreases n,
{
    let before = boxes_of(panes, n - 1, focused, border_w);
    if i == n - 1 {
        before.len() as int
    } else {
        law_panes_have_boxes(panes, n - 1, focused, border_w, i)
    }
}

/// There are no more boxes than panes that do not fill the screen.
pub proof fn law_only_panes_have_boxes(
    panes: Seq<SnapView>,
    n: int,
    focused: Option<PaneId>,
    border_w: u32,
    k: int,
) -> (i: int)
    requires
        0 <= n <= panes.len(),
        0 <= k < boxes_of(panes, n, focused, border_w).len(),
    ensures
        k <= i < n,
        !panes[i].fullscreen,
        boxes_of(panes, n, focused, border_w)[k].area == panes[i].rect,
    decreases n,
{
    lemma_boxes_len(panes, n - 1, focused, border_w);
    let before = boxes_of(panes, n - 1, focused, border_w);
    if k < before.len() {
        law_only_panes_have_boxes(panes, n - 1, focused, border_w, k)
    } else {
        n - 1
    }
}

proof fn lemma_boxes_len(panes: Seq<SnapView>, n: int, focused: Option<PaneId>, border_w: u32)
    ensures
        n >= 0 ==> boxes_of(panes, n, focused, border_w).len() <= n,
        n < 0 ==> boxes_of(panes, n, focused, border_w).len() == 0,
    decreases n,
{
    if n > 0 {
        lemma_boxes_len(panes, n - 1, focused, border_w);
    }
}

/// The title in the bar is that of the pane with the focus, and empty where none has it.
pub proof fn law_title_of_the_focus(panes: Seq<SnapView>, id: Option<PaneId>, i: int)
    requires
        0 <= i <= panes.len(),
        forall|k: int| 0 <= k < i ==> Some((#[trigger] panes[k]).id) != id,
        i < panes.len() ==> Some(panes[i].id) == id,
    ensures
        i < panes.len() ==> title_in(panes, id) == panes[i].title,
        i == panes.len() ==> title_in(panes, id).len() == 0,
    decreases panes.len(),
{
    if panes.len() > 0 && i > 0 {
        assert(Some(panes[0].id) != id);
        assert forall|k: int| 0 <= k < i - 1 implies Some((#[trigger] panes.skip(1)[k]).id)
            != id by {
            assert(panes.skip(1)[k] == panes[k + 1]);
        }
        law_title_of_the_focus(panes.skip(1), id, i - 1);
    }
}

// ── Zones ────────────────────────────────────────────────────────────────────

/// The entry of a workspace holds its number, counted from one. That of the active one is a
/// pill in its colors, and those with windows have a color of their own.
pub proof fn law_entries_of_workspaces(w: WsSnap, active_ws: usize, t: Theme)
    requires
        w.index < 255,
    ensures
        ({
            let text = " "@ + decimal((w.index + 1) as nat) + " "@;
            match ws_item(w, active_ws, t) {
                ItemView::Pill { text: s, fg, bg, .. } => w.index == active_ws && s == text && fg
                    == t.ws_active_fg && bg == t.ws_active_bg,
                ItemView::Text { text: s, fg, .. } => w.index != active_ws && s == text && fg == (
                if w.occupied {
                    t.active_border
                } else {
                    t.bar_dim
                }),
                ItemView::Accent { .. } => false,
            }
        }),
{
}

/// Each layout has an icon of its own.
#[verifier::spinoff_prover]
pub proof fn law_icons_tell_layouts_apart(a: Layout, b: Layout)
    requires
        layout_icon(a.spec_label()) == layout_icon(b.spec_label()),
    ensures
        a == b,
{
    reveal_strlit("BSP");
    reveal_strlit("Columns");
    reveal_strlit("Rows");
    reveal_strlit("ThreeCol");
    reveal_strlit("Monocle");
    reveal_strlit("󰙀 ");
    reveal_strlit("󰕘 ");
    reveal_strlit("󰕛 ");
    reveal_strlit("󱗼 ");
    reveal_strlit("󱕻 ");
    assert("BSP"@.len() == 3 && "Columns"@.len() == 7 && "Rows"@.len() == 4 && "ThreeCol"@.len() == 8
        && "Monocle"@.len() == 7);
    assert("Columns"@[0] == 'C' && "Monocle"@[0] == 'M');
    assert("󰙀 "@[0] != "󰕘 "@[0] && "󰙀 "@[0] != "󰕛 "@[0] && "󰙀 "@[0] != "󱗼 "@[0] && "󰙀 "@[0]
        != "󱕻 "@[0]);
    assert("󰕘 "@[0] != "󰕛 "@[0] && "󰕘 "@[0] != "󱗼 "@[0] && "󰕘 "@[0] != "󱕻 "@[0]);
    assert("󰕛 "@[0] != "󱗼 "@[0] && "󰕛 "@[0] != "󱕻 "@[0] && "󱗼 "@[0] != "󱕻 "@[0]);
}

/// The names of the kinds of modules; every other name is that of a custom one.
pub proof fn law_kinds_have_names(name: Seq<char>)
    ensures
        kind_of(name) is Workspaces <==> name == "workspaces"@,
        kind_of(name) is Clock <==> name == "clock"@,
        kind_of(name) is Layout <==> name == "layout"@,
        kind_of(name) is Systray <==> name == "systray"@,
{
    reveal_strlit("workspaces");
    reveal_strlit("clock");
    reveal_strlit("layout");
    reveal_strlit("systray");
    assert("workspaces"@.len() == 10 && "clock"@.len() == 5 && "layout"@.len() == 6
        && "systray"@.len() == 7);
}

/// The entries of a zone are those of its modules, one after the other.
pub proof fn law_zones_hold_their_modules(
    modules: Seq<ModuleView>,
    names: Seq<Seq<char>>,
    times: Seq<Seq<char>>,
    n: int,
    i: int,
    snap: TwmSnapshot,
    t: Theme,
) -> (at: int)
    requires
        0 <= i < n <= names.len(),
    ensures
        ({
            let all = zone_items(modules, names, times, n, snap, t);
            let own = items_in(modules, names[i], times[i], snap, t);
            &&& 0 <= at && at + own.len() <= all.len()
            &&& all.subrange(at, at + own.len()) == own
            &&& i == 0 ==> at == 0
            &&& i == n - 1 ==> at + own.len() == all.len()
        }),
    decreases n,
{
    let all = zone_items(modules, names, times, n, snap, t);
    let before = zone_items(modules, names, times, n - 1, snap, t);
    let own = items_in(modules, names[i], times[i], snap, t);
    if i == n - 1 {
        let at = before.len() as int;
        assert(all.subrange(at, at + own.len()) =~= own);
        if n == 1 {
            assert(before.len() == 0);
        }
        at
    } else {
        let at = law_zones_hold_their_modules(modules, names, times, n - 1, i, snap, t);
        assert(all.subrange(at, at + own.len()) =~= before.subrange(at, at + own.len()));
        at
    }
}

/// The colors of panes come from the `colors` block, and those of the bar from the `bar`
/// block.
pub proof fn law_theme_has_the_colors(c: Colors, b: BarStyle)
    ensures
        ({
            let t = theme_of(c, b);
            &&& t.active_border == c.active_border && t.inactive_border == c.inactive_border
            &&& t.active_title == c.active_title && t.inactive_title == c.inactive_title
            &&& t.pane_bg == c.pane_bg
            &&& t.bar_bg == b.bg && t.bar_fg == b.fg && t.bar_accent == b.accent && t.bar_dim
                == b.dim
            &&& t.ws_active_fg == b.active_ws_fg && t.ws_active_bg == b.active_ws_bg
        }),
{
}

// ── Commands of modules ──────────────────────────────────────────────────────

/// A command runs just where it never did, or its interval has passed since; it is then
/// remembered when it ran. All others stay as they are.
pub proof fn law_commands_run_when_due(entries: Seq<EntryView>, now_ms: u64, i: int)
    requires
        0 <= i < entries.len(),
        entries[i].last_poll matches Some(last) ==> last <= now_ms,
    ensures
        ({
            let e = entries[i];
            let p = polled(entries, now_ms)[i];
            let runs = match e.last_poll {
                Some(last) => now_ms - last >= e.interval_ms,
                None => true,
            };
            &&& runs ==> polls_due(entries, now_ms).contains((e.name, e.command)) && p == (
            EntryView { last_poll: Some(now_ms), ..e })
            &&& !runs ==> p == e
        }),
        polled(entries, now_ms).len() == entries.len(),
{
    let e = entries[i];
    if e.last_poll matches Some(last) ==> now_ms - last >= e.interval_ms {
        lemma_due_is_listed(entries, now_ms, i);
    }
}

proof fn lemma_due_is_listed(entries: Seq<EntryView>, now_ms: u64, i: int)
    requires
        0 <= i < entries.len(),
        crate::chrome::custom::due(entries[i].last_poll, entries[i].interval_ms, now_ms),
    ensures
        polls_due(entries, now_ms).contains((entries[i].name, entries[i].command)),
    decreases entries.len(),
{
    let all = polls_due(entries, now_ms);
    let before = polls_due(entries.drop_last(), now_ms);
    let x = (entries[i].name, entries[i].command);
    if i < entries.len() - 1 {
        lemma_due_is_listed(entries.drop_last(), now_ms, i);
        let k = choose|k: int| 0 <= k < before.len() && before[k] == x;
        assert(all[k] == x);
    } else {
        assert(all[before.len() as int] == x);
    }
}

/// What runs is due.
pub proof fn law_only_due_commands_run(entries: Seq<EntryView>, now_ms: u64, k: int) -> (i: int)
    requires
        0 <= k < polls_due(entries, now_ms).len(),
    ensures
        0 <= i < entries.len(),
        polls_due(entries, now_ms)[k] == (entries[i].name, entries[i].command),
        entries[i].last_poll matches Some(last) ==> last + entries[i].interval_ms <= now_ms
            || entries[i].interval_ms == 0,
    decreases entries.len(),
{
    let before = polls_due(entries.drop_last(), now_ms);
    if k < before.len() {
        law_only_due_commands_run(entries.drop_last(), now_ms, k)
    } else {
        entries.len() - 1
    }
}

} // verus!
