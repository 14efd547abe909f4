//! What holds of screens and of the cursor on them.

use vstd::prelude::*;

use crate::backend::{
    bar_of, card_paths, chosen_mode, connectors_used, crtcs_of, exact_mode, fastest_mode, free_in,
    law_bar_is_rounded_up, monitor_named, preferred_mode, screens_used, wanted_for, with_screen,
    ConnectorState, FoundScreen, ScreenMode,
};
use crate::config::paths::path_joined;
use crate::config::settings::MonitorConfig;
use crate::cursor::{
    arrow_byte, color_byte, image_byte, in_arrow, in_fill, le32, nearest_image, origin_of, places,
    plain_pixel, size_asked, IMAGE_TYPE,
};
use crate::integer::{decimal, lemma_decimal_is_read};
use crate::twm::actions::{law_screen_is_split, lemma_reflow_keeps, same_panes};
use crate::twm::state::{reflowed, resplit, TwmView};

verus! {

// ── Modes ────────────────────────────────────────────────────────────────────

proof fn lemma_exact(m: Seq<ScreenMode>, i: int, k: int, w: u32, h: u32, hz: u32)
    requires
        0 <= i <= k < m.len(),
        m[k].width == w && m[k].height == h && m[k].refresh == hz,
    ensures
        exact_mode(m, i, w, h, hz) matches Some(j) && i <= j <= k && m[j].width == w && m[j].height
            == h && m[j].refresh == hz,
    decreases k - i,
{
    if !(m[i].width == w && m[i].height == h && m[i].refresh == hz) {
        lemma_exact(m, i + 1, k, w, h, hz);
    }
}

/// A screen that has the mode that is configured gets it: the first such mode.
pub proof fn law_configured_mode_is_used(m: Seq<ScreenMode>, w: u32, h: u32, hz: u32, k: int)
    requires
        0 <= k < m.len(),
        m[k].width == w && m[k].height == h && m[k].refresh == hz,
    ensures
        chosen_mode(m, Some((w, h, hz))) matches Some(i) && 0 <= i <= k && m[i].width == w
            && m[i].height == h && m[i].refresh == hz,
{
    lemma_exact(m, 0, k, w, h, hz);
}

proof fn lemma_no_exact(m: Seq<ScreenMode>, i: int, w: u32, h: u32, hz: u32)
    requires
        0 <= i,
        forall|k: int|
            0 <= k < m.len() ==> !((#[trigger] m[k]).width == w && m[k].height == h && m[k].refresh
                == hz),
    ensures
        exact_mode(m, i, w, h, hz) is None,
    decreases m.len() - i,
{
    if i < m.len() {
        lemma_no_exact(m, i + 1, w, h, hz);
    }
}

proof fn lemma_fastest_is(m: Seq<ScreenMode>, n: int, w: u32, h: u32)
    requires
        0 <= n <= m.len(),
    ensures
        match fastest_mode(m, n, w, h) {
            Some(i) => 0 <= i < n && m[i].width == w && m[i].height == h && forall|k: int|
                0 <= k < n && (#[trigger] m[k]).width == w && m[k].height == h ==> m[k].refresh
                    <= m[i].refresh,
            None => forall|k: int|
                0 <= k < n ==> !((#[trigger] m[k]).width == w && m[k].height == h),
        },
    decreases n,
{
    if n > 0 {
        lemma_fastest_is(m, n - 1, w, h);
    }
}

/// Without the configured rate, a screen gets the highest rate at the configured size.
pub proof fn law_highest_rate_is_used(m: Seq<ScreenMode>, w: u32, h: u32, hz: u32, k: int)
    requires
        0 <= k < m.len(),
        m[k].width == w && m[k].height == h,
        forall|j: int|
            0 <= j < m.len() ==> !((#[trigger] m[j]).width == w && m[j].height == h && m[j].refresh
                == hz),
    ensures
        chosen_mode(m, Some((w, h, hz))) matches Some(i) && 0 <= i < m.len() && m[i].width == w
            && m[i].height == h && m[k].refresh <= m[i].refresh,
{
    lemma_no_exact(m, 0, w, h, hz);
    lemma_fastest_is(m, m.len() as int, w, h);
}

proof fn lemma_preferred(m: Seq<ScreenMode>, i: int, k: int)
    requires
        0 <= i <= k <= m.len(),
        forall|j: int| i <= j < k ==> !(#[trigger] m[j]).preferred,
        k < m.len() ==> m[k].preferred,
    ensures
        preferred_mode(m, i) == (if k < m.len() {
            Some(k)
        } else {
            None
        }),
    decreases k - i,
{
    if i < k {
        lemma_preferred(m, i + 1, k);
    }
}

/// A screen for which nothing is configured, or nothing that it has, gets the first mode
/// that it prefers, and its first mode where it prefers none.
pub proof fn law_own_mode_is_used(m: Seq<ScreenMode>, wanted: Option<(u32, u32, u32)>, k: int)
    requires
        wanted matches Some((w, h, hz)) ==> forall|j: int|
            0 <= j < m.len() ==> !((#[trigger] m[j]).width == w && m[j].height == h),
        0 <= k <= m.len(),
        forall|j: int| 0 <= j < k ==> !(#[trigger] m[j]).preferred,
        k < m.len() ==> m[k].preferred,
    ensures
        chosen_mode(m, wanted) == (if k < m.len() {
            Some(k)
        } else if m.len() > 0 {
            Some(0)
        } else {
            None
        }),
{
    lemma_preferred(m, 0, k);
    if let Some((w, h, hz)) = wanted {
        lemma_no_exact(m, 0, w, h, hz);
        lemma_fastest_is(m, m.len() as int, w, h);
    }
}

proof fn lemma_named(v: Seq<MonitorConfig>, i: int, k: int, name: Seq<char>)
    requires
        0 <= i <= k < v.len(),
        v[k].name@ == name,
        forall|j: int| i <= j < k ==> (#[trigger] v[j]).name@ != name,
    ensures
        monitor_named(v, i, name) == Some(k),
    decreases k - i,
{
    if i < k {
        assert(v[i].name@ != name);
        lemma_named(v, i + 1, k, name);
    }
}

/// What is wanted of a screen is what its own block says, the first one of its name.
pub proof fn law_screens_by_name(v: Seq<MonitorConfig>, k: int)
    requires
        0 <= k < v.len(),
        forall|j: int| 0 <= j < k ==> (#[trigger] v[j]).name@ != v[k].name@,
    ensures
        wanted_for(v, v[k].name@) matches Some((w, h, hz)) && w == v[k].width && h == v[k].height
            && hz == v[k].refresh,
{
    lemma_named(v, 0, k, v[k].name@);
}

proof fn lemma_free_is(crtcs: Seq<u32>, used: Seq<u32>, i: int, k: int)
    requires
        0 <= i <= k <= crtcs.len(),
        forall|j: int| i <= j < k ==> used.contains(#[trigger] crtcs[j]),
        k < crtcs.len() ==> !used.contains(crtcs[k]),
    ensures
        free_in(crtcs, used, i) == (if k < crtcs.len() {
            Some(crtcs[k])
        } else {
            None
        }),
    decreases k - i,
{
    if i < k {
        lemma_free_is(crtcs, used, i + 1, k);
    }
}

/// A screen is drawn by the first CRTC that draws no other, and by none where there is none.
pub proof fn law_first_free_crtc(crtcs: Seq<u32>, used: Seq<u32>, k: int)
    requires
        0 <= k <= crtcs.len(),
        forall|j: int| 0 <= j < k ==> used.contains(#[trigger] crtcs[j]),
        k < crtcs.len() ==> !used.contains(crtcs[k]),
    ensures
        free_in(crtcs, used, 0) == (if k < crtcs.len() {
            Some(crtcs[k])
        } else {
            None
        }),
{
    lemma_free_is(crtcs, used, 0, k);
}

/// The screens that are used come in the order in which they were found, each once. Each
/// works, and has the mode that is chosen for it and one of the CRTCs.
pub proof fn law_screens_in_order(
    screens: Seq<FoundScreen>,
    monitors: Seq<MonitorConfig>,
    crtcs: Seq<u32>,
    works: Seq<bool>,
    n: int,
)
    requires
        0 <= n <= screens.len() == works.len(),
        screens.len() <= usize::MAX,
        forall|i: int| 0 <= i < screens.len() ==> (#[trigger] screens[i]).modes@.len() <= usize::MAX,
    ensures
        ({
            let used = screens_used(screens, monitors, crtcs, works, n);
            &&& forall|k: int|
                0 <= k < used.len() ==> {
                    let u = #[trigger] used[k];
                    &&& u.screen < n && works[u.screen as int]
                    &&& crtcs.contains(u.crtc)
                    &&& chosen_mode(
                        screens[u.screen as int].modes@,
                        wanted_for(monitors, screens[u.screen as int].name@),
                    ) == Some(u.mode as int)
                }
            &&& forall|j: int, k: int|
                #![trigger used[j], used[k]]
                0 <= j < k < used.len() ==> used[j].screen < used[k].screen
        }),
    decreases n,
{
    if n > 0 {
        law_screens_in_order(screens, monitors, crtcs, works, n - 1);
        let before = screens_used(screens, monitors, crtcs, works, n - 1);
        let all = screens_used(screens, monitors, crtcs, works, n);
        let s = screens[n - 1];
        let wanted = wanted_for(monitors, s.name@);
        lemma_chosen_in_range(s.modes@, wanted);
        lemma_free_in_list(crtcs, crtcs_of(before), 0);
        assert(s.modes@.len() <= usize::MAX);
        assert forall|k: int| 0 <= k < all.len() implies ({
            let u = #[trigger] all[k];
            &&& u.screen < n && works[u.screen as int]
            &&& crtcs.contains(u.crtc)
            &&& chosen_mode(
                screens[u.screen as int].modes@,
                wanted_for(monitors, screens[u.screen as int].name@),
            ) == Some(u.mode as int)
        }) by {
            if k < before.len() {
                assert(all[k] == before[k]);
            }
        }
        assert forall|j: int, k: int|
            #![trigger all[j], all[k]]
            0 <= j < k < all.len() implies all[j].screen < all[k].screen by {
            assert(all[j] == before[j]);
            if k < before.len() {
                assert(all[k] == before[k]);
            }
        }
    }
}

proof fn lemma_free_in_list(crtcs: Seq<u32>, used: Seq<u32>, i: int)
    requires
        0 <= i,
    ensures
        free_in(crtcs, used, i) matches Some(c) ==> crtcs.contains(c),
    decreases crtcs.len() - i,
{
    if i < crtcs.len() {
        assert(crtcs.contains(crtcs[i]));
        lemma_free_in_list(crtcs, used, i + 1);
    }
}

proof fn lemma_exact_in_range(m: Seq<ScreenMode>, i: int, w: u32, h: u32, hz: u32)
    requires
        0 <= i,
    ensures
        exact_mode(m, i, w, h, hz) matches Some(k) ==> i <= k < m.len(),
    decreases m.len() - i,
{
    if i < m.len() {
        lemma_exact_in_range(m, i + 1, w, h, hz);
    }
}

proof fn lemma_preferred_in_range(m: Seq<ScreenMode>, i: int)
    requires
        0 <= i,
    ensures
        preferred_mode(m, i) matches Some(k) ==> i <= k < m.len(),
    decreases m.len() - i,
{
    if i < m.len() {
        lemma_preferred_in_range(m, i + 1);
    }
}

proof fn lemma_chosen_in_range(m: Seq<ScreenMode>, wanted: Option<(u32, u32, u32)>)
    ensures
        chosen_mode(m, wanted) matches Some(k) ==> 0 <= k < m.len(),
{
    lemma_preferred_in_range(m, 0);
    if let Some((w, h, hz)) = wanted {
        lemma_exact_in_range(m, 0, w, h, hz);
        lemma_fastest_is(m, m.len() as int, w, h);
    }
}

/// A screen that works is used where there is a mode for it and a CRTC is left.
pub proof fn law_screens_that_work_are_used(
    screens: Seq<FoundScreen>,
    monitors: Seq<MonitorConfig>,
    crtcs: Seq<u32>,
    works: Seq<bool>,
    n: int,
)
    requires
        0 < n <= screens.len() == works.len(),
        screens.len() <= usize::MAX,
    ensures
        ({
            let before = screens_used(screens, monitors, crtcs, works, n - 1);
            let all = screens_used(screens, monitors, crtcs, works, n);
            let left = exists|k: int|
                0 <= k < crtcs.len() && forall|j: int|
                    0 <= j < before.len() ==> (#[trigger] before[j]).crtc != #[trigger] crtcs[k];
            &&& works[n - 1] && left && chosen_mode(
                screens[n - 1].modes@,
                wanted_for(monitors, screens[n - 1].name@),
            ) is Some ==> all.len() == before.len() + 1 && all.last().screen == n - 1
            &&& !works[n - 1] ==> all == before
        }),
{
    let before = screens_used(screens, monitors, crtcs, works, n - 1);
    let used = crtcs_of(before);
    if exists|k: int|
        0 <= k < crtcs.len() && forall|j: int|
            0 <= j < before.len() ==> (#[trigger] before[j]).crtc != #[trigger] crtcs[k] {
        let k = choose|k: int|
            0 <= k < crtcs.len() && forall|j: int|
                0 <= j < before.len() ==> (#[trigger] before[j]).crtc != #[trigger] crtcs[k];
        assert(!used.contains(crtcs[k])) by {
            if used.contains(crtcs[k]) {
                let j = choose|j: int| 0 <= j < used.len() && used[j] == crtcs[k];
                assert(before[j].crtc == crtcs[k]);
            }
        }
        lemma_some_free(crtcs, used, 0, k);
    }
}

proof fn lemma_some_free(crtcs: Seq<u32>, used: Seq<u32>, i: int, k: int)
    requires
        0 <= i <= k < crtcs.len(),
        !used.contains(crtcs[k]),
    ensures
        free_in(crtcs, used, i) is Some,
    decreases k - i,
{
    if i < k {
        lemma_some_free(crtcs, used, i + 1, k);
    }
}

/// A screen gives the panes what its bar leaves of it.
pub proof fn law_screen_is_set_up(
    t: TwmView,
    screen_w: u32,
    screen_h: u32,
    bar_h: u32,
    at_bottom: bool,
)
    requires
        t.wf(),
        bar_h > 0,
        2 * t.padding <= screen_w,
        2 * t.padding + bar_h <= screen_h,
    ensures
        ({
            let u = with_screen(t, screen_w, screen_h, bar_h, at_bottom);
            &&& u.screen_w == screen_w && u.screen_h == screen_h
            &&& u.bar.x == 0 && u.bar.w == screen_w && u.bar.h == bar_h
            &&& at_bottom ==> u.bar.y + bar_h == screen_h && u.content.y == t.padding
            &&& !at_bottom ==> u.bar.y == 0 && u.content.y == bar_h + t.padding
            &&& u.content.x == t.padding && u.content.w == screen_w - 2 * t.padding
            &&& u.content.h == screen_h - bar_h - 2 * t.padding
            &&& same_panes(t, u)
            &&& u.workspaces == t.workspaces && u.active == t.active
        }),
{
    let a = resplit((TwmView { screen_w, screen_h, ..t }), t.bar.h, t.bar.y > 0);
    lemma_reflow_keeps(a);
    let sized = reflowed(a);
    let b = resplit(sized, bar_h, at_bottom);
    lemma_reflow_keeps(b);
    law_screen_is_split(screen_w, screen_h, bar_h, at_bottom, t.padding);
    let u = reflowed(b);
    assert forall|id: crate::twm::pane::PaneId| #[trigger] t.panes.contains_key(id)
        <==> u.panes.contains_key(id) by {
        assert(a.panes.contains_key(id) <==> sized.panes.contains_key(id));
        assert(b.panes.contains_key(id) <==> u.panes.contains_key(id));
    }
    assert forall|id: crate::twm::pane::PaneId| #[trigger] t.panes.contains_key(id) implies {
        &&& u.panes[id].id == t.panes[id].id
        &&& u.panes[id].content == t.panes[id].content
        &&& u.panes[id].fullscreen == t.panes[id].fullscreen
        &&& u.panes[id].floating == t.panes[id].floating
        &&& u.panes[id].float_rect == t.panes[id].float_rect
    } by {
        assert(a.panes.contains_key(id));
        assert(b.panes.contains_key(id));
    }
}

/// A card that is given is the only one that is tried; else the first eight are, in order.
pub proof fn law_cards_are_tried_in_order(given: Seq<char>, i: int)
    requires
        0 <= i < 8,
    ensures
        card_paths(Some(given)) == seq![given],
        card_paths(None).len() == 8,
        card_paths(None)[i] == "/dev/dri/card"@ + decimal(i as nat),
{
}

// ── Cursor ───────────────────────────────────────────────────────────────────

/// The bytes of a color are those of its number, the lowest first.
pub proof fn law_color_bytes(color: u32)
    ensures
        color_byte(color, 0) + 0x100 * color_byte(color, 1) + 0x1_0000 * color_byte(color, 2)
            + 0x100_0000 * color_byte(color, 3) == color,
{
}

/// The inside of the arrow has an outline all round: what is filled is in the arrow, and so
/// is every pixel next to it.
pub proof fn law_arrow_has_an_outline(row: int, col: int)
    requires
        0 <= row,
        0 <= col,
        in_fill(row, col),
    ensures
        in_arrow(row, col),
        in_arrow(row, col + 1) && !in_fill(row, 0),
        in_arrow(row, col - 1),
        in_arrow(row + 1, col),
        in_arrow(row - 1, col),
{
}

/// The image that is used is as near to the size as any other that is less than the
/// greatest number away, and is one of those in the file.
pub proof fn law_nearest_image(data: Seq<u8>, table: int, n: int, target: u32, k: int)
    requires
        0 <= k < n,
        le32(data, table + k * 12) == IMAGE_TYPE,
        -(u32::MAX as int) < le32(data, table + k * 12 + 4) - target < u32::MAX,
    ensures
        nearest_image(data, table, n, target) matches Some((off, at)) && {
            let size = le32(data, table + k * 12 + 4);
            &&& off <= size - target || off <= target - size
            &&& exists|j: int|
                0 <= j < n && le32(data, table + j * 12) == IMAGE_TYPE && #[trigger] le32(
                    data,
                    table + j * 12 + 8,
                ) == at && (off == le32(data, table + j * 12 + 4) - target || off == target - le32(
                    data,
                    table + j * 12 + 4,
                ))
        },
    decreases n,
{
    let best = nearest_image(data, table, n - 1, target);
    if k < n - 1 {
        law_nearest_image(data, table, n - 1, target, k);
        let (off, at) = best->0;
        let j = choose|j: int|
            0 <= j < n - 1 && le32(data, table + j * 12) == IMAGE_TYPE && #[trigger] le32(
                data,
                table + j * 12 + 8,
            ) == at && (off == le32(data, table + j * 12 + 4) - target || off == target - le32(
                data,
                table + j * 12 + 4,
            ));
        assert(le32(data, table + j * 12 + 8) == at);
    } else {
        lemma_nearest_is(data, table, n - 1, target);
        if let Some((off, at)) = best {
            let j = choose|j: int|
                0 <= j < n - 1 && le32(data, table + j * 12) == IMAGE_TYPE && #[trigger] le32(
                    data,
                    table + j * 12 + 8,
                ) == at && (off == le32(data, table + j * 12 + 4) - target || off == target - le32(
                    data,
                    table + j * 12 + 4,
                ));
            assert(le32(data, table + j * 12 + 8) == at);
        }
    }
    assert(le32(data, table + (n - 1) * 12 + 8) == le32(data, table + (n - 1) * 12 + 8));
}

proof fn lemma_nearest_is(data: Seq<u8>, table: int, n: int, target: u32)
    requires
        0 <= n,
    ensures
        nearest_image(data, table, n, target) matches Some((off, at)) ==> exists|j: int|
            0 <= j < n && le32(data, table + j * 12) == IMAGE_TYPE && #[trigger] le32(
                data,
                table + j * 12 + 8,
            ) == at && (off == le32(data, table + j * 12 + 4) - target || off == target - le32(
                data,
                table + j * 12 + 4,
            )),
    decreases n,
{
    if n > 0 {
        lemma_nearest_is(data, table, n - 1, target);
        let at = table + (n - 1) * 12;
        assert(le32(data, at + 8) == le32(data, table + (n - 1) * 12 + 8));
        let best = nearest_image(data, table, n - 1, target);
        if best is Some && nearest_image(data, table, n, target) == best {
            let (off, p) = best->0;
            let j = choose|j: int|
                0 <= j < n - 1 && le32(data, table + j * 12) == IMAGE_TYPE && #[trigger] le32(
                    data,
                    table + j * 12 + 8,
                ) == p && (off == le32(data, table + j * 12 + 4) - target || off == target - le32(
                    data,
                    table + j * 12 + 4,
                ));
            assert(le32(data, table + j * 12 + 8) == p);
        }
    }
}

/// The pixel of an image in a row and a column is that of the cursor there; beside the image
/// there is nothing.
pub proof fn law_pixels_stay_in_place(
    data: Seq<u8>,
    pixels: int,
    w: int,
    h: int,
    row: int,
    col: int,
    k: int,
)
    requires
        0 <= row < 64,
        0 <= col < 64,
        0 <= k < 4,
    ensures
        image_byte(data, pixels, w, h, 256 * row + 4 * col + k) == (if row < h && col < w {
            data[pixels + (row * w + col) * 4 + k]
        } else {
            0
        }),
{
    let i = 256 * row + 4 * col + k;
    assert(i / 256 == row);
    assert(i / 4 == 64 * row + col);
    assert(i / 4 % 64 == col);
    assert(i % 4 == k);
}

/// The hot spot of the cursor is where the pointer is, unless that would put the cursor
/// outside of the screen.
pub proof fn law_hot_spot_is_at_the_pointer(p: int, hot: u32)
    ensures
        p >= hot ==> origin_of(p, hot) + hot == p,
        p < hot ==> origin_of(p, hot) == 0,
{
}

/// A pixel of the plain arrow: every row starts at the left edge, where it is black, and is
/// black again where it ends; in between it is white. There is nothing behind it.
pub proof fn law_plain_arrow(row: int, col: int)
    requires
        0 <= row,
        0 <= col,
    ensures
        plain_pixel(row, col) == 0xFFFF_FFFFu32 ==> col > 0 && row > 0 && plain_pixel(row, col - 1)
            != 0 && plain_pixel(row, col + 1) != 0,
        plain_pixel(row, col) != 0 ==> row < 20 && plain_pixel(row, 0) == 0xFF00_0000u32,
        plain_pixel(row, col) == 0 && col > 0 ==> plain_pixel(row, col + 1) == 0,
        plain_pixel(row, col) != 0 && plain_pixel(row, col + 1) == 0 ==> plain_pixel(row, col)
            == 0xFF00_0000u32,
{
}

/// The pixels of the arrow have the color of its inside or of its outline, and are clear
/// outside of it.
pub proof fn law_arrow_pixels(fg: u32, outline: u32, row: int, col: int, k: int)
    requires
        0 <= row < 64,
        0 <= col < 64,
        0 <= k < 4,
    ensures
        arrow_byte(fg, outline, 256 * row + 4 * col + k) == (if !in_arrow(row, col) {
            0
        } else if in_fill(row, col) {
            color_byte(fg, k)
        } else {
            color_byte(outline, k)
        }),
{
    let i = 256 * row + 4 * col + k;
    assert(i / 256 == row);
    assert(i / 4 == 64 * row + col);
    assert(i / 4 % 64 == col);
    assert(i % 4 == k);
}

/// A cursor is looked for in the places of the user before those of the system, each time
/// under its name in the directory of cursors.
pub proof fn law_places_of_cursors(home: Seq<char>, theme: Seq<char>, name: Seq<char>, i: int)
    ensures
        places(Some(home), theme, name).len() == 4,
        places(None, theme, name).len() == 2,
        places(None, theme, name)[0] == places(Some(home), theme, name)[2],
        places(None, theme, name)[1] == places(Some(home), theme, name)[3],
        places(Some(home), theme, name)[0] == path_joined(
            path_joined(path_joined(path_joined(home, ".local/share/icons"@), theme), "cursors"@),
            name,
        ),
        places(Some(home), theme, name)[1] == path_joined(
            path_joined(path_joined(path_joined(home, ".icons"@), theme), "cursors"@),
            name,
        ),
{
}

/// The size of the cursor is the number that is set, and else that of the display.
pub proof fn law_size_of_the_cursor(n: u32)
    ensures
        size_asked(Some(decimal(n as nat))) == n,
        size_asked(None) == 64,
{
    lemma_decimal_is_read(n as nat, u32::MAX as nat);
}

/// The bar is rounded up to whole lines where the height of a line is known, and else is as
/// high as it is set.
pub proof fn law_bar_in_whole_lines(height: u32, line_h: u32)
    requires
        line_h > 0,
    ensures
        bar_of(height, None) == height,
        height <= bar_of(height, Some(line_h)) < height + line_h,
        bar_of(height, Some(line_h)) % (line_h as int) == 0,
{
    law_bar_is_rounded_up(height, line_h);
}

/// A connector that is in use shows its first mode, through the CRTC of its encoder.
pub proof fn law_connectors_in_use(v: Seq<ConnectorState>, n: int)
    requires
        0 < n <= v.len(),
        connectors_used(v, n - 1) is Some,
    ensures
        ({
            let before = connectors_used(v, n - 1)->0;
            let c = v[n - 1];
            let used = c.connected && c.modes@.len() > 0;
            &&& !used ==> connectors_used(v, n) == Some(before)
            &&& used && c.encoder_crtc is None ==> connectors_used(v, n) is None
            &&& used && c.encoder_crtc is Some ==> (connectors_used(v, n) matches Some(all)
                && all.len() == before.len() + 1 && all.last().connector == c.connector
                && Some(all.last().crtc) == c.encoder_crtc && all.last().mode_w
                == c.modes@[0].width && all.last().mode_h == c.modes@[0].height && (
            c.size_mm matches Some(mm) ==> all.last().width_mm == mm.0 && all.last().height_mm
                == mm.1))
        }),
{
}

} // verus!
