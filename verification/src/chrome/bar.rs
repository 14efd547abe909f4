//! The modules of the bar, what they draw and where they go.
//!
//! What a clock or a command shows is read by the caller, and handed in as
//! text. Lengths beyond the range of `u32` are held at its end.

use vstd::prelude::*;

use crate::chrome::draw::{clear, ops_view, push_op, DrawOp, OpView};
use crate::config::color::{color_from_value, color_of, hex_rgb, Color};
use crate::config::settings::{
    kind_of, module, module_view, modules_view, prop, BarConfig, BarModuleDef, BarModuleKind,
    Colors, Config, ModuleView, PropView,
};
use crate::config::value::{Unit, Value, ValueView};
use crate::integer::{decimal, push_decimal};
use crate::number::integer_of;
use crate::single::min_of;
use crate::text::{chars_of, same, strings_view};
use crate::twm::rect::{cap, capped, minus, Rect};
use crate::twm::state::{TwmSnapshot, WsSnap};

verus! {

// ── Properties ───────────────────────────────────────────────────────────────

pub open spec fn prop_color(props: Seq<PropView>, key: Seq<char>, otherwise: Color) -> Color {
    match prop(props, key) {
        Some(v) => match color_of(v) {
            Some(c) => c,
            None => otherwise,
        },
        None => otherwise,
    }
}

pub open spec fn prop_px(props: Seq<PropView>, key: Seq<char>, otherwise: u32) -> u32 {
    match prop(props, key) {
        Some(v) => match v.count(Unit::Px) {
            Some(n) => n,
            None => otherwise,
        },
        None => otherwise,
    }
}

pub open spec fn prop_text(props: Seq<PropView>, key: Seq<char>) -> Option<Seq<char>> {
    match prop(props, key) {
        Some(v) => v.text(),
        None => None,
    }
}

fn get_color(def: &BarModuleDef, key: &str, otherwise: Color) -> (r: Color)
    ensures
        r == prop_color(module_view(*def).props, key@, otherwise),
{
    match def.prop(key) {
        Some(v) => match color_from_value(v) {
            Some(c) => c,
            None => otherwise,
        },
        None => otherwise,
    }
}

fn get_px(def: &BarModuleDef, key: &str, otherwise: u32) -> (r: u32)
    ensures
        r == prop_px(module_view(*def).props, key@, otherwise),
{
    match def.prop(key) {
        Some(v) => match v.as_px() {
            Some(n) => n,
            None => otherwise,
        },
        None => otherwise,
    }
}

fn get_text(def: &BarModuleDef, key: &str) -> (r: Option<String>)
    ensures
        match r {
            Some(s) => prop_text(module_view(*def).props, key@) == Some(s@),
            None => prop_text(module_view(*def).props, key@) is None,
        },
{
    match def.prop(key) {
        Some(v) => match v.as_str() {
            Some(s) => Some(s.to_owned()),
            None => None,
        },
        None => None,
    }
}

// ── Workspaces ───────────────────────────────────────────────────────────────

#[derive(Debug, Clone, Copy, PartialEq, Eq, Structural)]
pub struct WorkspacesModule {
    pub active_fg: Color,
    pub active_bg: Color,
    pub inactive_fg: Color,
    pub inactive_bg: Color,
    pub occupied_fg: Color,
    pub padding: u32,
}

pub open spec fn default_workspaces(colors: Colors) -> WorkspacesModule {
    WorkspacesModule {
        active_fg: hex_rgb(0x11111b),
        active_bg: colors.bar_accent,
        inactive_fg: colors.bar_fg,
        inactive_bg: clear(),
        occupied_fg: colors.active_border,
        padding: 6,
    }
}

pub open spec fn workspaces_with(props: Seq<PropView>, colors: Colors) -> WorkspacesModule {
    let d = default_workspaces(colors);
    WorkspacesModule {
        active_fg: prop_color(props, "active_fg"@, d.active_fg),
        active_bg: prop_color(props, "active_bg"@, d.active_bg),
        inactive_fg: prop_color(props, "inactive_fg"@, d.inactive_fg),
        padding: prop_px(props, "padding"@, d.padding),
        ..d
    }
}

/// What stands on the button of a workspace: its number, counted from one,
/// between spaces.
pub open spec fn ws_label(index: usize) -> Seq<char> {
    " "@ + decimal(min_of(index + 1, u64::MAX as int) as nat) + " "@
}

pub fn label_of(index: usize) -> (r: String)
    ensures
        r@ == ws_label(index),
{
    let n: u64 = (index as u64).saturating_add(1);
    let mut r = " ".to_owned();
    push_decimal(&mut r, n);
    r.append(" ");
    r
}

/// Where text of the height `cell_h` starts to stand in the middle of `rect`.
pub open spec fn text_y(rect: Rect, cell_h: u32) -> u32 {
    cap(rect.y + minus(rect.h as int, cell_h as int) / 2)
}

fn middle_y(rect: Rect, cell_h: u32) -> (r: u32)
    ensures
        r == text_y(rect, cell_h),
{
    capped(rect.y as u128 + (rect.h.saturating_sub(cell_h) / 2) as u128)
}

/// The width of `n` characters.
pub open spec fn chars_w(n: nat, cell_w: u32) -> int {
    n as int * cell_w
}

fn width_of(n: usize, cell_w: u32) -> (r: u128)
    ensures
        r == chars_w(n as nat, cell_w),
        r <= 0xFFFF_FFFF_FFFF_FFFF * 0xFFFF_FFFF,
{
    assert(0 <= n * cell_w <= 0xFFFF_FFFF_FFFF_FFFF * 0xFFFF_FFFF) by (nonlinear_arith)
        requires
            0 <= n <= 0xFFFF_FFFF_FFFF_FFFF,
            0 <= cell_w <= 0xFFFF_FFFF,
    ;
    n as u128 * cell_w as u128
}

impl WorkspacesModule {
    /// The colors of a button.
    pub open spec fn button(self, active: bool, occupied: bool) -> (Color, Color) {
        if active {
            (self.active_fg, self.active_bg)
        } else if occupied {
            (self.occupied_fg, self.inactive_bg)
        } else {
            (self.inactive_fg, self.inactive_bg)
        }
    }

    /// The width of the button of a workspace.
    pub open spec fn button_w(self, index: usize, cell_w: u32) -> int {
        chars_w(ws_label(index).len(), cell_w) + 2 * self.padding
    }

    /// What the button of a workspace at `x` draws.
    pub open spec fn button_ops(
        self,
        rect: Rect,
        w: WsSnap,
        active_ws: usize,
        x: int,
        cell_w: u32,
        cell_h: u32,
    ) -> Seq<OpView> {
        let (fg, bg) = self.button(w.index == active_ws, w.occupied);
        let bw = self.button_w(w.index, cell_w);
        let text = OpView::Text {
            x: cap(x + self.padding),
            y: text_y(rect, cell_h),
            text: ws_label(w.index),
            fg,
            bg,
            bold: false,
            max_w: cap(chars_w(ws_label(w.index).len(), cell_w) + 2),
        };
        if bg.a > 0 {
            seq![
                OpView::Fill {
                    rect: Rect { x: cap(x), y: rect.y, w: cap(bw), h: rect.h },
                    color: bg,
                },
                text,
            ]
        } else {
            seq![text]
        }
    }

    /// What the buttons from index `i` on draw, the first of them at `x`, as
    /// far as they fit.
    pub open spec fn ops_from(
        self,
        rect: Rect,
        spaces: Seq<WsSnap>,
        active_ws: usize,
        i: int,
        x: int,
        cell_w: u32,
        cell_h: u32,
    ) -> Seq<OpView>
        decreases spaces.len() - i,
    {
        if i >= spaces.len() || i < 0 {
            Seq::empty()
        } else {
            let bw = self.button_w(spaces[i].index, cell_w);
            if x + bw > rect.x + rect.w {
                Seq::empty()
            } else {
                self.button_ops(rect, spaces[i], active_ws, x, cell_w, cell_h) + self.ops_from(
                    rect,
                    spaces,
                    active_ws,
                    i + 1,
                    x + bw,
                    cell_w,
                    cell_h,
                )
            }
        }
    }

    pub fn new(colors: &Colors) -> (r: Self)
        ensures
            r == default_workspaces(*colors),
    {
        WorkspacesModule {
            active_fg: Color::hex(0x11111b),
            active_bg: colors.bar_accent,
            inactive_fg: colors.bar_fg,
            inactive_bg: Color::rgba(0, 0, 0, 0),
            occupied_fg: colors.active_border,
            padding: 6,
        }
    }

    pub fn from_def(def: &BarModuleDef, colors: &Colors) -> (r: Self)
        ensures
            r == workspaces_with(module_view(*def).props, *colors),
    {
        let m = Self::new(colors);
        WorkspacesModule {
            active_fg: get_color(def, "active_fg", m.active_fg),
            active_bg: get_color(def, "active_bg", m.active_bg),
            inactive_fg: get_color(def, "inactive_fg", m.inactive_fg),
            padding: get_px(def, "padding", m.padding),
            ..m
        }
    }

    /// Room for nine buttons.
    pub fn min_width(&self, cell_w: u32) -> (r: u32)
        ensures
            r == cap(9 * (cell_w + 2 * self.padding)),
    {
        capped(9 * (cell_w as u128 + 2 * self.padding as u128))
    }

    /// Draws a button for each workspace, as far as they fit.
    pub fn draw(
        &self,
        out: &mut Vec<DrawOp>,
        rect: Rect,
        snap: &TwmSnapshot,
        cell_w: u32,
        cell_h: u32,
    )
        ensures
            ops_view(final(out)@) == ops_view(old(out)@) + self.ops_from(
                rect,
                snap.workspaces@,
                snap.active_ws,
                0,
                rect.x as int,
                cell_w,
                cell_h,
            ),
    {
        let ghost all = self.ops_from(
            rect,
            snap.workspaces@,
            snap.active_ws,
            0,
            rect.x as int,
            cell_w,
            cell_h,
        );
        let mut x: u128 = rect.x as u128;
        let right: u128 = rect.x as u128 + rect.w as u128;
        let y: u32 = middle_y(rect, cell_h);
        let mut i: usize = 0;
        let ghost mut done: Seq<OpView> = Seq::empty();
        assert(all =~= done + all);
        assert(ops_view(out@) =~= ops_view(old(out)@) + done);
        while i < snap.workspaces.len()
            invariant_except_break
                all == done + self.ops_from(
                    rect,
                    snap.workspaces@,
                    snap.active_ws,
                    i as int,
                    x as int,
                    cell_w,
                    cell_h,
                ),
            invariant
                i <= snap.workspaces@.len(),
                ops_view(out@) == ops_view(old(out)@) + done,
                x <= right || i == 0,
                x <= 0x2_0000_0000,
                right == rect.x + rect.w,
                y == text_y(rect, cell_h),
            ensures
                ops_view(out@) == ops_view(old(out)@) + all,
            decreases snap.workspaces@.len() - i,
        {
            let w = &snap.workspaces[i];
            let label = label_of(w.index);
            let n: usize = chars_of(label.as_str()).len();
            let lw: u128 = width_of(n, cell_w);
            let bw: u128 = lw + 2 * self.padding as u128;
            if x + bw > right {
                assert(done + Seq::<OpView>::empty() =~= done);
                break;
            }
            let (fg, bg) = if w.index == snap.active_ws {
                (self.active_fg, self.active_bg)
            } else if w.occupied {
                (self.occupied_fg, self.inactive_bg)
            } else {
                (self.inactive_fg, self.inactive_bg)
            };
            let ghost before = ops_view(out@);
            let ghost rest = self.ops_from(
                rect,
                snap.workspaces@,
                snap.active_ws,
                i + 1,
                x + bw,
                cell_w,
                cell_h,
            );
            let ghost ops = self.button_ops(
                rect,
                snap.workspaces@[i as int],
                snap.active_ws,
                x as int,
                cell_w,
                cell_h,
            );
            if bg.a > 0 {
                push_op(
                    out,
                    DrawOp::Fill {
                        rect: Rect::new(capped(x), rect.y, capped(bw), rect.h),
                        color: bg,
                    },
                );
            }
            push_op(
                out,
                DrawOp::Text {
                    x: capped(x + self.padding as u128),
                    y,
                    text: label,
                    fg,
                    bg,
                    bold: false,
                    max_w: capped(lw + 2),
                },
            );
            proof {
                assert(ops_view(out@) =~= before + ops);
                assert(done + (ops + rest) =~= (done + ops) + rest);
                assert((ops_view(old(out)@) + done) + ops =~= ops_view(old(out)@) + (done + ops));
                done = done + ops;
            }
            x = x + bw;
            i += 1;
            if i == snap.workspaces.len() {
                assert(done + rest =~= done);
            }
        }
    }
}

// ── Clock ────────────────────────────────────────────────────────────────────

#[derive(Debug)]
pub struct ClockModule {
    pub format: String,
    pub fg: Color,
    pub bg: Color,
}

impl ClockModule {
    pub open spec fn is_default(self, colors: Colors) -> bool {
        &&& self.format@ == "%a %b %-e  %H:%M"@
        &&& self.fg == colors.bar_fg
        &&& self.bg == clear()
    }

    pub open spec fn is_with(self, props: Seq<PropView>, colors: Colors) -> bool {
        &&& self.format@ == match prop_text(props, "format"@) {
            Some(s) => s,
            None => "%a %b %-e  %H:%M"@,
        }
        &&& self.fg == prop_color(props, "fg"@, colors.bar_fg)
        &&& self.bg == clear()
    }

    pub fn new(colors: &Colors) -> (r: Self)
        ensures
            r.is_default(*colors),
    {
        ClockModule {
            format: "%a %b %-e  %H:%M".to_owned(),
            fg: colors.bar_fg,
            bg: Color::rgba(0, 0, 0, 0),
        }
    }

    pub fn from_def(def: &BarModuleDef, colors: &Colors) -> (r: Self)
        ensures
            r.is_with(module_view(*def).props, *colors),
    {
        ClockModule {
            format: match get_text(def, "format") {
                Some(s) => s,
                None => "%a %b %-e  %H:%M".to_owned(),
            },
            fg: get_color(def, "fg", colors.bar_fg),
            bg: Color::rgba(0, 0, 0, 0),
        }
    }

    /// Room for the text and two characters more.
    pub fn min_width(&self, text: &str, cell_w: u32) -> (r: u32)
        ensures
            r == cap(chars_w(text@.len() + 2, cell_w)),
    {
        let n: usize = chars_of(text).len();
        let w: u128 = width_of(n, cell_w);
        assert((text@.len() + 2) * cell_w == text@.len() * cell_w + 2 * cell_w)
            by (nonlinear_arith);
        capped(w + 2 * cell_w as u128)
    }

    pub open spec fn ops(self, rect: Rect, text: Seq<char>, cell_w: u32, cell_h: u32) -> OpView {
        OpView::Text {
            x: cap(rect.x + minus(rect.w as int, chars_w(text.len(), cell_w)) / 2),
            y: text_y(rect, cell_h),
            text,
            fg: self.fg,
            bg: self.bg,
            bold: false,
            max_w: rect.w,
        }
    }

    /// Draws the text in the middle.
    pub fn draw(&self, out: &mut Vec<DrawOp>, rect: Rect, text: &str, cell_w: u32, cell_h: u32)
        ensures
            ops_view(final(out)@) == ops_view(old(out)@).push(
                self.ops(rect, text@, cell_w, cell_h),
            ),
    {
        let n: usize = chars_of(text).len();
        push_op(
            out,
            DrawOp::Text {
                x: capped(rect.x as u128 + left_of(rect.w, width_of(n, cell_w)) / 2),
                y: middle_y(rect, cell_h),
                text: text.to_owned(),
                fg: self.fg,
                bg: self.bg,
                bold: false,
                max_w: rect.w,
            },
        );
    }
}

/// What `used` leaves of `len`.
fn left_of(len: u32, used: u128) -> (r: u128)
    ensures
        r == minus(len as int, used as int),
        r <= len,
{
    if len as u128 >= used {
        len as u128 - used
    } else {
        0
    }
}

// ── Layout ───────────────────────────────────────────────────────────────────

#[derive(Debug, Clone, Copy, PartialEq, Eq, Structural)]
pub struct LayoutModule {
    pub fg: Color,
    pub bg: Color,
    pub padding: u32,
}

pub open spec fn layout_with(props: Seq<PropView>, colors: Colors) -> LayoutModule {
    LayoutModule {
        fg: prop_color(props, "fg"@, colors.bar_accent),
        bg: clear(),
        padding: prop_px(props, "padding"@, 8),
    }
}

/// The layout that a snapshot shows.
pub open spec fn layout_shown(snap: TwmSnapshot) -> Seq<char> {
    if snap.active_ws < snap.workspaces@.len() {
        snap.workspaces@[snap.active_ws as int].layout@
    } else {
        "BSP"@
    }
}

pub fn layout_name(snap: &TwmSnapshot) -> (r: &'static str)
    ensures
        r@ == layout_shown(*snap),
{
    if snap.active_ws < snap.workspaces.len() {
        snap.workspaces[snap.active_ws].layout
    } else {
        "BSP"
    }
}

impl LayoutModule {
    pub fn new(colors: &Colors) -> (r: Self)
        ensures
            r == (LayoutModule { fg: colors.bar_accent, bg: clear(), padding: 8 }),
    {
        LayoutModule { fg: colors.bar_accent, bg: Color::rgba(0, 0, 0, 0), padding: 8 }
    }

    pub fn from_def(def: &BarModuleDef, colors: &Colors) -> (r: Self)
        ensures
            r == layout_with(module_view(*def).props, *colors),
    {
        LayoutModule {
            fg: get_color(def, "fg", colors.bar_accent),
            bg: Color::rgba(0, 0, 0, 0),
            padding: get_px(def, "padding", 8),
        }
    }

    /// Room for eight characters.
    pub fn min_width(&self, cell_w: u32) -> (r: u32)
        ensures
            r == cap(8 * cell_w + 2 * self.padding),
    {
        capped(8 * cell_w as u128 + 2 * self.padding as u128)
    }

    pub open spec fn ops(self, rect: Rect, snap: TwmSnapshot, cell_w: u32, cell_h: u32) -> OpView {
        OpView::Text {
            x: cap(rect.x + self.padding),
            y: text_y(rect, cell_h),
            text: layout_shown(snap),
            fg: self.fg,
            bg: self.bg,
            bold: true,
            max_w: cap(chars_w(layout_shown(snap).len(), cell_w) + 2),
        }
    }

    /// Draws the name of the layout.
    pub fn draw(
        &self,
        out: &mut Vec<DrawOp>,
        rect: Rect,
        snap: &TwmSnapshot,
        cell_w: u32,
        cell_h: u32,
    )
        ensures
            ops_view(final(out)@) == ops_view(old(out)@).push(
                self.ops(rect, *snap, cell_w, cell_h),
            ),
    {
        let label = layout_name(snap);
        let n: usize = chars_of(label).len();
        push_op(
            out,
            DrawOp::Text {
                x: capped(rect.x as u128 + self.padding as u128),
                y: middle_y(rect, cell_h),
                text: label.to_owned(),
                fg: self.fg,
                bg: self.bg,
                bold: true,
                max_w: capped(width_of(n, cell_w) + 2),
            },
        );
    }
}

// ── Custom ───────────────────────────────────────────────────────────────────

#[derive(Debug, Clone, Copy, PartialEq, Eq, Structural)]
pub enum Align {
    Left,
    Center,
    Right,
}

impl Default for Align {
    fn default() -> (r: Self)
        ensures
            r == Align::Center,
    {
        Align::Center
    }
}

#[derive(Debug)]
pub struct CustomModule {
    /// What the module shows.
    pub static_text: Option<String>,
    /// The command whose output it shows where it has no text of its own.
    pub command: Option<String>,
    /// How often the command runs.
    pub interval_ms: u64,
    pub fg: Color,
    pub bg: Color,
    pub padding: u32,
    pub align: Align,
}

pub open spec fn prop_align(props: Seq<PropView>) -> Align {
    match prop(props, "align"@) {
        Some(v) => if v.text() == Some("left"@) {
            Align::Left
        } else if v.text() == Some("right"@) {
            Align::Right
        } else {
            Align::Center
        },
        None => Align::Center,
    }
}

/// An interval in milliseconds, five seconds where it is not given as one.
pub open spec fn prop_interval(props: Seq<PropView>) -> int {
    match prop(props, "interval"@) {
        Some(ValueView::Dimension(x, Unit::Ms)) => integer_of(x, 0, u64::MAX as int),
        _ => 5000,
    }
}

pub open spec fn opt_text(s: Option<String>) -> Option<Seq<char>> {
    match s {
        Some(s) => Some(s@),
        None => None,
    }
}

impl CustomModule {
    pub open spec fn is_with(self, props: Seq<PropView>, colors: Colors) -> bool {
        &&& opt_text(self.static_text) == prop_text(props, "text"@)
        &&& opt_text(self.command) == prop_text(props, "command"@)
        &&& self.interval_ms == prop_interval(props)
        &&& self.fg == prop_color(props, "fg"@, colors.bar_fg)
        &&& self.bg == prop_color(props, "bg"@, clear())
        &&& self.padding == prop_px(props, "padding"@, 8)
        &&& self.align == prop_align(props)
    }

    pub fn from_def(def: &BarModuleDef, colors: &Colors) -> (r: Self)
        ensures
            r.is_with(module_view(*def).props, *colors),
    {
        let interval_ms: u64 = match def.prop("interval") {
            Some(v) => match v {
                Value::Dimension(x, u) => if *u == Unit::Ms {
                    x.to_u64()
                } else {
                    5000
                },
                _ => 5000,
            },
            None => 5000,
        };
        let align = match def.prop("align") {
            Some(v) => match v.as_str() {
                Some(s) => if same(s, "left") {
                    Align::Left
                } else if same(s, "right") {
                    Align::Right
                } else {
                    Align::Center
                },
                None => Align::Center,
            },
            None => Align::Center,
        };
        CustomModule {
            static_text: get_text(def, "text"),
            command: get_text(def, "command"),
            interval_ms,
            fg: get_color(def, "fg", colors.bar_fg),
            bg: get_color(def, "bg", Color::rgba(0, 0, 0, 0)),
            padding: get_px(def, "padding", 8),
            align,
        }
    }

    /// What the module shows: its own text, or else the last `output` of its
    /// command, or nothing.
    pub fn current_text(&self, output: &str) -> (r: String)
        ensures
            r@ == match self.static_text {
                Some(t) => t@,
                None => if self.command is Some {
                    output@
                } else {
                    Seq::empty()
                },
            },
    {
        match &self.static_text {
            Some(t) => t.clone(),
            None => if self.command.is_some() {
                output.to_owned()
            } else {
                let empty = String::new();
                assert(empty@ =~= Seq::<char>::empty());
                empty
            },
        }
    }

    /// Room for the text.
    pub fn min_width(&self, text: &str, cell_w: u32) -> (r: u32)
        ensures
            r == cap(chars_w(text@.len(), cell_w) + 2 * self.padding),
    {
        let n: usize = chars_of(text).len();
        capped(width_of(n, cell_w) + 2 * self.padding as u128)
    }

    pub open spec fn text_x(self, rect: Rect, tw: int) -> u32 {
        match self.align {
            Align::Left => cap(rect.x + self.padding),
            Align::Center => cap(rect.x + minus(rect.w as int, tw) / 2),
            Align::Right => cap(rect.x + minus(rect.w as int, tw + self.padding)),
        }
    }

    pub open spec fn ops(self, rect: Rect, text: Seq<char>, cell_w: u32, cell_h: u32) -> Seq<OpView> {
        let tw = chars_w(text.len(), cell_w);
        let t = OpView::Text {
            x: self.text_x(rect, tw),
            y: text_y(rect, cell_h),
            text,
            fg: self.fg,
            bg: self.bg,
            bold: false,
            max_w: cap(tw + 4),
        };
        if text.len() == 0 {
            Seq::empty()
        } else if self.bg.a > 0 {
            seq![OpView::Fill { rect, color: self.bg }, t]
        } else {
            seq![t]
        }
    }

    /// Draws the text, aligned as the module asks.
    pub fn draw(&self, out: &mut Vec<DrawOp>, rect: Rect, text: &str, cell_w: u32, cell_h: u32)
        ensures
            ops_view(final(out)@) == ops_view(old(out)@) + self.ops(rect, text@, cell_w, cell_h),
    {
        let n: usize = chars_of(text).len();
        if n == 0 {
            assert(ops_view(out@) =~= ops_view(old(out)@) + Seq::<OpView>::empty());
            return;
        }
        let tw: u128 = width_of(n, cell_w);
        let x: u32 = match self.align {
            Align::Left => capped(rect.x as u128 + self.padding as u128),
            Align::Center => capped(rect.x as u128 + left_of(rect.w, tw) / 2),
            Align::Right => capped(rect.x as u128 + left_of(rect.w, tw + self.padding as u128)),
        };
        if self.bg.a > 0 {
            push_op(out, DrawOp::Fill { rect, color: self.bg });
        }
        push_op(
            out,
            DrawOp::Text {
                x,
                y: middle_y(rect, cell_h),
                text: text.to_owned(),
                fg: self.fg,
                bg: self.bg,
                bold: false,
                max_w: capped(tw + 4),
            },
        );
        assert(ops_view(out@) =~= ops_view(old(out)@) + self.ops(rect, text@, cell_w, cell_h));
    }
}

// ── A module of any kind ─────────────────────────────────────────────────────

#[derive(Debug)]
pub enum BarModule {
    Workspaces(WorkspacesModule),
    Clock(ClockModule),
    Layout(LayoutModule),
    Custom(CustomModule),
}

impl BarModule {
    /// How wide the module is when it shows `text`.
    pub open spec fn width(self, text: Seq<char>, cell_w: u32) -> u32 {
        match self {
            BarModule::Workspaces(m) => cap(9 * (cell_w + 2 * m.padding)),
            BarModule::Clock(_) => cap(chars_w(text.len() + 2, cell_w)),
            BarModule::Layout(m) => cap(8 * cell_w + 2 * m.padding),
            BarModule::Custom(m) => cap(chars_w(text.len(), cell_w) + 2 * m.padding),
        }
    }

    /// What the module draws when it shows `text`.
    pub open spec fn ops(
        self,
        rect: Rect,
        snap: TwmSnapshot,
        text: Seq<char>,
        cell_w: u32,
        cell_h: u32,
    ) -> Seq<OpView> {
        match self {
            BarModule::Workspaces(m) => m.ops_from(
                rect,
                snap.workspaces@,
                snap.active_ws,
                0,
                rect.x as int,
                cell_w,
                cell_h,
            ),
            BarModule::Clock(m) => seq![m.ops(rect, text, cell_w, cell_h)],
            BarModule::Layout(m) => seq![m.ops(rect, snap, cell_w, cell_h)],
            BarModule::Custom(m) => m.ops(rect, text, cell_w, cell_h),
        }
    }

    /// Whether `self` is the module `name`, which `def` defines if anything
    /// does. What is to be a tray shows a clock.
    pub open spec fn is_module(self, name: Seq<char>, def: Option<ModuleView>, colors: Colors) -> bool {
        let kind = match def {
            Some(d) => d.kind,
            None => kind_of(name),
        };
        let props = match def {
            Some(d) => d.props,
            None => Seq::empty(),
        };
        match kind {
            BarModuleKind::Workspaces => self matches BarModule::Workspaces(m) && m
                == workspaces_with(props, colors),
            BarModuleKind::Clock => self matches BarModule::Clock(m) && m.is_with(props, colors),
            BarModuleKind::Layout => self matches BarModule::Layout(m) && m == layout_with(
                props,
                colors,
            ),
            BarModuleKind::Systray => self matches BarModule::Clock(m) && m.is_default(colors),
            BarModuleKind::Custom => self matches BarModule::Custom(m) && m.is_with(props, colors),
        }
    }

    pub fn min_width(&self, text: &str, cell_w: u32) -> (r: u32)
        ensures
            r == self.width(text@, cell_w),
    {
        match self {
            BarModule::Workspaces(m) => m.min_width(cell_w),
            BarModule::Clock(m) => m.min_width(text, cell_w),
            BarModule::Layout(m) => m.min_width(cell_w),
            BarModule::Custom(m) => m.min_width(text, cell_w),
        }
    }

    pub fn draw(
        &self,
        out: &mut Vec<DrawOp>,
        rect: Rect,
        snap: &TwmSnapshot,
        text: &str,
        cell_w: u32,
        cell_h: u32,
    )
        ensures
            ops_view(final(out)@) == ops_view(old(out)@) + self.ops(
                rect,
                *snap,
                text@,
                cell_w,
                cell_h,
            ),
    {
        match self {
            BarModule::Workspaces(m) => m.draw(out, rect, snap, cell_w, cell_h),
            BarModule::Clock(m) => {
                m.draw(out, rect, text, cell_w, cell_h);
                assert(ops_view(out@) =~= ops_view(old(out)@) + seq![
                    m.ops(rect, text@, cell_w, cell_h),
                ]);
            },
            BarModule::Layout(m) => {
                m.draw(out, rect, snap, cell_w, cell_h);
                assert(ops_view(out@) =~= ops_view(old(out)@) + seq![
                    m.ops(rect, *snap, cell_w, cell_h),
                ]);
            },
            BarModule::Custom(m) => m.draw(out, rect, text, cell_w, cell_h),
        }
    }
}

/// Builds the module `name` from its definition, if it has one.
pub fn build_module(name: &str, def: Option<&BarModuleDef>, colors: &Colors) -> (r: BarModule)
    ensures
        r.is_module(
            name@,
            match def {
                Some(d) => Some(module_view(*d)),
                None => None,
            },
            *colors,
        ),
{
    match def {
        Some(d) => match d.kind {
            BarModuleKind::Workspaces => BarModule::Workspaces(
                WorkspacesModule::from_def(d, colors),
            ),
            BarModuleKind::Clock => BarModule::Clock(ClockModule::from_def(d, colors)),
            BarModuleKind::Layout => BarModule::Layout(LayoutModule::from_def(d, colors)),
            BarModuleKind::Systray => BarModule::Clock(ClockModule::new(colors)),
            BarModuleKind::Custom => BarModule::Custom(CustomModule::from_def(d, colors)),
        },
        None => match BarModuleKind::from_name(name) {
            BarModuleKind::Workspaces => BarModule::Workspaces(WorkspacesModule::new(colors)),
            BarModuleKind::Clock => BarModule::Clock(ClockModule::new(colors)),
            BarModuleKind::Layout => BarModule::Layout(LayoutModule::new(colors)),
            BarModuleKind::Systray => BarModule::Clock(ClockModule::new(colors)),
            BarModuleKind::Custom => {
                let d = BarModuleDef {
                    name: name.to_owned(),
                    kind: BarModuleKind::Custom,
                    props: Vec::new(),
                };
                assert(module_view(d).props =~= Seq::<PropView>::empty());
                BarModule::Custom(CustomModule::from_def(&d, colors))
            },
        },
    }
}

// ── The bar ──────────────────────────────────────────────────────────────────

#[derive(Debug)]
pub struct BarModuleSet {
    pub left: Vec<BarModule>,
    pub center: Vec<BarModule>,
    pub right: Vec<BarModule>,
}

/// Whether `v` are the modules that `names` name.
pub open spec fn are_modules(
    v: Seq<BarModule>,
    names: Seq<Seq<char>>,
    defs: Seq<ModuleView>,
    colors: Colors,
) -> bool {
    &&& v.len() == names.len()
    &&& forall|i: int|
        0 <= i < v.len() ==> (#[trigger] v[i]).is_module(names[i], module(defs, names[i]), colors)
}

/// How wide the modules are together when they show `texts`.
pub open spec fn total_width(v: Seq<BarModule>, texts: Seq<Seq<char>>, cell_w: u32) -> int
    decreases v.len(),
{
    if v.len() == 0 {
        0
    } else {
        total_width(v.drop_last(), texts, cell_w) + v.last().width(texts[v.len() - 1], cell_w)
    }
}

/// What the first `n` modules draw, one after the other from `x` on.
pub open spec fn row_ops(
    v: Seq<BarModule>,
    texts: Seq<Seq<char>>,
    n: int,
    x: int,
    bar: Rect,
    snap: TwmSnapshot,
    cell_w: u32,
    cell_h: u32,
) -> Seq<OpView>
    decreases n,
{
    if n <= 0 {
        Seq::empty()
    } else {
        let at = x + total_width(v.take(n - 1), texts, cell_w);
        let w = v[n - 1].width(texts[n - 1], cell_w);
        row_ops(v, texts, n - 1, x, bar, snap, cell_w, cell_h) + v[n - 1].ops(
            Rect { x: cap(at), y: bar.y, w, h: bar.h },
            snap,
            texts[n - 1],
            cell_w,
            cell_h,
        )
    }
}

/// The texts that the modules of the bar show.
pub struct BarTexts {
    pub left: Vec<String>,
    pub center: Vec<String>,
    pub right: Vec<String>,
}

fn build_modules(names: &Vec<String>, cfg: &Config) -> (r: Vec<BarModule>)
    ensures
        are_modules(r@, strings_view(names@), modules_view(cfg.bar_modules@), cfg.colors),
{
    let mut r: Vec<BarModule> = Vec::new();
    let mut i: usize = 0;
    while i < names.len()
        invariant
            i <= names@.len(),
            r@.len() == i,
            forall|k: int|
                0 <= k < i ==> (#[trigger] r@[k]).is_module(
                    strings_view(names@)[k],
                    module(modules_view(cfg.bar_modules@), strings_view(names@)[k]),
                    cfg.colors,
                ),
        decreases names@.len() - i,
    {
        let name = names[i].as_str();
        let m = build_module(name, cfg.bar_module(name), &cfg.colors);
        assert(strings_view(names@)[i as int] == name@);
        r.push(m);
        i += 1;
    }
    r
}

fn sum_width(v: &Vec<BarModule>, texts: &Vec<String>, cell_w: u32) -> (r: u128)
    requires
        v@.len() == texts@.len(),
    ensures
        r == total_width(v@, strings_view(texts@), cell_w),
{
    let ghost tv = strings_view(texts@);
    let mut sum: u128 = 0;
    let mut i: usize = 0;
    while i < v.len()
        invariant
            i <= v@.len(),
            v@.len() == texts@.len(),
            tv == strings_view(texts@),
            sum == total_width(v@.take(i as int), tv, cell_w),
            sum <= i * 0xFFFF_FFFF,
        decreases v@.len() - i,
    {
        let w: u32 = v[i].min_width(texts[i].as_str(), cell_w);
        assert(tv[i as int] == texts@[i as int]@);
        assert(i * 0xFFFF_FFFF <= 0xFFFF_FFFF_FFFF_FFFF * 0xFFFF_FFFF) by (nonlinear_arith)
            requires
                i <= 0xFFFF_FFFF_FFFF_FFFF,
        ;
        sum = sum + w as u128;
        i += 1;
        assert(v@.take(i as int).drop_last() =~= v@.take(i - 1));
        assert(v@.take(i as int).last() == v@[i - 1]);
    }
    assert(v@.take(i as int) =~= v@);
    sum
}

fn draw_row(
    out: &mut Vec<DrawOp>,
    v: &Vec<BarModule>,
    texts: &Vec<String>,
    from: u128,
    bar: Rect,
    snap: &TwmSnapshot,
    cell_w: u32,
    cell_h: u32,
)
    requires
        v@.len() == texts@.len(),
        from <= 0x2_0000_0000,
    ensures
        ops_view(final(out)@) == ops_view(old(out)@) + row_ops(
            v@,
            strings_view(texts@),
            v@.len() as int,
            from as int,
            bar,
            *snap,
            cell_w,
            cell_h,
        ),
{
    let ghost tv = strings_view(texts@);
    let mut x: u128 = from;
    let mut i: usize = 0;
    assert(ops_view(out@) =~= ops_view(old(out)@) + Seq::<OpView>::empty());
    while i < v.len()
        invariant
            i <= v@.len(),
            v@.len() == texts@.len(),
            tv == strings_view(texts@),
            from <= 0x2_0000_0000,
            x == from + total_width(v@.take(i as int), tv, cell_w),
            x <= from + i * 0xFFFF_FFFF,
            ops_view(out@) == ops_view(old(out)@) + row_ops(
                v@,
                tv,
                i as int,
                from as int,
                bar,
                *snap,
                cell_w,
                cell_h,
            ),
        decreases v@.len() - i,
    {
        let text = texts[i].as_str();
        assert(tv[i as int] == text@);
        let w: u32 = v[i].min_width(text, cell_w);
        let rect = Rect::new(capped(x), bar.y, w, bar.h);
        let ghost before = ops_view(out@);
        v[i].draw(out, rect, snap, text, cell_w, cell_h);
        proof {
            let ops = v@[i as int].ops(rect, *snap, text@, cell_w, cell_h);
            let done = row_ops(v@, tv, i as int, from as int, bar, *snap, cell_w, cell_h);
            assert((ops_view(old(out)@) + done) + ops =~= ops_view(old(out)@) + (done + ops));
            assert(i * 0xFFFF_FFFF <= 0xFFFF_FFFF_FFFF_FFFF * 0xFFFF_FFFF) by (nonlinear_arith)
                requires
                    i <= 0xFFFF_FFFF_FFFF_FFFF,
            ;
        }
        x = x + w as u128;
        i += 1;
        assert(v@.take(i as int).drop_last() =~= v@.take(i - 1));
        assert(v@.take(i as int).last() == v@[i - 1]);
    }
}

impl BarModuleSet {
    pub fn from_config(cfg: &Config) -> (r: Self)
        ensures
            are_modules(
                r.left@,
                strings_view(cfg.bar.modules_left@),
                modules_view(cfg.bar_modules@),
                cfg.colors,
            ),
            are_modules(
                r.center@,
                strings_view(cfg.bar.modules_center@),
                modules_view(cfg.bar_modules@),
                cfg.colors,
            ),
            are_modules(
                r.right@,
                strings_view(cfg.bar.modules_right@),
                modules_view(cfg.bar_modules@),
                cfg.colors,
            ),
    {
        BarModuleSet {
            left: build_modules(&cfg.bar.modules_left, cfg),
            center: build_modules(&cfg.bar.modules_center, cfg),
            right: build_modules(&cfg.bar.modules_right, cfg),
        }
    }

    /// What the bar draws: its ground and upper line, then the modules on the
    /// left, in the middle and on the right.
    pub open spec fn ops(
        self,
        texts: BarTexts,
        bar: Rect,
        snap: TwmSnapshot,
        line: Color,
        ground: Color,
        cell_w: u32,
        cell_h: u32,
    ) -> Seq<OpView> {
        let l = strings_view(texts.left@);
        let c = strings_view(texts.center@);
        let r = strings_view(texts.right@);
        let cx = bar.x + minus(bar.w as int, total_width(self.center@, c, cell_w)) / 2;
        let rx = bar.x + minus(bar.w as int, total_width(self.right@, r, cell_w));
        seq![
            OpView::Fill { rect: bar, color: ground },
            OpView::Line { x: bar.x, y: bar.y, w: bar.w, color: line },
        ] + row_ops(self.left@, l, self.left@.len() as int, bar.x as int, bar, snap, cell_w, cell_h)
            + row_ops(self.center@, c, self.center@.len() as int, cx, bar, snap, cell_w, cell_h)
            + row_ops(self.right@, r, self.right@.len() as int, rx, bar, snap, cell_w, cell_h)
    }

    pub fn draw(
        &self,
        texts: &BarTexts,
        bar_rect: Rect,
        snap: &TwmSnapshot,
        colors: &Colors,
        bar_cfg: &BarConfig,
        cell_w: u32,
        cell_h: u32,
    ) -> (out: Vec<DrawOp>)
        requires
            texts.left@.len() == self.left@.len(),
            texts.center@.len() == self.center@.len(),
            texts.right@.len() == self.right@.len(),
        ensures
            ops_view(out@) == self.ops(
                *texts,
                bar_rect,
                *snap,
                colors.inactive_border,
                bar_cfg.style.bg,
                cell_w,
                cell_h,
            ),
    {
        let mut out: Vec<DrawOp> = Vec::new();
        push_op(&mut out, DrawOp::Fill { rect: bar_rect, color: bar_cfg.style.bg });
        push_op(
            &mut out,
            DrawOp::Line {
                x: bar_rect.x,
                y: bar_rect.y,
                w: bar_rect.w,
                color: colors.inactive_border,
            },
        );
        let ghost base = ops_view(out@);
        assert(base =~= seq![
            OpView::Fill { rect: bar_rect, color: bar_cfg.style.bg },
            OpView::Line {
                x: bar_rect.x,
                y: bar_rect.y,
                w: bar_rect.w,
                color: colors.inactive_border,
            },
        ]);
        let right_w: u128 = sum_width(&self.right, &texts.right, cell_w);
        let center_w: u128 = sum_width(&self.center, &texts.center, cell_w);
        let left_x: u128 = bar_rect.x as u128;
        draw_row(&mut out, &self.left, &texts.left, left_x, bar_rect, snap, cell_w, cell_h);
        let center_x: u128 = bar_rect.x as u128 + left_of(bar_rect.w, center_w) / 2;
        draw_row(&mut out, &self.center, &texts.center, center_x, bar_rect, snap, cell_w, cell_h);
        let right_x: u128 = bar_rect.x as u128 + left_of(bar_rect.w, right_w);
        draw_row(&mut out, &self.right, &texts.right, right_x, bar_rect, snap, cell_w, cell_h);
        out
    }
}

} // verus!
