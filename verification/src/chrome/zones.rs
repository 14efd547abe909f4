//! The zones of the bar as lists of entries.

use vstd::prelude::*;

use crate::chrome::bar::{layout_name, layout_shown, opt_text, prop_text};
use crate::config::color::Color;
use crate::config::settings::{
    kind_of, module, modules_view, BarModuleKind, BarStyle, Colors, Config, ModuleView,
};
use crate::integer::{decimal, push_decimal};
use crate::text::{same, strings_view};
use crate::twm::state::{TwmSnapshot, WsSnap};

verus! {

/// The colors of the chrome.
#[derive(Debug, Clone, Copy, PartialEq, Eq, Structural)]
pub struct Theme {
    pub active_border: Color,
    pub inactive_border: Color,
    pub active_title: Color,
    pub inactive_title: Color,
    pub pane_bg: Color,
    pub bar_bg: Color,
    pub bar_fg: Color,
    pub bar_accent: Color,
    pub bar_dim: Color,
    pub ws_active_fg: Color,
    pub ws_active_bg: Color,
}

/// The theme: the colors of panes, and those that the bar has of its own.
pub open spec fn theme_of(c: Colors, b: BarStyle) -> Theme {
    Theme {
        active_border: c.active_border,
        inactive_border: c.inactive_border,
        active_title: c.active_title,
        inactive_title: c.inactive_title,
        pane_bg: c.pane_bg,
        bar_bg: b.bg,
        bar_fg: b.fg,
        bar_accent: b.accent,
        bar_dim: b.dim,
        ws_active_fg: b.active_ws_fg,
        ws_active_bg: b.active_ws_bg,
    }
}

pub fn build_theme(cfg: &Config) -> (r: Theme)
    ensures
        r == theme_of(cfg.colors, cfg.bar.style),
{
    let c = &cfg.colors;
    let b = &cfg.bar.style;
    Theme {
        active_border: c.active_border,
        inactive_border: c.inactive_border,
        active_title: c.active_title,
        inactive_title: c.inactive_title,
        pane_bg: c.pane_bg,
        bar_bg: b.bg,
        bar_fg: b.fg,
        bar_accent: b.accent,
        bar_dim: b.dim,
        ws_active_fg: b.active_ws_fg,
        ws_active_bg: b.active_ws_bg,
    }
}

/// An entry of a zone.
#[derive(Debug)]
pub enum BarItem {
    /// Bold text on a ground of its own.
    Pill { text: String, fg: Color, bg: Color, padding: u32 },
    Text { text: String, fg: Color, padding: Option<u32> },
    Accent { text: String, color: Color },
}

/// What a [`BarItem`] holds.
pub enum ItemView {
    Pill { text: Seq<char>, fg: Color, bg: Color, padding: u32 },
    Text { text: Seq<char>, fg: Color, padding: Option<u32> },
    Accent { text: Seq<char>, color: Color },
}

impl View for BarItem {
    type V = ItemView;

    open spec fn view(&self) -> ItemView {
        match *self {
            BarItem::Pill { text, fg, bg, padding } => ItemView::Pill {
                text: text@,
                fg,
                bg,
                padding,
            },
            BarItem::Text { text, fg, padding } => ItemView::Text { text: text@, fg, padding },
            BarItem::Accent { text, color } => ItemView::Accent { text: text@, color },
        }
    }
}

pub open spec fn bar_items_view(v: Seq<BarItem>) -> Seq<ItemView> {
    Seq::new(v.len(), |i: int| v[i]@)
}

/// The kind of the module `name`: as it is defined, or else by its name.
pub open spec fn kind_in(modules: Seq<ModuleView>, name: Seq<char>) -> BarModuleKind {
    match module(modules, name) {
        Some(d) => d.kind,
        None => kind_of(name),
    }
}

/// A property of the module `name`, as far as that is defined.
pub open spec fn text_in(modules: Seq<ModuleView>, name: Seq<char>, key: Seq<char>) -> Option<
    Seq<char>,
> {
    match module(modules, name) {
        Some(d) => prop_text(d.props, key),
        None => None,
    }
}

/// What a clock named `name` shows the time by.
pub open spec fn format_in(modules: Seq<ModuleView>, name: Seq<char>) -> Seq<char> {
    match text_in(modules, name, "format"@) {
        Some(f) => f,
        None => "%H:%M"@,
    }
}

/// The entry of a workspace.
pub open spec fn ws_item(w: WsSnap, active_ws: usize, t: Theme) -> ItemView {
    let text = " "@ + decimal(((w.index + 1) as u8) as nat) + " "@;
    if w.index == active_ws {
        ItemView::Pill { text, fg: t.ws_active_fg, bg: t.ws_active_bg, padding: 4 }
    } else if w.occupied {
        ItemView::Text { text, fg: t.active_border, padding: Some(4) }
    } else {
        ItemView::Text { text, fg: t.bar_dim, padding: Some(4) }
    }
}

pub open spec fn layout_icon(layout: Seq<char>) -> Seq<char> {
    if layout == "BSP"@ {
        "󰙀 "@
    } else if layout == "Columns"@ {
        "󰕘 "@
    } else if layout == "Rows"@ {
        "󰕛 "@
    } else if layout == "ThreeCol"@ {
        "󱗼 "@
    } else if layout == "Monocle"@ {
        "󱕻 "@
    } else {
        "  "@
    }
}

/// The entries of the module `name`; a clock shows `time`.
pub open spec fn items_in(
    modules: Seq<ModuleView>,
    name: Seq<char>,
    time: Seq<char>,
    snap: TwmSnapshot,
    t: Theme,
) -> Seq<ItemView> {
    match kind_in(modules, name) {
        BarModuleKind::Workspaces => Seq::new(
            snap.workspaces@.len(),
            |i: int| ws_item(snap.workspaces@[i], snap.active_ws, t),
        ),
        BarModuleKind::Clock => seq![
            ItemView::Pill {
                text: "  "@ + time + " "@,
                fg: t.ws_active_fg,
                bg: t.ws_active_bg,
                padding: 0,
            },
        ],
        BarModuleKind::Layout => seq![
            ItemView::Accent {
                text: layout_icon(layout_shown(snap)) + layout_shown(snap),
                color: t.bar_accent,
            },
        ],
        BarModuleKind::Systray => Seq::empty(),
        BarModuleKind::Custom => match text_in(modules, name, "text"@) {
            Some(text) => seq![ItemView::Text { text, fg: t.bar_fg, padding: None }],
            None => Seq::empty(),
        },
    }
}

/// The entries of the first `n` modules.
pub open spec fn zone_items(
    modules: Seq<ModuleView>,
    names: Seq<Seq<char>>,
    times: Seq<Seq<char>>,
    n: int,
    snap: TwmSnapshot,
    t: Theme,
) -> Seq<ItemView>
    decreases n,
{
    if n <= 0 {
        Seq::empty()
    } else {
        zone_items(modules, names, times, n - 1, snap, t) + items_in(
            modules,
            names[n - 1],
            times[n - 1],
            snap,
            t,
        )
    }
}

fn icon_of(layout: &str) -> (r: &'static str)
    ensures
        r@ == layout_icon(layout@),
{
    if same(layout, "BSP") {
        "󰙀 "
    } else if same(layout, "Columns") {
        "󰕘 "
    } else if same(layout, "Rows") {
        "󰕛 "
    } else if same(layout, "ThreeCol") {
        "󱗼 "
    } else if same(layout, "Monocle") {
        "󱕻 "
    } else {
        "  "
    }
}

/// The kind of the module `name`.
pub fn module_kind(cfg: &Config, name: &str) -> (r: BarModuleKind)
    ensures
        r == kind_in(modules_view(cfg.bar_modules@), name@),
{
    match cfg.bar_module(name) {
        Some(d) => d.kind,
        None => BarModuleKind::from_name(name),
    }
}

fn get_text_in(cfg: &Config, name: &str, key: &str) -> (r: Option<String>)
    ensures
        opt_text(r) == text_in(modules_view(cfg.bar_modules@), name@, key@),
{
    match cfg.bar_module(name) {
        Some(d) => match d.prop(key) {
            Some(v) => match v.as_str() {
                Some(s) => Some(s.to_owned()),
                None => None,
            },
            None => None,
        },
        None => None,
    }
}

/// What a clock named `name` shows the time by.
pub fn clock_format(cfg: &Config, name: &str) -> (r: String)
    ensures
        r@ == format_in(modules_view(cfg.bar_modules@), name@),
{
    match get_text_in(cfg, name, "format") {
        Some(f) => f,
        None => "%H:%M".to_owned(),
    }
}

fn push_item(out: &mut Vec<BarItem>, item: BarItem)
    ensures
        bar_items_view(final(out)@) == bar_items_view(old(out)@).push(item@),
{
    out.push(item);
    assert(bar_items_view(out@) =~= bar_items_view(old(out)@).push(item@));
}

fn push_workspaces(out: &mut Vec<BarItem>, snap: &TwmSnapshot, t: &Theme)
    requires
        forall|i: int|
            0 <= i < snap.workspaces@.len() ==> (#[trigger] snap.workspaces@[i]).index < usize::MAX,
    ensures
        bar_items_view(final(out)@) == bar_items_view(old(out)@) + Seq::new(
            snap.workspaces@.len(),
            |i: int| ws_item(snap.workspaces@[i], snap.active_ws, *t),
        ),
{
    let ghost all = Seq::new(
        snap.workspaces@.len(),
        |i: int| ws_item(snap.workspaces@[i], snap.active_ws, *t),
    );
    let mut i: usize = 0;
    assert(bar_items_view(out@) =~= bar_items_view(old(out)@) + all.take(0));
    while i < snap.workspaces.len()
        invariant
            i <= snap.workspaces@.len(),
            forall|k: int|
                0 <= k < snap.workspaces@.len() ==> (#[trigger] snap.workspaces@[k]).index
                    < usize::MAX,
            all == Seq::new(
                snap.workspaces@.len(),
                |i: int| ws_item(snap.workspaces@[i], snap.active_ws, *t),
            ),
            bar_items_view(out@) == bar_items_view(old(out)@) + all.take(i as int),
        decreases snap.workspaces@.len() - i,
    {
        let w = &snap.workspaces[i];
        let idx: u8 = #[verifier::truncate] ((w.index + 1) as u8);
        let mut text = " ".to_owned();
        push_decimal(&mut text, idx as u64);
        text.append(" ");
        let item = if w.index == snap.active_ws {
            BarItem::Pill { text, fg: t.ws_active_fg, bg: t.ws_active_bg, padding: 4 }
        } else if w.occupied {
            BarItem::Text { text, fg: t.active_border, padding: Some(4) }
        } else {
            BarItem::Text { text, fg: t.bar_dim, padding: Some(4) }
        };
        assert(item@ == all[i as int]);
        push_item(out, item);
        i += 1;
        assert(all.take(i as int) =~= all.take(i - 1).push(all[i - 1]));
        assert(bar_items_view(out@) =~= bar_items_view(old(out)@) + all.take(i as int));
    }
    assert(all.take(i as int) =~= all);
}

/// The entries of the modules `names`; `times` holds what each would show if
/// it is a clock.
pub fn build_zone(
    names: &Vec<String>,
    times: &Vec<String>,
    cfg: &Config,
    snap: &TwmSnapshot,
    t: &Theme,
) -> (out: Vec<BarItem>)
    requires
        names@.len() == times@.len(),
        forall|i: int|
            0 <= i < snap.workspaces@.len() ==> (#[trigger] snap.workspaces@[i]).index < usize::MAX,
    ensures
        bar_items_view(out@) == zone_items(
            modules_view(cfg.bar_modules@),
            strings_view(names@),
            strings_view(times@),
            names@.len() as int,
            *snap,
            *t,
        ),
{
    let ghost modules = modules_view(cfg.bar_modules@);
    let ghost nv = strings_view(names@);
    let ghost tv = strings_view(times@);
    let mut out: Vec<BarItem> = Vec::new();
    let mut i: usize = 0;
    assert(bar_items_view(out@) =~= Seq::<ItemView>::empty());
    while i < names.len()
        invariant
            i <= names@.len(),
            names@.len() == times@.len(),
            modules == modules_view(cfg.bar_modules@),
            nv == strings_view(names@),
            tv == strings_view(times@),
            forall|k: int|
                0 <= k < snap.workspaces@.len() ==> (#[trigger] snap.workspaces@[k]).index
                    < usize::MAX,
            bar_items_view(out@) == zone_items(modules, nv, tv, i as int, *snap, *t),
        decreases names@.len() - i,
    {
        let name = names[i].as_str();
        assert(nv[i as int] == name@);
        assert(tv[i as int] == times@[i as int]@);
        let ghost before = bar_items_view(out@);
        let ghost more = items_in(modules, name@, tv[i as int], *snap, *t);
        match module_kind(cfg, name) {
            BarModuleKind::Workspaces => push_workspaces(&mut out, snap, t),
            BarModuleKind::Clock => {
                let mut text = "  ".to_owned();
                text.append(times[i].as_str());
                text.append(" ");
                push_item(
                    &mut out,
                    BarItem::Pill { text, fg: t.ws_active_fg, bg: t.ws_active_bg, padding: 0 },
                );
                assert(bar_items_view(out@) =~= before + more);
            },
            BarModuleKind::Layout => {
                let layout = layout_name(snap);
                let mut text = icon_of(layout).to_owned();
                text.append(layout);
                push_item(&mut out, BarItem::Accent { text, color: t.bar_accent });
                assert(bar_items_view(out@) =~= before + more);
            },
            BarModuleKind::Systray => {
                assert(bar_items_view(out@) =~= before + more);
            },
            BarModuleKind::Custom => match get_text_in(cfg, name, "text") {
                Some(text) => {
                    push_item(&mut out, BarItem::Text { text, fg: t.bar_fg, padding: None });
                    assert(bar_items_view(out@) =~= before + more);
                },
                None => {
                    assert(bar_items_view(out@) =~= before + more);
                },
            },
        }
        i += 1;
    }
    out
}

} // verus!
