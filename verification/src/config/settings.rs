//! The typed configuration and how it is read from a file.

use vstd::prelude::*;

use crate::config::color::{color_from_value, color_of, hex_rgb, Color};
use crate::config::keys::{
    action_of, bind_view, binds_view, combo_of, default_binds, default_keybinds, BindView,
    KeyAction, KeyCombo,
};
use crate::config::rules::{
    effect_of, effects_view, matcher_of, rule_view, rules_view, EffectView, RuleEffect,
    RuleMatcher, RuleView, WindowRule,
};
use crate::config::value::{
    block_refs_view, block_view, blocks_of, items_view, keys_of, last_of, last_value, lookup,
    spanned_view, value_refs_view, value_view, values_of, values_view, word_refs_view, word_view,
    Block, BlockView, ConfigFile, Item, ItemView, Spanned, SpannedView, Unit, Value, ValueView,
    WordView,
};
use crate::number::{clamp, Number};
use crate::text::{
    chars_of, same, slices_view, string_of, strings_view, words, words_spec,
};

verus! {

// ── Single settings ──────────────────────────────────────────────────────────

/// The items of the last block named `name`; none where there is no such block.
pub open spec fn block_items(items: Seq<ItemView>, name: Seq<char>) -> Seq<ItemView> {
    match last_of(blocks_of(items, name)) {
        Some(b) => b.items,
        None => Seq::empty(),
    }
}

/// `key` as a length in pixels, `otherwise` where it is not set to one.
pub open spec fn px_setting(items: Seq<ItemView>, key: Seq<char>, otherwise: u32) -> u32 {
    match last_value(items, key) {
        Some(v) => match v.count(Unit::Px) {
            Some(n) => n,
            None => otherwise,
        },
        None => otherwise,
    }
}

pub open spec fn color_setting(items: Seq<ItemView>, key: Seq<char>, otherwise: Color) -> Color {
    match last_value(items, key) {
        Some(v) => match color_of(v) {
            Some(c) => c,
            None => otherwise,
        },
        None => otherwise,
    }
}

pub open spec fn truth_setting(items: Seq<ItemView>, key: Seq<char>, otherwise: bool) -> bool {
    match last_value(items, key) {
        Some(v) => match v.truth() {
            Some(b) => b,
            None => otherwise,
        },
        None => otherwise,
    }
}

pub open spec fn int_setting(items: Seq<ItemView>, key: Seq<char>) -> Option<i64> {
    match last_value(items, key) {
        Some(v) => v.integer(),
        None => None,
    }
}

/// `key` as text, unless it is empty.
pub open spec fn text_setting(items: Seq<ItemView>, key: Seq<char>) -> Option<Seq<char>> {
    match last_value(items, key) {
        Some(v) => match v.text() {
            Some(s) => if s.len() > 0 {
                Some(s)
            } else {
                None
            },
            None => None,
        },
        None => None,
    }
}

pub open spec fn number_setting(items: Seq<ItemView>, key: Seq<char>) -> Option<Seq<char>> {
    match last_value(items, key) {
        Some(v) => v.literal(),
        None => None,
    }
}

fn get_px(items: &Vec<Item>, key: &str, otherwise: u32) -> (r: u32)
    ensures
        r == px_setting(items_view(items@), key@, otherwise),
{
    match lookup(items, key) {
        Some(v) => match v.as_px() {
            Some(n) => n,
            None => otherwise,
        },
        None => otherwise,
    }
}

fn get_color(items: &Vec<Item>, key: &str, otherwise: Color) -> (r: Color)
    ensures
        r == color_setting(items_view(items@), key@, otherwise),
{
    match lookup(items, key) {
        Some(v) => match color_from_value(v) {
            Some(c) => c,
            None => otherwise,
        },
        None => otherwise,
    }
}

fn get_truth(items: &Vec<Item>, key: &str, otherwise: bool) -> (r: bool)
    ensures
        r == truth_setting(items_view(items@), key@, otherwise),
{
    match lookup(items, key) {
        Some(v) => match v.as_bool() {
            Some(b) => b,
            None => otherwise,
        },
        None => otherwise,
    }
}

fn get_int(items: &Vec<Item>, key: &str) -> (r: Option<i64>)
    ensures
        r == int_setting(items_view(items@), key@),
{
    match lookup(items, key) {
        Some(v) => v.as_i64(),
        None => None,
    }
}

/// Whether `r` is the text `v`.
pub open spec fn is_text(r: Option<String>, v: Option<Seq<char>>) -> bool {
    match r {
        Some(s) => v == Some(s@),
        None => v is None,
    }
}

/// Whether `r` is the number with the literal `v`.
pub open spec fn is_number(r: Option<Number>, v: Option<Seq<char>>) -> bool {
    match r {
        Some(x) => v == Some(x@),
        None => v is None,
    }
}

fn get_text(items: &Vec<Item>, key: &str) -> (r: Option<String>)
    ensures
        is_text(r, text_setting(items_view(items@), key@)),
{
    match lookup(items, key) {
        Some(v) => match v.as_str() {
            Some(s) => if s.is_empty() {
                None
            } else {
                Some(s.to_owned())
            },
            None => None,
        },
        None => None,
    }
}

fn get_number(items: &Vec<Item>, key: &str) -> (r: Option<Number>)
    ensures
        is_number(r, number_setting(items_view(items@), key@)),
{
    match lookup(items, key) {
        Some(v) => v.as_f64(),
        None => None,
    }
}

// ── Lists of words ───────────────────────────────────────────────────────────

/// The texts among `items`, in order.
pub open spec fn texts_of(items: Seq<SpannedView>) -> Seq<Seq<char>>
    decreases items.len(),
{
    if items.len() == 0 {
        Seq::empty()
    } else {
        let before = texts_of(items.drop_last());
        match items.last().value.text() {
            Some(s) => before.push(s),
            None => before,
        }
    }
}

/// The texts and numbers among `items` as arguments, in order.
pub open spec fn args_of(items: Seq<SpannedView>) -> Seq<Seq<char>>
    decreases items.len(),
{
    if items.len() == 0 {
        Seq::empty()
    } else {
        let before = args_of(items.drop_last());
        match items.last().value.arg_text() {
            Some(s) => before.push(s),
            None => before,
        }
    }
}

/// A value as a list of texts: an array, or a text on its own.
pub open spec fn text_list(v: ValueView) -> Option<Seq<Seq<char>>> {
    match v {
        ValueView::Array(items) => Some(texts_of(items)),
        _ => match v.text() {
            Some(s) => Some(seq![s]),
            None => None,
        },
    }
}

/// A value as a list of arguments: an array, or an argument on its own.
pub open spec fn arg_list(v: ValueView) -> Option<Seq<Seq<char>>> {
    match v {
        ValueView::Array(items) => Some(args_of(items)),
        _ => match v.arg_text() {
            Some(s) => Some(seq![s]),
            None => None,
        },
    }
}

/// A value as a list of module names.
pub open spec fn module_list(v: ValueView) -> Seq<Seq<char>> {
    match text_list(v) {
        Some(l) => l,
        None => Seq::empty(),
    }
}

/// Whether `r` is the list `v`.
pub open spec fn is_list(r: Option<Vec<String>>, v: Option<Seq<Seq<char>>>) -> bool {
    match r {
        Some(l) => v == Some(strings_view(l@)),
        None => v is None,
    }
}

fn collect_texts(items: &[Spanned<Value>]) -> (r: Vec<String>)
    ensures
        strings_view(r@) == texts_of(values_view(items@)),
{
    let ghost all = values_view(items@);
    let mut r: Vec<String> = Vec::new();
    let mut i: usize = 0;
    assert(strings_view(r@) =~= texts_of(all.take(0)));
    while i < items.len()
        invariant
            i <= items.len(),
            all == values_view(items@),
            strings_view(r@) == texts_of(all.take(i as int)),
        decreases items.len() - i,
    {
        let ghost before = r@;
        match items[i].value.as_str() {
            Some(s) => {
                r.push(s.to_owned());
                assert(strings_view(r@) =~= strings_view(before).push(s@));
            },
            None => {},
        }
        i += 1;
        assert(all.take(i as int).drop_last() =~= all.take(i - 1));
    }
    assert(all.take(i as int) =~= all);
    r
}

fn collect_args(items: &[Spanned<Value>]) -> (r: Vec<String>)
    ensures
        strings_view(r@) == args_of(values_view(items@)),
{
    let ghost all = values_view(items@);
    let mut r: Vec<String> = Vec::new();
    let mut i: usize = 0;
    assert(strings_view(r@) =~= args_of(all.take(0)));
    while i < items.len()
        invariant
            i <= items.len(),
            all == values_view(items@),
            strings_view(r@) == args_of(all.take(i as int)),
        decreases items.len() - i,
    {
        let ghost before = r@;
        match items[i].value.as_arg_string() {
            Some(s) => {
                r.push(s);
                assert(strings_view(r@) =~= strings_view(before).push(s@));
            },
            None => {},
        }
        i += 1;
        assert(all.take(i as int).drop_last() =~= all.take(i - 1));
    }
    assert(all.take(i as int) =~= all);
    r
}

fn one_string(s: String) -> (r: Vec<String>)
    ensures
        strings_view(r@) == seq![s@],
{
    let mut r: Vec<String> = Vec::new();
    r.push(s);
    assert(strings_view(r@) =~= seq![s@]);
    r
}

fn get_text_list(v: &Value) -> (r: Option<Vec<String>>)
    ensures
        is_list(r, text_list(value_view(*v))),
{
    match v.as_array() {
        Some(items) => Some(collect_texts(items)),
        None => match v.as_str() {
            Some(s) => Some(one_string(s.to_owned())),
            None => None,
        },
    }
}

fn get_arg_list(v: &Value) -> (r: Option<Vec<String>>)
    ensures
        is_list(r, arg_list(value_view(*v))),
{
    match v.as_array() {
        Some(items) => Some(collect_args(items)),
        None => match v.as_arg_string() {
            Some(s) => Some(one_string(s)),
            None => None,
        },
    }
}

pub fn parse_module_list(v: &Value) -> (r: Vec<String>)
    ensures
        strings_view(r@) == module_list(value_view(*v)),
{
    match get_text_list(v) {
        Some(l) => l,
        None => {
            let none: Vec<String> = Vec::new();
            assert(strings_view(none@) =~= Seq::<Seq<char>>::empty());
            none
        },
    }
}

// ── Bar modules ──────────────────────────────────────────────────────────────

#[derive(Debug, Clone, Copy, PartialEq, Eq, Structural)]
pub enum BarModuleKind {
    Workspaces,
    Clock,
    Layout,
    Systray,
    Custom,
}

pub open spec fn kind_of(name: Seq<char>) -> BarModuleKind {
    if name == "workspaces"@ {
        BarModuleKind::Workspaces
    } else if name == "clock"@ {
        BarModuleKind::Clock
    } else if name == "layout"@ {
        BarModuleKind::Layout
    } else if name == "systray"@ {
        BarModuleKind::Systray
    } else {
        BarModuleKind::Custom
    }
}

impl BarModuleKind {
    pub fn from_name(s: &str) -> (r: Self)
        ensures
            r == kind_of(s@),
    {
        if same(s, "workspaces") {
            BarModuleKind::Workspaces
        } else if same(s, "clock") {
            BarModuleKind::Clock
        } else if same(s, "layout") {
            BarModuleKind::Layout
        } else if same(s, "systray") {
            BarModuleKind::Systray
        } else {
            BarModuleKind::Custom
        }
    }
}

/// A property of a bar module.
#[derive(Debug)]
pub struct Prop {
    pub key: String,
    pub value: Value,
}

#[derive(Debug)]
pub struct BarModuleDef {
    pub name: String,
    pub kind: BarModuleKind,
    /// The properties in the order in which they were set; the last one with
    /// a given key counts.
    pub props: Vec<Prop>,
}

pub struct PropView {
    pub key: Seq<char>,
    pub value: ValueView,
}

pub open spec fn props_view(v: Seq<Prop>) -> Seq<PropView> {
    Seq::new(v.len(), |i: int| PropView { key: v[i].key@, value: value_view(v[i].value) })
}

/// The value of the property `key`.
pub open spec fn prop(props: Seq<PropView>, key: Seq<char>) -> Option<ValueView>
    decreases props.len(),
{
    if props.len() == 0 {
        None
    } else if props.last().key == key {
        Some(props.last().value)
    } else {
        prop(props.drop_last(), key)
    }
}

/// The assignments among `items` as properties.
pub open spec fn props_of(items: Seq<ItemView>) -> Seq<PropView>
    decreases items.len(),
{
    if items.len() == 0 {
        Seq::empty()
    } else {
        let before = props_of(items.drop_last());
        match items.last() {
            ItemView::Assignment { key, value } => before.push(
                PropView { key: key.text, value: value.value },
            ),
            _ => before,
        }
    }
}

/// What a [`BarModuleDef`] holds.
pub struct ModuleView {
    pub name: Seq<char>,
    pub kind: BarModuleKind,
    pub props: Seq<PropView>,
}

pub open spec fn module_view(m: BarModuleDef) -> ModuleView {
    ModuleView { name: m.name@, kind: m.kind, props: props_view(m.props@) }
}

pub open spec fn modules_view(v: Seq<BarModuleDef>) -> Seq<ModuleView> {
    Seq::new(v.len(), |i: int| module_view(v[i]))
}

/// The modules that `blocks` define: those with a label, which is the name.
pub open spec fn modules_of(blocks: Seq<BlockView>) -> Seq<ModuleView>
    decreases blocks.len(),
{
    if blocks.len() == 0 {
        Seq::empty()
    } else {
        let before = modules_of(blocks.drop_last());
        let b = blocks.last();
        match b.label {
            Some(l) => before.push(
                ModuleView { name: l.text, kind: kind_of(l.text), props: props_of(b.items) },
            ),
            None => before,
        }
    }
}

/// The module `name`: its last definition counts.
pub open spec fn module(modules: Seq<ModuleView>, name: Seq<char>) -> Option<ModuleView>
    decreases modules.len(),
{
    if modules.len() == 0 {
        None
    } else if modules.last().name == name {
        Some(modules.last())
    } else {
        module(modules.drop_last(), name)
    }
}

impl BarModuleDef {
    /// The value of the property `key`.
    pub fn prop(&self, key: &str) -> (r: Option<&Value>)
        ensures
            match r {
                Some(v) => prop(module_view(*self).props, key@) == Some(value_view(*v)),
                None => prop(module_view(*self).props, key@) is None,
            },
    {
        let ghost all = props_view(self.props@);
        let mut n: usize = self.props.len();
        assert(all.take(n as int) =~= all);
        while n > 0
            invariant
                n <= self.props.len(),
                all == props_view(self.props@),
                prop(all, key@) == prop(all.take(n as int), key@),
            decreases n,
        {
            assert(all.take(n as int).drop_last() =~= all.take(n - 1));
            if same(self.props[n - 1].key.as_str(), key) {
                return Some(&self.props[n - 1].value);
            }
            n -= 1;
        }
        None
    }
}

fn collect_props(items: &Vec<Item>) -> (r: Vec<Prop>)
    ensures
        props_view(r@) == props_of(items_view(items@)),
{
    let ghost all = items_view(items@);
    let mut r: Vec<Prop> = Vec::new();
    let mut i: usize = 0;
    assert(props_view(r@) =~= props_of(all.take(0)));
    while i < items.len()
        invariant
            i <= items.len(),
            all == items_view(items@),
            props_view(r@) == props_of(all.take(i as int)),
        decreases items.len() - i,
    {
        let ghost before = r@;
        match &items[i] {
            Item::Assignment(a) => {
                r.push(Prop { key: a.key.value.clone(), value: a.value.value.clone() });
                assert(props_view(r@) =~= props_view(before).push(
                    PropView { key: a.key.value@, value: value_view(a.value.value) },
                ));
            },
            Item::Block(_) => {
                proof {
                    crate::config::value::lemma_block_view(items@[i as int]);
                }
            },
        }
        i += 1;
        assert(all.take(i as int).drop_last() =~= all.take(i - 1));
    }
    assert(all.take(i as int) =~= all);
    r
}

fn collect_modules(blocks: &Vec<&Block>) -> (r: Vec<BarModuleDef>)
    ensures
        modules_view(r@) == modules_of(block_refs_view(blocks@)),
{
    let ghost all = block_refs_view(blocks@);
    let mut r: Vec<BarModuleDef> = Vec::new();
    let mut i: usize = 0;
    assert(modules_view(r@) =~= modules_of(all.take(0)));
    while i < blocks.len()
        invariant
            i <= blocks.len(),
            all == block_refs_view(blocks@),
            modules_view(r@) == modules_of(all.take(i as int)),
        decreases blocks.len() - i,
    {
        let ghost before = r@;
        let b: &Block = blocks[i];
        match &b.label {
            Some(l) => {
                let kind = BarModuleKind::from_name(l.value.as_str());
                let props = collect_props(&b.items);
                let m = BarModuleDef { name: l.value.clone(), kind, props };
                r.push(m);
                assert(modules_view(r@) =~= modules_view(before).push(module_view(m)));
            },
            None => {},
        }
        i += 1;
        assert(all.take(i as int).drop_last() =~= all.take(i - 1));
    }
    assert(all.take(i as int) =~= all);
    r
}

// ── Bar ──────────────────────────────────────────────────────────────────────

#[derive(Debug, Clone, Copy, PartialEq, Eq, Structural)]
pub enum BarPosition {
    Top,
    Bottom,
}

/// The colors, lengths and flags of the bar.
#[derive(Debug, Clone, Copy, PartialEq, Eq, Structural)]
pub struct BarStyle {
    pub position: BarPosition,
    pub height: u32,
    pub padding: u32,
    pub item_spacing: u32,
    pub glyph_y_offset: i32,
    pub bg: Color,
    pub fg: Color,
    pub accent: Color,
    pub dim: Color,
    pub separator: bool,
    pub separator_top: bool,
    pub separator_color: Color,
    pub active_ws_fg: Color,
    pub active_ws_bg: Color,
    pub occupied_ws_fg: Color,
    pub inactive_ws_fg: Color,
    pub pill_radius: u32,
}

/// What the `bar` block sets.
#[derive(Debug)]
pub struct BarConfig {
    pub style: BarStyle,
    /// Overrides the size of the font for the bar.
    pub font_size: Option<Number>,
    pub modules_left: Vec<String>,
    pub modules_center: Vec<String>,
    pub modules_right: Vec<String>,
}

/// The style that the items of the `bar` block set, over the defaults.
pub open spec fn style_of(items: Seq<ItemView>) -> BarStyle {
    BarStyle {
        position: match last_value(items, "position"@) {
            Some(v) => if v.text() == Some("top"@) {
                BarPosition::Top
            } else {
                BarPosition::Bottom
            },
            None => BarPosition::Bottom,
        },
        height: px_setting(items, "height"@, 28),
        padding: px_setting(items, "padding"@, 10),
        item_spacing: px_setting(items, "item_spacing"@, 4),
        glyph_y_offset: match int_setting(items, "glyph_y_offset"@) {
            Some(n) => n as i32,
            None => 0,
        },
        bg: color_setting(items, "bg"@, hex_rgb(0x181825)),
        fg: color_setting(items, "fg"@, hex_rgb(0xa6adc8)),
        accent: color_setting(items, "accent"@, hex_rgb(0xb4befe)),
        dim: color_setting(items, "dim"@, hex_rgb(0x585b70)),
        separator: truth_setting(items, "separator"@, false),
        separator_top: truth_setting(items, "separator_top"@, false),
        separator_color: color_setting(items, "separator_color"@, hex_rgb(0x313244)),
        active_ws_fg: color_setting(items, "active_ws_fg"@, hex_rgb(0x11111b)),
        active_ws_bg: color_setting(items, "active_ws_bg"@, hex_rgb(0xb4befe)),
        occupied_ws_fg: color_setting(items, "occupied_ws_fg"@, hex_rgb(0xb4befe)),
        inactive_ws_fg: color_setting(items, "inactive_ws_fg"@, hex_rgb(0x585b70)),
        pill_radius: px_setting(items, "pill_radius"@, 4),
    }
}

/// The modules that `key` lists, the one named `otherwise` where it is not set.
pub open spec fn modules_setting(
    items: Seq<ItemView>,
    key: Seq<char>,
    otherwise: Seq<char>,
) -> Seq<Seq<char>> {
    match last_value(items, key) {
        Some(v) => module_list(v),
        None => seq![otherwise],
    }
}

/// Whether `bar` is what the items of the `bar` block set, over the defaults.
pub open spec fn is_bar(bar: BarConfig, items: Seq<ItemView>) -> bool {
    &&& bar.style == style_of(items)
    &&& is_number(bar.font_size, number_setting(items, "font_size"@))
    &&& strings_view(bar.modules_left@) == modules_setting(
        items,
        "modules_left"@,
        "workspaces"@,
    )
    &&& strings_view(bar.modules_center@) == modules_setting(items, "modules_center"@, "clock"@)
    &&& strings_view(bar.modules_right@) == modules_setting(items, "modules_right"@, "layout"@)
}

fn get_modules(items: &Vec<Item>, key: &str, otherwise: &str) -> (r: Vec<String>)
    ensures
        strings_view(r@) == modules_setting(items_view(items@), key@, otherwise@),
{
    match lookup(items, key) {
        Some(v) => parse_module_list(v),
        None => one_string(otherwise.to_owned()),
    }
}

fn get_style(items: &Vec<Item>) -> (r: BarStyle)
    ensures
        r == style_of(items_view(items@)),
{
    let position = match lookup(items, "position") {
        Some(v) => match v.as_str() {
            Some(s) => if same(s, "top") {
                BarPosition::Top
            } else {
                BarPosition::Bottom
            },
            None => BarPosition::Bottom,
        },
        None => BarPosition::Bottom,
    };
    let glyph_y_offset: i32 = match get_int(items, "glyph_y_offset") {
        Some(n) => #[verifier::truncate] (n as i32),
        None => 0,
    };
    BarStyle {
        position,
        height: get_px(items, "height", 28),
        padding: get_px(items, "padding", 10),
        item_spacing: get_px(items, "item_spacing", 4),
        glyph_y_offset,
        bg: get_color(items, "bg", Color::hex(0x181825)),
        fg: get_color(items, "fg", Color::hex(0xa6adc8)),
        accent: get_color(items, "accent", Color::hex(0xb4befe)),
        dim: get_color(items, "dim", Color::hex(0x585b70)),
        separator: get_truth(items, "separator", false),
        separator_top: get_truth(items, "separator_top", false),
        separator_color: get_color(items, "separator_color", Color::hex(0x313244)),
        active_ws_fg: get_color(items, "active_ws_fg", Color::hex(0x11111b)),
        active_ws_bg: get_color(items, "active_ws_bg", Color::hex(0xb4befe)),
        occupied_ws_fg: get_color(items, "occupied_ws_fg", Color::hex(0xb4befe)),
        inactive_ws_fg: get_color(items, "inactive_ws_fg", Color::hex(0x585b70)),
        pill_radius: get_px(items, "pill_radius", 4),
    }
}

fn get_bar(items: &Vec<Item>) -> (r: BarConfig)
    ensures
        is_bar(r, items_view(items@)),
{
    BarConfig {
        style: get_style(items),
        font_size: get_number(items, "font_size"),
        modules_left: get_modules(items, "modules_left", "workspaces"),
        modules_center: get_modules(items, "modules_center", "clock"),
        modules_right: get_modules(items, "modules_right", "layout"),
    }
}

impl Default for BarConfig {
    fn default() -> (r: Self)
        ensures
            is_bar(r, Seq::empty()),
    {
        let none: Vec<Item> = Vec::new();
        assert(items_view(none@) =~= Seq::<ItemView>::empty());
        get_bar(&none)
    }
}

// ── Keyboard ─────────────────────────────────────────────────────────────────

#[derive(Debug)]
pub struct KeyboardConfig {
    pub layout: Option<String>,
    pub variant: Option<String>,
    pub options: Option<String>,
    pub repeat_rate: u32,
    pub repeat_delay: u32,
}

/// Whether `k` is what the items of the `keyboard` block set, over the
/// defaults. An empty text stands for the default of the system.
pub open spec fn is_keyboard(k: KeyboardConfig, items: Seq<ItemView>) -> bool {
    &&& is_text(k.layout, text_setting(items, "layout"@))
    &&& is_text(k.variant, text_setting(items, "variant"@))
    &&& is_text(k.options, text_setting(items, "options"@))
    &&& k.repeat_rate == match int_setting(items, "repeat_rate"@) {
        Some(n) => n as u32,
        None => 25,
    }
    &&& k.repeat_delay == match int_setting(items, "repeat_delay"@) {
        Some(n) => n as u32,
        None => 600,
    }
}

fn get_keyboard(items: &Vec<Item>) -> (r: KeyboardConfig)
    ensures
        is_keyboard(r, items_view(items@)),
{
    let repeat_rate: u32 = match get_int(items, "repeat_rate") {
        Some(n) => #[verifier::truncate] (n as u32),
        None => 25,
    };
    let repeat_delay: u32 = match get_int(items, "repeat_delay") {
        Some(n) => #[verifier::truncate] (n as u32),
        None => 600,
    };
    KeyboardConfig {
        layout: get_text(items, "layout"),
        variant: get_text(items, "variant"),
        options: get_text(items, "options"),
        repeat_rate,
        repeat_delay,
    }
}

impl Default for KeyboardConfig {
    fn default() -> (r: Self)
        ensures
            is_keyboard(r, Seq::empty()),
    {
        let none: Vec<Item> = Vec::new();
        assert(items_view(none@) =~= Seq::<ItemView>::empty());
        get_keyboard(&none)
    }
}

// ── Monitors ─────────────────────────────────────────────────────────────────

#[derive(Debug)]
pub struct MonitorConfig {
    pub name: String,
    pub width: u32,
    pub height: u32,
    pub refresh: u32,
    pub position: (i32, i32),
    pub scale: Number,
}

/// What a [`MonitorConfig`] holds.
pub struct MonitorView {
    pub name: Seq<char>,
    pub width: u32,
    pub height: u32,
    pub refresh: u32,
    pub position: (i32, i32),
    pub scale: Seq<char>,
}

pub open spec fn monitor_view(m: MonitorConfig) -> MonitorView {
    MonitorView {
        name: m.name@,
        width: m.width,
        height: m.height,
        refresh: m.refresh,
        position: m.position,
        scale: m.scale@,
    }
}

pub open spec fn monitors_view(v: Seq<MonitorConfig>) -> Seq<MonitorView> {
    Seq::new(v.len(), |i: int| monitor_view(v[i]))
}

/// A refresh rate: `144hz`, or a bare number.
pub open spec fn rate_of(v: ValueView) -> Option<u32> {
    match v.count(Unit::Hz) {
        Some(n) => Some(n),
        None => match v.count(Unit::Px) {
            Some(n) => Some(n),
            None => match v.integer() {
                Some(n) => Some(n as u32),
                None => None,
            },
        },
    }
}

pub open spec fn coordinate(v: ValueView) -> i32 {
    match v.integer() {
        Some(n) => n as i32,
        None => 0,
    }
}

/// A position: `x, y`, or `x` alone.
pub open spec fn position_of(v: ValueView) -> Option<(i32, i32)> {
    match v {
        ValueView::Array(parts) => if parts.len() == 2 {
            Some((coordinate(parts[0].value), coordinate(parts[1].value)))
        } else {
            None
        },
        _ => match v.integer() {
            Some(n) => Some((n as i32, 0i32)),
            None => None,
        },
    }
}

/// The monitor that `items` describe, over the defaults.
pub open spec fn monitor_of(name: Seq<char>, items: Seq<ItemView>) -> MonitorView {
    MonitorView {
        name,
        width: px_setting(items, "width"@, 1920),
        height: px_setting(items, "height"@, 1080),
        refresh: match last_value(items, "refresh"@) {
            Some(v) => match rate_of(v) {
                Some(n) => n,
                None => 60,
            },
            None => 60,
        },
        position: match last_value(items, "position"@) {
            Some(v) => match position_of(v) {
                Some(p) => p,
                None => (0, 0),
            },
            None => (0, 0),
        },
        scale: match number_setting(items, "scale"@) {
            Some(x) => x,
            None => crate::integer::decimal_int(1),
        },
    }
}

/// The monitors that `blocks` describe, in order.
pub open spec fn monitors_of(blocks: Seq<BlockView>) -> Seq<MonitorView> {
    Seq::new(
        blocks.len(),
        |i: int|
            monitor_of(
                match blocks[i].label {
                    Some(l) => l.text,
                    None => "unknown"@,
                },
                blocks[i].items,
            ),
    )
}

/// The monitors of a configuration: those that it describes, or else one with
/// the defaults.
pub open spec fn all_monitors(blocks: Seq<BlockView>) -> Seq<MonitorView> {
    if blocks.len() == 0 {
        seq![monitor_of("primary"@, Seq::empty())]
    } else {
        monitors_of(blocks)
    }
}

fn get_rate(v: &Value) -> (r: Option<u32>)
    ensures
        r == rate_of(value_view(*v)),
{
    match v.as_hz() {
        Some(n) => Some(n),
        None => match v.as_px() {
            Some(n) => Some(n),
            None => match v.as_i64() {
                Some(n) => Some(#[verifier::truncate] (n as u32)),
                None => None,
            },
        },
    }
}

fn get_coordinate(v: &Value) -> (r: i32)
    ensures
        r == coordinate(value_view(*v)),
{
    match v.as_i64() {
        Some(n) => #[verifier::truncate] (n as i32),
        None => 0,
    }
}

fn get_position(v: &Value) -> (r: Option<(i32, i32)>)
    ensures
        r == position_of(value_view(*v)),
{
    match v.as_array() {
        Some(parts) => if parts.len() == 2 {
            assert(values_view(parts@)[0] == spanned_view(parts@[0]));
            assert(values_view(parts@)[1] == spanned_view(parts@[1]));
            Some((get_coordinate(&parts[0].value), get_coordinate(&parts[1].value)))
        } else {
            None
        },
        None => match v.as_i64() {
            Some(n) => Some((#[verifier::truncate] (n as i32), 0)),
            None => None,
        },
    }
}

fn get_monitor(name: String, items: &Vec<Item>) -> (r: MonitorConfig)
    ensures
        monitor_view(r) == monitor_of(name@, items_view(items@)),
{
    let refresh: u32 = match lookup(items, "refresh") {
        Some(v) => match get_rate(v) {
            Some(n) => n,
            None => 60,
        },
        None => 60,
    };
    let position: (i32, i32) = match lookup(items, "position") {
        Some(v) => match get_position(v) {
            Some(p) => p,
            None => (0, 0),
        },
        None => (0, 0),
    };
    let scale = match get_number(items, "scale") {
        Some(x) => x,
        None => Number::from_int(1),
    };
    MonitorConfig {
        name,
        width: get_px(items, "width", 1920),
        height: get_px(items, "height", 1080),
        refresh,
        position,
        scale,
    }
}

impl Default for MonitorConfig {
    fn default() -> (r: Self)
        ensures
            monitor_view(r) == monitor_of("primary"@, Seq::empty()),
    {
        let none: Vec<Item> = Vec::new();
        assert(items_view(none@) =~= Seq::<ItemView>::empty());
        get_monitor("primary".to_owned(), &none)
    }
}

fn collect_monitors(blocks: &Vec<&Block>) -> (r: Vec<MonitorConfig>)
    ensures
        monitors_view(r@) == all_monitors(block_refs_view(blocks@)),
{
    let ghost all = block_refs_view(blocks@);
    let mut r: Vec<MonitorConfig> = Vec::new();
    if blocks.len() == 0 {
        r.push(MonitorConfig::default());
        assert(monitors_view(r@) =~= all_monitors(all));
        return r;
    }
    let mut i: usize = 0;
    while i < blocks.len()
        invariant
            i <= blocks.len(),
            all == block_refs_view(blocks@),
            r@.len() == i,
            forall|k: int| 0 <= k < i ==> monitor_view(#[trigger] r@[k]) == monitors_of(all)[k],
        decreases blocks.len() - i,
    {
        let b: &Block = blocks[i];
        assert(all[i as int] == block_view(*b));
        let name = match &b.label {
            Some(l) => l.value.clone(),
            None => "unknown".to_owned(),
        };
        let m = get_monitor(name, &b.items);
        assert(monitor_view(m) == monitors_of(all)[i as int]);
        r.push(m);
        i += 1;
    }
    assert(monitors_view(r@) =~= monitors_of(all));
    r
}

// ── Commands ─────────────────────────────────────────────────────────────────

#[derive(Debug)]
pub struct ExecEntry {
    pub command: String,
    pub args: Vec<String>,
}

/// What an [`ExecEntry`] holds.
pub struct ExecView {
    pub command: Seq<char>,
    pub args: Seq<Seq<char>>,
}

pub open spec fn exec_view(e: ExecEntry) -> ExecView {
    ExecView { command: e.command@, args: strings_view(e.args@) }
}

pub open spec fn execs_view(v: Seq<ExecEntry>) -> Seq<ExecView> {
    Seq::new(v.len(), |i: int| exec_view(v[i]))
}

/// The command that `s` writes: its first word, and the other words as
/// arguments. Nothing in it is special.
pub open spec fn exec_of(s: Seq<char>) -> ExecView {
    let w = words_spec(s);
    if w.len() == 0 {
        ExecView { command: Seq::empty(), args: Seq::empty() }
    } else {
        ExecView { command: w[0], args: w.skip(1) }
    }
}

/// The commands that `values` write; what is no text is left out.
pub open spec fn execs_of(values: Seq<SpannedView>) -> Seq<ExecView>
    decreases values.len(),
{
    if values.len() == 0 {
        Seq::empty()
    } else {
        let before = execs_of(values.drop_last());
        match values.last().value.text() {
            Some(s) => before.push(exec_of(s)),
            None => before,
        }
    }
}

impl ExecEntry {
    /// Splits a command at white space. Pipes and redirections are arguments
    /// like others: no shell reads them.
    pub fn parse(s: &str) -> (r: Self)
        ensures
            exec_view(r) == exec_of(s@),
    {
        let c = chars_of(s);
        let w = words(c.as_slice());
        let ghost wv = words_spec(s@);
        if w.len() == 0 {
            let command = String::new();
            let args: Vec<String> = Vec::new();
            assert(command@ =~= Seq::<char>::empty());
            assert(strings_view(args@) =~= Seq::<Seq<char>>::empty());
            return ExecEntry { command, args };
        }
        assert(wv[0] == w@[0]@);
        let command = string_of(w[0]);
        let mut args: Vec<String> = Vec::new();
        let mut i: usize = 1;
        while i < w.len()
            invariant
                1 <= i <= w.len(),
                wv == slices_view(w@),
                args@.len() == i - 1,
                forall|k: int| 0 <= k < i - 1 ==> (#[trigger] args@[k])@ == wv[k + 1],
            decreases w.len() - i,
        {
            args.push(string_of(w[i]));
            i += 1;
        }
        assert(strings_view(args@) =~= wv.skip(1));
        ExecEntry { command, args }
    }
}

fn collect_execs(values: &Vec<&Spanned<Value>>) -> (r: Vec<ExecEntry>)
    ensures
        execs_view(r@) == execs_of(value_refs_view(values@)),
{
    let ghost all = value_refs_view(values@);
    let mut r: Vec<ExecEntry> = Vec::new();
    let mut i: usize = 0;
    assert(execs_view(r@) =~= execs_of(all.take(0)));
    while i < values.len()
        invariant
            i <= values.len(),
            all == value_refs_view(values@),
            execs_view(r@) == execs_of(all.take(i as int)),
        decreases values.len() - i,
    {
        let ghost before = r@;
        match values[i].value.as_str() {
            Some(s) => {
                let e = ExecEntry::parse(s);
                r.push(e);
                assert(execs_view(r@) =~= execs_view(before).push(exec_view(e)));
            },
            None => {},
        }
        i += 1;
        assert(all.take(i as int).drop_last() =~= all.take(i - 1));
    }
    assert(all.take(i as int) =~= all);
    r
}

// ── Bindings and rules ───────────────────────────────────────────────────────

/// The binding that a value writes: a combination, an action, its arguments.
pub open spec fn bind_of(v: ValueView) -> Option<BindView> {
    match arg_list(v) {
        Some(w) => if w.len() < 2 {
            None
        } else {
            match (combo_of(w[0]), action_of(w[1], w.skip(2))) {
                (Some(combo), Some(action)) => Some(BindView { combo, action }),
                _ => None,
            }
        },
        None => None,
    }
}

/// The bindings that `values` write, in order; what writes none is left out.
pub open spec fn binds_of(values: Seq<SpannedView>) -> Seq<BindView>
    decreases values.len(),
{
    if values.len() == 0 {
        Seq::empty()
    } else {
        let before = binds_of(values.drop_last());
        match bind_of(values.last().value) {
            Some(b) => before.push(b),
            None => before,
        }
    }
}

/// The bindings of a file with these settings; the default ones where it has
/// none of them.
pub open spec fn all_binds(values: Seq<SpannedView>) -> Seq<BindView> {
    if values.len() == 0 {
        default_binds()
    } else {
        binds_of(values)
    }
}

/// The effects that `w` write, in order; what writes none is left out.
pub open spec fn effects_of(w: Seq<Seq<char>>) -> Seq<EffectView>
    decreases w.len(),
{
    if w.len() == 0 {
        Seq::empty()
    } else {
        let before = effects_of(w.drop_last());
        match effect_of(w.last()) {
            Some(e) => before.push(e),
            None => before,
        }
    }
}

/// The rule that a value writes: a matcher, then effects.
pub open spec fn rule_of(v: ValueView) -> Option<RuleView> {
    match text_list(v) {
        Some(w) => if w.len() == 0 {
            None
        } else {
            Some(RuleView { matcher: matcher_of(w[0]), effects: effects_of(w.skip(1)) })
        },
        None => None,
    }
}

/// The rules that `values` write, in order.
pub open spec fn rules_of(values: Seq<SpannedView>) -> Seq<RuleView>
    decreases values.len(),
{
    if values.len() == 0 {
        Seq::empty()
    } else {
        let before = rules_of(values.drop_last());
        match rule_of(values.last().value) {
            Some(r) => before.push(r),
            None => before,
        }
    }
}

fn parse_bind(v: &Value) -> (r: Option<(KeyCombo, KeyAction)>)
    ensures
        match r {
            Some(b) => bind_of(value_view(*v)) == Some(bind_view(b)),
            None => bind_of(value_view(*v)) is None,
        },
{
    match get_arg_list(v) {
        None => None,
        Some(w) => {
            let ghost wv = strings_view(w@);
            if w.len() < 2 {
                return None;
            }
            assert(wv[0] == w@[0]@ && wv[1] == w@[1]@);
            let mut args: Vec<String> = Vec::new();
            let mut i: usize = 2;
            while i < w.len()
                invariant
                    2 <= i <= w.len(),
                    wv == strings_view(w@),
                    args@.len() == i - 2,
                    forall|k: int| 0 <= k < i - 2 ==> (#[trigger] args@[k])@ == wv[k + 2],
                decreases w.len() - i,
            {
                args.push(w[i].clone());
                i += 1;
            }
            assert(strings_view(args@) =~= wv.skip(2));
            match (KeyCombo::parse(w[0].as_str()), KeyAction::parse(w[1].as_str(), &args)) {
                (Some(combo), Some(action)) => Some((combo, action)),
                _ => None,
            }
        },
    }
}

fn collect_binds(values: &Vec<&Spanned<Value>>) -> (r: Vec<(KeyCombo, KeyAction)>)
    ensures
        binds_view(r@) == binds_of(value_refs_view(values@)),
{
    let ghost all = value_refs_view(values@);
    let mut r: Vec<(KeyCombo, KeyAction)> = Vec::new();
    let mut i: usize = 0;
    assert(binds_view(r@) =~= binds_of(all.take(0)));
    while i < values.len()
        invariant
            i <= values.len(),
            all == value_refs_view(values@),
            binds_view(r@) == binds_of(all.take(i as int)),
        decreases values.len() - i,
    {
        let ghost before = r@;
        match parse_bind(&values[i].value) {
            Some(b) => {
                r.push(b);
                assert(binds_view(r@) =~= binds_view(before).push(bind_view(b)));
            },
            None => {},
        }
        i += 1;
        assert(all.take(i as int).drop_last() =~= all.take(i - 1));
    }
    assert(all.take(i as int) =~= all);
    r
}

fn parse_rule(v: &Value) -> (r: Option<WindowRule>)
    ensures
        match r {
            Some(x) => rule_of(value_view(*v)) == Some(rule_view(x)),
            None => rule_of(value_view(*v)) is None,
        },
{
    match get_text_list(v) {
        None => None,
        Some(w) => {
            let ghost wv = strings_view(w@);
            if w.len() == 0 {
                return None;
            }
            assert(wv[0] == w@[0]@);
            let ghost rest = wv.skip(1);
            let mut effects: Vec<RuleEffect> = Vec::new();
            let mut i: usize = 1;
            assert(effects_view(effects@) =~= effects_of(rest.take(0)));
            while i < w.len()
                invariant
                    1 <= i <= w.len(),
                    wv == strings_view(w@),
                    rest == wv.skip(1),
                    effects_view(effects@) == effects_of(rest.take(i - 1)),
                decreases w.len() - i,
            {
                let ghost before = effects@;
                match RuleEffect::parse(w[i].as_str()) {
                    Some(e) => {
                        effects.push(e);
                        assert(effects_view(effects@) =~= effects_view(before).push(e@));
                    },
                    None => {},
                }
                i += 1;
                assert(rest.take(i - 1).drop_last() =~= rest.take(i - 2));
                assert(rest.take(i - 1).last() == w@[i - 1]@);
            }
            assert(rest.take(i - 1) =~= rest);
            Some(WindowRule { matcher: RuleMatcher::parse(w[0].as_str()), effects })
        },
    }
}

fn collect_rules(values: &Vec<&Spanned<Value>>) -> (r: Vec<WindowRule>)
    ensures
        rules_view(r@) == rules_of(value_refs_view(values@)),
{
    let ghost all = value_refs_view(values@);
    let mut r: Vec<WindowRule> = Vec::new();
    let mut i: usize = 0;
    assert(rules_view(r@) =~= rules_of(all.take(0)));
    while i < values.len()
        invariant
            i <= values.len(),
            all == value_refs_view(values@),
            rules_view(r@) == rules_of(all.take(i as int)),
        decreases values.len() - i,
    {
        let ghost before = r@;
        match parse_rule(&values[i].value) {
            Some(x) => {
                r.push(x);
                assert(rules_view(r@) =~= rules_view(before).push(rule_view(x)));
            },
            None => {},
        }
        i += 1;
        assert(all.take(i as int).drop_last() =~= all.take(i - 1));
    }
    assert(all.take(i as int) =~= all);
    r
}

// ── Colors ───────────────────────────────────────────────────────────────────

#[derive(Debug, Clone, Copy, PartialEq, Eq, Structural)]
pub struct Colors {
    pub active_border: Color,
    pub inactive_border: Color,
    pub active_title: Color,
    pub inactive_title: Color,
    pub pane_bg: Color,
    pub bar_bg: Color,
    pub bar_fg: Color,
    pub bar_accent: Color,
    pub focus_ring: Color,
}

/// The colors that the items of the `colors` block set, over the defaults.
pub open spec fn colors_of(items: Seq<ItemView>) -> Colors {
    Colors {
        active_border: color_setting(items, "active_border"@, hex_rgb(0xb4befe)),
        inactive_border: color_setting(items, "inactive_border"@, hex_rgb(0x45475a)),
        active_title: color_setting(items, "active_title"@, hex_rgb(0xb4befe)),
        inactive_title: color_setting(items, "inactive_title"@, hex_rgb(0x585b70)),
        pane_bg: color_setting(items, "pane_bg"@, hex_rgb(0x11111b)),
        bar_bg: color_setting(items, "bar_bg"@, hex_rgb(0x181825)),
        bar_fg: color_setting(items, "bar_fg"@, hex_rgb(0xa6adc8)),
        bar_accent: color_setting(items, "bar_accent"@, hex_rgb(0xb4befe)),
        focus_ring: color_setting(items, "focus_ring"@, hex_rgb(0xb4befe)),
    }
}

fn get_colors(items: &Vec<Item>) -> (r: Colors)
    ensures
        r == colors_of(items_view(items@)),
{
    Colors {
        active_border: get_color(items, "active_border", Color::hex(0xb4befe)),
        inactive_border: get_color(items, "inactive_border", Color::hex(0x45475a)),
        active_title: get_color(items, "active_title", Color::hex(0xb4befe)),
        inactive_title: get_color(items, "inactive_title", Color::hex(0x585b70)),
        pane_bg: get_color(items, "pane_bg", Color::hex(0x11111b)),
        bar_bg: get_color(items, "bar_bg", Color::hex(0x181825)),
        bar_fg: get_color(items, "bar_fg", Color::hex(0xa6adc8)),
        bar_accent: get_color(items, "bar_accent", Color::hex(0xb4befe)),
        focus_ring: get_color(items, "focus_ring", Color::hex(0xb4befe)),
    }
}

impl Default for Colors {
    fn default() -> (r: Self)
        ensures
            r == colors_of(Seq::empty()),
    {
        let none: Vec<Item> = Vec::new();
        assert(items_view(none@) =~= Seq::<ItemView>::empty());
        get_colors(&none)
    }
}

// ── The configuration ────────────────────────────────────────────────────────

#[derive(Debug)]
pub struct Config {
    pub font_path: String,
    pub font_size: Number,
    pub gap: u32,
    pub border_width: u32,
    pub colors: Colors,
    pub bar: BarConfig,
    /// The modules in the order in which they were defined; the last one with
    /// a given name counts.
    pub bar_modules: Vec<BarModuleDef>,
    pub keybinds: Vec<(KeyCombo, KeyAction)>,
    pub window_rules: Vec<WindowRule>,
    pub keyboard: KeyboardConfig,
    pub monitors: Vec<MonitorConfig>,
    pub exec_once: Vec<ExecEntry>,
    /// Commands that run at every start and after every reload.
    pub exec_always: Vec<ExecEntry>,
    pub seat_name: String,
    pub workspaces: u8,
}

/// The font that is used where none is found.
pub open spec fn default_font() -> Seq<char> {
    "/usr/share/fonts/TTF/JetBrainsMono-Regular.ttf"@
}

/// The number of workspaces that is set: between 1 and 32, or else 9.
pub open spec fn workspaces_of(items: Seq<ItemView>) -> int {
    match int_setting(items, "workspaces"@) {
        Some(n) => clamp(n as int, 1, 32),
        None => 9,
    }
}

/// The seat's name; `seat_name` goes before `seat`.
pub open spec fn seat_of(items: Seq<ItemView>) -> Seq<char> {
    let v = match last_value(items, "seat_name"@) {
        Some(v) => Some(v),
        None => last_value(items, "seat"@),
    };
    match v {
        Some(v) => match v.text() {
            Some(s) => s,
            None => "seat0"@,
        },
        None => "seat0"@,
    }
}

/// Whether `c` is the configuration that `items` describe, but for its font.
pub open spec fn is_config(c: Config, items: Seq<ItemView>) -> bool {
    &&& is_base(c, items)
    &&& binds_view(c.keybinds@) == all_binds(values_of(items, "keybind"@))
    &&& monitors_view(c.monitors@) == all_monitors(blocks_of(items, "monitor"@))
}

/// Whether `c` is the configuration that `items` describe, but for its font,
/// its bindings and its monitors.
pub open spec fn is_base(c: Config, items: Seq<ItemView>) -> bool {
    &&& c.font_size@ == match number_setting(items, "font_size"@) {
        Some(x) => x,
        None => crate::integer::decimal_int(14),
    }
    &&& c.gap == px_setting(items, "gap"@, 4)
    &&& c.border_width == px_setting(items, "border_width"@, 1)
    &&& c.colors == colors_of(block_items(items, "colors"@))
    &&& is_bar(c.bar, block_items(items, "bar"@))
    &&& modules_view(c.bar_modules@) == modules_of(blocks_of(items, "bar_module"@))
    &&& rules_view(c.window_rules@) == rules_of(values_of(items, "window_rule"@))
    &&& is_keyboard(c.keyboard, block_items(items, "keyboard"@))
    &&& execs_view(c.exec_once@) == execs_of(values_of(items, "exec_once"@))
    &&& execs_view(c.exec_always@) == execs_of(values_of(items, "exec"@))
    &&& c.seat_name@ == seat_of(items)
    &&& c.workspaces == workspaces_of(items)
}

/// The font that `items` ask for.
pub open spec fn font_of(items: Seq<ItemView>) -> Option<Seq<char>> {
    match last_value(items, "font"@) {
        Some(v) => v.text(),
        None => None,
    }
}

fn get_seat(items: &Vec<Item>) -> (r: String)
    ensures
        r@ == seat_of(items_view(items@)),
{
    let v = match lookup(items, "seat_name") {
        Some(v) => Some(v),
        None => lookup(items, "seat"),
    };
    match v {
        Some(v) => match v.as_str() {
            Some(s) => s.to_owned(),
            None => "seat0".to_owned(),
        },
        None => "seat0".to_owned(),
    }
}

fn get_workspaces(items: &Vec<Item>) -> (r: u8)
    ensures
        r == workspaces_of(items_view(items@)),
{
    match get_int(items, "workspaces") {
        Some(n) => if n < 1 {
            1
        } else if n > 32 {
            32
        } else {
            n as u8
        },
        None => 9,
    }
}

impl Config {
    /// The font that a file asks for, by name or by path.
    pub fn font_request(f: &ConfigFile) -> (r: Option<String>)
        ensures
            is_text(r, font_of(f.spec_items())),
    {
        match lookup(&f.items, "font") {
            Some(v) => match v.as_str() {
                Some(s) => Some(s.to_owned()),
                None => None,
            },
            None => None,
        }
    }

    /// The configuration that a file describes; `font` is the path of the font
    /// that it asks for.
    pub fn from_file(f: &ConfigFile, font: Option<String>) -> (r: Self)
        ensures
            is_config(r, f.spec_items()),
            r.font_path@ == match font {
                Some(p) => p@,
                None => default_font(),
            },
    {
        let items = &f.items;
        let none: Vec<Item> = Vec::new();
        assert(items_view(none@) =~= Seq::<ItemView>::empty());
        let font_size = match get_number(items, "font_size") {
            Some(x) => x,
            None => Number::from_int(14),
        };
        let colors = match f.block_last("colors") {
            Some(b) => get_colors(&b.items),
            None => get_colors(&none),
        };
        let keyboard = match f.block_last("keyboard") {
            Some(b) => get_keyboard(&b.items),
            None => get_keyboard(&none),
        };
        let bar = match f.block_last("bar") {
            Some(b) => get_bar(&b.items),
            None => get_bar(&none),
        };
        let bindings = f.get_all("keybind");
        Config {
            font_path: match font {
                Some(p) => p,
                None => "/usr/share/fonts/TTF/JetBrainsMono-Regular.ttf".to_owned(),
            },
            font_size,
            gap: get_px(items, "gap", 4),
            border_width: get_px(items, "border_width", 1),
            colors,
            bar,
            bar_modules: collect_modules(&f.blocks("bar_module")),
            keybinds: if bindings.len() == 0 {
                default_keybinds()
            } else {
                collect_binds(&bindings)
            },
            window_rules: collect_rules(&f.get_all("window_rule")),
            keyboard,
            monitors: collect_monitors(&f.blocks("monitor")),
            exec_once: collect_execs(&f.get_all("exec_once")),
            exec_always: collect_execs(&f.get_all("exec")),
            seat_name: get_seat(items),
            workspaces: get_workspaces(items),
        }
    }

    /// Takes over a newly read configuration, but for the font, which would
    /// have to be loaded anew, and the commands that run once.
    pub fn hot_reload(&mut self, new: Config)
        ensures
            *final(self) == (Config {
                font_path: old(self).font_path,
                exec_once: old(self).exec_once,
                ..new
            }),
    {
        self.font_size = new.font_size;
        self.gap = new.gap;
        self.border_width = new.border_width;
        self.colors = new.colors;
        self.bar = new.bar;
        self.bar_modules = new.bar_modules;
        self.keybinds = new.keybinds;
        self.window_rules = new.window_rules;
        self.keyboard = new.keyboard;
        self.monitors = new.monitors;
        self.seat_name = new.seat_name;
        self.workspaces = new.workspaces;
        self.exec_always = new.exec_always;
    }

    /// The module `name` of the bar.
    pub fn bar_module(&self, name: &str) -> (r: Option<&BarModuleDef>)
        ensures
            match r {
                Some(m) => module(modules_view(self.bar_modules@), name@) == Some(module_view(*m)),
                None => module(modules_view(self.bar_modules@), name@) is None,
            },
    {
        let ghost all = modules_view(self.bar_modules@);
        let mut n: usize = self.bar_modules.len();
        assert(all.take(n as int) =~= all);
        while n > 0
            invariant
                n <= self.bar_modules.len(),
                all == modules_view(self.bar_modules@),
                module(all, name@) == module(all.take(n as int), name@),
            decreases n,
        {
            assert(all.take(n as int).drop_last() =~= all.take(n - 1));
            assert(all.take(n as int).last() == module_view(self.bar_modules@[n - 1]));
            if same(self.bar_modules[n - 1].name.as_str(), name) {
                return Some(&self.bar_modules[n - 1]);
            }
            n -= 1;
        }
        None
    }
}

impl Default for Config {
    /// The configuration without a file: that of an empty one, but without
    /// monitors.
    fn default() -> (r: Self)
        ensures
            r.font_path@ == default_font(),
            is_base(r, Seq::empty()),
            binds_view(r.keybinds@) == default_binds(),
            r.monitors@.len() == 0,
    {
        let f = ConfigFile { items: Vec::new() };
        let mut c = Config::from_file(&f, None);
        assert(f.spec_items() =~= Seq::<ItemView>::empty());
        c.monitors = Vec::new();
        c
    }
}

// ── Unknown keys ─────────────────────────────────────────────────────────────

/// A key that means nothing where it stands.
#[derive(Debug)]
pub struct UnknownKey {
    pub key: String,
    /// The name of the block it stands in, if it stands in one.
    pub block: Option<String>,
    pub line: u32,
}

pub struct UnknownView {
    pub key: Seq<char>,
    pub block: Option<Seq<char>>,
    pub line: u32,
}

pub open spec fn unknown_view(u: UnknownKey) -> UnknownView {
    UnknownView {
        key: u.key@,
        block: match u.block {
            Some(b) => Some(b@),
            None => None,
        },
        line: u.line,
    }
}

pub open spec fn unknowns_view(v: Seq<UnknownKey>) -> Seq<UnknownView> {
    Seq::new(v.len(), |i: int| unknown_view(v[i]))
}

/// The keys that mean something: at the top level, or in the block `block`.
/// A block that is not listed here may hold any key.
pub open spec fn known_key(block: Option<Seq<char>>, key: Seq<char>) -> bool {
    match block {
        None => {
            ||| key == "font"@
            ||| key == "font_size"@
            ||| key == "gap"@
            ||| key == "border_width"@
            ||| key == "workspaces"@
            ||| key == "seat_name"@
            ||| key == "keybind"@
            ||| key == "window_rule"@
            ||| key == "exec_once"@
            ||| key == "exec"@
            ||| key == "source"@
        },
        Some(b) => if b == "colors"@ {
            ||| key == "active_border"@
            ||| key == "inactive_border"@
            ||| key == "active_title"@
            ||| key == "inactive_title"@
            ||| key == "pane_bg"@
            ||| key == "bar_bg"@
            ||| key == "bar_fg"@
            ||| key == "bar_accent"@
            ||| key == "focus_ring"@
        } else if b == "keyboard"@ {
            ||| key == "layout"@
            ||| key == "variant"@
            ||| key == "options"@
            ||| key == "repeat_rate"@
            ||| key == "repeat_delay"@
        } else if b == "bar"@ {
            ||| key == "position"@
            ||| key == "height"@
            ||| key == "padding"@
            ||| key == "item_spacing"@
            ||| key == "font_size"@
            ||| key == "glyph_y_offset"@
            ||| key == "modules_left"@
            ||| key == "modules_center"@
            ||| key == "modules_right"@
            ||| key == "bg"@
            ||| key == "fg"@
            ||| key == "accent"@
            ||| key == "dim"@
            ||| key == "separator"@
            ||| key == "separator_top"@
            ||| key == "separator_color"@
            ||| key == "active_ws_fg"@
            ||| key == "active_ws_bg"@
            ||| key == "occupied_ws_fg"@
            ||| key == "inactive_ws_fg"@
            ||| key == "pill_radius"@
        } else if b == "monitor"@ {
            ||| key == "width"@
            ||| key == "height"@
            ||| key == "refresh"@
            ||| key == "position"@
            ||| key == "scale"@
        } else {
            true
        },
    }
}

/// The keys among `keys` that mean nothing in `block`, in order.
pub open spec fn unknown_of(keys: Seq<WordView>, block: Option<Seq<char>>) -> Seq<UnknownView>
    decreases keys.len(),
{
    if keys.len() == 0 {
        Seq::empty()
    } else {
        let before = unknown_of(keys.drop_last(), block);
        let k = keys.last();
        if known_key(block, k.text) {
            before
        } else {
            before.push(UnknownView { key: k.text, block, line: k.span.line })
        }
    }
}

/// The unknown keys in each of `blocks`, all of which are named `name`.
pub open spec fn unknown_in(blocks: Seq<BlockView>, name: Seq<char>) -> Seq<UnknownView>
    decreases blocks.len(),
{
    if blocks.len() == 0 {
        Seq::empty()
    } else {
        unknown_in(blocks.drop_last(), name) + unknown_of(keys_of(blocks.last().items), Some(name))
    }
}

/// The blocks of which the last one counts.
pub open spec fn last_block(items: Seq<ItemView>, name: Seq<char>) -> Seq<BlockView> {
    match last_of(blocks_of(items, name)) {
        Some(b) => seq![b],
        None => Seq::empty(),
    }
}

/// All unknown keys of a file: at its top level, then in its last `colors`,
/// `keyboard` and `bar` blocks, then in its `monitor` blocks.
pub open spec fn all_unknown(items: Seq<ItemView>) -> Seq<UnknownView> {
    unknown_of(keys_of(items), None) + unknown_in(last_block(items, "colors"@), "colors"@)
        + unknown_in(last_block(items, "keyboard"@), "keyboard"@) + unknown_in(
        last_block(items, "bar"@),
        "bar"@,
    ) + unknown_in(blocks_of(items, "monitor"@), "monitor"@)
}

fn is_known(block: Option<&str>, key: &str) -> (r: bool)
    ensures
        r == known_key(
            match block {
                Some(b) => Some(b@),
                None => None,
            },
            key@,
        ),
{
    match block {
        None => same(key, "font") || same(key, "font_size") || same(key, "gap") || same(
            key,
            "border_width",
        ) || same(key, "workspaces") || same(key, "seat_name") || same(key, "keybind") || same(
            key,
            "window_rule",
        ) || same(key, "exec_once") || same(key, "exec") || same(key, "source"),
        Some(b) => if same(b, "colors") {
            same(key, "active_border") || same(key, "inactive_border") || same(key, "active_title")
                || same(key, "inactive_title") || same(key, "pane_bg") || same(key, "bar_bg")
                || same(key, "bar_fg") || same(key, "bar_accent") || same(key, "focus_ring")
        } else if same(b, "keyboard") {
            same(key, "layout") || same(key, "variant") || same(key, "options") || same(
                key,
                "repeat_rate",
            ) || same(key, "repeat_delay")
        } else if same(b, "bar") {
            same(key, "position") || same(key, "height") || same(key, "padding") || same(
                key,
                "item_spacing",
            ) || same(key, "font_size") || same(key, "glyph_y_offset") || same(key, "modules_left")
                || same(key, "modules_center") || same(key, "modules_right") || same(key, "bg")
                || same(key, "fg") || same(key, "accent") || same(key, "dim") || same(
                key,
                "separator",
            ) || same(key, "separator_top") || same(key, "separator_color") || same(
                key,
                "active_ws_fg",
            ) || same(key, "active_ws_bg") || same(key, "occupied_ws_fg") || same(
                key,
                "inactive_ws_fg",
            ) || same(key, "pill_radius")
        } else if same(b, "monitor") {
            same(key, "width") || same(key, "height") || same(key, "refresh") || same(
                key,
                "position",
            ) || same(key, "scale")
        } else {
            true
        },
    }
}

/// Appends the unknown keys among `keys`.
fn warn_unknown_keys(out: &mut Vec<UnknownKey>, block: Option<&str>, keys: &Vec<&Spanned<String>>)
    ensures
        unknowns_view(final(out)@) == unknowns_view(old(out)@) + unknown_of(
            word_refs_view(keys@),
            match block {
                Some(b) => Some(b@),
                None => None,
            },
        ),
{
    let ghost all = word_refs_view(keys@);
    let ghost bv = match block {
        Some(b) => Some(b@),
        None => None,
    };
    let mut i: usize = 0;
    assert(unknowns_view(out@) =~= unknowns_view(old(out)@) + unknown_of(all.take(0), bv));
    while i < keys.len()
        invariant
            i <= keys.len(),
            all == word_refs_view(keys@),
            bv == match block {
                Some(b) => Some(b@),
                None => None,
            },
            unknowns_view(out@) == unknowns_view(old(out)@) + unknown_of(all.take(i as int), bv),
        decreases keys.len() - i,
    {
        let ghost before = out@;
        let k: &Spanned<String> = keys[i];
        assert(all[i as int] == word_view(*k));
        let ghost done = unknown_of(all.take(i as int), bv);
        if !is_known(block, k.value.as_str()) {
            let u = UnknownKey {
                key: k.value.clone(),
                block: match block {
                    Some(b) => Some(b.to_owned()),
                    None => None,
                },
                line: k.span.line,
            };
            out.push(u);
            assert(unknowns_view(out@) =~= unknowns_view(before).push(unknown_view(u)));
            assert(unknowns_view(out@) =~= unknowns_view(old(out)@) + done.push(unknown_view(u)));
        }
        i += 1;
        assert(all.take(i as int).drop_last() =~= all.take(i - 1));
    }
    assert(all.take(i as int) =~= all);
}

/// Appends the unknown keys in each of `blocks`, all of which are named `name`.
fn warn_blocks(out: &mut Vec<UnknownKey>, name: &str, blocks: &Vec<&Block>)
    ensures
        unknowns_view(final(out)@) == unknowns_view(old(out)@) + unknown_in(
            block_refs_view(blocks@),
            name@,
        ),
{
    let ghost all = block_refs_view(blocks@);
    let mut i: usize = 0;
    assert(unknowns_view(out@) =~= unknowns_view(old(out)@) + unknown_in(all.take(0), name@));
    while i < blocks.len()
        invariant
            i <= blocks.len(),
            all == block_refs_view(blocks@),
            unknowns_view(out@) == unknowns_view(old(out)@) + unknown_in(all.take(i as int), name@),
        decreases blocks.len() - i,
    {
        let ghost before = out@;
        let b: &Block = blocks[i];
        assert(all[i as int] == block_view(*b));
        warn_unknown_keys(out, Some(name), &b.assignment_keys());
        i += 1;
        proof {
            let more = unknown_of(keys_of(b.spec_items()), Some(name@));
            assert(all.take(i as int).drop_last() =~= all.take(i - 1));
            assert(unknowns_view(old(out)@) + unknown_in(all.take(i - 1), name@) + more
                =~= unknowns_view(old(out)@) + (unknown_in(all.take(i - 1), name@) + more));
        }
    }
    assert(all.take(i as int) =~= all);
}

fn as_list<'a>(b: Option<&'a Block>) -> (r: Vec<&'a Block>)
    ensures
        block_refs_view(r@) == match b {
            Some(x) => seq![block_view(*x)],
            None => Seq::empty(),
        },
{
    let mut r: Vec<&'a Block> = Vec::new();
    match b {
        Some(x) => {
            r.push(x);
            assert(block_refs_view(r@) =~= seq![block_view(*x)]);
        },
        None => {
            assert(block_refs_view(r@) =~= Seq::<BlockView>::empty());
        },
    }
    r
}

impl Config {
    /// The keys of a file that mean nothing where they stand. They are no
    /// errors.
    pub fn unknown_keys(f: &ConfigFile) -> (r: Vec<UnknownKey>)
        ensures
            unknowns_view(r@) == all_unknown(f.spec_items()),
    {
        let mut out: Vec<UnknownKey> = Vec::new();
        assert(unknowns_view(out@) =~= Seq::<UnknownView>::empty());
        warn_unknown_keys(&mut out, None, &f.assignment_keys());
        warn_blocks(&mut out, "colors", &as_list(f.block_last("colors")));
        warn_blocks(&mut out, "keyboard", &as_list(f.block_last("keyboard")));
        warn_blocks(&mut out, "bar", &as_list(f.block_last("bar")));
        warn_blocks(&mut out, "monitor", &f.blocks("monitor"));
        assert(unknowns_view(out@) =~= all_unknown(f.spec_items()));
        out
    }
}

// ── Laws ─────────────────────────────────────────────────────────────────────

/// A configuration always has at least one monitor.
pub proof fn law_some_monitor(c: Config, items: Seq<ItemView>)
    requires
        is_config(c, items),
    ensures
        c.monitors@.len() >= 1,
{
    assert(monitors_view(c.monitors@).len() == c.monitors@.len());
}

/// The number of workspaces is between 1 and 32.
pub proof fn law_workspaces_in_range(c: Config, items: Seq<ItemView>)
    requires
        is_config(c, items),
    ensures
        1 <= c.workspaces <= 32,
{
}

/// The bindings of a file that sets any are those that it defines, in its
/// order, and no others.
pub proof fn law_bindings_are_defined(c: Config, items: Seq<ItemView>, b: BindView)
    requires
        is_config(c, items),
        values_of(items, "keybind"@).len() > 0,
        binds_view(c.keybinds@).contains(b),
    ensures
        exists|i: int|
            0 <= i < values_of(items, "keybind"@).len() && bind_of(
                (#[trigger] values_of(items, "keybind"@)[i]).value,
            ) == Some(b),
{
    lemma_bind_is_defined(values_of(items, "keybind"@), b);
}

proof fn lemma_bind_is_defined(values: Seq<SpannedView>, b: BindView)
    requires
        binds_of(values).contains(b),
    ensures
        exists|i: int| 0 <= i < values.len() && bind_of((#[trigger] values[i]).value) == Some(b),
    decreases values.len(),
{
    if values.len() > 0 {
        let rest = values.drop_last();
        let before = binds_of(rest);
        if before.contains(b) {
            lemma_bind_is_defined(rest, b);
            let i = choose|i: int|
                0 <= i < rest.len() && bind_of((#[trigger] rest[i]).value) == Some(b);
            assert(bind_of(values[i].value) == Some(b));
        } else {
            let all = binds_of(values);
            let k = choose|k: int| 0 <= k < all.len() && all[k] == b;
            if k < before.len() {
                assert(before[k] == b);
            }
            assert(bind_of(values[values.len() - 1].value) == Some(b));
        }
    }
}

/// Whether an item of a file has a name that the configuration reads.
pub open spec fn is_read(item: ItemView) -> bool {
    match item {
        ItemView::Assignment { key, .. } => {
            ||| key.text == "font"@
            ||| key.text == "font_size"@
            ||| key.text == "gap"@
            ||| key.text == "border_width"@
            ||| key.text == "workspaces"@
            ||| key.text == "seat_name"@
            ||| key.text == "seat"@
            ||| key.text == "keybind"@
            ||| key.text == "window_rule"@
            ||| key.text == "exec_once"@
            ||| key.text == "exec"@
        },
        ItemView::Block(b) => {
            ||| b.name.text == "colors"@
            ||| b.name.text == "keyboard"@
            ||| b.name.text == "bar"@
            ||| b.name.text == "bar_module"@
            ||| b.name.text == "monitor"@
        },
    }
}

/// The items of a file that the configuration reads.
pub open spec fn items_read(items: Seq<ItemView>) -> Seq<ItemView>
    decreases items.len(),
{
    if items.len() == 0 {
        Seq::empty()
    } else {
        let before = items_read(items.drop_last());
        if is_read(items.last()) {
            before.push(items.last())
        } else {
            before
        }
    }
}

/// Keys and blocks of other names are accepted and change nothing: without them,
/// the configuration is the same in every field, and asks for the same font.
pub proof fn law_unknown_items_change_nothing(c: Config, items: Seq<ItemView>)
    ensures
        is_config(c, items) <==> is_config(c, items_read(items)),
        font_of(items) == font_of(items_read(items)),
{
    lemma_values_read(items, "font"@);
    lemma_values_read(items, "font_size"@);
    lemma_values_read(items, "gap"@);
    lemma_values_read(items, "border_width"@);
    lemma_values_read(items, "workspaces"@);
    lemma_values_read(items, "seat_name"@);
    lemma_values_read(items, "seat"@);
    lemma_values_read(items, "keybind"@);
    lemma_values_read(items, "window_rule"@);
    lemma_values_read(items, "exec_once"@);
    lemma_values_read(items, "exec"@);
    lemma_blocks_read(items, "colors"@);
    lemma_blocks_read(items, "keyboard"@);
    lemma_blocks_read(items, "bar"@);
    lemma_blocks_read(items, "bar_module"@);
    lemma_blocks_read(items, "monitor"@);
}

proof fn lemma_values_read(items: Seq<ItemView>, key: Seq<char>)
    requires
        key == "font"@ || key == "font_size"@ || key == "gap"@ || key == "border_width"@ || key
            == "workspaces"@ || key == "seat_name"@ || key == "seat"@ || key == "keybind"@ || key
            == "window_rule"@ || key == "exec_once"@ || key == "exec"@,
    ensures
        values_of(items_read(items), key) == values_of(items, key),
    decreases items.len(),
{
    if items.len() > 0 {
        lemma_values_read(items.drop_last(), key);
        let before = items_read(items.drop_last());
        assert(before.push(items.last()).drop_last() =~= before);
    }
}

proof fn lemma_blocks_read(items: Seq<ItemView>, name: Seq<char>)
    requires
        name == "colors"@ || name == "keyboard"@ || name == "bar"@ || name == "bar_module"@ || name
            == "monitor"@,
    ensures
        blocks_of(items_read(items), name) == blocks_of(items, name),
    decreases items.len(),
{
    if items.len() > 0 {
        lemma_blocks_read(items.drop_last(), name);
        let before = items_read(items.drop_last());
        assert(before.push(items.last()).drop_last() =~= before);
    }
}

/// The items of a block of this name whose keys mean something there.
pub open spec fn keys_read(items: Seq<ItemView>, name: Seq<char>) -> Seq<ItemView>
    decreases items.len(),
{
    if items.len() == 0 {
        Seq::empty()
    } else {
        let before = keys_read(items.drop_last(), name);
        match items.last() {
            ItemView::Assignment { key, .. } => if known_key(Some(name), key.text) {
                before.push(items.last())
            } else {
                before
            },
            ItemView::Block(_) => before,
        }
    }
}

/// Keys of other names in a block, and blocks in it, change nothing.
pub proof fn law_unknown_keys_change_nothing(
    items: Seq<ItemView>,
    keyboard: KeyboardConfig,
    bar: BarConfig,
    monitor: Seq<char>,
)
    ensures
        colors_of(keys_read(items, "colors"@)) == colors_of(items),
        is_keyboard(keyboard, keys_read(items, "keyboard"@)) <==> is_keyboard(keyboard, items),
        is_bar(bar, keys_read(items, "bar"@)) <==> is_bar(bar, items),
        monitor_of(monitor, keys_read(items, "monitor"@)) == monitor_of(monitor, items),
{
    assert forall|key: Seq<char>| known_key(Some("colors"@), key) implies #[trigger] values_of(
        keys_read(items, "colors"@),
        key,
    ) == values_of(items, key) by {
        lemma_keys_read(items, "colors"@, key);
    }
    assert forall|key: Seq<char>| known_key(Some("keyboard"@), key) implies #[trigger] values_of(
        keys_read(items, "keyboard"@),
        key,
    ) == values_of(items, key) by {
        lemma_keys_read(items, "keyboard"@, key);
    }
    assert forall|key: Seq<char>| known_key(Some("bar"@), key) implies #[trigger] values_of(
        keys_read(items, "bar"@),
        key,
    ) == values_of(items, key) by {
        lemma_keys_read(items, "bar"@, key);
    }
    assert forall|key: Seq<char>| known_key(Some("monitor"@), key) implies #[trigger] values_of(
        keys_read(items, "monitor"@),
        key,
    ) == values_of(items, key) by {
        lemma_keys_read(items, "monitor"@, key);
    }
    lemma_block_names();
}

/// The names of blocks are different ones.
proof fn lemma_block_names()
    ensures
        "colors"@ != "keyboard"@,
        "colors"@ != "bar"@,
        "colors"@ != "monitor"@,
        "keyboard"@ != "bar"@,
        "keyboard"@ != "monitor"@,
        "bar"@ != "monitor"@,
{
    reveal_strlit("colors");
    reveal_strlit("keyboard");
    reveal_strlit("bar");
    reveal_strlit("monitor");
    assert("colors"@.len() == 6 && "keyboard"@.len() == 8 && "bar"@.len() == 3 && "monitor"@.len()
        == 7);
}

proof fn lemma_keys_read(items: Seq<ItemView>, name: Seq<char>, key: Seq<char>)
    requires
        known_key(Some(name), key),
    ensures
        values_of(keys_read(items, name), key) == values_of(items, key),
    decreases items.len(),
{
    if items.len() > 0 {
        lemma_keys_read(items.drop_last(), name, key);
        let before = keys_read(items.drop_last(), name);
        assert(before.push(items.last()).drop_last() =~= before);
    }
}

} // verus!
