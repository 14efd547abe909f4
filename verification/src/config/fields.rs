//! What a line of the configuration sets: its own field, and no other.

use vstd::prelude::*;

use crate::chrome::bar::{layout_with, workspaces_with, Align, CustomModule};
use crate::config::color::Color;
use crate::config::keys::{action_of, combo_of};
use crate::config::rules::{effect_of, matcher_of, rules_view, EffectView, RuleView};
use crate::config::settings::{
    all_binds, args_of, bind_of, binds_of, colors_of, effects_of, exec_of, execs_view, is_bar,
    is_base, is_keyboard, is_text, modules_view, monitor_of, prop, rules_of, style_of, texts_of,
    BarConfig, BarPosition, Colors, Config, KeyboardConfig, PropView,
};
use crate::config::value::{
    blocks_of, last_value, values_of, BlockView, ItemView, SpannedView, ValueView, WordView,
};
use crate::integer::decimal_int;
use crate::text::{strings_view, words_spec};

verus! {

/// The items with a line more, `key = value`.
pub open spec fn with_line(items: Seq<ItemView>, key: WordView, value: SpannedView) -> Seq<ItemView> {
    items + seq![ItemView::Assignment { key, value }]
}

/// The items with a block more.
pub open spec fn with_block(items: Seq<ItemView>, b: BlockView) -> Seq<ItemView> {
    items + seq![ItemView::Block(b)]
}

proof fn lemma_line(items: Seq<ItemView>, key: WordView, value: SpannedView)
    ensures
        forall|k: Seq<char>| #[trigger]
            values_of(with_line(items, key, value), k) == (if key.text == k {
                values_of(items, k).push(value)
            } else {
                values_of(items, k)
            }),
        forall|k: Seq<char>| #[trigger]
            last_value(with_line(items, key, value), k) == (if key.text == k {
                Some(value.value)
            } else {
                last_value(items, k)
            }),
        forall|n: Seq<char>| #[trigger]
            blocks_of(with_line(items, key, value), n) == blocks_of(items, n),
{
    let all = with_line(items, key, value);
    assert(all.drop_last() =~= items);
    assert(all.last() == ItemView::Assignment { key, value });
    assert forall|k: Seq<char>| #[trigger]
        values_of(all, k) == (if key.text == k {
            values_of(items, k).push(value)
        } else {
            values_of(items, k)
        }) by {}
    assert forall|k: Seq<char>| #[trigger] last_value(all, k) == (if key.text == k {
        Some(value.value)
    } else {
        last_value(items, k)
    }) by {
        assert(values_of(all, k) == (if key.text == k {
            values_of(items, k).push(value)
        } else {
            values_of(items, k)
        }));
    }
    assert forall|n: Seq<char>| #[trigger] blocks_of(all, n) == blocks_of(items, n) by {}
}

proof fn lemma_block(items: Seq<ItemView>, b: BlockView)
    ensures
        forall|k: Seq<char>| #[trigger]
            values_of(with_block(items, b), k) == values_of(items, k),
        forall|k: Seq<char>| #[trigger]
            last_value(with_block(items, b), k) == last_value(items, k),
        forall|n: Seq<char>| #[trigger]
            blocks_of(with_block(items, b), n) == (if b.name.text == n {
                blocks_of(items, n).push(b)
            } else {
                blocks_of(items, n)
            }),
{
    let all = with_block(items, b);
    assert(all.drop_last() =~= items);
    assert(all.last() == ItemView::Block(b));
    assert forall|k: Seq<char>| #[trigger] values_of(all, k) == values_of(items, k) by {}
    assert forall|k: Seq<char>| #[trigger] last_value(all, k) == last_value(items, k) by {
        assert(values_of(all, k) == values_of(items, k));
    }
    assert forall|n: Seq<char>| #[trigger] blocks_of(all, n) == (if b.name.text == n {
        blocks_of(items, n).push(b)
    } else {
        blocks_of(items, n)
    }) by {}
}

/// What a field is after a line: the value where the line is for it, else what it was.
pub open spec fn set_by<T>(key: WordView, field: Seq<char>, value: T, was: T) -> T {
    if key.text == field {
        value
    } else {
        was
    }
}

/// A color in the `colors` block is that of the part that it names.
pub proof fn law_colors_are_set(items: Seq<ItemView>, key: WordView, value: SpannedView, c: Color)
    requires
        value.value == ValueView::Color(c.r, c.g, c.b, c.a),
    ensures
        ({
            let a = colors_of(items);
            let b = colors_of(with_line(items, key, value));
            &&& b.active_border == set_by(key, "active_border"@, c, a.active_border)
            &&& b.inactive_border == set_by(key, "inactive_border"@, c, a.inactive_border)
            &&& b.active_title == set_by(key, "active_title"@, c, a.active_title)
            &&& b.inactive_title == set_by(key, "inactive_title"@, c, a.inactive_title)
            &&& b.pane_bg == set_by(key, "pane_bg"@, c, a.pane_bg)
            &&& b.bar_bg == set_by(key, "bar_bg"@, c, a.bar_bg)
            &&& b.bar_fg == set_by(key, "bar_fg"@, c, a.bar_fg)
            &&& b.bar_accent == set_by(key, "bar_accent"@, c, a.bar_accent)
            &&& b.focus_ring == set_by(key, "focus_ring"@, c, a.focus_ring)
        }),
{
    lemma_line(items, key, value);
}

/// A color in the `bar` block is that of the part of the bar that it names.
pub proof fn law_bar_colors_are_set(
    items: Seq<ItemView>,
    key: WordView,
    value: SpannedView,
    c: Color,
)
    requires
        value.value == ValueView::Color(c.r, c.g, c.b, c.a),
    ensures
        ({
            let a = style_of(items);
            let b = style_of(with_line(items, key, value));
            &&& b.bg == set_by(key, "bg"@, c, a.bg)
            &&& b.fg == set_by(key, "fg"@, c, a.fg)
            &&& b.accent == set_by(key, "accent"@, c, a.accent)
            &&& b.dim == set_by(key, "dim"@, c, a.dim)
            &&& b.separator_color == set_by(key, "separator_color"@, c, a.separator_color)
            &&& b.active_ws_fg == set_by(key, "active_ws_fg"@, c, a.active_ws_fg)
            &&& b.active_ws_bg == set_by(key, "active_ws_bg"@, c, a.active_ws_bg)
            &&& b.occupied_ws_fg == set_by(key, "occupied_ws_fg"@, c, a.occupied_ws_fg)
            &&& b.inactive_ws_fg == set_by(key, "inactive_ws_fg"@, c, a.inactive_ws_fg)
        }),
{
    lemma_line(items, key, value);
}

/// A number in the `bar` block is the length that it names.
pub proof fn law_bar_lengths_are_set(
    items: Seq<ItemView>,
    key: WordView,
    value: SpannedView,
    n: i32,
)
    requires
        value.value == ValueView::Int(n as i64),
        n >= 0,
    ensures
        ({
            let a = style_of(items);
            let b = style_of(with_line(items, key, value));
            &&& b.height == set_by(key, "height"@, n as u32, a.height)
            &&& b.padding == set_by(key, "padding"@, n as u32, a.padding)
            &&& b.item_spacing == set_by(key, "item_spacing"@, n as u32, a.item_spacing)
            &&& b.pill_radius == set_by(key, "pill_radius"@, n as u32, a.pill_radius)
            &&& b.glyph_y_offset == set_by(key, "glyph_y_offset"@, n, a.glyph_y_offset)
        }),
{
    lemma_line(items, key, value);
}

/// A truth value in the `bar` block is the switch that it names, and a word is the side
/// of the screen.
pub proof fn law_bar_switches_are_set(
    items: Seq<ItemView>,
    key: WordView,
    value: SpannedView,
    on: bool,
)
    requires
        value.value == ValueView::Bool(on) || value.value == ValueView::Ident(
            if on {
                "on"@
            } else {
                "off"@
            },
        ),
    ensures
        ({
            let a = style_of(items);
            let b = style_of(with_line(items, key, value));
            &&& b.separator == set_by(key, "separator"@, on, a.separator)
            &&& b.separator_top == set_by(key, "separator_top"@, on, a.separator_top)
        }),
{
    lemma_line(items, key, value);
    reveal_strlit("on");
    reveal_strlit("off");
    reveal_strlit("true");
    reveal_strlit("yes");
    reveal_strlit("false");
    reveal_strlit("no");
    assert("on"@.len() == 2 && "off"@.len() == 3 && "true"@.len() == 4 && "yes"@.len() == 3
        && "false"@.len() == 5 && "no"@.len() == 2);
    assert("on"@[0] == 'o' && "no"@[0] == 'n' && "off"@[0] == 'o' && "yes"@[0] == 'y');
}

/// The bar is at the top where it is told so, and at the bottom where it is told
/// anything else or nothing.
pub proof fn law_bar_side(items: Seq<ItemView>, key: WordView, value: SpannedView, word: Seq<char>)
    requires
        value.value == ValueView::Ident(word) || value.value == ValueView::String(word),
    ensures
        style_of(with_line(items, key, value)).position == set_by(
            key,
            "position"@,
            if word == "top"@ {
                BarPosition::Top
            } else {
                BarPosition::Bottom
            },
            style_of(items).position,
        ),
        last_value(items, "position"@) is None ==> style_of(items).position == BarPosition::Bottom,
{
    lemma_line(items, key, value);
}

/// A list of modules is that of the side of the bar that it names.
pub proof fn law_modules_are_listed(
    items: Seq<ItemView>,
    key: WordView,
    value: SpannedView,
    word: Seq<char>,
    a: BarConfig,
    b: BarConfig,
)
    requires
        value.value == ValueView::Ident(word) || value.value == ValueView::String(word),
        is_bar(a, items),
        is_bar(b, with_line(items, key, value)),
    ensures
        strings_view(b.modules_left@) == set_by(
            key,
            "modules_left"@,
            seq![word],
            strings_view(a.modules_left@),
        ),
        strings_view(b.modules_center@) == set_by(
            key,
            "modules_center"@,
            seq![word],
            strings_view(a.modules_center@),
        ),
        strings_view(b.modules_right@) == set_by(
            key,
            "modules_right"@,
            seq![word],
            strings_view(a.modules_right@),
        ),
{
    lemma_line(items, key, value);
}

/// A word in the `keyboard` block is what it names, and so is a number.
pub proof fn law_keyboard_is_set(
    items: Seq<ItemView>,
    key: WordView,
    value: SpannedView,
    word: Seq<char>,
    n: u32,
    a: KeyboardConfig,
    b: KeyboardConfig,
)
    requires
        is_keyboard(a, items),
        is_keyboard(b, with_line(items, key, value)),
        word.len() > 0,
    ensures
        value.value == ValueView::String(word) ==> {
            &&& key.text == "layout"@ ==> is_text(b.layout, Some(word))
            &&& key.text == "variant"@ ==> is_text(b.variant, Some(word))
            &&& key.text == "options"@ ==> is_text(b.options, Some(word))
        },
        value.value == ValueView::Int(n as i64) ==> {
            &&& b.repeat_rate == set_by(key, "repeat_rate"@, n, a.repeat_rate)
            &&& b.repeat_delay == set_by(key, "repeat_delay"@, n, a.repeat_delay)
        },
        key.text != "layout"@ ==> exists|t: Option<Seq<char>>|
            #[trigger] is_text(a.layout, t) && is_text(b.layout, t),
        key.text != "variant"@ ==> exists|t: Option<Seq<char>>|
            #[trigger] is_text(a.variant, t) && is_text(b.variant, t),
        key.text != "options"@ ==> exists|t: Option<Seq<char>>|
            #[trigger] is_text(a.options, t) && is_text(b.options, t),
{
    lemma_line(items, key, value);
    assert(is_text(a.layout, crate::config::settings::text_setting(items, "layout"@)));
    assert(is_text(a.variant, crate::config::settings::text_setting(items, "variant"@)));
    assert(is_text(a.options, crate::config::settings::text_setting(items, "options"@)));
}

/// A number in a `monitor` block is the length or the rate that it names; two of them
/// are its position, across and down.
pub proof fn law_monitor_is_set(
    name: Seq<char>,
    items: Seq<ItemView>,
    key: WordView,
    value: SpannedView,
    n: u32,
    x: SpannedView,
    y: SpannedView,
    px: i32,
    py: i32,
)
    ensures
        ({
            let a = monitor_of(name, items);
            let b = monitor_of(name, with_line(items, key, value));
            &&& a.name == name && b.name == name
            &&& value.value == ValueView::Int(n as i64) ==> {
                &&& b.width == set_by(key, "width"@, n, a.width)
                &&& b.height == set_by(key, "height"@, n, a.height)
                &&& b.refresh == set_by(key, "refresh"@, n, a.refresh)
                &&& b.scale == set_by(key, "scale"@, decimal_int(n as int), a.scale)
            }
            &&& value.value == ValueView::Array(seq![x, y]) && x.value == ValueView::Int(px as i64)
                && y.value == ValueView::Int(py as i64) ==> b.position == set_by(
                key,
                "position"@,
                (px, py),
                a.position,
            )
            &&& key.text != "position"@ ==> b.position == a.position
        }),
{
    lemma_line(items, key, value);
}

/// A number outside of all blocks is what it names. There are from one to 32
/// workspaces.
pub proof fn law_numbers_are_set(
    items: Seq<ItemView>,
    key: WordView,
    value: SpannedView,
    n: u32,
    a: Config,
    b: Config,
)
    requires
        value.value == ValueView::Int(n as i64),
        is_base(a, items),
        is_base(b, with_line(items, key, value)),
    ensures
        b.gap == set_by(key, "gap"@, n, a.gap),
        b.border_width == set_by(key, "border_width"@, n, a.border_width),
        b.font_size@ == set_by(key, "font_size"@, decimal_int(n as int), a.font_size@),
        key.text != "workspaces"@ ==> b.workspaces == a.workspaces,
        key.text == "workspaces"@ ==> 1 <= b.workspaces <= 32,
        key.text == "workspaces"@ && 1 <= n <= 32 ==> b.workspaces == n,
        key.text == "workspaces"@ && n == 0 ==> b.workspaces == 1,
        key.text == "workspaces"@ && n > 32 ==> b.workspaces == 32,
{
    lemma_line(items, key, value);
}

/// A line outside of all blocks leaves what the blocks set. A command line is added to
/// those that it is for: run once, or at each start.
pub proof fn law_commands_are_added(
    items: Seq<ItemView>,
    key: WordView,
    value: SpannedView,
    line: Seq<char>,
    a: Config,
    b: Config,
)
    requires
        value.value == ValueView::String(line),
        is_base(a, items),
        is_base(b, with_line(items, key, value)),
    ensures
        b.colors == a.colors,
        b.bar.style == a.bar.style,
        modules_view(b.bar_modules@) == modules_view(a.bar_modules@),
        key.text != "exec_once"@ ==> execs_view(b.exec_once@) == execs_view(a.exec_once@),
        key.text != "exec"@ ==> execs_view(b.exec_always@) == execs_view(a.exec_always@),
        key.text == "exec_once"@ ==> execs_view(b.exec_once@) == execs_view(a.exec_once@).push(
            exec_of(line),
        ),
        key.text == "exec"@ ==> execs_view(b.exec_always@) == execs_view(a.exec_always@).push(
            exec_of(line),
        ),
        key.text != "window_rule"@ ==> rules_view(b.window_rules@) == rules_view(a.window_rules@),
        key.text != "seat"@ && key.text != "seat_name"@ ==> b.seat_name@ == a.seat_name@,
        key.text == "seat_name"@ ==> b.seat_name@ == line,
        key.text == "seat"@ && last_value(items, "seat_name"@) is None ==> b.seat_name@ == line,
{
    lemma_line(items, key, value);
    reveal_strlit("seat");
    reveal_strlit("seat_name");
    assert("seat"@.len() == 4 && "seat_name"@.len() == 9);
    let once = values_of(items, "exec_once"@);
    assert(once.push(value).drop_last() =~= once);
    let always = values_of(items, "exec"@);
    assert(always.push(value).drop_last() =~= always);
}

/// A command is its first word, and its arguments are the other words, in order.
pub proof fn law_command_words(line: Seq<char>)
    ensures
        words_spec(line).len() > 0 ==> exec_of(line).args.len() == words_spec(line).len() - 1,
        words_spec(line).len() > 0 ==> seq![exec_of(line).command] + exec_of(line).args
            == words_spec(line),
        words_spec(line).len() == 0 ==> exec_of(line).command.len() == 0 && exec_of(
            line,
        ).args.len() == 0,
{
    if words_spec(line).len() > 0 {
        assert(seq![exec_of(line).command] + exec_of(line).args =~= words_spec(line));
    }
}

/// A block sets what it is named for, in place of an earlier block of that name, and
/// leaves the rest.
pub proof fn law_blocks_are_set(items: Seq<ItemView>, block: BlockView, a: Config, b: Config)
    requires
        is_base(a, items),
        is_base(b, with_block(items, block)),
    ensures
        b.colors == set_by(block.name, "colors"@, colors_of(block.items), a.colors),
        b.bar.style == set_by(block.name, "bar"@, style_of(block.items), a.bar.style),
        block.name.text == "bar"@ ==> is_bar(b.bar, block.items),
        block.name.text == "keyboard"@ ==> is_keyboard(b.keyboard, block.items),
        block.name.text != "bar_module"@ ==> modules_view(b.bar_modules@) == modules_view(
            a.bar_modules@,
        ),
        b.gap == a.gap && b.border_width == a.border_width && b.workspaces == a.workspaces,
        b.font_size@ == a.font_size@ && b.seat_name@ == a.seat_name@,
        execs_view(b.exec_once@) == execs_view(a.exec_once@),
        execs_view(b.exec_always@) == execs_view(a.exec_always@),
        rules_view(b.window_rules@) == rules_view(a.window_rules@),
{
    lemma_block(items, block);
}

// ── Lists ────────────────────────────────────────────────────────────────────

/// Whether an array holds these words, as text or as whole numbers.
pub open spec fn holds_words(items: Seq<SpannedView>, w: Seq<Seq<char>>) -> bool {
    &&& items.len() == w.len()
    &&& forall|i: int|
        0 <= i < w.len() ==> (#[trigger] items[i]).value == ValueView::String(w[i])
            || items[i].value == ValueView::Ident(w[i]) || (items[i].value matches ValueView::Int(n)
            && w[i] == decimal_int(n as int))
}

proof fn lemma_args(items: Seq<SpannedView>, w: Seq<Seq<char>>)
    requires
        holds_words(items, w),
    ensures
        args_of(items) == w,
    decreases w.len(),
{
    if w.len() > 0 {
        assert(items.last() == items[w.len() - 1]);
        assert forall|i: int| 0 <= i < w.len() - 1 implies (
        #[trigger] items.drop_last()[i]).value == ValueView::String(w.drop_last()[i])
            || items.drop_last()[i].value == ValueView::Ident(w.drop_last()[i]) || (
        items.drop_last()[i].value matches ValueView::Int(n) && w.drop_last()[i] == decimal_int(
            n as int,
        )) by {
            assert(items.drop_last()[i] == items[i]);
        }
        lemma_args(items.drop_last(), w.drop_last());
        assert(w.drop_last().push(w.last()) =~= w);
    } else {
        assert(w =~= Seq::<Seq<char>>::empty());
    }
}

proof fn lemma_texts(items: Seq<SpannedView>, w: Seq<Seq<char>>)
    requires
        holds_words(items, w),
        forall|i: int| 0 <= i < items.len() ==> !((#[trigger] items[i]).value is Int),
    ensures
        texts_of(items) == w,
    decreases w.len(),
{
    if w.len() > 0 {
        assert(items.last() == items[w.len() - 1]);
        assert forall|i: int| 0 <= i < w.len() - 1 implies (
        #[trigger] items.drop_last()[i]).value == ValueView::String(w.drop_last()[i])
            || items.drop_last()[i].value == ValueView::Ident(w.drop_last()[i]) by {
            assert(items.drop_last()[i] == items[i]);
        }
        assert forall|i: int| 0 <= i < items.len() - 1 implies !((
        #[trigger] items.drop_last()[i]).value is Int) by {
            assert(items.drop_last()[i] == items[i]);
        }
        lemma_texts(items.drop_last(), w.drop_last());
        assert(w.drop_last().push(w.last()) =~= w);
    } else {
        assert(w =~= Seq::<Seq<char>>::empty());
    }
}

/// A line that binds keys adds one binding behind the others: its first word is the
/// combination, the second the action, and the others are the arguments.
pub proof fn law_bindings_are_added(
    values: Seq<SpannedView>,
    v: SpannedView,
    items: Seq<SpannedView>,
    w: Seq<Seq<char>>,
)
    requires
        v.value == ValueView::Array(items),
        holds_words(items, w),
        w.len() >= 2,
        combo_of(w[0]) is Some,
        action_of(w[1], w.subrange(2, w.len() as int)) is Some,
    ensures
        ({
            let before = if values.len() > 0 {
                all_binds(values)
            } else {
                Seq::empty()
            };
            let after = all_binds(values.push(v));
            &&& after.len() == before.len() + 1
            &&& forall|i: int| 0 <= i < before.len() ==> #[trigger] after[i] == before[i]
            &&& Some(after.last().combo) == combo_of(w[0])
            &&& Some(after.last().action) == action_of(w[1], w.subrange(2, w.len() as int))
        }),
{
    lemma_args(items, w);
    assert(w.skip(2) =~= w.subrange(2, w.len() as int));
    assert(values.push(v).drop_last() =~= values);
    assert(values.push(v).last() == v);
    assert(all_binds(values.push(v)) == binds_of(values).push(bind_of(v.value)->0));
    if values.len() == 0 {
        assert(binds_of(values).len() == 0);
    }
}

/// A line with a rule for windows adds one rule behind the others: its first word says
/// which windows, the others what is done to them.
pub proof fn law_rules_are_added(
    values: Seq<SpannedView>,
    v: SpannedView,
    items: Seq<SpannedView>,
    w: Seq<Seq<char>>,
    effects: Seq<EffectView>,
)
    requires
        v.value == ValueView::Array(items),
        holds_words(items, w),
        forall|i: int| 0 <= i < items.len() ==> !((#[trigger] items[i]).value is Int),
        w.len() == effects.len() + 1,
        forall|i: int| 0 <= i < effects.len() ==> effect_of(w[i + 1]) == Some(#[trigger] effects[i]),
    ensures
        rules_of(values.push(v)) == rules_of(values) + seq![
            RuleView { matcher: matcher_of(w[0]), effects },
        ],
{
    lemma_texts(items, w);
    assert(values.push(v).drop_last() =~= values);
    let rest = w.skip(1);
    assert forall|i: int| 0 <= i < effects.len() implies effect_of(rest[i]) == Some(
        #[trigger] effects[i],
    ) by {
        assert(rest[i] == w[i + 1]);
    }
    lemma_effects(rest, effects);
    assert(rules_of(values.push(v)) =~= rules_of(values) + seq![
        RuleView { matcher: matcher_of(w[0]), effects },
    ]);
}

proof fn lemma_effects(w: Seq<Seq<char>>, effects: Seq<EffectView>)
    requires
        w.len() == effects.len(),
        forall|i: int| 0 <= i < effects.len() ==> effect_of(w[i]) == Some(#[trigger] effects[i]),
    ensures
        effects_of(w) == effects,
    decreases w.len(),
{
    if w.len() > 0 {
        assert(effect_of(w[w.len() - 1]) == Some(effects[w.len() - 1]));
        assert forall|i: int| 0 <= i < effects.len() - 1 implies effect_of(w.drop_last()[i])
            == Some(#[trigger] effects.drop_last()[i]) by {
            assert(effects.drop_last()[i] == effects[i]);
        }
        lemma_effects(w.drop_last(), effects.drop_last());
        assert(effects.drop_last().push(effects.last()) =~= effects);
    } else {
        assert(effects =~= Seq::<EffectView>::empty());
    }
}

// ── Modules of the bar ───────────────────────────────────────────────────────

proof fn lemma_prop(props: Seq<PropView>, p: PropView)
    ensures
        forall|k: Seq<char>| #[trigger]
            prop(props.push(p), k) == (if p.key == k {
                Some(p.value)
            } else {
                prop(props, k)
            }),
{
    assert(props.push(p).drop_last() =~= props);
    assert forall|k: Seq<char>| #[trigger] prop(props.push(p), k) == (if p.key == k {
        Some(p.value)
    } else {
        prop(props, k)
    }) by {
        assert(props.push(p).last() == p);
    }
}

/// A color among the properties of the module of workspaces is that of the buttons that
/// it names, and a number is their margin.
pub proof fn law_workspaces_module_is_set(
    props: Seq<PropView>,
    p: PropView,
    colors: Colors,
    c: Color,
    n: u32,
)
    ensures
        ({
            let a = workspaces_with(props, colors);
            let b = workspaces_with(props.push(p), colors);
            &&& p.value == ValueView::Color(c.r, c.g, c.b, c.a) ==> {
                &&& b.active_fg == (if p.key == "active_fg"@ {
                    c
                } else {
                    a.active_fg
                })
                &&& b.active_bg == (if p.key == "active_bg"@ {
                    c
                } else {
                    a.active_bg
                })
                &&& b.inactive_fg == (if p.key == "inactive_fg"@ {
                    c
                } else {
                    a.inactive_fg
                })
            }
            &&& p.value == ValueView::Int(n as i64) ==> b.padding == (if p.key == "padding"@ {
                n
            } else {
                a.padding
            })
            &&& b.occupied_fg == colors.active_border
            &&& b.inactive_bg.a == 0
        }),
{
    lemma_prop(props, p);
}

/// The same of the module with the name of the layout, and of a custom module, which
/// also has its text, its command, how often that runs and where it stands.
pub proof fn law_other_modules_are_set(
    props: Seq<PropView>,
    p: PropView,
    colors: Colors,
    c: Color,
    n: u32,
    word: Seq<char>,
    a: CustomModule,
    b: CustomModule,
)
    requires
        a.is_with(props, colors),
        b.is_with(props.push(p), colors),
    ensures
        p.value == ValueView::Color(c.r, c.g, c.b, c.a) ==> {
            &&& layout_with(props.push(p), colors).fg == (if p.key == "fg"@ {
                c
            } else {
                layout_with(props, colors).fg
            })
            &&& b.fg == (if p.key == "fg"@ {
                c
            } else {
                a.fg
            })
            &&& b.bg == (if p.key == "bg"@ {
                c
            } else {
                a.bg
            })
        },
        p.value == ValueView::Int(n as i64) ==> {
            &&& layout_with(props.push(p), colors).padding == (if p.key == "padding"@ {
                n
            } else {
                layout_with(props, colors).padding
            })
            &&& b.padding == (if p.key == "padding"@ {
                n
            } else {
                a.padding
            })
        },
        p.value == ValueView::String(word) ==> {
            &&& p.key == "text"@ ==> (b.static_text matches Some(t) && t@ == word)
            &&& p.key == "command"@ ==> (b.command matches Some(t) && t@ == word)
            &&& p.key == "align"@ ==> b.align == (if word == "left"@ {
                Align::Left
            } else if word == "right"@ {
                Align::Right
            } else {
                Align::Center
            })
        },
        p.key != "align"@ ==> b.align == a.align,
        p.key != "interval"@ ==> b.interval_ms == a.interval_ms,
{
    lemma_prop(props, p);
}

} // verus!
