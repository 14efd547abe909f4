//! What modules of the bar are, and what is known of them.

use vstd::prelude::*;

use crate::chrome::bar::BarModule;
use crate::chrome::clock::{shown_at, times_at, LocalTime};
use crate::chrome::custom::{entry_at, registered, EntryView};
use crate::chrome::zones::{format_in, items_in, kind_in, text_in, ItemView, Theme};
use crate::config::color::{hex_rgb, Color};
use crate::config::settings::{
    kind_of, known_key, module, modules_of, modules_view, prop, props_of, unknown_of, BarModuleKind,
    Colors, Config, ModuleView, PropView,
};
use crate::config::value::{BlockView, ItemView as LineView, SpannedView, WordView};
use crate::twm::state::TwmSnapshot;

verus! {

// ── Kinds ────────────────────────────────────────────────────────────────────

/// A module is of the kind that its definition says, and else of the kind that its name
/// says. A clock stands for a tray.
pub proof fn law_modules_have_their_kind(
    m: BarModule,
    name: Seq<char>,
    def: Option<ModuleView>,
    colors: Colors,
)
    requires
        m.is_module(name, def, colors),
    ensures
        ({
            let kind = match def {
                Some(d) => d.kind,
                None => kind_of(name),
            };
            &&& m is Workspaces <==> kind is Workspaces
            &&& m is Clock <==> kind is Clock || kind is Systray
            &&& m is Layout <==> kind is Layout
            &&& m is Custom <==> kind is Custom
        }),
{
}

proof fn lemma_last_prop(props: Seq<PropView>, i: int)
    requires
        0 <= i < props.len(),
        forall|k: int| i < k < props.len() ==> (#[trigger] props[k]).key != props[i].key,
    ensures
        prop(props, props[i].key) == Some(props[i].value),
    decreases props.len(),
{
    if i < props.len() - 1 {
        assert(props[props.len() - 1].key != props[i].key);
        assert forall|k: int| i < k < props.len() - 1 implies (#[trigger] props.drop_last()[k]).key
            != props.drop_last()[i].key by {
            assert(props.drop_last()[k] == props[k]);
        }
        lemma_last_prop(props.drop_last(), i);
    }
}

/// Of several values of a property the last one counts.
pub proof fn law_last_property_counts(props: Seq<PropView>, i: int)
    requires
        0 <= i < props.len(),
        forall|k: int| i < k < props.len() ==> (#[trigger] props[k]).key != props[i].key,
    ensures
        prop(props, props[i].key) == Some(props[i].value),
{
    lemma_last_prop(props, i);
}

/// Of several definitions of a module the last one counts.
pub proof fn law_last_definition_counts(modules: Seq<ModuleView>, i: int)
    requires
        0 <= i < modules.len(),
        forall|k: int| i < k < modules.len() ==> (#[trigger] modules[k]).name != modules[i].name,
    ensures
        module(modules, modules[i].name) == Some(modules[i]),
        kind_in(modules, modules[i].name) == modules[i].kind,
    decreases modules.len(),
{
    if i < modules.len() - 1 {
        assert(modules[modules.len() - 1].name != modules[i].name);
        assert forall|k: int| i < k < modules.len() - 1 implies (
        #[trigger] modules.drop_last()[k]).name != modules.drop_last()[i].name by {
            assert(modules.drop_last()[k] == modules[k]);
        }
        law_last_definition_counts(modules.drop_last(), i);
    }
}

/// A module that is not defined is of the kind of its name, and shows the time in hours and
/// minutes where it is a clock.
pub proof fn law_undefined_modules(modules: Seq<ModuleView>, name: Seq<char>)
    requires
        forall|k: int| 0 <= k < modules.len() ==> (#[trigger] modules[k]).name != name,
    ensures
        module(modules, name) is None,
        kind_in(modules, name) == kind_of(name),
        format_in(modules, name) == "%H:%M"@,
    decreases modules.len(),
{
    if modules.len() > 0 {
        assert(modules[modules.len() - 1].name != name);
        assert forall|k: int| 0 <= k < modules.len() - 1 implies (
        #[trigger] modules.drop_last()[k]).name != name by {
            assert(modules.drop_last()[k] == modules[k]);
        }
        law_undefined_modules(modules.drop_last(), name);
    }
}

/// A block with a label defines the module of that name, of the kind of that name, behind
/// those that were defined before; one without a label defines none.
pub proof fn law_blocks_define_modules(blocks: Seq<BlockView>, b: BlockView)
    ensures
        ({
            let before = modules_of(blocks);
            let after = modules_of(blocks.push(b));
            &&& b.label is None ==> after == before
            &&& b.label matches Some(l) ==> after.len() == before.len() + 1 && after.drop_last()
                == before && after.last().name == l.text && after.last().kind == kind_of(l.text)
                && after.last().props == props_of(b.items)
        }),
{
    assert(blocks.push(b).drop_last() =~= blocks);
    let before = modules_of(blocks);
    if let Some(l) = b.label {
        let m = ModuleView { name: l.text, kind: kind_of(l.text), props: props_of(b.items) };
        assert(before.push(m).drop_last() =~= before);
    }
}

/// Every line of a block is a property, and blocks in it are none.
pub proof fn law_lines_are_properties(items: Seq<LineView>, key: WordView, value: SpannedView, b: BlockView)
    ensures
        props_of(items.push(LineView::Assignment { key, value })) == props_of(items).push(
            PropView { key: key.text, value: value.value },
        ),
        props_of(items.push(LineView::Block(b))) == props_of(items),
{
    assert(items.push(LineView::Assignment { key, value }).drop_last() =~= items);
    assert(items.push(LineView::Block(b)).drop_last() =~= items);
}

// ── What modules show ────────────────────────────────────────────────────────

/// A clock shows the time, the layout its name, and a custom module its text, as far as it
/// has one; a tray shows nothing.
pub proof fn law_modules_show(
    modules: Seq<ModuleView>,
    name: Seq<char>,
    time: Seq<char>,
    snap: TwmSnapshot,
    t: Theme,
)
    requires
        snap.active_ws < snap.workspaces@.len(),
    ensures
        ({
            let items = items_in(modules, name, time, snap, t);
            let layout = snap.workspaces@[snap.active_ws as int].layout@;
            match kind_in(modules, name) {
                BarModuleKind::Workspaces => items.len() == snap.workspaces@.len(),
                BarModuleKind::Clock => items.len() == 1 && (items[0] matches ItemView::Pill {
                    text,
                    fg,
                    bg,
                    ..
                } && text == "  "@ + time + " "@ && fg == t.ws_active_fg && bg == t.ws_active_bg),
                BarModuleKind::Layout => items.len() == 1 && (items[0] matches ItemView::Accent {
                    text,
                    color,
                } && text.len() >= layout.len() && text.skip(text.len() - layout.len()) == layout
                    && color == t.bar_accent),
                BarModuleKind::Systray => items.len() == 0,
                BarModuleKind::Custom => match text_in(modules, name, "text"@) {
                    Some(own) => items.len() == 1 && (items[0] matches ItemView::Text {
                        text,
                        fg,
                        ..
                    } && text == own && fg == t.bar_fg),
                    None => items.len() == 0,
                },
            }
        }),
{
    let layout = snap.workspaces@[snap.active_ws as int].layout@;
    let icon = crate::chrome::zones::layout_icon(layout);
    let text = icon + layout;
    assert(text.skip(text.len() - layout.len()) =~= layout);
}

/// The times of a zone are those of its clocks, each by its own format, and empty texts for
/// its other modules.
pub proof fn law_times_of_zones(cfg: Config, names: Seq<Seq<char>>, n: int, t: LocalTime, i: int)
    requires
        0 <= i < n <= names.len(),
        times_at(cfg, names, n, t) is Some,
    ensures
        ({
            let v = times_at(cfg, names, n, t)->0;
            let modules = modules_view(cfg.bar_modules@);
            &&& v.len() == n
            &&& kind_in(modules, names[i]) is Clock ==> Some(v[i]) == shown_at(
                t,
                format_in(modules, names[i]),
            )
            &&& !(kind_in(modules, names[i]) is Clock) ==> v[i].len() == 0
        }),
    decreases n,
{
    if n > 1 {
        law_times_of_zones(cfg, names, n - 1, t, if i < n - 1 { i } else { 0 });
    } else {
        assert(times_at(cfg, names, 0, t) == Some(Seq::<Seq<char>>::empty()));
    }
}

// ── Outputs of commands ──────────────────────────────────────────────────────

/// The entry of a module is the first one of its name.
pub proof fn law_entries_by_name(entries: Seq<EntryView>, name: Seq<char>)
    ensures
        0 <= entry_at(entries, name) <= entries.len(),
        entry_at(entries, name) < entries.len() ==> entries[entry_at(entries, name)].name == name,
        forall|k: int| 0 <= k < entry_at(entries, name) ==> (#[trigger] entries[k]).name != name,
    decreases entries.len(),
{
    if entries.len() > 0 && entries[0].name != name {
        law_entries_by_name(entries.skip(1), name);
        assert forall|k: int| 0 <= k < entry_at(entries, name) implies (
        #[trigger] entries[k]).name != name by {
            if k > 0 {
                assert(entries.skip(1)[k - 1] == entries[k]);
            }
        }
    }
}

/// A module that is registered has its command and its interval, has not run, and shows
/// nothing yet.
pub proof fn law_registered_modules(
    entries: Seq<EntryView>,
    name: Seq<char>,
    command: Seq<char>,
    interval_ms: u64,
)
    requires
        forall|k: int| 0 <= k < entries.len() ==> (#[trigger] entries[k]).name != name,
    ensures
        ({
            let after = registered(entries, name, command, interval_ms);
            &&& after.len() == entries.len() + 1
            &&& after.drop_last() == entries
            &&& after.last().name == name && after.last().command == command
            &&& after.last().interval_ms == interval_ms
            &&& after.last().last_poll is None && after.last().text.len() == 0
        }),
{
    law_entries_by_name(entries, name);
    let i = entry_at(entries, name);
    if i < entries.len() {
        assert(entries[i].name != name);
    }
    let e = EntryView { name, command, interval_ms, last_poll: None, text: Seq::empty() };
    assert(entries.push(e).drop_last() =~= entries);
}

// ── Unknown keys ─────────────────────────────────────────────────────────────

/// The keys that are told are those that mean nothing in their block, in their order, each
/// with its line.
pub proof fn law_unknown_keys_are_told(keys: Seq<WordView>, block: Option<Seq<char>>, i: int) -> (k: int)
    requires
        0 <= i < keys.len(),
        !known_key(block, keys[i].text),
    ensures
        0 <= k < unknown_of(keys, block).len(),
        unknown_of(keys, block)[k].key == keys[i].text,
        unknown_of(keys, block)[k].block == block,
        unknown_of(keys, block)[k].line == keys[i].span.line,
    decreases keys.len(),
{
    let before = unknown_of(keys.drop_last(), block);
    if i == keys.len() - 1 {
        before.len() as int
    } else {
        assert(keys.drop_last()[i] == keys[i]);
        law_unknown_keys_are_told(keys.drop_last(), block, i)
    }
}

/// No key that means something is told.
pub proof fn law_known_keys_are_not_told(keys: Seq<WordView>, block: Option<Seq<char>>, k: int)
    requires
        0 <= k < unknown_of(keys, block).len(),
    ensures
        !known_key(block, unknown_of(keys, block)[k].key),
    decreases keys.len(),
{
    let before = unknown_of(keys.drop_last(), block);
    if k < before.len() {
        law_known_keys_are_not_told(keys.drop_last(), block, k);
    }
}

// ── Colors ───────────────────────────────────────────────────────────────────

/// A color from a number has its bytes for red, green and blue, and is opaque.
pub proof fn law_colors_of_numbers(r: u8, g: u8, b: u8)
    ensures
        hex_rgb((0x1_0000 * r + 0x100 * g + b) as u32) == (Color { r, g, b, a: 255 }),
{
    let v = 0x1_0000 * r + 0x100 * g + b;
    assert(v / 0x100 == 0x100 * r + g);
    assert(v / 0x1_0000 == r);
}

} // verus!
