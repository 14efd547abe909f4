//! What holds of the words of a configuration: each means one thing, and what is
//! written is read back.

use vstd::prelude::*;

use crate::config::keys::{
    action_of, combo_of, default_binds, is_alt, is_ctrl, is_logo, is_shift, modifiers_of,
    ActionView, ComboView,
};
use crate::config::rules::{effect_of, matcher_of, EffectView, MatcherView};
use crate::integer::{
    decimal, decimal_int, digit_value, law_decimal_reads_back, lemma_decimal_is_read,
    lemma_decimal_numeral,
};
use crate::number::reading;
use crate::text::{
    after_prefix, has_at, last_index_of, lowercase, run_end, split_from, split_spec, CharSet,
};

verus! {

// ── Actions ──────────────────────────────────────────────────────────────────

/// How an action is written: its word, and its arguments.
pub open spec fn written(a: ActionView) -> (Seq<char>, Seq<Seq<char>>) {
    let none = Seq::<Seq<char>>::empty();
    match a {
        ActionView::Exec(cmd, args) => ("exec"@, seq![cmd] + args),
        ActionView::Close => ("close"@, none),
        ActionView::Fullscreen => ("fullscreen"@, none),
        ActionView::ToggleBar => ("toggle_bar"@, none),
        ActionView::FocusLeft => ("focus"@, seq!["left"@]),
        ActionView::FocusRight => ("focus"@, seq!["right"@]),
        ActionView::FocusUp => ("focus"@, seq!["up"@]),
        ActionView::FocusDown => ("focus"@, seq!["down"@]),
        ActionView::MoveLeft => ("move"@, seq!["left"@]),
        ActionView::MoveRight => ("move"@, seq!["right"@]),
        ActionView::MoveUp => ("move"@, seq!["up"@]),
        ActionView::MoveDown => ("move"@, seq!["down"@]),
        ActionView::Workspace(n) => ("workspace"@, seq![decimal(n as nat)]),
        ActionView::MoveToWorkspace(n) => ("move_to_workspace"@, seq![decimal(n as nat)]),
        ActionView::NextLayout => ("next_layout"@, none),
        ActionView::PrevLayout => ("prev_layout"@, none),
        ActionView::GrowMain => ("grow_main"@, none),
        ActionView::ShrinkMain => ("shrink_main"@, none),
        ActionView::NextWorkspace => ("next_workspace"@, none),
        ActionView::PrevWorkspace => ("prev_workspace"@, none),
        ActionView::Quit => ("quit"@, none),
        ActionView::Reload => ("reload"@, none),
        ActionView::SwitchVt(n) => ("switch_vt"@, seq![decimal_int(n as int)]),
        ActionView::EmergencyQuit => (Seq::empty(), none),
        ActionView::Custom(name, args) => (name, args),
    }
}

/// Whether a word is the word of an action.
pub open spec fn is_word(name: Seq<char>) -> bool {
    ||| name == "exec"@ || name == "close"@ || name == "fullscreen"@ || name == "toggle_bar"@
    ||| name == "focus"@ || name == "move"@ || name == "workspace"@ || name
        == "move_to_workspace"@
    ||| name == "next_layout"@ || name == "prev_layout"@ || name == "grow_main"@ || name
        == "shrink_main"@
    ||| name == "next_workspace"@ || name == "prev_workspace"@ || name == "quit"@ || name
        == "reload"@ || name == "switch_vt"@
}

/// Every action that has a word can be bound: written out, it is read as that
/// action. So two words never mean the same.
pub proof fn law_actions_are_read_back(a: ActionView)
    requires
        !(a is EmergencyQuit),
        a matches ActionView::Custom(name, _) ==> !is_word(name),
    ensures
        action_of(written(a).0, written(a).1) == Some(a),
{
    reveal_words();
    match a {
        ActionView::Exec(cmd, args) => {
            assert((seq![cmd] + args).skip(1) =~= args);
        },
        ActionView::Workspace(n) => {
            lemma_decimal_is_read(n as nat, 255);
        },
        ActionView::MoveToWorkspace(n) => {
            lemma_decimal_is_read(n as nat, 255);
        },
        ActionView::SwitchVt(n) => {
            law_decimal_reads_back(n as i64);
        },
        _ => {},
    }
}

/// The word of an action is the only one that means it.
pub proof fn law_words_are_told_apart(name: Seq<char>, args: Seq<Seq<char>>)
    ensures
        action_of(name, args) matches Some(a) ==> written(a).0 == name && !(a is EmergencyQuit),
        action_of(name, args) is None ==> is_word(name),
        action_of(name, args) matches Some(a) ==> (a is Custom <==> !is_word(name)),
{
    reveal_words();
}

/// Numbers of workspaces are taken as they are written, and those that are too
/// large, or are no numbers, are not.
pub proof fn law_workspace_numbers(n: nat, more: Seq<Seq<char>>)
    ensures
        action_of("workspace"@, seq![decimal(n)] + more) == (if n <= 255 {
            Some(ActionView::Workspace(n as u8))
        } else {
            None
        }),
        action_of("move_to_workspace"@, seq![decimal(n)] + more) == (if n <= 255 {
            Some(ActionView::MoveToWorkspace(n as u8))
        } else {
            None
        }),
{
    reveal_words();
    lemma_decimal_numeral(n);
    assert(digit_value(decimal(n)[0]) < 10);
    assert(digit_value('+') == 99);
    assert((seq![decimal(n)] + more)[0] == decimal(n));
}

proof fn reveal_words()
    ensures
        forall|w: Seq<char>| #![trigger is_word(w)] is_word(w) ==> w.len() > 0,
        "exec"@ != "close"@ && "exec"@ != "fullscreen"@ && "exec"@ != "toggle_bar"@,
        "focus"@ != "exec"@ && "focus"@ != "close"@ && "focus"@ != "fullscreen"@ && "focus"@
            != "toggle_bar"@,
        "close"@ != "fullscreen"@ && "close"@ != "toggle_bar"@,
        "fullscreen"@ != "toggle_bar"@,
        forall|w: Seq<char>|
            #![trigger is_word(w)]
            is_word(w) && w != "move"@ && w.len() == 4 ==> w == "exec"@ || w == "quit"@,
        "move"@ != "exec"@ && "move"@ != "close"@ && "move"@ != "fullscreen"@ && "move"@
            != "toggle_bar"@ && "move"@ != "focus"@,
        forall|w: Seq<char>|
            #![trigger before_workspace(w)]
            before_workspace(w) ==> w != "workspace"@ && w != "move_to_workspace"@ && w
                != "next_layout"@ && w != "prev_layout"@ && w != "grow_main"@ && w
                != "shrink_main"@ && w != "next_workspace"@ && w != "prev_workspace"@ && w
                != "quit"@ && w != "reload"@ && w != "switch_vt"@,
        before_workspace("exec"@) && before_workspace("close"@) && before_workspace("fullscreen"@)
            && before_workspace("toggle_bar"@) && before_workspace("focus"@) && before_workspace(
            "move"@,
        ),
        distinct_late(),
        "left"@ != "right"@ && "left"@ != "up"@ && "left"@ != "down"@ && "right"@ != "up"@
            && "right"@ != "down"@ && "up"@ != "down"@,
{
    reveal_strlit("exec");
    reveal_strlit("close");
    reveal_strlit("fullscreen");
    reveal_strlit("toggle_bar");
    reveal_strlit("focus");
    reveal_strlit("move");
    reveal_strlit("workspace");
    reveal_strlit("move_to_workspace");
    reveal_strlit("next_layout");
    reveal_strlit("prev_layout");
    reveal_strlit("grow_main");
    reveal_strlit("shrink_main");
    reveal_strlit("next_workspace");
    reveal_strlit("prev_workspace");
    reveal_strlit("quit");
    reveal_strlit("reload");
    reveal_strlit("switch_vt");
    reveal_strlit("left");
    reveal_strlit("right");
    reveal_strlit("up");
    reveal_strlit("down");
    assert("workspace"@.len() == 9 && "grow_main"@.len() == 9 && "switch_vt"@.len() == 9);
    assert("workspace"@[0] == 'w' && "grow_main"@[0] == 'g' && "switch_vt"@[0] == 's');
    assert("next_layout"@[0] == 'n' && "prev_layout"@[0] == 'p' && "shrink_main"@[0] == 's');
    assert("next_workspace"@[0] == 'n' && "prev_workspace"@[0] == 'p');
    assert("close"@[0] == 'c' && "focus"@[0] == 'f' && "exec"@[0] == 'e' && "move"@[0] == 'm'
        && "quit"@[0] == 'q');
    assert("fullscreen"@[0] == 'f' && "toggle_bar"@[0] == 't');
    assert("left"@[0] == 'l' && "down"@[0] == 'd' && "left"@.len() == 4 && "down"@.len() == 4);
    assert("right"@.len() == 5 && "up"@.len() == 2);
    assert("fullscreen"@.len() == 10 && "toggle_bar"@.len() == 10 && "focus"@.len() == 5
        && "close"@.len() == 5 && "exec"@.len() == 4 && "move"@.len() == 4 && "quit"@.len() == 4);
    assert("move_to_workspace"@.len() == 17 && "next_layout"@.len() == 11 && "prev_layout"@.len()
        == 11 && "shrink_main"@.len() == 11 && "next_workspace"@.len() == 14
        && "prev_workspace"@.len() == 14 && "reload"@.len() == 6);
}

spec fn before_workspace(w: Seq<char>) -> bool {
    w == "exec"@ || w == "close"@ || w == "fullscreen"@ || w == "toggle_bar"@ || w == "focus"@ || w
        == "move"@
}

spec fn distinct_late() -> bool {
    let a = "workspace"@;
    let b = "move_to_workspace"@;
    let c = "next_layout"@;
    let d = "prev_layout"@;
    let e = "grow_main"@;
    let f = "shrink_main"@;
    let g = "next_workspace"@;
    let h = "prev_workspace"@;
    let i = "quit"@;
    let j = "reload"@;
    let k = "switch_vt"@;
    &&& a != b && a != c && a != d && a != e && a != f && a != g && a != h && a != i && a != j && a
        != k
    &&& b != c && b != d && b != e && b != f && b != g && b != h && b != i && b != j && b != k
    &&& c != d && c != e && c != f && c != g && c != h && c != i && c != j && c != k
    &&& d != e && d != f && d != g && d != h && d != i && d != j && d != k
    &&& e != f && e != g && e != h && e != i && e != j && e != k
    &&& f != g && f != h && f != i && f != j && f != k
    &&& g != h && g != i && g != j && g != k
    &&& h != i && h != j && h != k
    &&& i != j && i != k
    &&& j != k
}

// ── Combinations ─────────────────────────────────────────────────────────────

/// The parts with the character `c` between them.
pub open spec fn joined_by(parts: Seq<Seq<char>>, c: char) -> Seq<char>
    decreases parts.len(),
{
    if parts.len() == 0 {
        Seq::empty()
    } else if parts.len() == 1 {
        parts[0]
    } else {
        parts[0] + seq![c] + joined_by(parts.skip(1), c)
    }
}

proof fn lemma_run_to(s: Seq<char>, i: int, e: int, c: char)
    requires
        0 <= i <= e <= s.len(),
        forall|k: int| i <= k < e ==> #[trigger] s[k] != c,
        e < s.len() ==> s[e] == c,
    ensures
        run_end(s, i, CharSet::Not(c)) == e,
    decreases e - i,
{
    if i < e {
        assert(s[i] != c);
        lemma_run_to(s, i + 1, e, c);
    }
}

proof fn lemma_split_joined(s: Seq<char>, at: int, parts: Seq<Seq<char>>, c: char)
    requires
        parts.len() > 0,
        0 <= at <= s.len(),
        s.skip(at) == joined_by(parts, c),
        forall|i: int| 0 <= i < parts.len() ==> !(#[trigger] parts[i]).contains(c),
    ensures
        split_from(s, at, c) == parts,
    decreases parts.len(),
{
    let p = parts[0];
    let rest = joined_by(parts, c);
    let e = at + p.len();
    if parts.len() == 1 {
        assert(rest == p);
    } else {
        assert(rest == p + seq![c] + joined_by(parts.skip(1), c));
    }
    assert(s.skip(at).len() == s.len() - at);
    assert forall|k: int| at <= k < e implies #[trigger] s[k] != c by {
        assert(rest[k - at] == s.skip(at)[k - at]);
        assert(p[k - at] == rest[k - at]);
        assert(!p.contains(c));
        if p[k - at] == c {
            assert(p.contains(c));
        }
    }
    if parts.len() == 1 {
        lemma_run_to(s, at, e, c);
        assert(s.subrange(at, e) =~= p) by {
            assert(forall|k: int| 0 <= k < p.len() ==> s[at + k] == s.skip(at)[k]);
        }
        assert(split_from(s, at, c) =~= parts);
    } else {
        let tail = joined_by(parts.skip(1), c);
        assert(rest == p + seq![c] + tail);
        assert(s.skip(at)[p.len() as int] == c);
        assert(s[e] == c);
        lemma_run_to(s, at, e, c);
        assert(s.subrange(at, e) =~= p) by {
            assert(forall|k: int| 0 <= k < p.len() ==> s[at + k] == s.skip(at)[k]);
        }
        assert(s.skip(e + 1) =~= tail) by {
            assert forall|k: int| 0 <= k < tail.len() implies s.skip(e + 1)[k] == tail[k] by {
                assert(s.skip(at)[p.len() + 1 + k] == tail[k]);
            }
        }
        assert forall|i: int| 0 <= i < parts.len() - 1 implies !(
        #[trigger] parts.skip(1)[i]).contains(c) by {
            assert(parts.skip(1)[i] == parts[i + 1]);
        }
        lemma_split_joined(s, e + 1, parts.skip(1), c);
        assert(split_from(s, at, c) =~= parts);
    }
}

/// Parts that are joined by a character are what is between its occurrences.
pub proof fn law_split_undoes_join(parts: Seq<Seq<char>>, c: char)
    requires
        parts.len() > 0,
        forall|i: int| 0 <= i < parts.len() ==> !(#[trigger] parts[i]).contains(c),
    ensures
        split_spec(joined_by(parts, c), c) == parts,
{
    let s = joined_by(parts, c);
    assert(s.skip(0) =~= s);
    lemma_split_joined(s, 0, parts, c);
}

proof fn lemma_last_index(a: Seq<char>, c: char, b: Seq<char>)
    requires
        !b.contains(c),
    ensures
        last_index_of(a + seq![c] + b, c) == a.len(),
    decreases b.len(),
{
    let s = a + seq![c] + b;
    if b.len() > 0 {
        let t = b.drop_last();
        assert(s.last() == b.last());
        assert(b[b.len() - 1] == b.last());
        assert(s.drop_last() =~= a + seq![c] + t);
        assert(!t.contains(c)) by {
            if t.contains(c) {
                let k = choose|k: int| 0 <= k < t.len() && t[k] == c;
                assert(b[k] == c);
            }
        }
        lemma_last_index(a, c, t);
    } else {
        assert(s.last() == c);
    }
}

proof fn lemma_no_index(s: Seq<char>, c: char)
    requires
        !s.contains(c),
    ensures
        last_index_of(s, c) == -1,
    decreases s.len(),
{
    if s.len() > 0 {
        assert(s[s.len() - 1] == s.last());
        let t = s.drop_last();
        assert(!t.contains(c)) by {
            if t.contains(c) {
                let k = choose|k: int| 0 <= k < t.len() && t[k] == c;
                assert(s[k] == c);
            }
        }
        lemma_no_index(t, c);
    }
}

/// Whether one of `parts` is `word`, in any case.
pub open spec fn names(parts: Seq<Seq<char>>, word: Seq<char>) -> bool {
    exists|i: int| 0 <= i < parts.len() && lowercase(#[trigger] parts[i]) == word
}

/// A combination is read as it is written: modifiers with `+` between them, then a `:`
/// or another `+`, then the key. Each modifier has its names.
#[verifier::spinoff_prover]
pub proof fn law_combinations_are_read(parts: Seq<Seq<char>>, key: Seq<char>, colon: bool)
    requires
        parts.len() > 0,
        key.len() > 0,
        !key.contains(':'),
        !colon ==> !key.contains('+'),
        !joined_by(parts, '+').contains(':'),
        forall|i: int| 0 <= i < parts.len() ==> !(#[trigger] parts[i]).contains('+'),
    ensures
        combo_of(
            joined_by(parts, '+') + seq![
                if colon {
                    ':'
                } else {
                    '+'
                },
            ] + key,
        ) matches Some(c) && {
            &&& c.key == lowercase(key)
            &&& c.mods.logo <==> names(parts, "super"@) || names(parts, "mod4"@) || names(
                parts,
                "logo"@,
            )
            &&& c.mods.ctrl <==> names(parts, "ctrl"@) || names(parts, "control"@)
            &&& c.mods.alt <==> names(parts, "alt"@) || names(parts, "mod1"@)
            &&& c.mods.shift <==> names(parts, "shift"@)
        },
{
    let m = joined_by(parts, '+');
    let sep = if colon {
        ':'
    } else {
        '+'
    };
    let s = m + seq![sep] + key;
    lemma_last_index(m, sep, key);
    if !colon {
        assert(!s.contains(':')) by {
            if s.contains(':') {
                let k = choose|k: int| 0 <= k < s.len() && s[k] == ':';
                if k < m.len() {
                    assert(m[k] == ':');
                } else {
                    assert(key[k - m.len() - 1] == ':');
                }
            }
        }
        lemma_no_index(s, ':');
    }
    assert(s.take(m.len() as int) =~= m);
    assert(s.skip(m.len() as int + 1) =~= key);
    law_split_undoes_join(parts, '+');
    let mods = modifiers_of(parts);
    assert(combo_of(s) == Some(ComboView { mods, key: lowercase(key) }));
    lemma_modifier_names(parts);
}

proof fn lemma_modifier_names(parts: Seq<Seq<char>>)
    ensures
        ({
            let mods = modifiers_of(parts);
            &&& mods.logo <==> names(parts, "super"@) || names(parts, "mod4"@) || names(
                parts,
                "logo"@,
            )
            &&& mods.ctrl <==> names(parts, "ctrl"@) || names(parts, "control"@)
            &&& mods.alt <==> names(parts, "alt"@) || names(parts, "mod1"@)
            &&& mods.shift <==> names(parts, "shift"@)
        }),
{
    let mods = modifiers_of(parts);
    if mods.logo {
        let i = choose|i: int| 0 <= i < parts.len() && is_logo(lowercase(#[trigger] parts[i]));
        assert(is_logo(lowercase(parts[i])));
    }
    if mods.ctrl {
        let i = choose|i: int| 0 <= i < parts.len() && is_ctrl(lowercase(#[trigger] parts[i]));
        assert(is_ctrl(lowercase(parts[i])));
    }
    if mods.alt {
        let i = choose|i: int| 0 <= i < parts.len() && is_alt(lowercase(#[trigger] parts[i]));
        assert(is_alt(lowercase(parts[i])));
    }
    if mods.shift {
        let i = choose|i: int| 0 <= i < parts.len() && is_shift(lowercase(#[trigger] parts[i]));
        assert(is_shift(lowercase(parts[i])));
    }
}

/// A word on its own is a key without modifiers.
pub proof fn law_plain_keys(key: Seq<char>)
    requires
        !key.contains(':'),
        !key.contains('+'),
    ensures
        combo_of(key) matches Some(c) && c.key == lowercase(key) && !c.mods.logo && !c.mods.ctrl
            && !c.mods.alt && !c.mods.shift,
{
    lemma_no_index(key, ':');
    lemma_no_index(key, '+');
}

/// What is bound by default can all be reached: no two bindings ask for the same keys.
/// They all ask for super; what focuses a side moves panes to it with shift.
#[verifier::spinoff_prover]
pub proof fn law_default_bindings_differ(i: int, j: int)
    requires
        0 <= i < default_binds().len(),
        0 <= j < default_binds().len(),
        i != j,
    ensures
        default_binds()[i].combo != default_binds()[j].combo,
        default_binds()[i].combo.mods.logo,
        !default_binds()[i].combo.mods.alt,
        default_binds()[i].combo.key == default_binds()[j].combo.key && default_binds()[j].combo.mods.shift
            ==> (default_binds()[i].action is FocusLeft <==> default_binds()[j].action is MoveLeft)
            && (default_binds()[i].action is FocusRight <==> default_binds()[j].action
            is MoveRight),
{
    reveal_strlit("return");
    reveal_strlit("q");
    reveal_strlit("f");
    reveal_strlit("b");
    reveal_strlit("h");
    reveal_strlit("l");
    reveal_strlit("k");
    reveal_strlit("j");
    reveal_strlit("tab");
    reveal_strlit("equal");
    reveal_strlit("minus");
    reveal_strlit("right");
    reveal_strlit("left");
    assert("return"@.len() == 6 && "q"@.len() == 1 && "f"@.len() == 1 && "b"@.len() == 1
        && "h"@.len() == 1 && "l"@.len() == 1 && "k"@.len() == 1 && "j"@.len() == 1 && "tab"@.len()
        == 3 && "equal"@.len() == 5 && "minus"@.len() == 5 && "right"@.len() == 5 && "left"@.len()
        == 4);
    assert("q"@[0] == 'q' && "f"@[0] == 'f' && "b"@[0] == 'b' && "h"@[0] == 'h' && "l"@[0] == 'l'
        && "k"@[0] == 'k' && "j"@[0] == 'j' && "equal"@[0] == 'e' && "minus"@[0] == 'm'
        && "right"@[0] == 'r');
}

// ── Rules ────────────────────────────────────────────────────────────────────

proof fn lemma_prefixed(prefix: Seq<char>, s: Seq<char>)
    ensures
        after_prefix(prefix + s, prefix) == Some(s),
{
    assert((prefix + s).subrange(0, prefix.len() as int) =~= prefix);
    assert((prefix + s).skip(prefix.len() as int) =~= s);
}

proof fn lemma_not_prefixed(s: Seq<char>, prefix: Seq<char>, i: int)
    requires
        0 <= i < prefix.len(),
        i < s.len(),
        s[i] != prefix[i],
    ensures
        after_prefix(s, prefix) is None,
{
    if has_at(s, 0, prefix) {
        assert(s.subrange(0, prefix.len() as int)[i] == s[i]);
    }
}

/// A rule says by its prefix what it looks at, and without one looks at the app id.
pub proof fn law_matchers_are_read(s: Seq<char>)
    ensures
        matcher_of("class:"@ + s) == MatcherView::Class(s),
        matcher_of("title:"@ + s) == MatcherView::Title(s),
        matcher_of("app_id:"@ + s) == MatcherView::AppId(s),
        !s.contains(':') ==> matcher_of(s) == MatcherView::AppId(s),
{
    reveal_strlit("class:");
    reveal_strlit("title:");
    reveal_strlit("app_id:");
    lemma_prefixed("class:"@, s);
    lemma_prefixed("title:"@, s);
    lemma_prefixed("app_id:"@, s);
    lemma_not_prefixed("title:"@ + s, "class:"@, 0);
    lemma_not_prefixed("app_id:"@ + s, "class:"@, 0);
    lemma_not_prefixed("app_id:"@ + s, "title:"@, 0);
    if !s.contains(':') {
        if has_at(s, 0, "class:"@) {
            assert(s.subrange(0, 6)[5] == s[5]);
            assert(s.contains(s[5]));
        }
        if has_at(s, 0, "title:"@) {
            assert(s.subrange(0, 6)[5] == s[5]);
            assert(s.contains(s[5]));
        }
        if has_at(s, 0, "app_id:"@) {
            assert(s.subrange(0, 7)[6] == s[6]);
            assert(s.contains(s[6]));
        }
    }
}

/// A rule means the windows in whose title, or whose app id, its text occurs.
pub proof fn law_rules_mean_windows(
    before: Seq<char>,
    t: Seq<char>,
    after: Seq<char>,
    other: Seq<char>,
)
    ensures
        MatcherView::Title(t).means(other, before + t + after),
        MatcherView::Class(t).means(before + t + after, other),
        MatcherView::AppId(t).means(before + t + after, other),
        other.len() < t.len() ==> !MatcherView::Title(t).means(before + t + after, other),
        other.len() < t.len() ==> !MatcherView::Class(t).means(other, before + t + after),
        other.len() < t.len() ==> !MatcherView::AppId(t).means(other, before + t + after),
{
    let s = before + t + after;
    let at = before.len() as int;
    assert(s.subrange(at, at + t.len()) =~= t);
    assert(has_at(s, at, t));
}

/// How an effect of a rule is written. There is no word for a position.
pub open spec fn effect_text(e: EffectView) -> Seq<char> {
    match e {
        EffectView::Float => "float"@,
        EffectView::Fullscreen => "fullscreen"@,
        EffectView::NoBorder => "noborder"@,
        EffectView::NoTitle => "notitle"@,
        EffectView::Size(w, h) => "size "@ + (decimal(w as nat) + seq!['x'] + decimal(h as nat)),
        EffectView::Workspace(n) => "workspace "@ + decimal(n as nat),
        EffectView::Opacity(x) => "opacity "@ + x,
        EffectView::Position(_, _) => Seq::empty(),
    }
}

proof fn lemma_digits(n: nat)
    ensures
        !decimal(n).contains('x'),
        decimal(n).len() > 0,
{
    lemma_decimal_numeral(n);
    if decimal(n).contains('x') {
        let k = choose|k: int| 0 <= k < decimal(n).len() && decimal(n)[k] == 'x';
        assert(digit_value(decimal(n)[k]) < 10);
    }
}

/// The effects of rules are read as they are written.
#[verifier::spinoff_prover]
pub proof fn law_effects_are_read_back(e: EffectView)
    requires
        !(e is Position),
        e matches EffectView::Opacity(x) ==> reading(x) is Some,
    ensures
        effect_of(effect_text(e)) == Some(e),
{
    reveal_strlit("float");
    reveal_strlit("fullscreen");
    reveal_strlit("noborder");
    reveal_strlit("notitle");
    reveal_strlit("size ");
    reveal_strlit("workspace ");
    reveal_strlit("opacity ");
    assert("float"@.len() == 5 && "fullscreen"@.len() == 10 && "noborder"@.len() == 8
        && "notitle"@.len() == 7);
    let s = effect_text(e);
    assert("float"@[0] == 'f' && "fullscreen"@[0] == 'f' && "noborder"@[0] == 'n' && "notitle"@[0]
        == 'n' && "size "@[0] == 's' && "workspace "@[0] == 'w' && "opacity "@[0] == 'o');
    match e {
        EffectView::Size(w, h) => {
            let a = decimal(w as nat);
            let b = decimal(h as nat);
            lemma_digits(w as nat);
            lemma_digits(h as nat);
            lemma_prefixed("size "@, a + seq!['x'] + b);
            let parts = seq![a, b];
            assert(parts.skip(1) =~= seq![b]);
            assert(joined_by(seq![b], 'x') == b);
            assert(joined_by(parts, 'x') == a + seq!['x'] + b);
            law_split_undoes_join(parts, 'x');
            lemma_decimal_is_read(w as nat, u32::MAX as nat);
            lemma_decimal_is_read(h as nat, u32::MAX as nat);
            assert(s[0] == 's');
        },
        EffectView::Workspace(n) => {
            lemma_prefixed("workspace "@, decimal(n as nat));
            lemma_decimal_is_read(n as nat, 255);
            assert(s[0] == 'w');
            lemma_not_prefixed(s, "size "@, 0);
        },
        EffectView::Opacity(x) => {
            lemma_prefixed("opacity "@, x);
            assert(s[0] == 'o');
            lemma_not_prefixed(s, "size "@, 0);
            lemma_not_prefixed(s, "workspace "@, 0);
        },
        _ => {},
    }
}

} // verus!
