//! Key combinations and the actions bound to them.

use vstd::prelude::*;
use vstd::slice::slice_subrange;

use crate::integer::{i64_of, parse_i64, parse_unsigned, unsigned_of};
use crate::text::{
    chars_of, copy_strings, last_index_of, lowercase, rfind_char, same, slices_view, split,
    split_spec, strings_view, to_lowercase,
};

verus! {

// ── Modifiers ────────────────────────────────────────────────────────────────

/// A set of modifier keys.
#[derive(Debug, Clone, Copy, PartialEq, Eq, Hash, Structural)]
pub struct Modifiers {
    pub logo: bool,
    pub ctrl: bool,
    pub alt: bool,
    pub shift: bool,
}

impl Default for Modifiers {
    fn default() -> (r: Self)
        ensures
            r == no_modifiers(),
    {
        Modifiers::empty()
    }
}

pub open spec fn no_modifiers() -> Modifiers {
    Modifiers { logo: false, ctrl: false, alt: false, shift: false }
}

impl Modifiers {
    pub fn empty() -> (r: Self)
        ensures
            r == no_modifiers(),
    {
        Modifiers { logo: false, ctrl: false, alt: false, shift: false }
    }

    /// One bit for each key: super, control, alt, shift, from the lowest.
    pub fn bits(self) -> (r: u8)
        ensures
            r == (if self.logo {
                1int
            } else {
                0
            }) + (if self.ctrl {
                2int
            } else {
                0
            }) + (if self.alt {
                4int
            } else {
                0
            }) + (if self.shift {
                8int
            } else {
                0
            }),
    {
        let mut r: u8 = 0;
        if self.logo {
            r += 1;
        }
        if self.ctrl {
            r += 2;
        }
        if self.alt {
            r += 4;
        }
        if self.shift {
            r += 8;
        }
        r
    }
}

// ── Key combinations ─────────────────────────────────────────────────────────

#[derive(Debug, Hash)]
pub struct KeyCombo {
    pub mods: Modifiers,
    pub key: String,
}

/// What a [`KeyCombo`] holds.
pub struct ComboView {
    pub mods: Modifiers,
    pub key: Seq<char>,
}

impl View for KeyCombo {
    type V = ComboView;

    open spec fn view(&self) -> ComboView {
        ComboView { mods: self.mods, key: self.key@ }
    }
}

impl Clone for KeyCombo {
    fn clone(&self) -> (r: Self)
        ensures
            r@ == self@,
    {
        KeyCombo { mods: self.mods, key: self.key.clone() }
    }
}

impl PartialEq for KeyCombo {
    fn eq(&self, other: &Self) -> (r: bool) {
        self.mods == other.mods && self.key == other.key
    }
}

impl vstd::std_specs::cmp::PartialEqSpecImpl for KeyCombo {
    open spec fn obeys_eq_spec() -> bool {
        true
    }

    open spec fn eq_spec(&self, other: &Self) -> bool {
        self.mods == other.mods && self.key@ == other.key@
    }
}

impl Eq for KeyCombo {

}

/// The modifier names, in lower case.
pub open spec fn is_logo(m: Seq<char>) -> bool {
    m == "super"@ || m == "mod4"@ || m == "logo"@
}

pub open spec fn is_ctrl(m: Seq<char>) -> bool {
    m == "ctrl"@ || m == "control"@
}

pub open spec fn is_alt(m: Seq<char>) -> bool {
    m == "alt"@ || m == "mod1"@
}

pub open spec fn is_shift(m: Seq<char>) -> bool {
    m == "shift"@
}

/// The modifiers that `parts` name in any case; other names count for nothing.
pub open spec fn modifiers_of(parts: Seq<Seq<char>>) -> Modifiers {
    Modifiers {
        logo: exists|i: int| 0 <= i < parts.len() && is_logo(lowercase(#[trigger] parts[i])),
        ctrl: exists|i: int| 0 <= i < parts.len() && is_ctrl(lowercase(#[trigger] parts[i])),
        alt: exists|i: int| 0 <= i < parts.len() && is_alt(lowercase(#[trigger] parts[i])),
        shift: exists|i: int| 0 <= i < parts.len() && is_shift(lowercase(#[trigger] parts[i])),
    }
}

/// The combination that `s` writes. The key follows the last colon, or where
/// there is none the last plus sign; the names before that, separated by plus
/// signs, are modifiers. Without either sign `s` is a key on its own.
pub open spec fn combo_of(s: Seq<char>) -> Option<ComboView> {
    let colon = last_index_of(s, ':');
    let plus = last_index_of(s, '+');
    let at = if colon >= 0 {
        colon
    } else {
        plus
    };
    if at < 0 {
        Some(ComboView { mods: no_modifiers(), key: lowercase(s) })
    } else if s.skip(at + 1).len() == 0 {
        None
    } else {
        Some(
            ComboView {
                mods: modifiers_of(split_spec(s.take(at), '+')),
                key: lowercase(s.skip(at + 1)),
            },
        )
    }
}

fn parse_modifiers(s: &[char]) -> (r: Modifiers)
    ensures
        r == modifiers_of(split_spec(s@, '+')),
{
    let parts = split(s, '+');
    let ghost all = slices_view(parts@);
    let mut r = Modifiers::empty();
    let mut i: usize = 0;
    while i < parts.len()
        invariant
            i <= parts.len(),
            all == slices_view(parts@),
            r.logo == exists|k: int| 0 <= k < i && is_logo(lowercase(#[trigger] all[k])),
            r.ctrl == exists|k: int| 0 <= k < i && is_ctrl(lowercase(#[trigger] all[k])),
            r.alt == exists|k: int| 0 <= k < i && is_alt(lowercase(#[trigger] all[k])),
            r.shift == exists|k: int| 0 <= k < i && is_shift(lowercase(#[trigger] all[k])),
        decreases parts.len() - i,
    {
        let m = to_lowercase(parts[i]);
        let w = m.as_str();
        assert(w@ == lowercase(all[i as int]));
        if same(w, "super") || same(w, "mod4") || same(w, "logo") {
            r.logo = true;
        }
        if same(w, "ctrl") || same(w, "control") {
            r.ctrl = true;
        }
        if same(w, "alt") || same(w, "mod1") {
            r.alt = true;
        }
        if same(w, "shift") {
            r.shift = true;
        }
        i += 1;
    }
    r
}

impl KeyCombo {
    /// `SUPER+SHIFT:Return`, or `Super+Shift+Return`, whose last part is the
    /// key.
    pub fn parse(s: &str) -> (r: Option<Self>)
        ensures
            match r {
                Some(c) => combo_of(s@) == Some(c@),
                None => combo_of(s@) is None,
            },
    {
        let c = chars_of(s);
        let c = c.as_slice();
        let at: usize = match rfind_char(c, ':') {
            Some(i) => i,
            None => match rfind_char(c, '+') {
                Some(i) => i,
                None => {
                    return Some(KeyCombo { mods: Modifiers::empty(), key: to_lowercase(c) });
                },
            },
        };
        assert(c@.subrange(0, at as int) =~= c@.take(at as int));
        assert(c@.subrange(at + 1, c@.len() as int) =~= c@.skip(at + 1));
        let key = slice_subrange(c, at + 1, c.len());
        if key.len() == 0 {
            return None;
        }
        let mods = parse_modifiers(slice_subrange(c, 0, at));
        Some(KeyCombo { mods, key: to_lowercase(key) })
    }
}

// ── Actions ──────────────────────────────────────────────────────────────────

#[derive(Debug)]
pub enum KeyAction {
    Exec(String, Vec<String>),
    Close,
    Fullscreen,
    ToggleBar,
    FocusLeft,
    FocusRight,
    FocusUp,
    FocusDown,
    MoveLeft,
    MoveRight,
    MoveUp,
    MoveDown,
    Workspace(u8),
    MoveToWorkspace(u8),
    NextLayout,
    PrevLayout,
    GrowMain,
    ShrinkMain,
    NextWorkspace,
    PrevWorkspace,
    Quit,
    Reload,
    SwitchVt(i32),
    EmergencyQuit,
    Custom(String, Vec<String>),
}

/// What a [`KeyAction`] holds.
pub enum ActionView {
    Exec(Seq<char>, Seq<Seq<char>>),
    Close,
    Fullscreen,
    ToggleBar,
    FocusLeft,
    FocusRight,
    FocusUp,
    FocusDown,
    MoveLeft,
    MoveRight,
    MoveUp,
    MoveDown,
    Workspace(u8),
    MoveToWorkspace(u8),
    NextLayout,
    PrevLayout,
    GrowMain,
    ShrinkMain,
    NextWorkspace,
    PrevWorkspace,
    Quit,
    Reload,
    SwitchVt(i32),
    EmergencyQuit,
    Custom(Seq<char>, Seq<Seq<char>>),
}

impl View for KeyAction {
    type V = ActionView;

    open spec fn view(&self) -> ActionView {
        match *self {
            KeyAction::Exec(c, a) => ActionView::Exec(c@, strings_view(a@)),
            KeyAction::Close => ActionView::Close,
            KeyAction::Fullscreen => ActionView::Fullscreen,
            KeyAction::ToggleBar => ActionView::ToggleBar,
            KeyAction::FocusLeft => ActionView::FocusLeft,
            KeyAction::FocusRight => ActionView::FocusRight,
            KeyAction::FocusUp => ActionView::FocusUp,
            KeyAction::FocusDown => ActionView::FocusDown,
            KeyAction::MoveLeft => ActionView::MoveLeft,
            KeyAction::MoveRight => ActionView::MoveRight,
            KeyAction::MoveUp => ActionView::MoveUp,
            KeyAction::MoveDown => ActionView::MoveDown,
            KeyAction::Workspace(n) => ActionView::Workspace(n),
            KeyAction::MoveToWorkspace(n) => ActionView::MoveToWorkspace(n),
            KeyAction::NextLayout => ActionView::NextLayout,
            KeyAction::PrevLayout => ActionView::PrevLayout,
            KeyAction::GrowMain => ActionView::GrowMain,
            KeyAction::ShrinkMain => ActionView::ShrinkMain,
            KeyAction::NextWorkspace => ActionView::NextWorkspace,
            KeyAction::PrevWorkspace => ActionView::PrevWorkspace,
            KeyAction::Quit => ActionView::Quit,
            KeyAction::Reload => ActionView::Reload,
            KeyAction::SwitchVt(n) => ActionView::SwitchVt(n),
            KeyAction::EmergencyQuit => ActionView::EmergencyQuit,
            KeyAction::Custom(c, a) => ActionView::Custom(c@, strings_view(a@)),
        }
    }
}

impl Clone for KeyAction {
    fn clone(&self) -> (r: Self)
        ensures
            r@ == self@,
    {
        match self {
            KeyAction::Exec(c, a) => KeyAction::Exec(c.clone(), copy_strings(a)),
            KeyAction::Close => KeyAction::Close,
            KeyAction::Fullscreen => KeyAction::Fullscreen,
            KeyAction::ToggleBar => KeyAction::ToggleBar,
            KeyAction::FocusLeft => KeyAction::FocusLeft,
            KeyAction::FocusRight => KeyAction::FocusRight,
            KeyAction::FocusUp => KeyAction::FocusUp,
            KeyAction::FocusDown => KeyAction::FocusDown,
            KeyAction::MoveLeft => KeyAction::MoveLeft,
            KeyAction::MoveRight => KeyAction::MoveRight,
            KeyAction::MoveUp => KeyAction::MoveUp,
            KeyAction::MoveDown => KeyAction::MoveDown,
            KeyAction::Workspace(n) => KeyAction::Workspace(*n),
            KeyAction::MoveToWorkspace(n) => KeyAction::MoveToWorkspace(*n),
            KeyAction::NextLayout => KeyAction::NextLayout,
            KeyAction::PrevLayout => KeyAction::PrevLayout,
            KeyAction::GrowMain => KeyAction::GrowMain,
            KeyAction::ShrinkMain => KeyAction::ShrinkMain,
            KeyAction::NextWorkspace => KeyAction::NextWorkspace,
            KeyAction::PrevWorkspace => KeyAction::PrevWorkspace,
            KeyAction::Quit => KeyAction::Quit,
            KeyAction::Reload => KeyAction::Reload,
            KeyAction::SwitchVt(n) => KeyAction::SwitchVt(*n),
            KeyAction::EmergencyQuit => KeyAction::EmergencyQuit,
            KeyAction::Custom(c, a) => KeyAction::Custom(c.clone(), copy_strings(a)),
        }
    }
}

/// The integer between `lo` and `hi` that `s` writes.
pub open spec fn ranged(s: Seq<char>, lo: int, hi: int) -> Option<int> {
    match i64_of(s) {
        Some(n) => if lo <= n <= hi {
            Some(n as int)
        } else {
            None
        },
        None => None,
    }
}

/// The action named `name` with its arguments.
pub open spec fn action_of(name: Seq<char>, args: Seq<Seq<char>>) -> Option<ActionView> {
    if name == "exec"@ {
        if args.len() > 0 {
            Some(ActionView::Exec(args[0], args.skip(1)))
        } else {
            None
        }
    } else if name == "close"@ {
        Some(ActionView::Close)
    } else if name == "fullscreen"@ {
        Some(ActionView::Fullscreen)
    } else if name == "toggle_bar"@ {
        Some(ActionView::ToggleBar)
    } else if name == "focus"@ {
        if args.len() == 0 {
            None
        } else if args[0] == "left"@ {
            Some(ActionView::FocusLeft)
        } else if args[0] == "right"@ {
            Some(ActionView::FocusRight)
        } else if args[0] == "up"@ {
            Some(ActionView::FocusUp)
        } else if args[0] == "down"@ {
            Some(ActionView::FocusDown)
        } else {
            None
        }
    } else if name == "move"@ {
        if args.len() == 0 {
            None
        } else if args[0] == "left"@ {
            Some(ActionView::MoveLeft)
        } else if args[0] == "right"@ {
            Some(ActionView::MoveRight)
        } else if args[0] == "up"@ {
            Some(ActionView::MoveUp)
        } else if args[0] == "down"@ {
            Some(ActionView::MoveDown)
        } else {
            None
        }
    } else if name == "workspace"@ {
        if args.len() == 0 {
            None
        } else {
            match unsigned_of(args[0], 10, 255) {
                Some(n) => Some(ActionView::Workspace(n as u8)),
                None => None,
            }
        }
    } else if name == "move_to_workspace"@ {
        if args.len() == 0 {
            None
        } else {
            match unsigned_of(args[0], 10, 255) {
                Some(n) => Some(ActionView::MoveToWorkspace(n as u8)),
                None => None,
            }
        }
    } else if name == "next_layout"@ {
        Some(ActionView::NextLayout)
    } else if name == "prev_layout"@ {
        Some(ActionView::PrevLayout)
    } else if name == "grow_main"@ {
        Some(ActionView::GrowMain)
    } else if name == "shrink_main"@ {
        Some(ActionView::ShrinkMain)
    } else if name == "next_workspace"@ {
        Some(ActionView::NextWorkspace)
    } else if name == "prev_workspace"@ {
        Some(ActionView::PrevWorkspace)
    } else if name == "quit"@ {
        Some(ActionView::Quit)
    } else if name == "reload"@ {
        Some(ActionView::Reload)
    } else if name == "switch_vt"@ {
        if args.len() == 0 {
            None
        } else {
            match ranged(args[0], i32::MIN as int, i32::MAX as int) {
                Some(n) => Some(ActionView::SwitchVt(n as i32)),
                None => None,
            }
        }
    } else {
        Some(ActionView::Custom(name, args))
    }
}

/// Whether `r` is the action that `v` describes.
pub open spec fn is_action(r: Option<KeyAction>, v: Option<ActionView>) -> bool {
    match r {
        Some(a) => v == Some(a@),
        None => v is None,
    }
}

fn parse_u8(s: &str) -> (r: Option<u8>)
    ensures
        match r {
            Some(n) => unsigned_of(s@, 10, 255) == Some(n as nat),
            None => unsigned_of(s@, 10, 255) is None,
        },
{
    let c = chars_of(s);
    match parse_unsigned(c.as_slice(), 10, 255) {
        Some(n) => Some(n as u8),
        None => None,
    }
}

/// The strings of `v` from index `n` on.
fn copy_from(v: &Vec<String>, n: usize) -> (r: Vec<String>)
    requires
        n <= v@.len(),
    ensures
        strings_view(r@) == strings_view(v@).skip(n as int),
{
    let mut r: Vec<String> = Vec::new();
    let mut i: usize = n;
    while i < v.len()
        invariant
            n <= i <= v.len(),
            r@.len() == i - n,
            forall|k: int| 0 <= k < i - n ==> (#[trigger] r@[k])@ == v@[n + k]@,
        decreases v.len() - i,
    {
        r.push(v[i].clone());
        i += 1;
    }
    assert(strings_view(r@) =~= strings_view(v@).skip(n as int));
    r
}

impl KeyAction {
    /// The action of the name `action` with the arguments `args`; one of a name
    /// that means nothing is a custom one. `None` where an argument is missing or
    /// is none of those that the action takes.
    pub fn parse(action: &str, args: &Vec<String>) -> (r: Option<Self>)
        ensures
            is_action(r, action_of(action@, strings_view(args@))),
    {
        let ghost av = strings_view(args@);
        assert(args@.len() > 0 ==> av[0] == args@[0]@);
        if same(action, "exec") {
            if args.len() > 0 {
                Some(KeyAction::Exec(args[0].clone(), copy_from(args, 1)))
            } else {
                None
            }
        } else if same(action, "close") {
            Some(KeyAction::Close)
        } else if same(action, "fullscreen") {
            Some(KeyAction::Fullscreen)
        } else if same(action, "toggle_bar") {
            Some(KeyAction::ToggleBar)
        } else if same(action, "focus") {
            if args.len() == 0 {
                return None;
            }
            let d = args[0].as_str();
            if same(d, "left") {
                Some(KeyAction::FocusLeft)
            } else if same(d, "right") {
                Some(KeyAction::FocusRight)
            } else if same(d, "up") {
                Some(KeyAction::FocusUp)
            } else if same(d, "down") {
                Some(KeyAction::FocusDown)
            } else {
                None
            }
        } else if same(action, "move") {
            if args.len() == 0 {
                return None;
            }
            let d = args[0].as_str();
            if same(d, "left") {
                Some(KeyAction::MoveLeft)
            } else if same(d, "right") {
                Some(KeyAction::MoveRight)
            } else if same(d, "up") {
                Some(KeyAction::MoveUp)
            } else if same(d, "down") {
                Some(KeyAction::MoveDown)
            } else {
                None
            }
        } else if same(action, "workspace") {
            if args.len() == 0 {
                return None;
            }
            match parse_u8(args[0].as_str()) {
                Some(n) => Some(KeyAction::Workspace(n)),
                None => None,
            }
        } else if same(action, "move_to_workspace") {
            if args.len() == 0 {
                return None;
            }
            match parse_u8(args[0].as_str()) {
                Some(n) => Some(KeyAction::MoveToWorkspace(n)),
                None => None,
            }
        } else if same(action, "next_layout") {
            Some(KeyAction::NextLayout)
        } else if same(action, "prev_layout") {
            Some(KeyAction::PrevLayout)
        } else if same(action, "grow_main") {
            Some(KeyAction::GrowMain)
        } else if same(action, "shrink_main") {
            Some(KeyAction::ShrinkMain)
        } else if same(action, "next_workspace") {
            Some(KeyAction::NextWorkspace)
        } else if same(action, "prev_workspace") {
            Some(KeyAction::PrevWorkspace)
        } else if same(action, "quit") {
            Some(KeyAction::Quit)
        } else if same(action, "reload") {
            Some(KeyAction::Reload)
        } else if same(action, "switch_vt") {
            if args.len() == 0 {
                return None;
            }
            let c = chars_of(args[0].as_str());
            match parse_i64(c.as_slice()) {
                Some(n) => if -0x8000_0000 <= n && n <= 0x7FFF_FFFF {
                    Some(KeyAction::SwitchVt(n as i32))
                } else {
                    None
                },
                None => None,
            }
        } else {
            Some(KeyAction::Custom(action.to_owned(), copy_strings(args)))
        }
    }
}

// ── Bindings ─────────────────────────────────────────────────────────────────

/// A binding: a combination and its action.
pub struct BindView {
    pub combo: ComboView,
    pub action: ActionView,
}

pub open spec fn bind_view(b: (KeyCombo, KeyAction)) -> BindView {
    BindView { combo: b.0@, action: b.1@ }
}

pub open spec fn binds_view(v: Seq<(KeyCombo, KeyAction)>) -> Seq<BindView> {
    Seq::new(v.len(), |i: int| bind_view(v[i]))
}

pub open spec fn bound(logo_with: (bool, bool), key: Seq<char>, action: ActionView) -> BindView {
    BindView {
        combo: ComboView {
            mods: Modifiers { logo: true, ctrl: logo_with.0, alt: false, shift: logo_with.1 },
            key,
        },
        action,
    }
}

/// The bindings of a configuration that defines none.
pub open spec fn default_binds() -> Seq<BindView> {
    let plain = (false, false);
    let shift = (false, true);
    let ctrl = (true, false);
    seq![
        bound(plain, "return"@, ActionView::Exec("foot"@, Seq::empty())),
        bound(plain, "q"@, ActionView::Close),
        bound(plain, "f"@, ActionView::Fullscreen),
        bound(shift, "b"@, ActionView::ToggleBar),
        bound(plain, "h"@, ActionView::FocusLeft),
        bound(plain, "l"@, ActionView::FocusRight),
        bound(plain, "k"@, ActionView::FocusUp),
        bound(plain, "j"@, ActionView::FocusDown),
        bound(shift, "h"@, ActionView::MoveLeft),
        bound(shift, "l"@, ActionView::MoveRight),
        bound(plain, "tab"@, ActionView::NextLayout),
        bound(plain, "equal"@, ActionView::GrowMain),
        bound(plain, "minus"@, ActionView::ShrinkMain),
        bound(ctrl, "right"@, ActionView::NextWorkspace),
        bound(ctrl, "left"@, ActionView::PrevWorkspace),
    ]
}

fn with_logo(ctrl: bool, shift: bool, key: &str, action: KeyAction) -> (r: (KeyCombo, KeyAction))
    ensures
        bind_view(r) == bound((ctrl, shift), key@, action@),
{
    (
        KeyCombo { mods: Modifiers { logo: true, ctrl, alt: false, shift }, key: key.to_owned() },
        action,
    )
}

pub fn default_keybinds() -> (r: Vec<(KeyCombo, KeyAction)>)
    ensures
        binds_view(r@) == default_binds(),
{
    let none: Vec<String> = Vec::new();
    assert(strings_view(none@) =~= Seq::<Seq<char>>::empty());
    let mut r: Vec<(KeyCombo, KeyAction)> = Vec::new();
    r.push(with_logo(false, false, "return", KeyAction::Exec("foot".to_owned(), none)));
    r.push(with_logo(false, false, "q", KeyAction::Close));
    r.push(with_logo(false, false, "f", KeyAction::Fullscreen));
    r.push(with_logo(false, true, "b", KeyAction::ToggleBar));
    r.push(with_logo(false, false, "h", KeyAction::FocusLeft));
    r.push(with_logo(false, false, "l", KeyAction::FocusRight));
    r.push(with_logo(false, false, "k", KeyAction::FocusUp));
    r.push(with_logo(false, false, "j", KeyAction::FocusDown));
    r.push(with_logo(false, true, "h", KeyAction::MoveLeft));
    r.push(with_logo(false, true, "l", KeyAction::MoveRight));
    r.push(with_logo(false, false, "tab", KeyAction::NextLayout));
    r.push(with_logo(false, false, "equal", KeyAction::GrowMain));
    r.push(with_logo(false, false, "minus", KeyAction::ShrinkMain));
    r.push(with_logo(true, false, "right", KeyAction::NextWorkspace));
    r.push(with_logo(true, false, "left", KeyAction::PrevWorkspace));
    assert(binds_view(r@) =~= default_binds());
    r
}

} // verus!
