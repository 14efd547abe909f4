//! Screens and sessions: which mode a screen gets, and when it is drawn.

use vstd::prelude::*;

use crate::config::settings::MonitorConfig;
use crate::integer::push_decimal;
use crate::integer::decimal;
use crate::text::{same, strings_view};
use crate::twm::state::{reflowed, resplit, TwmState, TwmView};

verus! {

// ── Modes ────────────────────────────────────────────────────────────────────

/// A mode of a screen.
#[derive(Debug, Clone, Copy, PartialEq, Eq, Structural)]
pub struct ScreenMode {
    pub width: u32,
    pub height: u32,
    /// Pictures a second.
    pub refresh: u32,
    /// Whether the screen prefers it.
    pub preferred: bool,
}

/// The first mode from `i` on with this size and this rate.
pub open spec fn exact_mode(m: Seq<ScreenMode>, i: int, w: u32, h: u32, hz: u32) -> Option<int>
    decreases m.len() - i,
{
    if i >= m.len() {
        None
    } else if m[i].width == w && m[i].height == h && m[i].refresh == hz {
        Some(i)
    } else {
        exact_mode(m, i + 1, w, h, hz)
    }
}

/// Of the first `n` modes, the last one with this size and the highest rate.
pub open spec fn fastest_mode(m: Seq<ScreenMode>, n: int, w: u32, h: u32) -> Option<int>
    decreases n,
{
    if n <= 0 {
        None
    } else {
        let best = fastest_mode(m, n - 1, w, h);
        let c = m[n - 1];
        if c.width == w && c.height == h && (best is None || c.refresh >= m[best->0].refresh) {
            Some(n - 1)
        } else {
            best
        }
    }
}

/// The first mode from `i` on that the screen prefers.
pub open spec fn preferred_mode(m: Seq<ScreenMode>, i: int) -> Option<int>
    decreases m.len() - i,
{
    if i >= m.len() {
        None
    } else if m[i].preferred {
        Some(i)
    } else {
        preferred_mode(m, i + 1)
    }
}

/// The mode of a screen that is not configured: the one that it prefers, else
/// the first.
pub open spec fn own_mode(m: Seq<ScreenMode>) -> Option<int> {
    if preferred_mode(m, 0) is Some {
        preferred_mode(m, 0)
    } else if m.len() > 0 {
        Some(0)
    } else {
        None
    }
}

/// The mode of a screen: that which is configured, else one of that size, as
/// fast as can be, else its own.
pub open spec fn chosen_mode(m: Seq<ScreenMode>, wanted: Option<(u32, u32, u32)>) -> Option<int> {
    match wanted {
        Some((w, h, hz)) => if exact_mode(m, 0, w, h, hz) is Some {
            exact_mode(m, 0, w, h, hz)
        } else if fastest_mode(m, m.len() as int, w, h) is Some {
            fastest_mode(m, m.len() as int, w, h)
        } else {
            own_mode(m)
        },
        None => own_mode(m),
    }
}

fn find_own(m: &Vec<ScreenMode>) -> (r: Option<usize>)
    ensures
        r is Some <==> own_mode(m@) is Some,
        r matches Some(i) ==> own_mode(m@) == Some(i as int),
{
    let mut i: usize = 0;
    while i < m.len()
        invariant
            i <= m@.len(),
            preferred_mode(m@, i as int) == preferred_mode(m@, 0),
        decreases m@.len() - i,
    {
        if m[i].preferred {
            return Some(i);
        }
        i += 1;
    }
    if m.len() > 0 {
        Some(0)
    } else {
        None
    }
}

/// The index of the mode that a screen gets; `wanted` are the width, the height
/// and the rate that are configured for it.
pub fn choose_mode(m: &Vec<ScreenMode>, wanted: Option<(u32, u32, u32)>) -> (r: Option<usize>)
    ensures
        r is Some <==> chosen_mode(m@, wanted) is Some,
        r matches Some(i) ==> chosen_mode(m@, wanted) == Some(i as int),
{
    let (w, h, hz) = match wanted {
        Some(x) => x,
        None => {
            return find_own(m);
        },
    };
    let mut i: usize = 0;
    while i < m.len()
        invariant
            i <= m@.len(),
            wanted == Some((w, h, hz)),
            exact_mode(m@, i as int, w, h, hz) == exact_mode(m@, 0, w, h, hz),
        decreases m@.len() - i,
    {
        if m[i].width == w && m[i].height == h && m[i].refresh == hz {
            return Some(i);
        }
        i += 1;
    }
    assert(exact_mode(m@, 0, w, h, hz) is None);
    let mut best: Option<usize> = None;
    let mut k: usize = 0;
    while k < m.len()
        invariant
            k <= m@.len(),
            best matches Some(b) ==> b < k,
            match best {
                Some(b) => fastest_mode(m@, k as int, w, h) == Some(b as int),
                None => fastest_mode(m@, k as int, w, h) is None,
            },
        decreases m@.len() - k,
    {
        let c = m[k];
        if c.width == w && c.height == h {
            let better = match best {
                Some(b) => c.refresh >= m[b].refresh,
                None => true,
            };
            if better {
                best = Some(k);
            }
        }
        k += 1;
    }
    match best {
        Some(b) => Some(b),
        None => find_own(m),
    }
}

/// Where the first of the monitors of the name `name` is.
pub open spec fn monitor_named(v: Seq<MonitorConfig>, i: int, name: Seq<char>) -> Option<int>
    decreases v.len() - i,
{
    if i >= v.len() {
        None
    } else if v[i].name@ == name {
        Some(i)
    } else {
        monitor_named(v, i + 1, name)
    }
}

/// What is configured for the screen of the name `name`.
pub open spec fn wanted_for(v: Seq<MonitorConfig>, name: Seq<char>) -> Option<(u32, u32, u32)> {
    match monitor_named(v, 0, name) {
        Some(i) => Some((v[i].width, v[i].height, v[i].refresh)),
        None => None,
    }
}

/// The width, the height and the rate that are configured for a screen.
pub fn wanted_mode(monitors: &Vec<MonitorConfig>, name: &str) -> (r: Option<(u32, u32, u32)>)
    ensures
        r == wanted_for(monitors@, name@),
{
    let mut i: usize = 0;
    while i < monitors.len()
        invariant
            i <= monitors@.len(),
            monitor_named(monitors@, i as int, name@) == monitor_named(monitors@, 0, name@),
        decreases monitors@.len() - i,
    {
        let m = &monitors[i];
        if same(m.name.as_str(), name) {
            return Some((m.width, m.height, m.refresh));
        }
        i += 1;
    }
    None
}

/// The name of a screen: the kind of its plug and its number.
pub fn connector_name(interface: &str, id: u32) -> (r: String)
    ensures
        r@ == interface@ + "-"@ + decimal(id as nat),
{
    let mut r = interface.to_owned();
    r.append("-");
    push_decimal(&mut r, id as u64);
    r
}

/// The first of `crtcs` that is not in use.
pub open spec fn free_in(crtcs: Seq<u32>, used: Seq<u32>, i: int) -> Option<u32>
    decreases crtcs.len() - i,
{
    if i >= crtcs.len() {
        None
    } else if !used.contains(crtcs[i]) {
        Some(crtcs[i])
    } else {
        free_in(crtcs, used, i + 1)
    }
}

fn is_used(used: &Vec<u32>, c: u32) -> (r: bool)
    ensures
        r == used@.contains(c),
{
    let mut i: usize = 0;
    while i < used.len()
        invariant
            i <= used@.len(),
            forall|k: int| 0 <= k < i ==> used@[k] != c,
        decreases used@.len() - i,
    {
        if used[i] == c {
            return true;
        }
        i += 1;
    }
    false
}

/// The first of `crtcs` that is not in use.
pub fn free_crtc(crtcs: &Vec<u32>, used: &Vec<u32>) -> (r: Option<u32>)
    ensures
        r == free_in(crtcs@, used@, 0),
{
    let mut i: usize = 0;
    while i < crtcs.len()
        invariant
            i <= crtcs@.len(),
            free_in(crtcs@, used@, i as int) == free_in(crtcs@, used@, 0),
        decreases crtcs@.len() - i,
    {
        if !is_used(used, crtcs[i]) {
            return Some(crtcs[i]);
        }
        i += 1;
    }
    None
}

/// A screen that was found.
#[derive(Debug)]
pub struct FoundScreen {
    pub name: String,
    pub modes: Vec<ScreenMode>,
}

/// A screen that is used: its index, the index of its mode, and what draws it.
#[derive(Debug, Clone, Copy, PartialEq, Eq, Structural)]
pub struct UsedScreen {
    pub screen: usize,
    pub mode: usize,
    pub crtc: u32,
}

/// Which of the first `n` screens are used: those with a mode that can be set
/// up, as long as there is something to draw them.
pub open spec fn screens_used(
    screens: Seq<FoundScreen>,
    monitors: Seq<MonitorConfig>,
    crtcs: Seq<u32>,
    works: Seq<bool>,
    n: int,
) -> Seq<UsedScreen>
    decreases n,
{
    if n <= 0 {
        Seq::empty()
    } else {
        let before = screens_used(screens, monitors, crtcs, works, n - 1);
        let s = screens[n - 1];
        match chosen_mode(s.modes@, wanted_for(monitors, s.name@)) {
            Some(mode) => match free_in(crtcs, crtcs_of(before), 0) {
                Some(crtc) => if works[n - 1] {
                    before.push(UsedScreen { screen: (n - 1) as usize, mode: mode as usize, crtc })
                } else {
                    before
                },
                None => before,
            },
            None => before,
        }
    }
}

pub open spec fn crtcs_of(v: Seq<UsedScreen>) -> Seq<u32> {
    Seq::new(v.len(), |i: int| v[i].crtc)
}

/// Chooses a mode and a CRTC for a screen, where there are any; `used` are taken.
pub fn place_screen(
    screen: &FoundScreen,
    monitors: &Vec<MonitorConfig>,
    crtcs: &Vec<u32>,
    used: &Vec<u32>,
) -> (r: Option<(usize, u32)>)
    ensures
        match (
            chosen_mode(screen.modes@, wanted_for(monitors@, screen.name@)),
            free_in(crtcs@, used@, 0),
        ) {
            (Some(mode), Some(crtc)) => r == Some((mode as usize, crtc)),
            _ => r is None,
        },
{
    let wanted = wanted_mode(monitors, screen.name.as_str());
    match choose_mode(&screen.modes, wanted) {
        Some(mode) => match free_crtc(crtcs, used) {
            Some(crtc) => Some((mode, crtc)),
            None => None,
        },
        None => None,
    }
}

/// Chooses a mode and a CRTC for every screen, as far as there are any; `works`
/// tells of each screen whether it can be set up, and one that cannot leaves its
/// CRTC to the next.
pub fn add_gpu(
    screens: &Vec<FoundScreen>,
    monitors: &Vec<MonitorConfig>,
    crtcs: &Vec<u32>,
    works: &Vec<bool>,
) -> (r: Vec<UsedScreen>)
    requires
        works@.len() == screens@.len(),
    ensures
        r@ == screens_used(screens@, monitors@, crtcs@, works@, screens@.len() as int),
{
    let mut r: Vec<UsedScreen> = Vec::new();
    let mut used: Vec<u32> = Vec::new();
    let mut i: usize = 0;
    while i < screens.len()
        invariant
            i <= screens@.len(),
            works@.len() == screens@.len(),
            r@ == screens_used(screens@, monitors@, crtcs@, works@, i as int),
            used@ == crtcs_of(r@),
        decreases screens@.len() - i,
    {
        if let Some((mode, crtc)) = place_screen(&screens[i], monitors, crtcs, &used) {
            if works[i] {
                r.push(UsedScreen { screen: i, mode, crtc });
                used.push(crtc);
            }
        }
        i += 1;
        assert(used@ =~= crtcs_of(r@));
    }
    r
}

// ── Outputs ──────────────────────────────────────────────────────────────────

/// The height of the bar: that which is configured, rounded up to whole lines.
pub open spec fn rounded_bar(height: u32, line_h: u32) -> int {
    if line_h == 0 {
        height as int
    } else {
        (height + line_h - 1) / (line_h as int) * line_h
    }
}

/// The height of the bar when a line is `line_h` pixels high.
pub fn bar_height(height: u32, line_h: u32) -> (r: u64)
    ensures
        r == rounded_bar(height, line_h),
{
    if line_h == 0 {
        return height as u64;
    }
    let n: u64 = (height as u64 + line_h as u64 - 1) / line_h as u64;
    assert(n * line_h <= 0x1_FFFF_FFFF && n == (height + line_h - 1) / (line_h as int))
        by (nonlinear_arith)
        requires
            line_h > 0,
            n == (height as int + line_h as int - 1) / (line_h as int),
            height <= 0xFFFF_FFFF,
            line_h <= 0xFFFF_FFFF,
    ;
    n * line_h as u64
}

/// The bar is not lower than is configured, and less than a line higher.
pub proof fn law_bar_is_rounded_up(height: u32, line_h: u32)
    requires
        line_h > 0,
    ensures
        height <= rounded_bar(height, line_h) < height + line_h,
        rounded_bar(height, line_h) % (line_h as int) == 0,
{
    let l = line_h as int;
    let a = height + l - 1;
    vstd::arithmetic::div_mod::lemma_fundamental_div_mod(a, l);
    assert(a / l * l == l * (a / l)) by (nonlinear_arith);
    vstd::arithmetic::div_mod::lemma_mod_multiples_basic(a / l, l);
}

/// The nanoseconds between two pictures at `hz` pictures a second.
pub fn frame_nanos(hz: u64) -> (r: u64)
    ensures
        r == 1_000_000_000int / (if hz > 1 {
            hz as int
        } else {
            1
        }),
{
    1_000_000_000
        / (if hz > 1 {
        hz
    } else {
        1
    })
}

/// A screen that is set up.
#[derive(Debug, Clone, Copy, PartialEq, Eq, Structural)]
pub struct OutputInfo {
    /// Pictures in a thousand seconds.
    pub refresh: u64,
    /// The nanoseconds between two pictures.
    pub frame_nanos: u64,
    /// The height of the bar.
    pub bar_h: u32,
}

/// The height of the bar where a line is `line_h` pixels high; that which is
/// configured where nothing draws lines.
pub open spec fn bar_of(height: u32, line_h: Option<u32>) -> int {
    match line_h {
        Some(l) => rounded_bar(height, l),
        None => height as int,
    }
}

/// The panes once the screen has this size and the bar is `bar_h` pixels high.
pub open spec fn with_screen(
    t: TwmView,
    screen_w: u32,
    screen_h: u32,
    bar_h: u32,
    at_bottom: bool,
) -> TwmView {
    let sized = reflowed(resplit((TwmView { screen_w, screen_h, ..t }), t.bar.h, t.bar.y > 0));
    reflowed(resplit(sized, bar_h, at_bottom))
}

/// Sets up a screen that shows `hz` pictures a second: the panes get what the bar,
/// rounded up to whole lines, leaves of it.
pub fn add_output(
    twm: &mut TwmState,
    size: (u32, u32),
    hz: u32,
    bar: (u32, bool),
    line_h: Option<u32>,
) -> (r: OutputInfo)
    requires
        old(twm)@.wf(),
        bar_of(bar.0, line_h) <= u32::MAX,
    ensures
        final(twm)@ == with_screen(old(twm)@, size.0, size.1, r.bar_h, bar.1),
        final(twm)@.wf(),
        r.refresh == hz * 1000,
        r.frame_nanos == 1_000_000_000int / (if hz > 1 {
            hz as int
        } else {
            1
        }),
        r.bar_h == bar_of(bar.0, line_h),
{
    let bar_h: u32 = match line_h {
        Some(l) => bar_height(bar.0, l) as u32,
        None => bar.0,
    };
    twm.resize(size.0, size.1);
    twm.set_bar_height(bar_h, bar.1);
    OutputInfo { refresh: hz as u64 * 1000, frame_nanos: frame_nanos(hz as u64), bar_h }
}

// ── Devices ──────────────────────────────────────────────────────────────────

/// A screen as the graphics card describes it, by numbers.
#[derive(Debug, Clone, Copy, PartialEq, Eq, Structural)]
pub struct ConnectorInfo {
    pub connector: u32,
    pub crtc: u32,
    pub mode_w: u32,
    pub mode_h: u32,
    pub width_mm: u32,
    pub height_mm: u32,
}

/// What a connector tells of itself.
#[derive(Debug)]
pub struct ConnectorState {
    pub connector: u32,
    pub connected: bool,
    pub modes: Vec<ScreenMode>,
    /// What drives it: the encoder that it uses, else the first it could use.
    pub encoder_crtc: Option<u32>,
    pub size_mm: Option<(u32, u32)>,
}

/// The connectors that are in use, in their first mode; `None` where one of them
/// has nothing that drives it.
pub open spec fn connectors_used(v: Seq<ConnectorState>, n: int) -> Option<Seq<ConnectorInfo>>
    decreases n,
{
    if n <= 0 {
        Some(Seq::empty())
    } else {
        match connectors_used(v, n - 1) {
            Some(before) => {
                let c = v[n - 1];
                if !c.connected || c.modes@.len() == 0 {
                    Some(before)
                } else if c.encoder_crtc is None {
                    None
                } else {
                    Some(
                        before.push(
                            ConnectorInfo {
                                connector: c.connector,
                                crtc: c.encoder_crtc->0,
                                mode_w: c.modes@[0].width,
                                mode_h: c.modes@[0].height,
                                width_mm: match c.size_mm {
                                    Some(s) => s.0,
                                    None => 0,
                                },
                                height_mm: match c.size_mm {
                                    Some(s) => s.1,
                                    None => 0,
                                },
                            },
                        ),
                    )
                }
            },
            None => None,
        }
    }
}

proof fn lemma_connectors_fail(v: Seq<ConnectorState>, n: int, m: int)
    requires
        n <= m,
        connectors_used(v, n) is None,
    ensures
        connectors_used(v, m) is None,
    decreases m - n,
{
    if n < m {
        lemma_connectors_fail(v, n, m - 1);
    }
}

/// The connectors that are in use.
pub fn enumerate_connectors(v: &Vec<ConnectorState>) -> (r: Option<Vec<ConnectorInfo>>)
    ensures
        match r {
            Some(c) => connectors_used(v@, v@.len() as int) == Some(c@),
            None => connectors_used(v@, v@.len() as int) is None,
        },
{
    let mut r: Vec<ConnectorInfo> = Vec::new();
    let mut i: usize = 0;
    assert(r@ =~= Seq::<ConnectorInfo>::empty());
    while i < v.len()
        invariant
            i <= v@.len(),
            connectors_used(v@, i as int) == Some(r@),
        decreases v@.len() - i,
    {
        let c = &v[i];
        if c.connected && c.modes.len() > 0 {
            match c.encoder_crtc {
                Some(crtc) => {
                    let (width_mm, height_mm): (u32, u32) = match c.size_mm {
                        Some(s) => s,
                        None => (0, 0),
                    };
                    r.push(
                        ConnectorInfo {
                            connector: c.connector,
                            crtc,
                            mode_w: c.modes[0].width,
                            mode_h: c.modes[0].height,
                            width_mm,
                            height_mm,
                        },
                    );
                },
                None => {
                    proof {
                        lemma_connectors_fail(v@, i + 1, v@.len() as int);
                    }
                    return None;
                },
            }
        }
        i += 1;
    }
    Some(r)
}

/// The paths at which a graphics card can be: the one that is given, else the
/// first eight in order.
pub open spec fn card_paths(given: Option<Seq<char>>) -> Seq<Seq<char>> {
    match given {
        Some(p) => seq![p],
        None => Seq::new(8, |i: int| "/dev/dri/card"@ + decimal(i as nat)),
    }
}

/// The paths at which a graphics card can be. The one that is given is taken
/// without a look.
pub fn drm_candidates(given: Option<&str>) -> (r: Vec<String>)
    ensures
        strings_view(r@) == card_paths(
            match given {
                Some(p) => Some(p@),
                None => None,
            },
        ),
{
    let mut r: Vec<String> = Vec::new();
    if let Some(p) = given {
        r.push(p.to_owned());
        assert(strings_view(r@) =~= seq![p@]);
        return r;
    }
    let mut i: u64 = 0;
    while i < 8
        invariant
            i <= 8,
            r@.len() == i,
            forall|k: int| 0 <= k < i ==> (#[trigger] r@[k])@ == "/dev/dri/card"@ + decimal(k as nat),
        decreases 8 - i,
    {
        let mut p = "/dev/dri/card".to_owned();
        push_decimal(&mut p, i);
        r.push(p);
        i += 1;
    }
    assert(strings_view(r@) =~= card_paths(None));
    r
}

// ── Sessions ─────────────────────────────────────────────────────────────────

/// Who gives access to devices.
#[derive(Debug, Clone, Copy, PartialEq, Eq, Structural)]
pub enum Session {
    /// A seat, which can be inactive.
    Libseat { active: bool },
    /// Nobody: devices are opened as files.
    Direct,
}

impl Session {
    /// A session on a seat, where there is one.
    pub fn open(seat: bool) -> (r: Self)
        ensures
            r == (if seat {
                Session::Libseat { active: false }
            } else {
                Session::Direct
            }),
    {
        if seat {
            Session::Libseat { active: false }
        } else {
            Session::Direct
        }
    }

    /// Whether devices can be used now.
    pub fn is_active(&self) -> (r: bool)
        ensures
            r == match *self {
                Session::Libseat { active } => active,
                Session::Direct => true,
            },
    {
        match self {
            Session::Libseat { active } => *active,
            Session::Direct => true,
        }
    }

    /// The seat was given to this session, or taken from it.
    pub fn set_active(&mut self, on: bool)
        ensures
            *final(self) == (match *old(self) {
                Session::Libseat { .. } => Session::Libseat { active: on },
                Session::Direct => Session::Direct,
            }),
    {
        if let Session::Libseat { .. } = self {
            *self = Session::Libseat { active: on };
        }
    }

    /// The name of the seat, where it tells one.
    pub fn seat_name<'a>(&self, told: Option<&'a str>) -> (r: &'a str)
        ensures
            r@ == (match (*self, told) {
                (Session::Libseat { .. }, Some(n)) => n@,
                _ => "seat0"@,
            }),
    {
        match (self, told) {
            (Session::Libseat { .. }, Some(n)) => n,
            _ => "seat0",
        }
    }
}

/// When a screen is drawn.
#[derive(Debug, Clone, Copy, PartialEq, Eq, Structural)]
pub struct SurfaceState {
    pub crtc: u32,
    /// Whether a picture is on its way to the screen.
    pub pending_frame: bool,
    pub next_frame_ms: u64,
}

/// The session is left: no picture is on its way.
pub fn pause_all_outputs(v: &mut Vec<SurfaceState>)
    ensures
        final(v)@ == Seq::new(
            old(v)@.len(),
            |i: int| SurfaceState { pending_frame: false, ..old(v)@[i] },
        ),
{
    let mut i: usize = 0;
    while i < v.len()
        invariant
            i <= v@.len(),
            v@.len() == old(v)@.len(),
            forall|k: int|
                0 <= k < v@.len() ==> #[trigger] v@[k] == if k < i {
                    SurfaceState { pending_frame: false, ..old(v)@[k] }
                } else {
                    old(v)@[k]
                },
        decreases v@.len() - i,
    {
        v[i].pending_frame = false;
        i += 1;
    }
    assert(v@ =~= Seq::new(
        old(v)@.len(),
        |i: int| SurfaceState { pending_frame: false, ..old(v)@[i] },
    ));
}

/// The session is back: every screen is drawn again, 16 milliseconds from now.
pub fn resume_all_outputs(v: &mut Vec<SurfaceState>, now_ms: u64)
    requires
        now_ms <= u64::MAX - 16,
    ensures
        final(v)@ == Seq::new(
            old(v)@.len(),
            |i: int|
                SurfaceState {
                    pending_frame: false,
                    next_frame_ms: (now_ms + 16) as u64,
                    ..old(v)@[i]
                },
        ),
{
    let mut i: usize = 0;
    while i < v.len()
        invariant
            i <= v@.len(),
            now_ms <= u64::MAX - 16,
            v@.len() == old(v)@.len(),
            forall|k: int|
                0 <= k < v@.len() ==> #[trigger] v@[k] == if k < i {
                    SurfaceState {
                        pending_frame: false,
                        next_frame_ms: (now_ms + 16) as u64,
                        ..old(v)@[k]
                    }
                } else {
                    old(v)@[k]
                },
        decreases v@.len() - i,
    {
        v[i].pending_frame = false;
        v[i].next_frame_ms = now_ms + 16;
        i += 1;
    }
    assert(v@ =~= Seq::new(
        old(v)@.len(),
        |i: int|
            SurfaceState {
                pending_frame: false,
                next_frame_ms: (now_ms + 16) as u64,
                ..old(v)@[i]
            },
    ));
}

// ── Laws ─────────────────────────────────────────────────────────────────────

proof fn lemma_fastest(m: Seq<ScreenMode>, n: int, w: u32, h: u32)
    requires
        0 <= n <= m.len(),
    ensures
        match fastest_mode(m, n, w, h) {
            Some(b) => {
                &&& 0 <= b < n
                &&& m[b].width == w && m[b].height == h
                &&& forall|k: int|
                    0 <= k < n && (#[trigger] m[k]).width == w && m[k].height == h ==> m[k].refresh
                        <= m[b].refresh
            },
            None => forall|k: int|
                0 <= k < n ==> !((#[trigger] m[k]).width == w && m[k].height == h),
        },
    decreases n,
{
    if n > 0 {
        lemma_fastest(m, n - 1, w, h);
    }
}

proof fn lemma_exact(m: Seq<ScreenMode>, i: int, w: u32, h: u32, hz: u32)
    requires
        0 <= i,
    ensures
        match exact_mode(m, i, w, h, hz) {
            Some(k) => i <= k < m.len() && m[k].width == w && m[k].height == h && m[k].refresh
                == hz,
            None => forall|k: int|
                i <= k < m.len() ==> !((#[trigger] m[k]).width == w && m[k].height == h
                    && m[k].refresh == hz),
        },
    decreases m.len() - i,
{
    if i < m.len() && !(m[i].width == w && m[i].height == h && m[i].refresh == hz) {
        lemma_exact(m, i + 1, w, h, hz);
    }
}

/// A screen that has a mode of the size that is configured gets that size; at
/// the rate that is configured where it can, else at the highest.
pub proof fn law_configured_size_is_used(m: Seq<ScreenMode>, w: u32, h: u32, hz: u32, k: int)
    requires
        0 <= k < m.len(),
        m[k].width == w,
        m[k].height == h,
    ensures
        chosen_mode(m, Some((w, h, hz))) matches Some(i) && {
            &&& 0 <= i < m.len()
            &&& m[i].width == w && m[i].height == h
            &&& m[i].refresh == hz || m[i].refresh >= m[k].refresh
        },
{
    lemma_exact(m, 0, w, h, hz);
    lemma_fastest(m, m.len() as int, w, h);
}

proof fn lemma_free(crtcs: Seq<u32>, used: Seq<u32>, i: int)
    requires
        0 <= i,
    ensures
        free_in(crtcs, used, i) matches Some(c) ==> !used.contains(c),
    decreases crtcs.len() - i,
{
    if i < crtcs.len() && used.contains(crtcs[i]) {
        lemma_free(crtcs, used, i + 1);
    }
}

/// No two screens are drawn by the same CRTC.
pub proof fn law_screens_share_no_crtc(
    screens: Seq<FoundScreen>,
    monitors: Seq<MonitorConfig>,
    crtcs: Seq<u32>,
    works: Seq<bool>,
    n: int,
    i: int,
    j: int,
)
    requires
        0 <= n <= screens.len() == works.len(),
        0 <= i < j < screens_used(screens, monitors, crtcs, works, n).len(),
    ensures
        screens_used(screens, monitors, crtcs, works, n)[i].crtc != screens_used(
            screens,
            monitors,
            crtcs,
            works,
            n,
        )[j].crtc,
    decreases n,
{
    if n > 0 {
        let before = screens_used(screens, monitors, crtcs, works, n - 1);
        let all = screens_used(screens, monitors, crtcs, works, n);
        if j < before.len() {
            law_screens_share_no_crtc(screens, monitors, crtcs, works, n - 1, i, j);
            assert(all[i] == before[i] && all[j] == before[j]);
        } else {
            lemma_free(crtcs, crtcs_of(before), 0);
            assert(crtcs_of(before)[i] == all[i].crtc);
        }
    }
}

} // verus!
