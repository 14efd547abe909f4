//! The time of day as bars show it, written by `chrono`.

use vstd::prelude::*;

use crate::chrome::bar::ClockModule;
use crate::chrome::zones::{clock_format, format_in, kind_in, module_kind};
use crate::config::settings::{modules_view, BarModuleKind, Config};
use crate::json::opt_text;
use crate::text::strings_view;

verus! {

/// A time by a format: `secs` seconds and `nanos` nanoseconds after the epoch,
/// `offset` seconds east of Greenwich.
pub uninterp spec fn time_text(secs: i64, nanos: u32, offset: i32, format: Seq<char>) -> Option<
    Seq<char>,
>;

/// The clock of the machine, and its time zone.
#[derive(Debug, Clone, Copy, PartialEq, Eq, Structural)]
pub struct LocalTime {
    pub secs: i64,
    pub nanos: u32,
    /// Seconds east of Greenwich.
    pub offset: i32,
}

/// `chrono::Local::now`: what the clock and the time zone of the machine say.
/// Nothing is claimed of it.
#[verifier::external_body]
fn local_now() -> (r: LocalTime) {
    let now = chrono::Local::now();
    LocalTime {
        secs: now.timestamp(),
        nanos: now.timestamp_subsec_nanos(),
        offset: now.offset().local_minus_utc(),
    }
}

/// `chrono::DateTime::format`: a time by a format, `None` where one of them is
/// not valid, or the time is not one that `chrono` can hold; a function of the
/// time, the offset and the format.
#[verifier::external_body]
fn format_time(t: LocalTime, format: &str) -> (r: Option<String>)
    ensures
        opt_text(r) == time_text(t.secs, t.nanos, t.offset, format@),
{
    let zone = chrono::FixedOffset::east_opt(t.offset)?;
    let time = chrono::DateTime::from_timestamp(t.secs, t.nanos)?.with_timezone(&zone);
    let mut out = String::new();
    time.format(format).write_to(&mut out).ok()?;
    Some(out)
}

/// What a format shows at a time.
pub open spec fn shown_at(t: LocalTime, format: Seq<char>) -> Option<Seq<char>> {
    time_text(t.secs, t.nanos, t.offset, format)
}

/// What a format shows at the time `t`; `None` where one of them is not valid.
pub fn text_at(t: LocalTime, format: &str) -> (r: Option<String>)
    ensures
        opt_text(r) == shown_at(t, format@),
{
    format_time(t, format)
}

impl ClockModule {
    /// What the clock shows now; `None` where its format is not valid.
    pub fn current_text(&self) -> (r: Option<String>)
        ensures
            exists|t: LocalTime| opt_text(r) == #[trigger] shown_at(t, self.format@),
    {
        let t = local_now();
        let r = text_at(t, self.format.as_str());
        assert(opt_text(r) == shown_at(t, self.format@));
        r
    }
}

/// The texts of the modules of a zone at the time `t`: those of clocks, and
/// empty ones for the others.
pub open spec fn times_at(cfg: Config, names: Seq<Seq<char>>, n: int, t: LocalTime) -> Option<
    Seq<Seq<char>>,
>
    decreases n,
{
    if n <= 0 {
        Some(Seq::empty())
    } else {
        let modules = modules_view(cfg.bar_modules@);
        match times_at(cfg, names, n - 1, t) {
            Some(before) => if kind_in(modules, names[n - 1]) is Clock {
                match shown_at(t, format_in(modules, names[n - 1])) {
                    Some(text) => Some(before.push(text)),
                    None => None,
                }
            } else {
                Some(before.push(Seq::empty()))
            },
            None => None,
        }
    }
}

proof fn lemma_times_fail(cfg: Config, names: Seq<Seq<char>>, n: int, m: int, t: LocalTime)
    requires
        n <= m,
        times_at(cfg, names, n, t) is None,
    ensures
        times_at(cfg, names, m, t) is None,
    decreases m - n,
{
    if n < m {
        lemma_times_fail(cfg, names, n, m - 1, t);
    }
}

/// The texts of the modules of a zone at the time `t`; `None` where the format
/// of a clock is not valid.
pub fn zone_times(names: &Vec<String>, cfg: &Config, t: LocalTime) -> (r: Option<Vec<String>>)
    ensures
        match r {
            Some(v) => times_at(*cfg, strings_view(names@), names@.len() as int, t) == Some(
                strings_view(v@),
            ) && v@.len() == names@.len(),
            None => times_at(*cfg, strings_view(names@), names@.len() as int, t) is None,
        },
{
    let ghost nv = strings_view(names@);
    let mut r: Vec<String> = Vec::new();
    let mut i: usize = 0;
    assert(strings_view(r@) =~= Seq::empty());
    while i < names.len()
        invariant
            i <= names@.len(),
            i == r@.len(),
            nv == strings_view(names@),
            times_at(*cfg, nv, i as int, t) == Some(strings_view(r@)),
        decreases names@.len() - i,
    {
        let ghost before = r@;
        let name = names[i].as_str();
        assert(nv[i as int] == name@);
        let text = match module_kind(cfg, name) {
            BarModuleKind::Clock => match text_at(t, clock_format(cfg, name).as_str()) {
                Some(s) => s,
                None => {
                    proof {
                        lemma_times_fail(*cfg, nv, i + 1, names@.len() as int, t);
                    }
                    return None;
                },
            },
            _ => {
                let s = String::new();
                assert(s@ =~= Seq::<char>::empty());
                s
            },
        };
        let ghost tv = text@;
        r.push(text);
        assert(strings_view(r@) =~= strings_view(before).push(tv));
        i += 1;
    }
    Some(r)
}

/// The texts of the modules of a zone now.
pub fn zone_times_now(names: &Vec<String>, cfg: &Config) -> (r: Option<Vec<String>>)
    ensures
        exists|t: LocalTime|
            match r {
                Some(v) => #[trigger] times_at(
                    *cfg,
                    strings_view(names@),
                    names@.len() as int,
                    t,
                ) == Some(strings_view(v@)) && v@.len() == names@.len(),
                None => times_at(*cfg, strings_view(names@), names@.len() as int, t) is None,
            },
{
    let t = local_now();
    let r = zone_times(names, cfg, t);
    assert(match r {
        Some(v) => times_at(*cfg, strings_view(names@), names@.len() as int, t) == Some(
            strings_view(v@),
        ) && v@.len() == names@.len(),
        None => times_at(*cfg, strings_view(names@), names@.len() as int, t) is None,
    });
    r
}

} // verus!
