//! The load of the machine, as the system tells it.

use vstd::prelude::*;

use crate::integer::{decimal_digit, parse_u64, unsigned_of};
use crate::text::{
    chars_of, found_at, has_at, slices_view, split, split_spec, words, words_spec,
};

verus! {

// ── Processors ───────────────────────────────────────────────────────────────

/// Those of the words from `from` on that are numbers.
pub open spec fn numbers_from(w: Seq<Seq<char>>, from: int) -> Seq<u64>
    decreases w.len() - from,
{
    if from >= w.len() {
        Seq::empty()
    } else {
        let rest = numbers_from(w, from + 1);
        match unsigned_of(w[from], 10, u64::MAX as nat) {
            Some(n) => seq![n as u64] + rest,
            None => rest,
        }
    }
}

pub open spec fn sum_of(v: Seq<u64>) -> int
    decreases v.len(),
{
    if v.len() == 0 {
        0
    } else {
        sum_of(v.drop_last()) + v.last()
    }
}

/// The time that the processors were idle, and all of it, as the first line of
/// `/proc/stat` tells it: behind its first word stand numbers, the fourth of
/// which is the idle time.
pub open spec fn ticks_in(text: Seq<char>) -> Option<(u64, int)> {
    let nums = numbers_from(words_spec(split_spec(text, '\n')[0]), 1);
    if nums.len() < 4 {
        None
    } else {
        Some((nums[3], sum_of(nums)))
    }
}

/// The time that the processors were idle, and all of it.
pub fn cpu_ticks(text: &str) -> (r: Option<(u64, u128)>)
    ensures
        match r {
            Some((idle, total)) => ticks_in(text@) == Some((idle, total as int)),
            None => ticks_in(text@) is None,
        },
{
    let c = chars_of(text);
    let lines = split(c.as_slice(), '\n');
    assert(slices_view(lines@)[0] == lines@[0]@);
    let w = words(lines[0]);
    let ghost v = slices_view(w@);
    let ghost all = numbers_from(v, 1);
    assert(v.len() == w@.len());
    let mut nums: Vec<u64> = Vec::new();
    let mut total: u128 = 0;
    let mut i: usize = 1;
    while i < w.len()
        invariant
            1 <= i,
            i <= w@.len() || (i == 1 && w@.len() == 0),
            v == slices_view(w@),
            all == numbers_from(v, 1),
            all =~= nums@ + numbers_from(v, i as int),
            total == sum_of(nums@),
            total <= i * 0xFFFF_FFFF_FFFF_FFFF,
        decreases w@.len() - i,
    {
        assert(v[i as int] == w@[i as int]@);
        if let Some(n) = parse_u64(w[i]) {
            let ghost before = nums@;
            nums.push(n);
            total = total + n as u128;
            proof {
                assert(nums@.drop_last() =~= before);
                assert(before + (seq![n] + numbers_from(v, i + 1)) =~= nums@ + numbers_from(
                    v,
                    i + 1,
                ));
            }
        }
        i += 1;
    }
    assert(numbers_from(v, i as int).len() == 0);
    assert(all =~= nums@);
    if nums.len() < 4 {
        None
    } else {
        Some((nums[3], total))
    }
}

// ── Memory ───────────────────────────────────────────────────────────────────

/// The number behind the first word of a line.
pub open spec fn kb_in(line: Seq<char>) -> Option<u64> {
    let w = words_spec(line);
    if w.len() > 1 {
        match unsigned_of(w[1], 10, u64::MAX as nat) {
            Some(n) => Some(n as u64),
            None => None,
        }
    } else {
        None
    }
}

/// What the first `n` lines of `/proc/meminfo` say of all memory and of what is
/// left of it.
pub open spec fn memory_upto(lines: Seq<Seq<char>>, n: int) -> Option<(u64, u64)>
    decreases n,
{
    if n <= 0 {
        Some((0, 0))
    } else {
        match memory_upto(lines, n - 1) {
            Some((total, avail)) => {
                let l = lines[n - 1];
                if has_at(l, 0, "MemTotal:"@) && kb_in(l) is None {
                    None
                } else {
                    let total = if has_at(l, 0, "MemTotal:"@) {
                        kb_in(l)->0
                    } else {
                        total
                    };
                    if has_at(l, 0, "MemAvailable:"@) && kb_in(l) is None {
                        None
                    } else {
                        let avail = if has_at(l, 0, "MemAvailable:"@) {
                            kb_in(l)->0
                        } else {
                            avail
                        };
                        Some((total, avail))
                    }
                }
            },
            None => None,
        }
    }
}

/// The memory that is used, and all of it.
pub open spec fn memory_in(text: Seq<char>) -> Option<(u64, u64)> {
    let lines = split_spec(text, '\n');
    match memory_upto(lines, lines.len() as int) {
        Some((total, avail)) => Some(
            (
                if total > avail {
                    (total - avail) as u64
                } else {
                    0
                },
                total,
            ),
        ),
        None => None,
    }
}

fn parse_kb(line: &[char]) -> (r: Option<u64>)
    ensures
        r == kb_in(line@),
{
    let w = words(line);
    assert(slices_view(w@).len() == w@.len());
    if w.len() > 1 {
        assert(slices_view(w@)[1] == w@[1]@);
        parse_u64(w[1])
    } else {
        None
    }
}

proof fn lemma_memory_fails(lines: Seq<Seq<char>>, n: int, m: int)
    requires
        n <= m,
        memory_upto(lines, n) is None,
    ensures
        memory_upto(lines, m) is None,
    decreases m - n,
{
    if n < m {
        lemma_memory_fails(lines, n, m - 1);
    }
}

/// The memory that is used and all of it, in units of 1024 bytes.
pub fn mem_kb(text: &str) -> (r: Option<(u64, u64)>)
    ensures
        r == memory_in(text@),
{
    let c = chars_of(text);
    let lines = split(c.as_slice(), '\n');
    let ghost v = slices_view(lines@);
    assert(v.len() == lines@.len());
    let mut total: u64 = 0;
    let mut avail: u64 = 0;
    let mut i: usize = 0;
    while i < lines.len()
        invariant
            i <= lines@.len(),
            v == slices_view(lines@),
            v == split_spec(text@, '\n'),
            memory_upto(v, i as int) == Some((total, avail)),
        decreases lines@.len() - i,
    {
        let l = lines[i];
        assert(v[i as int] == l@);
        if found_at(l, 0, "MemTotal:") {
            match parse_kb(l) {
                Some(n) => {
                    total = n;
                },
                None => {
                    proof {
                        lemma_memory_fails(v, i + 1, v.len() as int);
                    }
                    return None;
                },
            }
        }
        if found_at(l, 0, "MemAvailable:") {
            match parse_kb(l) {
                Some(n) => {
                    avail = n;
                },
                None => {
                    proof {
                        lemma_memory_fails(v, i + 1, v.len() as int);
                    }
                    return None;
                },
            }
        }
        i += 1;
    }
    Some(
        (
            if total > avail {
                total - avail
            } else {
                0
            },
            total,
        ),
    )
}

// ── Readings ─────────────────────────────────────────────────────────────────

/// What is known of the load.
#[derive(Debug, Clone, Copy, PartialEq, Eq, Structural)]
pub struct SysStats {
    /// When it was read last.
    pub last_ms: Option<u64>,
    pub prev_idle: u64,
    pub prev_total: u128,
    /// The idle time between the last two readings, and all of it.
    pub idle: u64,
    pub total: u128,
    pub mem_used_mb: u64,
    pub mem_total_mb: u64,
}

pub open spec fn less(a: int, b: int) -> int {
    if a > b {
        a - b
    } else {
        0
    }
}

impl SysStats {
    /// Nothing is known but the times of the processors, where they could be read.
    pub fn new(ticks: Option<(u64, u128)>) -> (r: Self)
        ensures
            r == (SysStats {
                last_ms: None,
                prev_idle: match ticks {
                    Some(t) => t.0,
                    None => 0,
                },
                prev_total: match ticks {
                    Some(t) => t.1,
                    None => 1,
                },
                idle: 1,
                total: 1,
                mem_used_mb: 0,
                mem_total_mb: 0,
            }),
    {
        let (idle, total): (u64, u128) = match ticks {
            Some(t) => t,
            None => (0, 1),
        };
        SysStats {
            last_ms: None,
            prev_idle: idle,
            prev_total: total,
            idle: 1,
            total: 1,
            mem_used_mb: 0,
            mem_total_mb: 0,
        }
    }

    /// Whether a second has passed since the last reading.
    pub fn is_due(&self, now_ms: u64) -> (r: bool)
        ensures
            r == match self.last_ms {
                Some(t) => less(now_ms as int, t as int) >= 1000,
                None => true,
            },
    {
        match self.last_ms {
            Some(t) => now_ms > t && now_ms - t >= 1000,
            None => true,
        }
    }

    /// Takes over what was read, as far as it could be read.
    pub fn poll(&mut self, now_ms: u64, ticks: Option<(u64, u128)>, mem: Option<(u64, u64)>)
        ensures
            final(self).last_ms == Some(now_ms),
            match ticks {
                Some((idle, total)) => final(self).prev_idle == idle && final(self).prev_total
                    == total && final(self).idle == less(idle as int, old(self).prev_idle as int)
                    && final(self).total == (if total > old(self).prev_total {
                    total - old(self).prev_total
                } else {
                    1
                }),
                None => final(self).prev_idle == old(self).prev_idle && final(self).prev_total
                    == old(self).prev_total && final(self).idle == old(self).idle
                    && final(self).total == old(self).total,
            },
            match mem {
                Some((used, total)) => final(self).mem_used_mb == used / 1024
                    && final(self).mem_total_mb == total / 1024,
                None => final(self).mem_used_mb == old(self).mem_used_mb
                    && final(self).mem_total_mb == old(self).mem_total_mb,
            },
    {
        self.last_ms = Some(now_ms);
        if let Some((idle, total)) = ticks {
            self.idle = if idle > self.prev_idle {
                idle - self.prev_idle
            } else {
                0
            };
            self.total = if total > self.prev_total {
                total - self.prev_total
            } else {
                1
            };
            self.prev_idle = idle;
            self.prev_total = total;
        }
        if let Some((used, total)) = mem {
            self.mem_used_mb = used / 1024;
            self.mem_total_mb = total / 1024;
        }
    }
}

// ── Time ─────────────────────────────────────────────────────────────────────

/// A number below 100 with two digits.
pub open spec fn two_digits(n: nat) -> Seq<char> {
    seq![decimal_digit(n / 10 % 10), decimal_digit(n % 10)]
}

/// Hours and minutes of a count of seconds, such as `09:05`.
pub open spec fn clock_text(secs: nat) -> Seq<char> {
    let s = secs % 86400;
    two_digits(s / 3600) + seq![':'] + two_digits(s % 3600 / 60)
}

fn push_two(out: &mut String, n: u64)
    ensures
        final(out)@ == old(out)@ + two_digits(n as nat),
{
    out.push((48u8 + (n / 10 % 10) as u8) as char);
    out.push((48u8 + (n % 10) as u8) as char);
    assert(out@ =~= old(out)@ + two_digits(n as nat));
}

/// The time of day, `secs` seconds after some midnight.
pub fn wall_time(secs: u64) -> (r: String)
    ensures
        r@ == clock_text(secs as nat),
{
    let s: u64 = secs % 86400;
    let mut r = String::new();
    push_two(&mut r, s / 3600);
    r.push(':');
    push_two(&mut r, s % 3600 / 60);
    assert(r@ =~= clock_text(secs as nat));
    r
}

} // verus!
