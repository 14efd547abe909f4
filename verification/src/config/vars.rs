//! Variables: definitions are collected line by line before a file is parsed,
//! so that a variable can be used before its definition.

use vstd::prelude::*;
use vstd::slice::slice_subrange;

use crate::config::lexer::{rgb_parts, rgba_parts};
use crate::config::value::{truth_of, value_view, Unit, Value, ValueView};
use crate::integer::{i64_of, parse_i64, parse_unsigned, unsigned_of};
use crate::number::{reading, Number};
use crate::text::{
    alphanumeric, chars_of, find_char, found_at, has_at, index_of, is_alphanumeric, is_space,
    lemma_run_end, run, run_end, same, space, string_of, trim, trim_end, trim_end_spec, trim_spec,
    CharSet,
};

verus! {

/// The index of the first `//` at or after `i` outside quotes, or the length
/// of `s`; `quoted` says whether index `i` is inside quotes.
pub open spec fn comment_start(s: Seq<char>, i: int, quoted: bool) -> int
    decreases s.len() - i,
{
    if i >= s.len() {
        s.len() as int
    } else if s[i] == '"' {
        comment_start(s, i + 1, !quoted)
    } else if s[i] == '/' && !quoted && i + 1 < s.len() && s[i + 1] == '/' {
        i
    } else {
        comment_start(s, i + 1, quoted)
    }
}

/// `s` up to its comment, without the white space before that.
pub open spec fn uncommented(s: Seq<char>) -> Seq<char> {
    let i = comment_start(s, 0, false);
    if i < s.len() {
        trim_end_spec(s.take(i))
    } else {
        s
    }
}

pub fn strip_inline_comment(s: &[char]) -> (r: &[char])
    ensures
        r@ == uncommented(s@),
{
    let mut quoted = false;
    let mut i: usize = 0;
    while i < s.len()
        invariant
            i <= s.len(),
            comment_start(s@, 0, false) == comment_start(s@, i as int, quoted),
        decreases s.len() - i,
    {
        let c: char = s[i];
        if c == '"' {
            quoted = !quoted;
        } else if c == '/' && !quoted && i + 1 < s.len() && s[i + 1] == '/' {
            assert(s@.subrange(0, i as int) =~= s@.take(i as int));
            return trim_end(slice_subrange(s, 0, i));
        }
        i += 1;
    }
    s
}

pub open spec fn color_value(c: (u8, u8, u8, u8)) -> ValueView {
    ValueView::Color(c.0, c.1, c.2, c.3)
}

/// The color that six or eight hexadecimal digits write.
pub open spec fn hex_color(s: Seq<char>) -> Option<ValueView> {
    match unsigned_of(s, 16, u32::MAX as nat) {
        Some(v) => if s.len() == 6 {
            Some(color_value(rgb_parts(v)))
        } else if s.len() == 8 {
            Some(color_value(rgba_parts(v)))
        } else {
            None
        },
        None => None,
    }
}

pub open spec fn ends_with_char(s: Seq<char>, c: char) -> bool {
    s.len() > 0 && s.last() == c
}

/// `rgb(rrggbb)` or `rgba(rrggbbaa)`.
pub open spec fn rgb_value(s0: Seq<char>) -> Option<ValueView> {
    let s = trim_spec(s0);
    if has_at(s, 0, "rgba("@) && ends_with_char(s, ')') {
        let hex = trim_spec(s.subrange(5, s.len() - 1));
        if hex.len() == 8 {
            hex_color(hex)
        } else {
            None
        }
    } else if has_at(s, 0, "rgb("@) && ends_with_char(s, ')') {
        let hex = trim_spec(s.subrange(4, s.len() - 1));
        if hex.len() == 6 {
            hex_color(hex)
        } else {
            None
        }
    } else {
        None
    }
}

/// Whether `s` ends in `suffix`.
pub open spec fn has_suffix(s: Seq<char>, suffix: Seq<char>) -> bool {
    has_at(s, s.len() - suffix.len(), suffix)
}

/// The unit in which `s` is given and the length of its suffix.
pub open spec fn unit_suffix(s: Seq<char>) -> Option<(Unit, int)> {
    if has_suffix(s, "px"@) {
        Some((Unit::Px, 2))
    } else if has_suffix(s, "ms"@) {
        Some((Unit::Ms, 2))
    } else if has_suffix(s, "hz"@) || has_suffix(s, "Hz"@) {
        Some((Unit::Hz, 2))
    } else if ends_with_char(s, '%') {
        Some((Unit::Percent, 1))
    } else {
        None
    }
}

/// A number with a unit.
pub open spec fn dimension_value(s: Seq<char>) -> Option<ValueView> {
    match unit_suffix(s) {
        Some((u, n)) => {
            let x = s.take(s.len() - n);
            if reading(x) is Some {
                Some(ValueView::Dimension(x, u))
            } else {
                None
            }
        },
        None => None,
    }
}

pub open spec fn is_plain_char(c: char) -> bool {
    is_alphanumeric(c) || c == '_' || c == '-'
}

/// The value that the right-hand side `s0` of a definition writes.
pub open spec fn inline_value(s0: Seq<char>) -> Option<ValueView> {
    let s = trim_spec(uncommented(s0));
    if rgb_value(s) is Some {
        rgb_value(s)
    } else if s.len() > 0 && s[0] == '#' {
        hex_color(s.skip(1))
    } else if s.len() >= 2 && s[0] == '"' && s.last() == '"' {
        Some(ValueView::String(s.subrange(1, s.len() - 1)))
    } else if dimension_value(s) is Some {
        dimension_value(s)
    } else if truth_of(s) is Some {
        Some(ValueView::Bool(truth_of(s)->0))
    } else if i64_of(s) is Some {
        Some(ValueView::Int(i64_of(s)->0))
    } else if reading(s) is Some {
        Some(ValueView::Float(s))
    } else if s.len() > 0 && forall|i: int| 0 <= i < s.len() ==> is_plain_char(#[trigger] s[i]) {
        Some(ValueView::Ident(s))
    } else {
        None
    }
}

/// Whether `r` is the value that `v` describes.
pub open spec fn matches_value(r: Option<Value>, v: Option<ValueView>) -> bool {
    match r {
        Some(x) => v == Some(value_view(x)),
        None => v is None,
    }
}

fn rgb_value_of(v: u32) -> (r: Value)
    ensures
        value_view(r) == color_value(rgb_parts(v as nat)),
{
    Value::Color((v / 0x1_0000 % 0x100) as u8, (v / 0x100 % 0x100) as u8, (v % 0x100) as u8, 255)
}

fn rgba_value_of(v: u32) -> (r: Value)
    ensures
        value_view(r) == color_value(rgba_parts(v as nat)),
{
    Value::Color(
        (v / 0x100_0000 % 0x100) as u8,
        (v / 0x1_0000 % 0x100) as u8,
        (v / 0x100 % 0x100) as u8,
        (v % 0x100) as u8,
    )
}

pub fn parse_hex_color(hex: &[char]) -> (r: Option<Value>)
    ensures
        matches_value(r, hex_color(hex@)),
{
    match parse_unsigned(hex, 16, u32::MAX) {
        Some(v) => if hex.len() == 6 {
            Some(rgb_value_of(v))
        } else if hex.len() == 8 {
            Some(rgba_value_of(v))
        } else {
            None
        },
        None => None,
    }
}

pub fn try_parse_rgb(s0: &[char]) -> (r: Option<Value>)
    ensures
        matches_value(r, rgb_value(s0@)),
{
    let s = trim(s0);
    proof {
        reveal_strlit("rgba(");
        reveal_strlit("rgb(");
    }
    let closed = s.len() > 0 && s[s.len() - 1] == ')';
    assert(closed == ends_with_char(s@, ')'));
    let (from, want): (usize, usize) = if found_at(s, 0, "rgba(") && closed {
        assert(s@[4] == '(') by {
            assert(s@.subrange(0, 5)[4] == s@[4]);
        }
        (5, 8)
    } else if found_at(s, 0, "rgb(") && closed {
        assert(s@[3] == '(') by {
            assert(s@.subrange(0, 4)[3] == s@[3]);
        }
        (4, 6)
    } else {
        return None;
    };
    let hex = trim(slice_subrange(s, from, s.len() - 1));
    if hex.len() != want {
        return None;
    }
    parse_hex_color(hex)
}

fn suffixed(s: &[char], suffix: &str) -> (r: bool)
    ensures
        r == has_suffix(s@, suffix@),
{
    let n: usize = chars_of(suffix).len();
    n <= s.len() && found_at(s, s.len() - n, suffix)
}

pub fn try_parse_dimension(s: &[char]) -> (r: Option<Value>)
    ensures
        matches_value(r, dimension_value(s@)),
{
    proof {
        reveal_strlit("px");
        reveal_strlit("ms");
        reveal_strlit("hz");
        reveal_strlit("Hz");
    }
    let (unit, n): (Unit, usize) = if suffixed(s, "px") {
        (Unit::Px, 2)
    } else if suffixed(s, "ms") {
        (Unit::Ms, 2)
    } else if suffixed(s, "hz") || suffixed(s, "Hz") {
        (Unit::Hz, 2)
    } else if s.len() > 0 && s[s.len() - 1] == '%' {
        (Unit::Percent, 1)
    } else {
        return None;
    };
    assert(unit_suffix(s@) == Some((unit, n as int)));
    let end: usize = s.len() - n;
    assert(s@.subrange(0, end as int) =~= s@.take(end as int));
    match Number::parse(slice_subrange(s, 0, end)) {
        Some(x) => Some(Value::Dimension(x, unit)),
        None => None,
    }
}

fn all_plain(s: &[char]) -> (r: bool)
    ensures
        r == forall|i: int| 0 <= i < s@.len() ==> is_plain_char(#[trigger] s@[i]),
{
    let mut i: usize = 0;
    while i < s.len()
        invariant
            i <= s.len(),
            forall|k: int| 0 <= k < i ==> is_plain_char(#[trigger] s@[k]),
        decreases s.len() - i,
    {
        let c: char = s[i];
        if !(alphanumeric(c) || c == '_' || c == '-') {
            assert(!is_plain_char(s@[i as int]));
            return false;
        }
        i += 1;
    }
    true
}

pub fn parse_inline_value(s0: &[char]) -> (r: Option<Value>)
    ensures
        matches_value(r, inline_value(s0@)),
{
    let s = trim(strip_inline_comment(s0));
    if let Some(v) = try_parse_rgb(s) {
        return Some(v);
    }
    if s.len() > 0 && s[0] == '#' {
        assert(s@.subrange(1, s@.len() as int) =~= s@.skip(1));
        return parse_hex_color(slice_subrange(s, 1, s.len()));
    }
    if s.len() >= 2 && s[0] == '"' && s[s.len() - 1] == '"' {
        return Some(Value::String(string_of(slice_subrange(s, 1, s.len() - 1))));
    }
    if let Some(v) = try_parse_dimension(s) {
        return Some(v);
    }
    if let Some(b) = crate::config::value::truth(string_of(s).as_str()) {
        return Some(Value::Bool(b));
    }
    if let Some(n) = parse_i64(s) {
        return Some(Value::Int(n));
    }
    if let Some(x) = Number::parse(s) {
        return Some(Value::Float(x));
    }
    if all_plain(s) && s.len() > 0 {
        return Some(Value::Ident(string_of(s)));
    }
    None
}

// ── Definitions ──────────────────────────────────────────────────────────────

/// A definition: a name and its value.
pub struct VarView {
    pub name: Seq<char>,
    pub value: ValueView,
}

/// The definition that a line holds, if it holds one:
/// `$name = value`, with an optional comment.
pub open spec fn definition(line: Seq<char>) -> Option<VarView> {
    let t = uncommented(trim_spec(line));
    if t.len() == 0 || t[0] != '$' {
        None
    } else {
        let d = t.skip(1);
        let eq = index_of(d, '=');
        if eq >= d.len() {
            None
        } else {
            let name = trim_spec(d.take(eq));
            if name.len() == 0 || exists|i: int| 0 <= i < name.len() && is_space(#[trigger] name[i]) {
                None
            } else {
                match inline_value(trim_spec(d.skip(eq + 1))) {
                    Some(value) => Some(VarView { name, value }),
                    None => None,
                }
            }
        }
    }
}

/// The definitions in the lines from index `i` on, in order.
pub open spec fn definitions_from(s: Seq<char>, i: int) -> Seq<VarView>
    decreases s.len() - i,
    when 0 <= i <= s.len()
    via definitions_from_decreases
{
    let e = run_end(s, i, CharSet::Not('\n'));
    let here = match definition(s.subrange(i, e)) {
        Some(v) => seq![v],
        None => Seq::empty(),
    };
    if e < s.len() {
        here + definitions_from(s, e + 1)
    } else {
        here
    }
}

#[via_fn]
proof fn definitions_from_decreases(s: Seq<char>, i: int) {
    lemma_run_end(s, i, CharSet::Not('\n'));
}

/// The definitions in `s`, in order.
pub open spec fn definitions(s: Seq<char>) -> Seq<VarView> {
    definitions_from(s, 0)
}

/// The value of the variable `name`: its last definition counts.
pub open spec fn variable(vars: Seq<VarView>, name: Seq<char>) -> Option<ValueView>
    decreases vars.len(),
{
    if vars.len() == 0 {
        None
    } else if vars.last().name == name {
        Some(vars.last().value)
    } else {
        variable(vars.drop_last(), name)
    }
}

/// A definition.
pub struct Var {
    pub name: String,
    pub value: Value,
}

pub open spec fn var_view(v: Var) -> VarView {
    VarView { name: v.name@, value: value_view(v.value) }
}

pub open spec fn vars_view(v: Seq<Var>) -> Seq<VarView> {
    Seq::new(v.len(), |i: int| var_view(v[i]))
}

fn has_space(s: &[char]) -> (r: bool)
    ensures
        r == exists|i: int| 0 <= i < s@.len() && is_space(#[trigger] s@[i]),
{
    let mut i: usize = 0;
    while i < s.len()
        invariant
            i <= s.len(),
            forall|k: int| 0 <= k < i ==> !is_space(#[trigger] s@[k]),
        decreases s.len() - i,
    {
        if space(s[i]) {
            assert(is_space(s@[i as int]));
            return true;
        }
        i += 1;
    }
    false
}

fn parse_definition(line: &[char]) -> (r: Option<Var>)
    ensures
        match r {
            Some(v) => definition(line@) == Some(var_view(v)),
            None => definition(line@) is None,
        },
{
    let t = strip_inline_comment(trim(line));
    if t.len() == 0 || t[0] != '$' {
        return None;
    }
    let d = slice_subrange(t, 1, t.len());
    assert(d@ =~= t@.skip(1));
    match find_char(d, '=') {
        None => None,
        Some(eq) => {
            assert(d@.subrange(0, eq as int) =~= d@.take(eq as int));
            assert(d@.subrange(eq + 1, d@.len() as int) =~= d@.skip(eq + 1));
            let name = trim(slice_subrange(d, 0, eq));
            if name.len() == 0 || has_space(name) {
                return None;
            }
            match parse_inline_value(trim(slice_subrange(d, eq + 1, d.len()))) {
                Some(value) => Some(Var { name: string_of(name), value }),
                None => None,
            }
        },
    }
}

/// Collects the definitions in `s`.
pub fn collect_vars(s: &[char]) -> (r: Vec<Var>)
    ensures
        vars_view(r@) == definitions(s@),
{
    let mut r: Vec<Var> = Vec::new();
    let mut i: usize = 0;
    assert(definitions(s@) =~= vars_view(r@) + definitions_from(s@, 0));
    loop
        invariant_except_break
            definitions(s@) == vars_view(r@) + definitions_from(s@, i as int),
        invariant
            i <= s.len(),
        ensures
            definitions(s@) == vars_view(r@),
        decreases s.len() - i,
    {
        let ghost before = r@;
        let e: usize = run(s, i, CharSet::Not('\n'));
        let ghost rest = if e < s@.len() {
            definitions_from(s@, e + 1)
        } else {
            Seq::empty()
        };
        match parse_definition(slice_subrange(s, i, e)) {
            Some(v) => {
                r.push(v);
                assert(vars_view(r@) =~= vars_view(before).push(var_view(v)));
                assert(definitions(s@) =~= vars_view(r@) + rest);
            },
            None => {
                assert(definitions(s@) =~= vars_view(r@) + rest);
            },
        }
        if e >= s.len() {
            assert(vars_view(r@) + rest =~= vars_view(r@));
            break;
        }
        i = e + 1;
    }
    r
}

/// The value of the variable `name`.
pub fn find_var<'a>(vars: &'a Vec<Var>, name: &str) -> (r: Option<&'a Value>)
    ensures
        match r {
            Some(v) => variable(vars_view(vars@), name@) == Some(value_view(*v)),
            None => variable(vars_view(vars@), name@) is None,
        },
{
    let ghost all = vars_view(vars@);
    let mut n: usize = vars.len();
    assert(all.take(n as int) =~= all);
    while n > 0
        invariant
            n <= vars.len(),
            all == vars_view(vars@),
            variable(all, name@) == variable(all.take(n as int), name@),
        decreases n,
    {
        assert(all.take(n as int).last() == var_view(vars@[n - 1]));
        assert(all.take(n as int).drop_last() =~= all.take(n - 1));
        if same(vars[n - 1].name.as_str(), name) {
            return Some(&vars[n - 1].value);
        }
        n -= 1;
    }
    None
}

} // verus!
