//! What holds of words, paths and what is read of the system.

use vstd::prelude::*;

use crate::config::parser::resolved;
use crate::config::paths::{
    config_dir_of, font_names, font_plan_of, path_joined, probes_in, PlanView,
};
use crate::config::tokens::lemma_run_is;
use crate::config::words::joined_by;
use crate::integer::{
    decimal, decimal_digit, digit_value, lemma_decimal_is_read, lemma_decimal_numeral,
};
use crate::portal::pictures_dir;
use crate::render::stats::{
    clock_text, kb_in, memory_in, memory_upto, numbers_from, sum_of, ticks_in, two_digits,
};
use crate::text::{
    has_at, index_of, is_space, lemma_run_end, lemma_trimmed_end, run_end, split_spec, trim_spec,
    trim_start_spec, trimmed_end, words_from, words_spec, CharSet,
};
use crate::twm::rect::Rect;

verus! {

// ── Words ────────────────────────────────────────────────────────────────────

/// Whether a text is a word: it is not empty, and has no white space in it.
pub open spec fn is_word(w: Seq<char>) -> bool {
    w.len() > 0 && forall|i: int| 0 <= i < w.len() ==> !is_space(#[trigger] w[i])
}

proof fn lemma_words_at(s: Seq<char>, at: int, words: Seq<Seq<char>>)
    requires
        0 <= at <= s.len(),
        s.skip(at) == joined_by(words, ' '),
        forall|i: int| 0 <= i < words.len() ==> is_word(#[trigger] words[i]),
    ensures
        words_from(s, at) == words,
    decreases words.len(),
{
    let rest = joined_by(words, ' ');
    assert(s.skip(at).len() == s.len() - at);
    if words.len() == 0 {
        assert(rest.len() == 0);
        lemma_run_is(s, at, at, CharSet::Space);
        assert(words_from(s, at) =~= words);
    } else {
        let w = words[0];
        assert(is_word(w));
        if words.len() == 1 {
            assert(rest == w);
        } else {
            assert(rest == w + seq![' '] + joined_by(words.skip(1), ' '));
        }
        let e = at + w.len();
        assert forall|k: int| at <= k < e implies CharSet::Ink.has(#[trigger] s[k]) by {
            assert(s.skip(at)[k - at] == s[k]);
            assert(rest[k - at] == w[k - at]);
            assert(!is_space(w[k - at]));
        }
        assert(CharSet::Ink.has(s[at]));
        lemma_run_is(s, at, at, CharSet::Space);
        if words.len() > 1 {
            assert(s.skip(at)[w.len() as int] == s[e]);
            assert(s[e] == ' ');
            assert(is_space(' '));
        }
        lemma_run_is(s, at, e, CharSet::Ink);
        assert(s.subrange(at, e) =~= w) by {
            assert forall|k: int| 0 <= k < w.len() implies s[at + k] == w[k] by {
                assert(s.skip(at)[k] == s[at + k]);
                assert(rest[k] == w[k]);
            }
        }
        if words.len() == 1 {
            assert(e == s.len());
            lemma_run_is(s, e, e, CharSet::Space);
            assert(words_from(s, e) =~= Seq::<Seq<char>>::empty());
            assert(words_from(s, at) =~= words);
        } else {
            let tail = joined_by(words.skip(1), ' ');
            assert(s.skip(e + 1) =~= tail) by {
                assert forall|k: int| 0 <= k < tail.len() implies s.skip(e + 1)[k] == tail[k] by {
                    assert(s.skip(at)[w.len() + 1 + k] == s[e + 1 + k]);
                    assert(rest[w.len() + 1 + k] == tail[k]);
                }
            }
            assert forall|i: int| 0 <= i < words.len() - 1 implies is_word(
                #[trigger] words.skip(1)[i],
            ) by {
                assert(words.skip(1)[i] == words[i + 1]);
            }
            lemma_words_at(s, e + 1, words.skip(1));
            assert(words_from(s, e) == words_from(s, e + 1)) by {
                assert(CharSet::Space.has(s[e]));
                assert(run_end(s, e, CharSet::Space) == run_end(s, e + 1, CharSet::Space));
            }
            assert(words_from(s, at) =~= words);
        }
    }
}

/// Words with a space between them are the words of the whole, in their order.
pub proof fn law_words_are_found(words: Seq<Seq<char>>)
    requires
        forall|i: int| 0 <= i < words.len() ==> is_word(#[trigger] words[i]),
    ensures
        words_spec(joined_by(words, ' ')) == words,
{
    let s = joined_by(words, ' ');
    assert(s.skip(0) =~= s);
    lemma_words_at(s, 0, words);
}

/// What is trimmed is white space at both ends, all of it, and nothing else.
pub proof fn law_trimmed_is_white_space(s: Seq<char>) -> (r: (int, int))
    ensures
        0 <= r.0 <= r.1 <= s.len(),
        trim_spec(s) == s.subrange(r.0, r.1),
        forall|k: int| 0 <= k < r.0 ==> is_space(#[trigger] s[k]),
        forall|k: int| r.1 <= k < s.len() ==> is_space(#[trigger] s[k]),
        r.0 < r.1 ==> !is_space(s[r.0]) && !is_space(s[r.1 - 1]),
{
    let a = run_end(s, 0, CharSet::Space);
    lemma_run_end(s, 0, CharSet::Space);
    assert forall|k: int| 0 <= k < a implies is_space(#[trigger] s[k]) by {
        assert(CharSet::Space.has(s[k]));
    }
    let t = trim_start_spec(s);
    lemma_trimmed_end(t);
    let b = a + trimmed_end(t);
    assert(trim_spec(s) =~= s.subrange(a, b));
    assert forall|k: int| b <= k < s.len() implies is_space(#[trigger] s[k]) by {
        assert(t[k - a] == s[k]);
    }
    if a < b {
        assert(t[trimmed_end(t) - 1] == s[b - 1]);
        assert(!CharSet::Space.has(s[a]));
    }
    (a, b)
}

/// The first place of a character: it stands there, and nowhere before; where it does not
/// occur, that is the end.
pub proof fn law_first_place(s: Seq<char>, c: char)
    ensures
        0 <= index_of(s, c) <= s.len(),
        index_of(s, c) < s.len() ==> s[index_of(s, c)] == c,
        forall|k: int| 0 <= k < index_of(s, c) ==> #[trigger] s[k] != c,
{
    lemma_run_end(s, 0, CharSet::Not(c));
    assert forall|k: int| 0 <= k < index_of(s, c) implies #[trigger] s[k] != c by {
        assert(CharSet::Not(c).has(s[k]));
    }
}

// ── Paths ────────────────────────────────────────────────────────────────────

/// A path from the root stays as it is; any other is behind the directory, with one slash
/// between them.
pub proof fn law_paths_are_joined(dir: Seq<char>, p: Seq<char>)
    ensures
        p.len() > 0 && p[0] == '/' ==> path_joined(dir, p) == p,
        (p.len() == 0 || p[0] != '/') && dir.len() > 0 && dir.last() != '/' ==> path_joined(dir, p)
            == dir + seq!['/'] + p,
        (p.len() == 0 || p[0] != '/') && dir.len() > 0 && dir.last() == '/' ==> path_joined(dir, p)
            == dir + p,
        (p.len() == 0 || p[0] != '/') && dir.len() == 0 ==> path_joined(dir, p) == p,
{
    assert(dir.push('/') + p =~= dir + seq!['/'] + p);
    if dir.len() == 0 {
        assert(dir + p =~= p);
    }
}

/// A font is looked for under its own name first.
pub proof fn law_own_name_first(s: Seq<char>)
    ensures
        font_names(s).len() > 0,
        font_names(s)[0] == s,
        forall|i: int|
            0 <= i < font_names(s).len() ==> (#[trigger] font_names(s)[i]).take(s.len() as int)
                == s,
{
    assert forall|i: int| 0 <= i < font_names(s).len() implies (
    #[trigger] font_names(s)[i]).take(s.len() as int) == s by {
        assert(font_names(s)[i].take(s.len() as int) =~= s);
    }
}

/// Fonts are looked for in every directory under every name; directories go before names.
pub proof fn law_every_place_is_tried(
    dirs: Seq<Seq<char>>,
    names: Seq<Seq<char>>,
    i: int,
    j: int,
)
    requires
        0 <= i < dirs.len(),
        0 <= j < names.len(),
    ensures
        probes_in(dirs, names).len() == dirs.len() * names.len(),
        i * names.len() + j < probes_in(dirs, names).len(),
        probes_in(dirs, names)[i * names.len() + j] == path_joined(dirs[i], names[j]),
    decreases dirs.len(),
{
    let n = names.len() as int;
    let m = dirs.len() as int;
    let before = probes_in(dirs.drop_last(), names);
    assert((m - 1) * n + n == m * n) by (nonlinear_arith);
    if m == 1 {
        assert(dirs.drop_last().len() == 0);
        assert(before.len() == 0);
        assert(0 * n == 0);
    } else {
        law_every_place_is_tried(dirs.drop_last(), names, 0, j);
    }
    assert(before.len() == (m - 1) * n);
    if i < m - 1 {
        law_every_place_is_tried(dirs.drop_last(), names, i, j);
    }
}

// ── The system ───────────────────────────────────────────────────────────────

/// The memory in use and what is left of it make up all of it.
pub proof fn law_memory_adds_up(text: Seq<char>)
    requires
        ({
            let lines = split_spec(text, '\n');
            memory_upto(lines, lines.len() as int) matches Some((total, avail)) && avail <= total
        }),
    ensures
        ({
            let lines = split_spec(text, '\n');
            let (all, left) = memory_upto(lines, lines.len() as int)->0;
            memory_in(text) matches Some((used, total)) && total == all && used + left == total
        }),
{
}

/// A line tells of all memory or of what is left by its first word; a later line of the same
/// kind goes before an earlier one, and other lines tell nothing.
pub proof fn law_lines_tell_of_memory(lines: Seq<Seq<char>>, n: int, kb: u64)
    requires
        0 < n <= lines.len(),
        memory_upto(lines, n - 1) is Some,
        kb_in(lines[n - 1]) == Some(kb),
    ensures
        ({
            let (total, left) = memory_upto(lines, n - 1)->0;
            let l = lines[n - 1];
            &&& has_at(l, 0, "MemTotal:"@) ==> memory_upto(lines, n) == Some((kb, left))
            &&& has_at(l, 0, "MemAvailable:"@) ==> memory_upto(lines, n) == Some((total, kb))
            &&& !has_at(l, 0, "MemTotal:"@) && !has_at(l, 0, "MemAvailable:"@) ==> memory_upto(
                lines,
                n,
            ) == Some((total, left))
        }),
{
    reveal_strlit("MemTotal:");
    reveal_strlit("MemAvailable:");
    let l = lines[n - 1];
    if has_at(l, 0, "MemTotal:"@) && has_at(l, 0, "MemAvailable:"@) {
        assert(l.subrange(0, 9)[3] == l[3]);
        assert(l.subrange(0, 13)[3] == l[3]);
    }
}

proof fn lemma_decimal_word(n: nat)
    ensures
        is_word(decimal(n)),
{
    lemma_decimal_numeral(n);
    assert forall|i: int| 0 <= i < decimal(n).len() implies !is_space(#[trigger] decimal(n)[i]) by {
        assert(digit_value(decimal(n)[i]) < 10);
    }
}

/// The number on a line is its second word.
pub proof fn law_second_word_is_the_number(name: Seq<char>, n: u64, more: Seq<Seq<char>>)
    requires
        is_word(name),
        forall|i: int| 0 <= i < more.len() ==> is_word(#[trigger] more[i]),
    ensures
        kb_in(joined_by(seq![name, decimal(n as nat)] + more, ' ')) == Some(n),
{
    let words = seq![name, decimal(n as nat)] + more;
    lemma_decimal_word(n as nat);
    assert forall|i: int| 0 <= i < words.len() implies is_word(#[trigger] words[i]) by {
        if i >= 2 {
            assert(words[i] == more[i - 2]);
        }
    }
    law_words_are_found(words);
    lemma_decimal_is_read(n as nat, u64::MAX as nat);
}

proof fn lemma_numbers(w: Seq<Seq<char>>, from: int, v: Seq<u64>)
    requires
        0 <= from <= w.len(),
        w.len() - from == v.len(),
        forall|i: int| 0 <= i < v.len() ==> w[from + i] == decimal(#[trigger] v[i] as nat),
    ensures
        numbers_from(w, from) == v,
    decreases v.len(),
{
    if v.len() > 0 {
        assert(w[from + 0] == decimal(v[0] as nat));
        lemma_decimal_is_read(v[0] as nat, u64::MAX as nat);
        assert forall|i: int| 0 <= i < v.len() - 1 implies w[from + 1 + i] == decimal(
            #[trigger] v.skip(1)[i] as nat,
        ) by {
            assert(v.skip(1)[i] == v[i + 1]);
            assert(w[from + (i + 1)] == decimal(v[i + 1] as nat));
        }
        lemma_numbers(w, from + 1, v.skip(1));
        assert(numbers_from(w, from) =~= v);
    } else {
        assert(numbers_from(w, from) =~= v);
    }
}

/// The fourth number on the first line is the time that the processors were idle, and the sum
/// of all of them is all time.
pub proof fn law_processor_times(text: Seq<char>, name: Seq<char>, v: Seq<u64>)
    requires
        v.len() >= 4,
        is_word(name),
        split_spec(text, '\n')[0] == joined_by(
            seq![name] + Seq::new(v.len(), |i: int| decimal(v[i] as nat)),
            ' ',
        ),
    ensures
        ticks_in(text) == Some((v[3], sum_of(v))),
{
    let words = seq![name] + Seq::new(v.len(), |i: int| decimal(v[i] as nat));
    assert forall|i: int| 0 <= i < words.len() implies is_word(#[trigger] words[i]) by {
        if i > 0 {
            lemma_decimal_word(v[i - 1] as nat);
        }
    }
    law_words_are_found(words);
    assert forall|i: int| 0 <= i < v.len() implies words[1 + i] == decimal(
        #[trigger] v[i] as nat,
    ) by {}
    lemma_numbers(words, 1, v);
}

/// The time of day is told in hours and minutes, of two digits each; a day later it is the
/// same.
pub proof fn law_clock_tells_the_time(days: nat, h: nat, m: nat, s: nat)
    requires
        h < 24,
        m < 60,
        s < 60,
    ensures
        ({
            let t = clock_text(86400 * days + 3600 * h + 60 * m + s);
            &&& t.len() == 5
            &&& t[2] == ':'
            &&& 10 * digit_value(t[0]) + digit_value(t[1]) == h
            &&& 10 * digit_value(t[3]) + digit_value(t[4]) == m
        }),
{
    let secs = 86400 * days + 3600 * h + 60 * m + s;
    let r = 3600 * h + 60 * m + s;
    assert(secs % 86400 == r) by {
        vstd::arithmetic::div_mod::lemma_fundamental_div_mod_converse(
            secs as int,
            86400,
            days as int,
            r as int,
        );
    }
    assert(r / 3600 == h);
    assert(r % 3600 == 60 * m + s);
    assert((60 * m + s) / 60 == m);
    lemma_two_digits(h);
    lemma_two_digits(m);
}

proof fn lemma_two_digits(n: nat)
    requires
        n < 100,
    ensures
        two_digits(n).len() == 2,
        10 * digit_value(two_digits(n)[0]) + digit_value(two_digits(n)[1]) == n,
{
    lemma_digit(n / 10 % 10);
    lemma_digit(n % 10);
}

proof fn lemma_digit(d: nat)
    requires
        d < 10,
    ensures
        digit_value(decimal_digit(d)) == d,
{
}

// ── Rectangles ───────────────────────────────────────────────────────────────

/// A rectangle without a margin is as far from the whole on every side, where it has room.
pub proof fn law_margins_are_even(r: Rect, px: u32)
    requires
        r.x + px <= u32::MAX,
        r.y + px <= u32::MAX,
        2 * px <= r.w,
        2 * px <= r.h,
    ensures
        ({
            let i = r.spec_inset(px);
            &&& i.x - r.x == px && i.y - r.y == px
            &&& (r.x + r.w) - (i.x + i.w) == px
            &&& (r.y + r.h) - (i.y + i.h) == px
        }),
{
}

// ── Directories ──────────────────────────────────────────────────────────────

/// The configuration is in the directory that is set for such files, and else in the one in
/// the home directory.
pub proof fn law_configuration_directory(dir: Seq<char>, home: Seq<char>)
    ensures
        config_dir_of(Some(dir), Some(home)) == config_dir_of(Some(dir), None),
        config_dir_of(Some(dir), None) == path_joined(dir, "trixie"@),
        config_dir_of(None, Some(home)) == path_joined(path_joined(home, ".config"@), "trixie"@),
{
}

/// A font that is named by its path is taken from there; a `~` stands for the home directory.
/// Any other is looked for, in the directories of the user first.
pub proof fn law_fonts_by_path(s: Seq<char>, home: Seq<char>, data: Seq<char>)
    ensures
        font_plan_of(seq!['/'] + s, Some(home), Some(data)) == PlanView::At(seq!['/'] + s),
        font_plan_of(seq!['~', '/'] + s, Some(home), Some(data)) == PlanView::At(
            path_joined(home, s),
        ),
        s.len() > 0 && s[0] != '/' && s[0] != '~' ==> (font_plan_of(
            s,
            Some(home),
            Some(data),
        ) matches PlanView::Search { dirs, names } && names == font_names(s) && dirs[0] == data
            + "/fonts"@ && dirs[1] == home + "/.fonts"@),
{
    reveal_strlit("~/");
    assert("~/"@ =~= seq!['~', '/']);
    let t = seq!['~', '/'] + s;
    assert(t.subrange(0, 2) =~= "~/"@);
    assert(t.skip(2) =~= s);
    if has_at(s, 0, "~/"@) {
        assert(s.subrange(0, 2)[0] == s[0]);
    }
}

/// Pictures go to the directory that is set for them, and else to the one in the home
/// directory.
pub proof fn law_pictures_directory(dir: Seq<char>, home: Seq<char>)
    ensures
        pictures_dir(Some(dir), Some(home)) == dir,
        pictures_dir(None, Some(home)) == home + "/Pictures"@,
{
}

/// A path in a file is meant from the directory of that file, unless it starts at the root or
/// in the home directory.
pub proof fn law_paths_in_files(s: Seq<char>, home: Seq<char>, dir: Seq<char>)
    ensures
        resolved(seq!['/'] + s, home, dir) == seq!['/'] + s,
        home.len() > 0 && home[0] == '/' ==> resolved(seq!['~', '/'] + s, home, dir) == home
            + seq!['/'] + s,
        s.len() > 0 && s[0] != '/' && s[0] != '~' && dir.len() > 0 && dir.last() != '/'
            ==> resolved(s, home, dir) == dir + seq!['/'] + s,
{
    reveal_strlit("~/");
    assert("~/"@ =~= seq!['~', '/']);
    let r = seq!['/'] + s;
    if has_at(r, 0, "~/"@) {
        assert(r.subrange(0, 2)[0] == r[0]);
    }
    let t = seq!['~', '/'] + s;
    assert(t.subrange(0, 2) =~= "~/"@);
    assert(t.skip(2) =~= s);
    assert(home.push('/') + s =~= home + seq!['/'] + s);
    if has_at(s, 0, "~/"@) {
        assert(s.subrange(0, 2)[0] == s[0]);
    }
    assert(dir.push('/') + s =~= dir + seq!['/'] + s);
}

} // verus!
