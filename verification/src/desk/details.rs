//! What holds of buffers, screens, answers and surfaces.

use vstd::prelude::*;

use crate::config::words::joined_by;
use crate::desk::buffers::{advert, present, Advert, DmaBufPlane, SurfaceView};
use crate::desk::ipc::{response_text, spaced, ResponseView};
use crate::desk::outputs::{flipped_index, output_in, size_in, OutputView};
use crate::desk::requests::sets;
use crate::desk::shell::{registered_from, showing_from, unregistered, XdgSurfaceView};
use crate::desk::windows::WindowId;
use crate::json::json_quoted;

verus! {

// ── Buffers ──────────────────────────────────────────────────────────────────

/// A buffer that is attached is shown from the next commit on, and not before; without one
/// a commit changes nothing that is shown. Callbacks are answered once.
pub proof fn law_commits_show_buffers(s: SurfaceView, buffer: Option<u32>, x: i32, y: i32)
    ensures
        s.attached(buffer, x, y).shown == s.shown,
        s.attached(buffer, x, y).committed().shown == buffer,
        s.attached(buffer, x, y).offset == (x, y),
        s.attached(buffer, x, y).callbacks == s.callbacks,
        s.next is None ==> s.committed().shown == s.shown && s.released() is None,
        s.committed().callbacks.len() == 0,
        s.committed().committed() == s.committed(),
{
}

/// The planes of a buffer are those that were described, in their order.
pub proof fn law_planes_that_are_there(planes: Seq<DmaBufPlane>)
    ensures
        present(planes) == planes.filter(|p: DmaBufPlane| p.fd is Some),
    decreases planes.len(),
{
    reveal(Seq::filter);
    if planes.len() > 0 {
        law_planes_that_are_there(planes.drop_last());
    } else {
        assert(planes =~= Seq::<DmaBufPlane>::empty());
    }
}

/// A client of the third version and later is told a modifier with each format.
pub proof fn law_formats_are_told(format: u32, version: u32)
    ensures
        version >= 3 ==> (advert(format, version) matches Advert::Modifier { format: f, hi, lo } && f
            == format && hi == 0 && lo == 0),
        version < 3 ==> advert(format, version) == Advert::Format(format),
{
}

// ── Screens ──────────────────────────────────────────────────────────────────

/// The size of a screen is that of the first one with its number.
pub proof fn law_sizes_of_screens(v: Seq<OutputView>, i: int)
    requires
        0 <= i < v.len(),
        forall|k: int| 0 <= k < i ==> (#[trigger] v[k]).wl_id != v[i].wl_id,
    ensures
        output_in(v, v[i].wl_id) == Some(v[i]),
        size_in(v, v[i].wl_id) == (v[i].width, v[i].height),
    decreases v.len(),
{
    if i > 0 {
        assert(v[0].wl_id != v[i].wl_id);
        assert forall|k: int| 0 <= k < i - 1 implies (#[trigger] v.skip(1)[k]).wl_id != v.skip(
            1,
        )[i - 1].wl_id by {
            assert(v.skip(1)[k] == v[k + 1]);
        }
        law_sizes_of_screens(v.skip(1), i - 1);
    }
}

/// A row of a picture that is upside down is as far from its lower end as it was from its
/// upper one; columns stay.
pub proof fn law_rows_are_turned_round(r: int, c: int, row: int, h: int)
    requires
        0 <= r < h,
        0 <= c < row,
    ensures
        flipped_index(r * row + c, row, h) == (h - 1 - r) * row + c,
{
    vstd::arithmetic::div_mod::lemma_fundamental_div_mod_converse(r * row + c, row, r, c);
}

// ── Answers ──────────────────────────────────────────────────────────────────

/// An answer is its data; without data it is empty, and an error is told as one.
pub proof fn law_answers_are_written(e: Seq<char>, t: Seq<char>)
    ensures
        response_text(ResponseView::Done) == "null"@,
        response_text(ResponseView::Data(t)) == t,
        sets(response_text(ResponseView::Error(e)), "error"@, json_quoted(e), 1),
{
}

/// The words from an index on are joined with a space between them.
pub proof fn law_words_are_joined(words: Seq<Seq<char>>, from: int)
    requires
        0 <= from <= words.len(),
    ensures
        spaced(words, from) == joined_by(words.skip(from), ' '),
    decreases words.len() - from,
{
    let rest = words.skip(from);
    if from < words.len() {
        law_words_are_joined(words, from + 1);
        assert(rest.skip(1) =~= words.skip(from + 1));
        assert(rest[0] == words[from]);
        reveal_strlit(" ");
        assert(" "@ =~= seq![' ']);
    }
}

// ── Surfaces ─────────────────────────────────────────────────────────────────

/// Commits of a surface that is gone are for no window any more; other surfaces stay.
pub proof fn law_gone_surfaces(v: Seq<XdgSurfaceView>, s: u32, i: int)
    requires
        0 <= i < v.len(),
    ensures
        unregistered(v, s).len() == v.len(),
        v[i].surface == s ==> !unregistered(v, s)[i].registered,
        v[i].surface != s ==> unregistered(v, s)[i] == v[i],
        unregistered(v, s)[i].toplevel == v[i].toplevel,
        registered_from(unregistered(v, s), 0, s) is None,
{
    lemma_none_registered(unregistered(v, s), 0, s);
}

proof fn lemma_none_registered(v: Seq<XdgSurfaceView>, i: int, s: u32)
    requires
        0 <= i,
        forall|k: int| 0 <= k < v.len() ==> !((#[trigger] v[k]).registered && v[k].surface == s),
    ensures
        registered_from(v, i, s) is None,
    decreases v.len() - i,
{
    if i < v.len() {
        lemma_none_registered(v, i + 1, s);
    }
}

/// The surface of a window is the first one that shows it.
pub proof fn law_surfaces_of_windows(v: Seq<XdgSurfaceView>, i: int, k: int, id: WindowId)
    requires
        0 <= i <= k < v.len(),
        v[k].registered,
        v[k].toplevel matches Some(t) && t.window_id == Some(id),
        forall|j: int|
            i <= j < k ==> !((#[trigger] v[j]).registered && (v[j].toplevel matches Some(t)
                && t.window_id == Some(id))),
    ensures
        showing_from(v, i, id) == Some(k),
    decreases k - i,
{
    if i < k {
        assert(!(v[i].registered && v[i].window() == Some(id)));
        law_surfaces_of_windows(v, i + 1, k, id);
    }
}

} // verus!
