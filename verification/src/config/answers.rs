//! What holds of the answers to editors.

use vstd::prelude::*;

use crate::config::lsp::{
    column_at, completed, diagnosed, doc_in, handled, hover_spec, key_docs_spec, line_of,
    lines_before, place, shown, values_of, CompletionView, DiagnosticView, MessageView, ReplyView,
};
use crate::config::tokens::lemma_run_is;
use crate::config::value::ErrorView;
use crate::config::wire::{completion_texts, diagnostic_text, encoded, markdown, position_text};
use crate::config::words::{joined_by, law_split_undoes_join};
use crate::desk::manager::layout_of;
use crate::desk::requests::{lemma_sets_below, lemma_sets_here, sets};
use crate::integer::decimal;
use crate::json::{json_array, json_one, json_quoted, json_with};
use crate::text::{is_space, lowercase, trim_spec, words_from, words_spec, CharSet};
use crate::twm::layout::Layout;
use crate::writing::is_word;

verus! {

proof fn lemma_methods()
    ensures
        forall|w: Seq<char>| #![trigger w.len()]
            w == "exit"@ ==> w != "initialize"@ && w != "initialized"@ && w != "shutdown"@,
        forall|w: Seq<char>| #![trigger w.len()]
            w == "textDocument/didOpen"@ || w == "textDocument/didChange"@ || w
                == "textDocument/didClose"@ || w == "textDocument/hover"@ || w
                == "textDocument/completion"@ ==> w != "initialize"@ && w != "initialized"@ && w
                != "shutdown"@ && w != "exit"@,
        "initialize"@ != "initialized"@ && "initialize"@ != "shutdown"@ && "initialized"@
            != "shutdown"@,
        "textDocument/didOpen"@ != "textDocument/didChange"@ && "textDocument/didOpen"@
            != "textDocument/didClose"@ && "textDocument/didOpen"@ != "textDocument/hover"@
            && "textDocument/didOpen"@ != "textDocument/completion"@,
        "textDocument/didChange"@ != "textDocument/didClose"@ && "textDocument/didChange"@
            != "textDocument/hover"@ && "textDocument/didChange"@ != "textDocument/completion"@,
        "textDocument/didClose"@ != "textDocument/hover"@ && "textDocument/didClose"@
            != "textDocument/completion"@,
        "textDocument/hover"@ != "textDocument/completion"@,
{
    reveal_strlit("initialize");
    reveal_strlit("initialized");
    reveal_strlit("shutdown");
    reveal_strlit("exit");
    reveal_strlit("textDocument/didOpen");
    reveal_strlit("textDocument/didChange");
    reveal_strlit("textDocument/didClose");
    reveal_strlit("textDocument/hover");
    reveal_strlit("textDocument/completion");
    assert("initialize"@.len() == 10 && "initialized"@.len() == 11 && "shutdown"@.len() == 8
        && "exit"@.len() == 4);
    assert("textDocument/didOpen"@.len() == 20 && "textDocument/didChange"@.len() == 22
        && "textDocument/didClose"@.len() == 21 && "textDocument/hover"@.len() == 18
        && "textDocument/completion"@.len() == 23);
}

/// Each kind of answer comes of one kind of message, and is about what that names. Requests
/// are answered under their identifiers.
pub proof fn law_answers_are_asked(docs: Map<Seq<char>, Seq<char>>, m: MessageView)
    ensures
        ({
            let h = handled(docs, m);
            &&& h.done <==> m.method == "exit"@
            &&& h.docs != docs ==> m.method == "textDocument/didOpen"@ || m.method
                == "textDocument/didChange"@ || m.method == "textDocument/didClose"@
            &&& h.reply matches Some(r) ==> match r {
                ReplyView::Capabilities { id } => m.method == "initialize"@ && id == m.id,
                ReplyView::Done { id } => m.method == "shutdown"@ && id == m.id,
                ReplyView::Hover { id, doc } => m.method == "textDocument/hover"@ && id == m.id,
                ReplyView::Completions { id, items } => m.method == "textDocument/completion"@ && id
                    == m.id,
                ReplyView::Unknown { id } => id == m.id && m.id is Some,
                ReplyView::Diagnostics { uri, items } => m.uri == Some(uri) && (m.method
                    == "textDocument/didOpen"@ || m.method == "textDocument/didChange"@ || m.method
                    == "textDocument/didClose"@),
            }
        }),
{
    lemma_methods();
    assert(m.method.len() >= 0);
}

/// Every request is answered: what the server can do, that it shuts down, what a key means,
/// and what can be written.
pub proof fn law_requests_are_answered(docs: Map<Seq<char>, Seq<char>>, m: MessageView)
    ensures
        m.method == "initialize"@ ==> (handled(docs, m).reply matches Some(r) && r is Capabilities),
        m.method == "shutdown"@ ==> (handled(docs, m).reply matches Some(r) && r is Done),
        m.method == "textDocument/hover"@ ==> (handled(docs, m).reply matches Some(r) && r is Hover),
        m.method == "textDocument/completion"@ ==> (handled(docs, m).reply matches Some(r) && r
            is Completions),
{
    lemma_methods();
    assert(m.method.len() >= 0);
}

/// A document that is opened or changed has the text that it came with, and its errors are
/// told; one that is closed has none, and its errors are taken back. Other documents stay.
pub proof fn law_documents_have_their_texts(
    docs: Map<Seq<char>, Seq<char>>,
    m: MessageView,
    uri: Seq<char>,
)
    requires
        m.uri == Some(uri),
    ensures
        ({
            let h = handled(docs, m);
            &&& m.method == "textDocument/didOpen"@ ==> (m.text matches Some(t) ==> h.docs
                == docs.insert(uri, t) && h.reply == Some(
                ReplyView::Diagnostics { uri, items: diagnosed(t) },
            ))
            &&& m.method == "textDocument/didChange"@ ==> (m.change matches Some(t) ==> h.docs
                == docs.insert(uri, t) && h.reply == Some(
                ReplyView::Diagnostics { uri, items: diagnosed(t) },
            ))
            &&& m.method == "textDocument/didClose"@ ==> h.docs == docs.remove(uri) && (
            h.reply matches Some(ReplyView::Diagnostics { uri: u, items }) && u == uri && items.len()
                == 0)
        }),
{
    lemma_methods();
    assert(m.method.len() >= 0);
}

/// A line of a text is what stands between two ends of lines, counted from zero.
pub proof fn law_lines_of_texts(lines: Seq<Seq<char>>, i: int)
    requires
        0 <= i < lines.len(),
        forall|k: int| 0 <= k < lines.len() ==> !(#[trigger] lines[k]).contains('\n'),
    ensures
        line_of(joined_by(lines, '\n'), i) == lines[i],
        line_of(joined_by(lines, '\n'), lines.len() as int).len() == 0,
{
    law_split_undoes_join(lines, '\n');
}

/// The line of a byte is the number of ends of lines before it, and its column its distance
/// from the last of them.
pub proof fn law_places_of_bytes(b: Seq<u8>, n: int)
    requires
        0 <= n <= b.len(),
    ensures
        lines_before(b, n) == b.take(n).filter(|x: u8| x == 10).len(),
        0 <= column_at(b, n) <= n,
        column_at(b, n) < n ==> b[n - 1 - column_at(b, n)] == 10,
        forall|k: int| n - column_at(b, n) <= k < n ==> #[trigger] b[k] != 10,
    decreases n,
{
    reveal(Seq::filter);
    if n > 0 {
        law_places_of_bytes(b, n - 1);
        assert(b.take(n).drop_last() =~= b.take(n - 1));
        assert(b.take(n).last() == b[n - 1]);
    }
}

/// An error is shown from its start to its end, and is a byte long at least.
pub proof fn law_errors_are_shown(text: Seq<char>, e: ErrorView)
    ensures
        shown(text, e).message == e.message,
        shown(text, e).start == place(text, e.span.start as int),
        e.span.end > e.span.start ==> shown(text, e).end == place(text, e.span.end as int),
        e.span.end <= e.span.start ==> shown(text, e).end == place(text, e.span.start + 1),
{
}

proof fn lemma_doc(docs: Seq<(Seq<char>, Seq<char>)>, i: int)
    requires
        0 <= i < docs.len(),
        forall|k: int| 0 <= k < i ==> (#[trigger] docs[k]).0 != docs[i].0,
    ensures
        doc_in(docs, docs[i].0) == Some(docs[i].1),
    decreases docs.len(),
{
    if i > 0 {
        assert(docs[0].0 != docs[i].0);
        assert forall|k: int| 0 <= k < i - 1 implies (#[trigger] docs.skip(1)[k]).0
            != docs.skip(1)[i - 1].0 by {
            assert(docs.skip(1)[k] == docs[k + 1]);
        }
        lemma_doc(docs.skip(1), i - 1);
    }
}

/// What is told of a key is what stands beside it in the list, and nothing is told of other
/// words.
pub proof fn law_docs_belong_to_keys(docs: Seq<(Seq<char>, Seq<char>)>, i: int)
    requires
        0 <= i < docs.len(),
        forall|k: int| 0 <= k < i ==> (#[trigger] docs[k]).0 != docs[i].0,
    ensures
        doc_in(docs, docs[i].0) == Some(docs[i].1),
{
    lemma_doc(docs, i);
}

/// On a line without a sign of assignment the keys are proposed, each with what is told of
/// it.
pub proof fn law_keys_are_proposed(text: Seq<char>, line: int, i: int)
    requires
        !trim_spec(line_of(text, line)).contains('='),
        0 <= i < key_docs_spec().len(),
    ensures
        completed(text, line).len() == key_docs_spec().len(),
        completed(text, line)[i] matches CompletionView::Key { label, doc } && label
            == key_docs_spec()[i].0 && doc == key_docs_spec()[i].1,
{
}

/// The values that are proposed for the layout are the names of the layouts, each once, in
/// the spelling that is understood.
#[verifier::spinoff_prover]
pub proof fn law_layouts_are_proposed(i: int, j: int)
    requires
        0 <= i < j < values_of("layout"@).len(),
    ensures
        values_of("layout"@).len() == 5,
        layout_of(values_of("layout"@)[i]) != layout_of(values_of("layout"@)[j]),
{
    reveal_strlit("layout");
    reveal_strlit("bsp");
    reveal_strlit("columns");
    reveal_strlit("rows");
    reveal_strlit("monocle");
    reveal_strlit("threecol");
    assert("bsp"@.len() == 3 && "columns"@.len() == 7 && "rows"@.len() == 4 && "monocle"@.len() == 7
        && "threecol"@.len() == 8);
    assert("columns"@[0] == 'c' && "monocle"@[0] == 'm');
}

/// A layout is understood by the name that is shown for it, in lower case.
#[verifier::spinoff_prover]
pub proof fn law_shown_names_are_understood(l: Layout)
    ensures
        layout_of(lowercase(l.spec_label())) == l,
{
    reveal_strlit("BSP");
    reveal_strlit("Columns");
    reveal_strlit("Rows");
    reveal_strlit("ThreeCol");
    reveal_strlit("Monocle");
    reveal_strlit("bsp");
    reveal_strlit("columns");
    reveal_strlit("rows");
    reveal_strlit("threecol");
    reveal_strlit("monocle");
    match l {
        Layout::Bsp => {
            let w = lowercase("BSP"@);
            assert(w.len() == 3);
            assert("columns"@.len() == 7 && "rows"@.len() == 4 && "monocle"@.len() == 7
                && "threecol"@.len() == 8);
        },
        Layout::Columns => {
            assert(lowercase("Columns"@) =~= "columns"@);
        },
        Layout::Rows => {
            assert(lowercase("Rows"@) =~= "rows"@);
            assert("columns"@.len() == 7 && "rows"@.len() == 4);
        },
        Layout::ThreeCol => {
            assert(lowercase("ThreeCol"@) =~= "threecol"@);
            assert("columns"@.len() == 7 && "rows"@.len() == 4 && "monocle"@.len() == 7
                && "threecol"@.len() == 8);
        },
        Layout::Monocle => {
            assert(lowercase("Monocle"@) =~= "monocle"@);
            assert("columns"@[0] == 'c' && "monocle"@[0] == 'm');
            assert("rows"@.len() == 4 && "monocle"@.len() == 7);
        },
    }
}

// ── What is sent ─────────────────────────────────────────────────────────────

proof fn lemma_member_names()
    ensures
        "jsonrpc"@ != "id"@ && "jsonrpc"@ != "result"@ && "jsonrpc"@ != "error"@,
        "id"@ != "result"@ && "id"@ != "error"@,
        "line"@ != "character"@,
        "start"@ != "end"@,
        "range"@ != "severity"@ && "range"@ != "source"@ && "range"@ != "message"@,
        "kind"@ != "value"@,
        "uri"@ != "diagnostics"@,
{
    reveal_strlit("jsonrpc");
    reveal_strlit("id");
    reveal_strlit("result");
    reveal_strlit("error");
    reveal_strlit("line");
    reveal_strlit("character");
    reveal_strlit("start");
    reveal_strlit("end");
    reveal_strlit("range");
    reveal_strlit("severity");
    reveal_strlit("source");
    reveal_strlit("message");
    reveal_strlit("kind");
    reveal_strlit("value");
    reveal_strlit("uri");
    reveal_strlit("diagnostics");
    assert("jsonrpc"@.len() == 7 && "id"@.len() == 2 && "result"@.len() == 6 && "error"@.len() == 5);
    assert("line"@.len() == 4 && "character"@.len() == 9 && "start"@.len() == 5 && "end"@.len()
        == 3);
    assert("range"@.len() == 5 && "severity"@.len() == 8 && "source"@.len() == 6 && "message"@.len()
        == 7);
    assert("kind"@.len() == 4 && "value"@.len() == 5 && "uri"@.len() == 3 && "diagnostics"@.len()
        == 11);
}

/// An answer is sent under the identifier of its request, and its result under the key for
/// results; what the server does not know is sent as an error.
pub proof fn law_answers_are_sent(r: ReplyView, version: Seq<char>)
    ensures
        r matches ReplyView::Done { id: Some(t) } ==> sets(encoded(r, version), "id"@, t, 3) && sets(
            encoded(r, version),
            "result"@,
            "null"@,
            3,
        ),
        r matches ReplyView::Hover { id: Some(t), doc: Some(d) } ==> sets(
            encoded(r, version),
            "id"@,
            t,
            3,
        ) && sets(encoded(r, version), "result"@, json_one("contents"@, markdown(d)), 3),
        r matches ReplyView::Completions { id: Some(t), items } ==> sets(
            encoded(r, version),
            "id"@,
            t,
            3,
        ) && sets(
            encoded(r, version),
            "result"@,
            json_one("items"@, json_array(completion_texts(items))),
            3,
        ),
        r matches ReplyView::Unknown { id: Some(t) } ==> sets(encoded(r, version), "id"@, t, 3)
            && exists|e: Seq<char>| #[trigger] sets(encoded(r, version), "error"@, e, 3),
{
    lemma_member_names();
    let head = json_one("jsonrpc"@, json_quoted("2.0"@));
    assert forall|t: Seq<char>, k: Seq<char>, v: Seq<char>| k != "id"@ implies sets(
        #[trigger] json_with(json_with(head, "id"@, t), k, v),
        "id"@,
        t,
        3,
    ) && sets(json_with(json_with(head, "id"@, t), k, v), k, v, 3) by {
        let o = json_with(head, "id"@, t);
        lemma_sets_here(head, "id"@, t, 2);
        lemma_sets_below(o, k, v, "id"@, t, 2);
        lemma_sets_here(o, k, v, 3);
    }
    if let ReplyView::Unknown { id } = r {
        if let Some(t) = id {
            let e = json_with(
                json_one("code"@, "-32601"@),
                "message"@,
                json_quoted("Method not found"@),
            );
            assert(sets(encoded(r, version), "error"@, e, 3));
        }
    }
}

/// A place is sent as its line and its column, and an error with where it starts and ends.
pub proof fn law_places_are_sent(p: (int, int), d: DiagnosticView)
    ensures
        sets(position_text(p), "line"@, decimal(p.0 as nat), 2),
        sets(position_text(p), "character"@, decimal(p.1 as nat), 2),
        sets(diagnostic_text(d), "message"@, json_quoted(d.message), 4),
        sets(
            diagnostic_text(d),
            "range"@,
            json_with(json_one("start"@, position_text(d.start)), "end"@, position_text(d.end)),
            4,
        ),
{
    lemma_member_names();
    lemma_sets_here("{}"@, "line"@, decimal(p.0 as nat), 1);
    lemma_sets_here(
        json_one("line"@, decimal(p.0 as nat)),
        "character"@,
        decimal(p.1 as nat),
        2,
    );
    lemma_sets_below(
        json_one("line"@, decimal(p.0 as nat)),
        "character"@,
        decimal(p.1 as nat),
        "line"@,
        decimal(p.0 as nat),
        1,
    );
    let range = json_with(json_one("start"@, position_text(d.start)), "end"@, position_text(d.end));
    let a = json_one("range"@, range);
    let b = json_with(a, "severity"@, "1"@);
    let c = json_with(b, "source"@, json_quoted("trixie"@));
    lemma_sets_here("{}"@, "range"@, range, 1);
    lemma_sets_below(a, "severity"@, "1"@, "range"@, range, 1);
    lemma_sets_below(b, "source"@, json_quoted("trixie"@), "range"@, range, 2);
    lemma_sets_below(c, "message"@, json_quoted(d.message), "range"@, range, 3);
    lemma_sets_here(c, "message"@, json_quoted(d.message), 4);
}

// ── Hovering ─────────────────────────────────────────────────────────────────

/// On a line that sets a key, what is told is what stands beside the key in the list.
#[verifier::spinoff_prover]
pub proof fn law_hovering_tells_of_the_key(key: Seq<char>, v: Seq<char>)
    requires
        is_word(key),
        !key.contains('='),
        !v.contains('='),
        !key.contains('\n'),
        !v.contains('\n'),
    ensures
        hover_spec(key + seq![' ', '='] + v, 0) == doc_in(key_docs_spec(), key),
{
    let line = key + seq![' ', '='] + v;
    let left = key.push(' ');
    let n = key.len() as int;
    let parts = seq![left, v];
    assert(parts.skip(1) =~= seq![v]);
    assert(joined_by(seq![v], '=') == v);
    assert(joined_by(parts, '=') =~= line);
    assert(!left.contains('=')) by {
        if left.contains('=') {
            let k = choose|k: int| 0 <= k < left.len() && left[k] == '=';
            assert(key[k] == '=');
        }
    }
    law_split_undoes_join(parts, '=');
    let lines = seq![line];
    assert(joined_by(lines, '\n') == line);
    assert(!line.contains('\n')) by {
        if line.contains('\n') {
            let k = choose|k: int| 0 <= k < line.len() && line[k] == '\n';
            if k < n {
                assert(key[k] == '\n');
            } else if k >= n + 2 {
                assert(v[k - n - 2] == '\n');
            }
        }
    }
    law_split_undoes_join(lines, '\n');
    assert(line_of(line, 0) == line);
    // The only word before the sign.
    assert(!is_space(key[0]));
    lemma_run_is(left, 0, 0, CharSet::Space);
    assert forall|k: int| 0 <= k < n implies CharSet::Ink.has(#[trigger] left[k]) by {
        assert(left[k] == key[k]);
    }
    assert(left[n] == ' ' && is_space(' '));
    lemma_run_is(left, 0, n, CharSet::Ink);
    lemma_run_is(left, n, n + 1, CharSet::Space);
    assert(left.subrange(0, n) =~= key);
    assert(words_from(left, n) =~= Seq::<Seq<char>>::empty());
    assert(words_spec(left) =~= seq![key]);
}

} // verus!
