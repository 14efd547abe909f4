//! A language server for configuration files.

use vstd::prelude::*;
use vstd::utf8::encode_utf8;

use crate::config::parser::{error_view, errors_view, isolated, parse, parsed};
use crate::config::value::ErrorView;
use crate::json::{
    element, json_document, json_element, json_member, json_string, json_unsigned, member, opt_text,
    read_document, string, unsigned,
};
use crate::text::{
    chars_of, find_char, lemma_run_end, same, slices_view, split, split_spec, string_of, CharSet,
    trim, trim_spec, words, words_spec,
};

verus! {

// ── Positions ────────────────────────────────────────────────────────────────

/// The number of line ends in the first `n` bytes.
pub open spec fn lines_before(b: Seq<u8>, n: int) -> int
    decreases n,
{
    if n <= 0 {
        0
    } else {
        lines_before(b, n - 1) + if b[n - 1] == 10 {
            1int
        } else {
            0
        }
    }
}

/// The number of bytes between the last line end in the first `n` bytes and
/// their end.
pub open spec fn column_at(b: Seq<u8>, n: int) -> int
    decreases n,
{
    if n <= 0 || b[n - 1] == 10 {
        0
    } else {
        column_at(b, n - 1) + 1
    }
}

/// `byte`, cut off at the end of the text.
pub open spec fn clipped(b: Seq<u8>, byte: int) -> int {
    if byte < b.len() {
        byte
    } else {
        b.len() as int
    }
}

/// The line and the column of a byte, both counted from 0.
pub fn byte_to_lc(text: &str, byte: usize) -> (r: (usize, usize))
    ensures
        r.0 == lines_before(encode_utf8(text@), clipped(encode_utf8(text@), byte as int)),
        r.1 == column_at(encode_utf8(text@), clipped(encode_utf8(text@), byte as int)),
{
    let b = text.as_bytes();
    let end: usize = if byte < b.len() {
        byte
    } else {
        b.len()
    };
    let mut line: usize = 0;
    let mut col: usize = 0;
    let mut i: usize = 0;
    while i < end
        invariant
            i <= end <= b@.len(),
            line <= i,
            col <= i,
            line == lines_before(b@, i as int),
            col == column_at(b@, i as int),
        decreases end - i,
    {
        if b[i] == 10 {
            line += 1;
            col = 0;
        } else {
            col += 1;
        }
        i += 1;
    }
    (line, col)
}

// ── Diagnostics ──────────────────────────────────────────────────────────────

/// An error and the range of the text that it is about.
#[derive(Debug)]
pub struct Diagnostic {
    pub start: (usize, usize),
    pub end: (usize, usize),
    pub message: String,
}

/// What a [`Diagnostic`] holds.
pub struct DiagnosticView {
    pub start: (int, int),
    pub end: (int, int),
    pub message: Seq<char>,
}

impl View for Diagnostic {
    type V = DiagnosticView;

    open spec fn view(&self) -> DiagnosticView {
        DiagnosticView {
            start: (self.start.0 as int, self.start.1 as int),
            end: (self.end.0 as int, self.end.1 as int),
            message: self.message@,
        }
    }
}

pub open spec fn diagnostics_view(v: Seq<Diagnostic>) -> Seq<DiagnosticView> {
    Seq::new(v.len(), |i: int| v[i]@)
}

/// The line and the column of byte `at` of a text.
pub open spec fn place(text: Seq<char>, at: int) -> (int, int) {
    let b = encode_utf8(text);
    (lines_before(b, clipped(b, at)), column_at(b, clipped(b, at)))
}

/// An error as it is shown: its range holds one byte at least.
pub open spec fn shown(text: Seq<char>, e: ErrorView) -> DiagnosticView {
    DiagnosticView {
        start: place(text, e.span.start as int),
        end: place(
            text,
            if e.span.end > e.span.start {
                e.span.end as int
            } else {
                e.span.start + 1
            },
        ),
        message: e.message,
    }
}

/// The errors of a text, as they are shown.
pub open spec fn diagnosed(text: Seq<char>) -> Seq<DiagnosticView> {
    let errors = parsed(isolated(text), Seq::empty(), 0).1.errors;
    Seq::new(errors.len(), |i: int| shown(text, errors[i]))
}

pub fn diagnose(text: &str) -> (r: Vec<Diagnostic>)
    ensures
        diagnostics_view(r@) == diagnosed(text@),
{
    let result = parse(text);
    let len: usize = text.as_bytes().len();
    let mut r: Vec<Diagnostic> = Vec::new();
    let mut i: usize = 0;
    while i < result.errors.len()
        invariant
            i <= result.errors@.len(),
            i == r@.len(),
            len == encode_utf8(text@).len(),
            forall|k: int|
                0 <= k < i ==> (#[trigger] r@[k])@ == shown(text@, error_view(result.errors@[k])),
        decreases result.errors@.len() - i,
    {
        let e = &result.errors[i];
        let end: usize = if e.span.end > e.span.start {
            e.span.end
        } else if e.span.start < len {
            e.span.start + 1
        } else {
            len
        };
        r.push(
            Diagnostic {
                start: byte_to_lc(text, e.span.start),
                end: byte_to_lc(text, end),
                message: e.message.as_str().to_owned(),
            },
        );
        i += 1;
    }
    assert(diagnostics_view(r@) =~= diagnosed(text@)) by {
        let errors = parsed(isolated(text@), Seq::empty(), 0).1.errors;
        assert(errors == errors_view(result.errors@));
    }
    r
}

// ── Documentation of keys ────────────────────────────────────────────────────

/// The keys that are known, each with its documentation.
pub open spec fn key_docs_spec() -> Seq<(Seq<char>, Seq<char>)> {
    seq![
        ("font"@, "Path to the TTF/OTF font used for the bar and chrome UI.\n\nExample: `font = \"/usr/share/fonts/JetBrainsMono.ttf\"`"@),
        ("font_size"@, "Font size in pixels for the chrome UI.\n\nExample: `font_size = 14px`"@),
        ("gap"@, "Gap between tiled panes in pixels.\n\nExample: `gap = 8px`"@),
        ("border_width"@, "Width of the focus border in pixels. Set to 0 to disable.\n\nExample: `border_width = 2px`"@),
        ("workspaces"@, "Number of workspaces (1–32).\n\nExample: `workspaces = 9`"@),
        ("seat_name"@, "libseat seat name. Usually `seat0`.\n\nExample: `seat_name = \"seat0\"`"@),
        ("bar_position"@, "Position of the status bar: `top` or `bottom`.\n\nExample: `bar_position = bottom`"@),
        ("bar_height"@, "Height of the status bar in pixels.\n\nExample: `bar_height = 24px`"@),
        ("layout"@, "Default tiling layout: `bsp`, `columns`, `rows`, `monocle`, `threecol`.\n\nExample: `layout = bsp`"@),
        ("exec_once"@, "Commands to run once on startup.\n\nExample:\n```\nexec_once firefox {}\n```"@),
        ("exec"@, "Commands to run on every config reload.\n\nExample:\n```\nexec waybar {}\n```"@),
        ("bind"@, "Keybind: `bind <mods>+<key> = <action> [args]`\n\nExample: `bind super+return = exec alacritty`"@),
        ("active_border"@, "Border colour for the focused window (hex RGBA).\n\nExample: `active_border = #b4befe`"@),
        ("inactive_border"@, "Border colour for unfocused windows (hex RGBA).\n\nExample: `inactive_border = #45475a`"@),
        ("pane_bg"@, "Background fill colour behind panes (hex RGBA).\n\nExample: `pane_bg = #1e1e2e`"@),
    ]
}

pub open spec fn docs_view(v: Seq<(&'static str, &'static str)>) -> Seq<(Seq<char>, Seq<char>)> {
    Seq::new(v.len(), |i: int| (v[i].0@, v[i].1@))
}

pub fn key_docs() -> (docs: Vec<(&'static str, &'static str)>)
    ensures
        docs_view(docs@) == key_docs_spec(),
{
    let mut docs: Vec<(&'static str, &'static str)> = Vec::new();
    docs.push(("font", "Path to the TTF/OTF font used for the bar and chrome UI.\n\nExample: `font = \"/usr/share/fonts/JetBrainsMono.ttf\"`"));
    docs.push(("font_size", "Font size in pixels for the chrome UI.\n\nExample: `font_size = 14px`"));
    docs.push(("gap", "Gap between tiled panes in pixels.\n\nExample: `gap = 8px`"));
    docs.push(("border_width", "Width of the focus border in pixels. Set to 0 to disable.\n\nExample: `border_width = 2px`"));
    docs.push(("workspaces", "Number of workspaces (1–32).\n\nExample: `workspaces = 9`"));
    docs.push(("seat_name", "libseat seat name. Usually `seat0`.\n\nExample: `seat_name = \"seat0\"`"));
    docs.push(("bar_position", "Position of the status bar: `top` or `bottom`.\n\nExample: `bar_position = bottom`"));
    docs.push(("bar_height", "Height of the status bar in pixels.\n\nExample: `bar_height = 24px`"));
    docs.push(("layout", "Default tiling layout: `bsp`, `columns`, `rows`, `monocle`, `threecol`.\n\nExample: `layout = bsp`"));
    docs.push(("exec_once", "Commands to run once on startup.\n\nExample:\n```\nexec_once firefox {}\n```"));
    docs.push(("exec", "Commands to run on every config reload.\n\nExample:\n```\nexec waybar {}\n```"));
    docs.push(("bind", "Keybind: `bind <mods>+<key> = <action> [args]`\n\nExample: `bind super+return = exec alacritty`"));
    docs.push(("active_border", "Border colour for the focused window (hex RGBA).\n\nExample: `active_border = #b4befe`"));
    docs.push(("inactive_border", "Border colour for unfocused windows (hex RGBA).\n\nExample: `inactive_border = #45475a`"));
    docs.push(("pane_bg", "Background fill colour behind panes (hex RGBA).\n\nExample: `pane_bg = #1e1e2e`"));
    assert(docs_view(docs@) =~= key_docs_spec());
    docs
}

/// The documentation that `docs` give for `key`.
pub open spec fn doc_in(docs: Seq<(Seq<char>, Seq<char>)>, key: Seq<char>) -> Option<Seq<char>>
    decreases docs.len(),
{
    if docs.len() == 0 {
        None
    } else if docs[0].0 == key {
        Some(docs[0].1)
    } else {
        doc_in(docs.skip(1), key)
    }
}

fn find_doc(key: &str) -> (r: Option<&'static str>)
    ensures
        match r {
            Some(d) => doc_in(key_docs_spec(), key@) == Some(d@),
            None => doc_in(key_docs_spec(), key@) is None,
        },
{
    let docs = key_docs();
    let ghost all = key_docs_spec();
    let mut i: usize = 0;
    assert(all.skip(0) =~= all);
    while i < docs.len()
        invariant
            i <= docs@.len(),
            all == docs_view(docs@),
            all == key_docs_spec(),
            doc_in(all.skip(i as int), key@) == doc_in(all, key@),
        decreases docs@.len() - i,
    {
        let (k, d) = docs[i];
        assert(all.skip(i as int)[0] == (k@, d@));
        if same(k, key) {
            return Some(d);
        }
        i += 1;
        assert(all.skip(i - 1).skip(1) =~= all.skip(i as int));
    }
    assert(all.skip(i as int).len() == 0);
    None
}

// ── Hover and completion ─────────────────────────────────────────────────────

/// Line `line` of a text, empty where there is none. What stands at its ends is
/// of no account to its readers, which trim it.
pub open spec fn line_of(text: Seq<char>, line: int) -> Seq<char> {
    let lines = split_spec(text, '\n');
    if line < lines.len() {
        lines[line]
    } else {
        Seq::empty()
    }
}

/// What stands before the first `=`.
pub open spec fn before_sign(line: Seq<char>) -> Seq<char> {
    split_spec(line, '=')[0]
}

/// The last word before the first `=`.
pub open spec fn hovered_key(line: Seq<char>) -> Seq<char> {
    let w = words_spec(before_sign(line));
    if w.len() > 0 {
        w.last()
    } else {
        Seq::empty()
    }
}

/// The documentation of the key on a line.
pub open spec fn hover_spec(text: Seq<char>, line: int) -> Option<Seq<char>> {
    doc_in(key_docs_spec(), hovered_key(line_of(text, line)))
}

fn line_text(text: &str, line: u64) -> (r: String)
    ensures
        r@ == line_of(text@, line as int),
{
    let c = chars_of(text);
    let lines = split(c.as_slice(), '\n');
    assert(slices_view(lines@).len() == lines@.len());
    if line < lines.len() as u64 {
        let r = string_of(lines[line as usize]);
        assert(slices_view(lines@)[line as int] == lines@[line as int]@);
        r
    } else {
        let r = String::new();
        assert(r@ =~= Seq::<char>::empty());
        r
    }
}

/// The documentation of the key on a line, counted from 0.
pub fn hover_at(text: &str, line: u64) -> (r: Option<&'static str>)
    ensures
        match r {
            Some(d) => hover_spec(text@, line as int) == Some(d@),
            None => hover_spec(text@, line as int) is None,
        },
{
    let l = line_text(text, line);
    let c = chars_of(l.as_str());
    let parts = split(c.as_slice(), '=');
    assert(slices_view(parts@)[0] == parts@[0]@);
    let w = words(parts[0]);
    assert(slices_view(w@).len() == w@.len());
    if w.len() > 0 {
        let key = string_of(w[w.len() - 1]);
        assert(slices_view(w@).last() == w@.last()@);
        find_doc(key.as_str())
    } else {
        let key = String::new();
        assert(key@ =~= Seq::<char>::empty());
        find_doc(key.as_str())
    }
}

/// A proposal for what to write.
#[derive(Debug)]
pub enum Completion {
    Key { label: &'static str, doc: &'static str },
    Value { label: &'static str },
}

/// What a [`Completion`] holds.
pub enum CompletionView {
    Key { label: Seq<char>, doc: Seq<char> },
    Value { label: Seq<char> },
}

impl View for Completion {
    type V = CompletionView;

    open spec fn view(&self) -> CompletionView {
        match *self {
            Completion::Key { label, doc } => CompletionView::Key { label: label@, doc: doc@ },
            Completion::Value { label } => CompletionView::Value { label: label@ },
        }
    }
}

pub open spec fn completions_view(v: Seq<Completion>) -> Seq<CompletionView> {
    Seq::new(v.len(), |i: int| v[i]@)
}

/// The values that a key can have.
pub open spec fn values_of(key: Seq<char>) -> Seq<Seq<char>> {
    if key == "layout"@ {
        seq!["bsp"@, "columns"@, "rows"@, "monocle"@, "threecol"@]
    } else if key == "bar_position"@ {
        seq!["top"@, "bottom"@]
    } else if key == "border_style"@ {
        seq!["solid"@, "none"@]
    } else {
        Seq::empty()
    }
}

/// The proposals on a line: behind a `=` the values of its key, else the keys.
pub open spec fn completed(text: Seq<char>, line: int) -> Seq<CompletionView> {
    let l = trim_spec(line_of(text, line));
    if l.contains('=') {
        let v = values_of(trim_spec(before_sign(l)));
        Seq::new(v.len(), |i: int| CompletionView::Value { label: v[i] })
    } else {
        let d = key_docs_spec();
        Seq::new(d.len(), |i: int| CompletionView::Key { label: d[i].0, doc: d[i].1 })
    }
}

pub fn value_completions(key: &str) -> (r: Vec<Completion>)
    ensures
        completions_view(r@) == Seq::new(
            values_of(key@).len(),
            |i: int| CompletionView::Value { label: values_of(key@)[i] },
        ),
{
    let mut r: Vec<Completion> = Vec::new();
    if same(key, "layout") {
        r.push(Completion::Value { label: "bsp" });
        r.push(Completion::Value { label: "columns" });
        r.push(Completion::Value { label: "rows" });
        r.push(Completion::Value { label: "monocle" });
        r.push(Completion::Value { label: "threecol" });
    } else if same(key, "bar_position") {
        r.push(Completion::Value { label: "top" });
        r.push(Completion::Value { label: "bottom" });
    } else if same(key, "border_style") {
        r.push(Completion::Value { label: "solid" });
        r.push(Completion::Value { label: "none" });
    }
    assert(completions_view(r@) =~= Seq::new(
        values_of(key@).len(),
        |i: int| CompletionView::Value { label: values_of(key@)[i] },
    ));
    r
}

/// The proposals on a line, counted from 0.
pub fn completions_at(text: &str, line: u64) -> (r: Vec<Completion>)
    ensures
        completions_view(r@) == completed(text@, line as int),
{
    let l = line_text(text, line);
    let c = chars_of(l.as_str());
    let t = trim(c.as_slice());
    proof {
        lemma_run_end(t@, 0, CharSet::Not('='));
    }
    if find_char(t, '=').is_some() {
        assert(t@.contains('='));
        let parts = split(t, '=');
        assert(slices_view(parts@)[0] == parts@[0]@);
        let key = string_of(trim(parts[0]));
        let r = value_completions(key.as_str());
        assert(completions_view(r@) =~= completed(text@, line as int));
        return r;
    }
    let docs = key_docs();
    let mut r: Vec<Completion> = Vec::new();
    let mut i: usize = 0;
    while i < docs.len()
        invariant
            i <= docs@.len(),
            i == r@.len(),
            forall|k: int|
                0 <= k < i ==> (#[trigger] r@[k])@ == (CompletionView::Key {
                    label: docs@[k].0@,
                    doc: docs@[k].1@,
                }),
        decreases docs@.len() - i,
    {
        let (label, doc) = docs[i];
        r.push(Completion::Key { label, doc });
        i += 1;
    }
    proof {
        let d = key_docs_spec();
        assert forall|k: int| 0 <= k < d.len() implies completions_view(r@)[k] == (
        CompletionView::Key { label: d[k].0, doc: d[k].1 }) by {
            assert(docs_view(docs@)[k] == d[k]);
            assert(r@[k]@ == completions_view(r@)[k]);
        }
        assert(completions_view(r@) =~= completed(text@, line as int));
    }
    r
}

// ── Messages ─────────────────────────────────────────────────────────────────

/// What the server reads of a message.
#[derive(Debug)]
pub struct Message {
    pub method: String,
    /// The identifier of a request, as JSON.
    pub id: Option<String>,
    /// The document that the message is about.
    pub uri: Option<String>,
    /// The text of a document that was opened.
    pub text: Option<String>,
    /// The text of a document that was changed.
    pub change: Option<String>,
    pub line: Option<u64>,
}

/// What a [`Message`] holds.
pub struct MessageView {
    pub method: Seq<char>,
    pub id: Option<Seq<char>>,
    pub uri: Option<Seq<char>>,
    pub text: Option<Seq<char>>,
    pub change: Option<Seq<char>>,
    pub line: Option<u64>,
}

impl View for Message {
    type V = MessageView;

    open spec fn view(&self) -> MessageView {
        MessageView {
            method: self.method@,
            id: opt_text(self.id),
            uri: opt_text(self.uri),
            text: opt_text(self.text),
            change: opt_text(self.change),
            line: self.line,
        }
    }
}

pub open spec fn or_empty(s: Option<Seq<char>>) -> Seq<char> {
    match s {
        Some(s) => s,
        None => Seq::empty(),
    }
}

/// The member of an object that may be missing.
pub open spec fn member_of(object: Option<Seq<char>>, key: Seq<char>) -> Option<Seq<char>> {
    match object {
        Some(o) => json_member(o, key),
        None => None,
    }
}

pub open spec fn string_in(text: Option<Seq<char>>) -> Option<Seq<char>> {
    match text {
        Some(t) => json_string(t),
        None => None,
    }
}

/// What the server reads of the JSON text `doc`.
pub open spec fn message_in(doc: Seq<char>) -> MessageView {
    let params = json_member(doc, "params"@);
    let document = member_of(params, "textDocument"@);
    let change = match member_of(params, "contentChanges"@) {
        Some(c) => json_element(c, 0),
        None => None,
    };
    MessageView {
        method: or_empty(string_in(json_member(doc, "method"@))),
        id: json_member(doc, "id"@),
        uri: string_in(member_of(document, "uri"@)),
        text: string_in(member_of(document, "text"@)),
        change: string_in(member_of(change, "text"@)),
        line: match member_of(member_of(params, "position"@), "line"@) {
            Some(n) => json_unsigned(n),
            None => None,
        },
    }
}

fn sub_member(object: &Option<String>, key: &str) -> (r: Option<String>)
    ensures
        opt_text(r) == member_of(opt_text(*object), key@),
{
    match object {
        Some(o) => member(o.as_str(), key),
        None => None,
    }
}

fn sub_string(text: &Option<String>) -> (r: Option<String>)
    ensures
        opt_text(r) == string_in(opt_text(*text)),
{
    match text {
        Some(t) => string(t.as_str()),
        None => None,
    }
}

/// Reads the body of a message; `None` where it is no JSON.
pub fn read_message(body: &[u8]) -> (r: Option<Message>)
    ensures
        match r {
            Some(m) => json_document(body@) matches Some(doc) && m@ == message_in(doc),
            None => json_document(body@) is None,
        },
{
    let doc = match read_document(body) {
        Some(d) => d,
        None => {
            return None;
        },
    };
    let method = match sub_string(&member(doc.as_str(), "method")) {
        Some(m) => m,
        None => {
            let m = String::new();
            assert(m@ =~= Seq::<char>::empty());
            m
        },
    };
    let id = member(doc.as_str(), "id");
    let params = member(doc.as_str(), "params");
    let document = sub_member(&params, "textDocument");
    let uri = sub_string(&sub_member(&document, "uri"));
    let text = sub_string(&sub_member(&document, "text"));
    let change = match sub_member(&params, "contentChanges") {
        Some(c) => element(c.as_str(), 0),
        None => None,
    };
    let change = sub_string(&sub_member(&change, "text"));
    let line = match sub_member(&sub_member(&params, "position"), "line") {
        Some(n) => unsigned(n.as_str()),
        None => None,
    };
    Some(Message { method, id, uri, text, change, line })
}

// ── Replies ──────────────────────────────────────────────────────────────────

/// What the server sends.
#[derive(Debug)]
pub enum Reply {
    /// What the server can do.
    Capabilities { id: Option<String> },
    /// That a request was met.
    Done { id: Option<String> },
    /// The documentation of a key.
    Hover { id: Option<String>, doc: Option<&'static str> },
    /// Proposals for what to write.
    Completions { id: Option<String>, items: Vec<Completion> },
    /// That a request is not known.
    Unknown { id: Option<String> },
    /// The errors of a document.
    Diagnostics { uri: String, items: Vec<Diagnostic> },
}

/// What a [`Reply`] holds.
pub enum ReplyView {
    Capabilities { id: Option<Seq<char>> },
    Done { id: Option<Seq<char>> },
    Hover { id: Option<Seq<char>>, doc: Option<Seq<char>> },
    Completions { id: Option<Seq<char>>, items: Seq<CompletionView> },
    Unknown { id: Option<Seq<char>> },
    Diagnostics { uri: Seq<char>, items: Seq<DiagnosticView> },
}

impl View for Reply {
    type V = ReplyView;

    open spec fn view(&self) -> ReplyView {
        match *self {
            Reply::Capabilities { id } => ReplyView::Capabilities { id: opt_text(id) },
            Reply::Done { id } => ReplyView::Done { id: opt_text(id) },
            Reply::Hover { id, doc } => ReplyView::Hover {
                id: opt_text(id),
                doc: match doc {
                    Some(d) => Some(d@),
                    None => None,
                },
            },
            Reply::Completions { id, items } => ReplyView::Completions {
                id: opt_text(id),
                items: completions_view(items@),
            },
            Reply::Unknown { id } => ReplyView::Unknown { id: opt_text(id) },
            Reply::Diagnostics { uri, items } => ReplyView::Diagnostics {
                uri: uri@,
                items: diagnostics_view(items@),
            },
        }
    }
}

// ── Documents ────────────────────────────────────────────────────────────────

/// A document that is open.
#[derive(Debug)]
pub struct Document {
    pub uri: String,
    pub text: String,
}

/// The documents that are open, and the version that the server tells.
#[derive(Debug)]
pub struct Server {
    docs: Vec<Document>,
    version: String,
}

pub open spec fn has_uri(docs: Seq<Document>, uri: Seq<char>) -> bool {
    exists|i: int| 0 <= i < docs.len() && (#[trigger] docs[i]).uri@ == uri
}

pub open spec fn index_of_uri(docs: Seq<Document>, uri: Seq<char>) -> int {
    choose|i: int| 0 <= i < docs.len() && (#[trigger] docs[i]).uri@ == uri
}

/// The texts by the names of their documents.
pub open spec fn texts(docs: Seq<Document>) -> Map<Seq<char>, Seq<char>> {
    Map::new(|u: Seq<char>| has_uri(docs, u), |u: Seq<char>| docs[index_of_uri(docs, u)].text@)
}

pub open spec fn distinct(docs: Seq<Document>) -> bool {
    forall|i: int, j: int|
        0 <= i < docs.len() && 0 <= j < docs.len() && i != j ==> (#[trigger] docs[i]).uri@ != (
        #[trigger] docs[j]).uri@
}

proof fn lemma_text_at(docs: Seq<Document>, i: int)
    requires
        distinct(docs),
        0 <= i < docs.len(),
    ensures
        has_uri(docs, docs[i].uri@),
        index_of_uri(docs, docs[i].uri@) == i,
        texts(docs).contains_key(docs[i].uri@),
        texts(docs)[docs[i].uri@] == docs[i].text@,
{
}

proof fn lemma_removed(docs: Seq<Document>, p: int)
    requires
        distinct(docs),
        0 <= p < docs.len(),
    ensures
        distinct(docs.remove(p)),
        texts(docs.remove(p)) == texts(docs).remove(docs[p].uri@),
{
    let after = docs.remove(p);
    let (a, b) = (texts(after), texts(docs).remove(docs[p].uri@));
    assert forall|u: Seq<char>| a.contains_key(u) <==> #[trigger] b.contains_key(u) by {
        if a.contains_key(u) {
            let i = index_of_uri(after, u);
            let k = if i < p {
                i
            } else {
                i + 1
            };
            assert(after[i] == docs[k]);
            lemma_text_at(docs, k);
        }
        if b.contains_key(u) {
            let i = index_of_uri(docs, u);
            let k = if i < p {
                i
            } else {
                i - 1
            };
            assert(docs[i] == after[k]);
            assert(has_uri(after, u));
        }
    }
    assert forall|u: Seq<char>| #[trigger] a.contains_key(u) implies a[u] == b[u] by {
        let i = index_of_uri(after, u);
        let k = if i < p {
            i
        } else {
            i + 1
        };
        assert(after[i] == docs[k]);
        lemma_text_at(docs, k);
    }
    assert(a =~= b);
}

proof fn lemma_pushed(docs: Seq<Document>, d: Document)
    requires
        distinct(docs),
        !has_uri(docs, d.uri@),
    ensures
        distinct(docs.push(d)),
        texts(docs.push(d)) == texts(docs).insert(d.uri@, d.text@),
{
    let after = docs.push(d);
    assert forall|i: int, j: int|
        0 <= i < after.len() && 0 <= j < after.len() && i != j implies (#[trigger] after[i]).uri@
        != (#[trigger] after[j]).uri@ by {
        if i < docs.len() && j < docs.len() {
            assert(docs[i].uri@ != docs[j].uri@);
        } else if i < docs.len() {
            assert(docs[i].uri@ != d.uri@);
        } else if j < docs.len() {
            assert(docs[j].uri@ != d.uri@);
        }
    }
    let (a, b) = (texts(after), texts(docs).insert(d.uri@, d.text@));
    assert forall|u: Seq<char>| a.contains_key(u) <==> #[trigger] b.contains_key(u) by {
        if b.contains_key(u) {
            if u == d.uri@ {
                assert(after[docs.len() as int] == d);
            } else {
                assert(after[index_of_uri(docs, u)] == docs[index_of_uri(docs, u)]);
            }
        }
        if a.contains_key(u) && u != d.uri@ {
            assert(docs[index_of_uri(after, u)] == after[index_of_uri(after, u)]);
        }
    }
    assert forall|u: Seq<char>| #[trigger] a.contains_key(u) implies a[u] == b[u] by {
        let i = index_of_uri(after, u);
        if i < docs.len() {
            assert(after[i] == docs[i]);
            lemma_text_at(docs, i);
        }
    }
    assert(a =~= b);
}

/// The text of an open document, empty where it is not open.
pub open spec fn open_text(docs: Map<Seq<char>, Seq<char>>, uri: Seq<char>) -> Seq<char> {
    if docs.contains_key(uri) {
        docs[uri]
    } else {
        Seq::empty()
    }
}

/// What a message does: the documents that are open then, what is sent, and
/// whether the server ends.
pub struct Handled {
    pub docs: Map<Seq<char>, Seq<char>>,
    pub reply: Option<ReplyView>,
    pub done: bool,
}

/// That a document has the text `text` now.
pub open spec fn updated(
    docs: Map<Seq<char>, Seq<char>>,
    uri: Option<Seq<char>>,
    text: Option<Seq<char>>,
) -> Handled {
    match uri {
        Some(u) => Handled {
            docs: docs.insert(u, or_empty(text)),
            reply: Some(ReplyView::Diagnostics { uri: u, items: diagnosed(or_empty(text)) }),
            done: false,
        },
        None => Handled { docs, reply: None, done: false },
    }
}

/// What the message `m` does when the documents `docs` are open.
pub open spec fn handled(docs: Map<Seq<char>, Seq<char>>, m: MessageView) -> Handled {
    let text = open_text(docs, or_empty(m.uri));
    let line = match m.line {
        Some(n) => n as int,
        None => 0,
    };
    let same_docs = Handled { docs, reply: None, done: false };
    if m.method == "initialize"@ {
        Handled { reply: Some(ReplyView::Capabilities { id: m.id }), ..same_docs }
    } else if m.method == "initialized"@ {
        same_docs
    } else if m.method == "shutdown"@ {
        Handled { reply: Some(ReplyView::Done { id: m.id }), ..same_docs }
    } else if m.method == "exit"@ {
        Handled { done: true, ..same_docs }
    } else if m.method == "textDocument/didOpen"@ {
        updated(docs, m.uri, m.text)
    } else if m.method == "textDocument/didChange"@ {
        updated(docs, m.uri, m.change)
    } else if m.method == "textDocument/didClose"@ {
        match m.uri {
            Some(u) => Handled {
                docs: docs.remove(u),
                reply: Some(ReplyView::Diagnostics { uri: u, items: Seq::empty() }),
                done: false,
            },
            None => same_docs,
        }
    } else if m.method == "textDocument/hover"@ {
        Handled {
            reply: Some(ReplyView::Hover { id: m.id, doc: hover_spec(text, line) }),
            ..same_docs
        }
    } else if m.method == "textDocument/completion"@ {
        Handled {
            reply: Some(ReplyView::Completions { id: m.id, items: completed(text, line) }),
            ..same_docs
        }
    } else if m.id is Some {
        Handled { reply: Some(ReplyView::Unknown { id: m.id }), ..same_docs }
    } else {
        same_docs
    }
}

/// What the server does next.
#[derive(Debug)]
pub enum Next {
    Nothing,
    Send(Reply),
    Exit,
}

pub open spec fn next_is(n: Next, h: Handled) -> bool {
    match n {
        Next::Nothing => h.reply is None && !h.done,
        Next::Send(r) => h.reply == Some(r@) && !h.done,
        Next::Exit => h.done,
    }
}

fn copy_id(id: &Option<String>) -> (r: Option<String>)
    ensures
        opt_text(r) == opt_text(*id),
{
    match id {
        Some(s) => Some(s.as_str().to_owned()),
        None => None,
    }
}

fn text_or_empty(s: &Option<String>) -> (r: String)
    ensures
        r@ == or_empty(opt_text(*s)),
{
    match s {
        Some(s) => s.as_str().to_owned(),
        None => {
            let r = String::new();
            assert(r@ =~= Seq::<char>::empty());
            r
        },
    }
}

impl Server {
    /// The texts of the documents that are open.
    pub closed spec fn docs(&self) -> Map<Seq<char>, Seq<char>> {
        texts(self.docs@)
    }

    /// The version that the server tells.
    pub closed spec fn version(&self) -> Seq<char> {
        self.version@
    }

    /// That no document is held twice.
    pub closed spec fn inv(&self) -> bool {
        distinct(self.docs@)
    }

    /// A server with no open document.
    pub fn new(version: &str) -> (r: Self)
        ensures
            r.inv(),
            r.docs() == Map::<Seq<char>, Seq<char>>::empty(),
            r.version() == version@,
    {
        let r = Server { docs: Vec::new(), version: version.to_owned() };
        assert(r.docs() =~= Map::<Seq<char>, Seq<char>>::empty());
        r
    }

    pub fn version_text(&self) -> (r: &str)
        ensures
            r@ == self.version(),
    {
        self.version.as_str()
    }

    fn find(&self, uri: &str) -> (r: Option<usize>)
        ensures
            match r {
                Some(i) => i < self.docs@.len() && self.docs@[i as int].uri@ == uri@,
                None => !has_uri(self.docs@, uri@),
            },
    {
        let mut i: usize = 0;
        while i < self.docs.len()
            invariant
                i <= self.docs@.len(),
                forall|k: int| 0 <= k < i ==> (#[trigger] self.docs@[k]).uri@ != uri@,
            decreases self.docs@.len() - i,
        {
            if same(self.docs[i].uri.as_str(), uri) {
                return Some(i);
            }
            i += 1;
        }
        None
    }

    fn forget(&mut self, uri: &str)
        requires
            old(self).inv(),
        ensures
            final(self).inv(),
            final(self).docs() == old(self).docs().remove(uri@),
            !has_uri(final(self).docs@, uri@),
            final(self).version() == old(self).version(),
    {
        match self.find(uri) {
            Some(p) => {
                proof {
                    lemma_removed(self.docs@, p as int);
                }
                self.docs.remove(p);
                proof {
                    if has_uri(self.docs@, uri@) {
                        assert(self.docs().contains_key(uri@));
                    }
                }
            },
            None => {
                assert(self.docs().remove(uri@) =~= self.docs());
            },
        }
    }

    fn store(&mut self, uri: &str, text: &str)
        requires
            old(self).inv(),
        ensures
            final(self).inv(),
            final(self).docs() == old(self).docs().insert(uri@, text@),
            final(self).version() == old(self).version(),
    {
        self.forget(uri);
        let d = Document { uri: uri.to_owned(), text: text.to_owned() };
        proof {
            lemma_pushed(self.docs@, d);
        }
        self.docs.push(d);
        assert(self.docs() =~= old(self).docs().insert(uri@, text@));
    }

    fn text_of(&self, uri: &str) -> (r: String)
        requires
            self.inv(),
        ensures
            r@ == open_text(self.docs(), uri@),
    {
        match self.find(uri) {
            Some(p) => {
                proof {
                    lemma_text_at(self.docs@, p as int);
                }
                self.docs[p].text.as_str().to_owned()
            },
            None => {
                let r = String::new();
                assert(r@ =~= Seq::<char>::empty());
                r
            },
        }
    }

    fn update(&mut self, uri: &Option<String>, text: &Option<String>) -> (r: Next)
        requires
            old(self).inv(),
        ensures
            final(self).inv(),
            final(self).version() == old(self).version(),
            final(self).docs() == updated(old(self).docs(), opt_text(*uri), opt_text(*text)).docs,
            next_is(r, updated(old(self).docs(), opt_text(*uri), opt_text(*text))),
    {
        match uri {
            Some(u) => {
                let t = text_or_empty(text);
                let items = diagnose(t.as_str());
                self.store(u.as_str(), t.as_str());
                Next::Send(Reply::Diagnostics { uri: u.as_str().to_owned(), items })
            },
            None => Next::Nothing,
        }
    }

    /// Does what a message asks.
    pub fn handle(&mut self, m: &Message) -> (r: Next)
        requires
            old(self).inv(),
        ensures
            final(self).inv(),
            final(self).version() == old(self).version(),
            final(self).docs() == handled(old(self).docs(), m@).docs,
            next_is(r, handled(old(self).docs(), m@)),
    {
        let method = m.method.as_str();
        let line: u64 = match m.line {
            Some(n) => n,
            None => 0,
        };
        if same(method, "initialize") {
            Next::Send(Reply::Capabilities { id: copy_id(&m.id) })
        } else if same(method, "initialized") {
            Next::Nothing
        } else if same(method, "shutdown") {
            Next::Send(Reply::Done { id: copy_id(&m.id) })
        } else if same(method, "exit") {
            Next::Exit
        } else if same(method, "textDocument/didOpen") {
            self.update(&m.uri, &m.text)
        } else if same(method, "textDocument/didChange") {
            self.update(&m.uri, &m.change)
        } else if same(method, "textDocument/didClose") {
            match &m.uri {
                Some(u) => {
                    self.forget(u.as_str());
                    let items: Vec<Diagnostic> = Vec::new();
                    assert(diagnostics_view(items@) =~= Seq::<DiagnosticView>::empty());
                    Next::Send(Reply::Diagnostics { uri: u.as_str().to_owned(), items })
                },
                None => Next::Nothing,
            }
        } else if same(method, "textDocument/hover") {
            let text = self.text_of(text_or_empty(&m.uri).as_str());
            Next::Send(Reply::Hover { id: copy_id(&m.id), doc: hover_at(text.as_str(), line) })
        } else if same(method, "textDocument/completion") {
            let text = self.text_of(text_or_empty(&m.uri).as_str());
            Next::Send(
                Reply::Completions {
                    id: copy_id(&m.id),
                    items: completions_at(text.as_str(), line),
                },
            )
        } else if m.id.is_some() {
            Next::Send(Reply::Unknown { id: copy_id(&m.id) })
        } else {
            Next::Nothing
        }
    }
}

} // verus!
