//! The messages of the language server as they are sent.

use vstd::prelude::*;
use vstd::slice::slice_subrange;

use crate::config::lsp::{
    completed, completions_view, diagnostics_view, handled, message_in, or_empty, read_message,
    Completion, CompletionView, Diagnostic, DiagnosticView, Handled, MessageView,
    Next, Reply, ReplyView, Server,
};
use crate::integer::{
    decimal, digit_value, lemma_decimal_numeral, parse_u64, push_decimal, unsigned_of,
};
use crate::json::{
    json_array, json_document, json_one, json_quoted, json_with, number_text, one_member, opt_text,
    quoted, with_element, with_member,
};
use crate::text::{
    after_prefix, byte_len, chars_of, has_at, is_space, lemma_byte_len_is_utf8, run_end,
    strip_prefix, trim, trim_spec, trimmed_end, CharSet,
};

verus! {

// ── Encoding ─────────────────────────────────────────────────────────────────

/// The answer to the request `id`, with its result or its error.
pub open spec fn answer(id: Option<Seq<char>>, key: Seq<char>, value: Seq<char>) -> Seq<char> {
    json_with(
        json_with(
            json_one("jsonrpc"@, json_quoted("2.0"@)),
            "id"@,
            match id {
                Some(t) => t,
                None => "null"@,
            },
        ),
        key,
        value,
    )
}

fn write_answer(id: &Option<String>, key: &str, value: &str) -> (r: String)
    ensures
        r@ == answer(opt_text(*id), key@, value@),
{
    let head = one_member("jsonrpc", quoted("2.0").as_str());
    let id = match id {
        Some(t) => t.as_str(),
        None => "null",
    };
    let head = with_member(head.as_str(), "id", id);
    with_member(head.as_str(), key, value)
}

/// A text with marks.
pub open spec fn markdown(s: Seq<char>) -> Seq<char> {
    json_with(json_one("kind"@, json_quoted("markdown"@)), "value"@, json_quoted(s))
}

fn write_markdown(s: &str) -> (r: String)
    ensures
        r@ == markdown(s@),
{
    let kind = one_member("kind", quoted("markdown").as_str());
    with_member(kind.as_str(), "value", quoted(s).as_str())
}

/// What the server can do, and what it is.
pub open spec fn about(version: Seq<char>) -> Seq<char> {
    json_with(
        json_one(
            "capabilities"@,
            "{\"textDocumentSync\":1,\"hoverProvider\":true,\"completionProvider\":{\"triggerCharacters\":[\"=\",\" \"]}}"@,
        ),
        "serverInfo"@,
        json_with(
            json_one("name"@, json_quoted("trixie-lsp"@)),
            "version"@,
            json_quoted(version),
        ),
    )
}

fn write_about(version: &str) -> (r: String)
    ensures
        r@ == about(version@),
{
    let abilities = one_member(
        "capabilities",
        "{\"textDocumentSync\":1,\"hoverProvider\":true,\"completionProvider\":{\"triggerCharacters\":[\"=\",\" \"]}}",
    );
    let name = one_member("name", quoted("trixie-lsp").as_str());
    let info = with_member(name.as_str(), "version", quoted(version).as_str());
    with_member(abilities.as_str(), "serverInfo", info.as_str())
}

pub open spec fn completion_text(c: CompletionView) -> Seq<char> {
    match c {
        CompletionView::Key { label, doc } => json_with(
            json_with(
                json_with(json_one("label"@, json_quoted(label)), "kind"@, "10"@),
                "detail"@,
                json_quoted("trixie config key"@),
            ),
            "documentation"@,
            markdown(doc),
        ),
        CompletionView::Value { label } => json_with(
            json_one("label"@, json_quoted(label)),
            "kind"@,
            "12"@,
        ),
    }
}

fn write_completion(c: &Completion) -> (r: String)
    ensures
        r@ == completion_text(c@),
{
    match c {
        Completion::Key { label, doc } => {
            let t = one_member("label", quoted(label).as_str());
            let t = with_member(t.as_str(), "kind", "10");
            let t = with_member(t.as_str(), "detail", quoted("trixie config key").as_str());
            with_member(t.as_str(), "documentation", write_markdown(doc).as_str())
        },
        Completion::Value { label } => {
            let t = one_member("label", quoted(label).as_str());
            with_member(t.as_str(), "kind", "12")
        },
    }
}

pub open spec fn position_text(p: (int, int)) -> Seq<char> {
    json_with(json_one("line"@, decimal(p.0 as nat)), "character"@, decimal(p.1 as nat))
}

fn write_position(p: (usize, usize)) -> (r: String)
    ensures
        r@ == position_text((p.0 as int, p.1 as int)),
{
    let line = one_member("line", number_text(p.0 as u64).as_str());
    with_member(line.as_str(), "character", number_text(p.1 as u64).as_str())
}

pub open spec fn diagnostic_text(d: DiagnosticView) -> Seq<char> {
    json_with(
        json_with(
            json_with(
                json_one(
                    "range"@,
                    json_with(json_one("start"@, position_text(d.start)), "end"@, position_text(d.end)),
                ),
                "severity"@,
                "1"@,
            ),
            "source"@,
            json_quoted("trixie"@),
        ),
        "message"@,
        json_quoted(d.message),
    )
}

fn write_diagnostic(d: &Diagnostic) -> (r: String)
    ensures
        r@ == diagnostic_text(d@),
{
    let range = one_member("start", write_position(d.start).as_str());
    let range = with_member(range.as_str(), "end", write_position(d.end).as_str());
    let t = one_member("range", range.as_str());
    let t = with_member(t.as_str(), "severity", "1");
    let t = with_member(t.as_str(), "source", quoted("trixie").as_str());
    with_member(t.as_str(), "message", quoted(d.message.as_str()).as_str())
}

pub open spec fn completion_texts(items: Seq<CompletionView>) -> Seq<Seq<char>> {
    Seq::new(items.len(), |i: int| completion_text(items[i]))
}

pub open spec fn diagnostic_texts(items: Seq<DiagnosticView>) -> Seq<Seq<char>> {
    Seq::new(items.len(), |i: int| diagnostic_text(items[i]))
}

fn write_completions(items: &Vec<Completion>) -> (r: String)
    ensures
        r@ == json_array(completion_texts(completions_view(items@))),
{
    let ghost all = completion_texts(completions_view(items@));
    let mut r = "[]".to_owned();
    let mut i: usize = 0;
    while i < items.len()
        invariant
            i <= items@.len(),
            all == completion_texts(completions_view(items@)),
            r@ == json_array(all.take(i as int)),
        decreases items@.len() - i,
    {
        r = with_element(r.as_str(), write_completion(&items[i]).as_str());
        i += 1;
        assert(all.take(i as int).drop_last() =~= all.take(i - 1));
    }
    assert(all.take(i as int) =~= all);
    r
}

fn write_diagnostics(items: &Vec<Diagnostic>) -> (r: String)
    ensures
        r@ == json_array(diagnostic_texts(diagnostics_view(items@))),
{
    let ghost all = diagnostic_texts(diagnostics_view(items@));
    let mut r = "[]".to_owned();
    let mut i: usize = 0;
    while i < items.len()
        invariant
            i <= items@.len(),
            all == diagnostic_texts(diagnostics_view(items@)),
            r@ == json_array(all.take(i as int)),
        decreases items@.len() - i,
    {
        r = with_element(r.as_str(), write_diagnostic(&items[i]).as_str());
        i += 1;
        assert(all.take(i as int).drop_last() =~= all.take(i - 1));
    }
    assert(all.take(i as int) =~= all);
    r
}

/// The text of a reply of a server of the version `version`.
pub open spec fn encoded(r: ReplyView, version: Seq<char>) -> Seq<char> {
    match r {
        ReplyView::Capabilities { id } => answer(id, "result"@, about(version)),
        ReplyView::Done { id } => answer(id, "result"@, "null"@),
        ReplyView::Hover { id, doc } => answer(
            id,
            "result"@,
            match doc {
                Some(d) => json_one("contents"@, markdown(d)),
                None => "null"@,
            },
        ),
        ReplyView::Completions { id, items } => answer(
            id,
            "result"@,
            json_one("items"@, json_array(completion_texts(items))),
        ),
        ReplyView::Unknown { id } => answer(
            id,
            "error"@,
            json_with(
                json_one("code"@, "-32601"@),
                "message"@,
                json_quoted("Method not found"@),
            ),
        ),
        ReplyView::Diagnostics { uri, items } => json_with(
            json_with(
                json_one("jsonrpc"@, json_quoted("2.0"@)),
                "method"@,
                json_quoted("textDocument/publishDiagnostics"@),
            ),
            "params"@,
            json_with(
                json_one("uri"@, json_quoted(uri)),
                "diagnostics"@,
                json_array(diagnostic_texts(items)),
            ),
        ),
    }
}

/// Writes a reply as JSON.
pub fn encode(reply: &Reply, version: &str) -> (r: String)
    ensures
        r@ == encoded(reply@, version@),
{
    match reply {
        Reply::Capabilities { id } => write_answer(id, "result", write_about(version).as_str()),
        Reply::Done { id } => write_answer(id, "result", "null"),
        Reply::Hover { id, doc } => match doc {
            Some(d) => write_answer(
                id,
                "result",
                one_member("contents", write_markdown(d).as_str()).as_str(),
            ),
            None => write_answer(id, "result", "null"),
        },
        Reply::Completions { id, items } => write_answer(
            id,
            "result",
            one_member("items", write_completions(items).as_str()).as_str(),
        ),
        Reply::Unknown { id } => {
            let error = one_member("code", "-32601");
            let error = with_member(
                error.as_str(),
                "message",
                quoted("Method not found").as_str(),
            );
            write_answer(id, "error", error.as_str())
        },
        Reply::Diagnostics { uri, items } => {
            let t = one_member("jsonrpc", quoted("2.0").as_str());
            let t = with_member(
                t.as_str(),
                "method",
                quoted("textDocument/publishDiagnostics").as_str(),
            );
            let params = one_member("uri", quoted(uri.as_str()).as_str());
            let params = with_member(
                params.as_str(),
                "diagnostics",
                write_diagnostics(items).as_str(),
            );
            with_member(t.as_str(), "params", params.as_str())
        },
    }
}

// ── Framing ──────────────────────────────────────────────────────────────────

/// A message behind a header that says how many bytes it has.
pub open spec fn framed(body: Seq<char>) -> Seq<char> {
    "Content-Length: "@ + decimal(byte_len(body)) + "\r\n\r\n"@ + body
}

pub fn frame(body: &str) -> (r: String)
    ensures
        r@ == framed(body@),
{
    let n: usize = body.as_bytes().len();
    proof {
        lemma_byte_len_is_utf8(body@);
    }
    let mut r = "Content-Length: ".to_owned();
    push_decimal(&mut r, n as u64);
    r.append("\r\n\r\n");
    r.append(body);
    r
}

/// `s` without the line ends at its end.
pub open spec fn without_line_end(s: Seq<char>) -> Seq<char>
    decreases s.len(),
{
    if s.len() > 0 && (s.last() == '\r' || s.last() == '\n') {
        without_line_end(s.drop_last())
    } else {
        s
    }
}

/// What a line of a header says.
#[derive(Debug, PartialEq, Eq, Structural)]
pub enum Header {
    /// That lines follow, with the length of the body as far as it is known.
    More(u64),
    /// That the body of this length follows.
    Body(u64),
    /// A length that is no number.
    BadLength,
    /// The end of a header without a length.
    NoLength,
}

/// What the line `line` of a header says, behind lines that gave the length
/// `length`, 0 where none was given.
pub open spec fn header_spec(line: Seq<char>, length: u64) -> Header {
    let l = without_line_end(line);
    if l.len() == 0 {
        if length == 0 {
            Header::NoLength
        } else {
            Header::Body(length)
        }
    } else {
        match after_prefix(l, "Content-Length: "@) {
            Some(n) => match unsigned_of(trim_spec(n), 10, u64::MAX as nat) {
                Some(v) => Header::More(v as u64),
                None => Header::BadLength,
            },
            None => Header::More(length),
        }
    }
}

/// Reads a line of a header; `length` is what the lines before it gave.
pub fn read_header(line: &str, length: u64) -> (r: Header)
    ensures
        r == header_spec(line@, length),
{
    let c = chars_of(line);
    let mut n: usize = c.len();
    assert(c@.take(n as int) =~= c@);
    while n > 0 && (c[n - 1] == '\r' || c[n - 1] == '\n')
        invariant
            n <= c@.len(),
            without_line_end(c@) == without_line_end(c@.take(n as int)),
        decreases n,
    {
        assert(c@.take(n as int).drop_last() =~= c@.take(n - 1));
        n -= 1;
    }
    let l = slice_subrange(c.as_slice(), 0, n);
    assert(l@ =~= c@.take(n as int));
    if l.len() == 0 {
        return if length == 0 {
            Header::NoLength
        } else {
            Header::Body(length)
        };
    }
    match strip_prefix(l, "Content-Length: ") {
        Some(n) => match parse_u64(trim(n)) {
            Some(v) => Header::More(v),
            None => Header::BadLength,
        },
        None => Header::More(length),
    }
}

// ── Serving ──────────────────────────────────────────────────────────────────

/// What came of a message.
#[derive(Debug)]
pub enum Served {
    Quiet,
    /// What is to be sent.
    Send(String),
    Exit,
    /// That the message is no JSON.
    Unreadable,
}

/// What comes of the message `m` when the documents of a server are `docs`.
pub open spec fn served_is(s: Served, h: Handled, version: Seq<char>) -> bool {
    match s {
        Served::Quiet => h.reply is None && !h.done,
        Served::Send(t) => (h.reply matches Some(r) && t@ == framed(encoded(r, version)))
            && !h.done,
        Served::Exit => h.done,
        _ => false,
    }
}

impl Server {
    /// Does what the message with this body asks.
    pub fn serve(&mut self, body: &[u8]) -> (r: Served)
        requires
            old(self).inv(),
        ensures
            final(self).inv(),
            final(self).version() == old(self).version(),
            match json_document(body@) {
                Some(doc) => {
                    let h = handled(old(self).docs(), message_in(doc));
                    final(self).docs() == h.docs && served_is(r, h, old(self).version())
                },
                None => r is Unreadable && final(self).docs() == old(self).docs(),
            },
    {
        let m = match read_message(body) {
            Some(m) => m,
            None => {
                return Served::Unreadable;
            },
        };
        match self.handle(&m) {
            Next::Nothing => Served::Quiet,
            Next::Send(reply) => Served::Send(
                frame(encode(&reply, self.version_text()).as_str()),
            ),
            Next::Exit => Served::Exit,
        }
    }
}

// ── Laws ─────────────────────────────────────────────────────────────────────

proof fn lemma_no_line_end(s: Seq<char>)
    requires
        s.len() > 0 ==> s.last() != '\r' && s.last() != '\n',
    ensures
        without_line_end(s + "\r\n"@) == s,
{
    reveal_strlit("\r\n");
    let a = s + "\r\n"@;
    assert(a.drop_last().drop_last() =~= s);
    reveal_with_fuel(without_line_end, 3);
}

/// Reading the header of a message that was framed gives the number of bytes of
/// its body.
pub proof fn law_frame_reads_back(body: Seq<char>)
    requires
        0 < byte_len(body) <= u64::MAX,
    ensures
        ({
            let n = byte_len(body);
            let line = "Content-Length: "@ + decimal(n) + "\r\n"@;
            &&& framed(body) == line + "\r\n"@ + body
            &&& header_spec(line, 0) == Header::More(n as u64)
            &&& header_spec("\r\n"@, n as u64) == Header::Body(n as u64)
        }),
{
    let n = byte_len(body);
    let d = decimal(n);
    reveal_strlit("\r\n\r\n");
    reveal_strlit("\r\n");
    reveal_strlit("Content-Length: ");
    lemma_decimal_numeral(n);
    let l = "Content-Length: "@ + d;
    assert(framed(body) =~= l + "\r\n"@ + "\r\n"@ + body);
    assert(digit_value('\r') == 99 && digit_value('\n') == 99 && digit_value(' ') == 99
        && digit_value('+') == 99);
    assert(digit_value(d.last()) < 10);
    assert(l.last() == d.last());
    lemma_no_line_end(l);
    assert(after_prefix(l, "Content-Length: "@) == Some(d)) by {
        assert(l.skip("Content-Length: "@.len() as int) =~= d);
        assert(has_at(l, 0, "Content-Length: "@)) by {
            assert(l.subrange(0, "Content-Length: "@.len() as int) =~= "Content-Length: "@);
        }
    }
    assert(trim_spec(d) =~= d) by {
        assert(digit_value(d[0]) < 10);
        assert(!is_space(d[0]) && !is_space(d.last()));
        assert(run_end(d, 0, CharSet::Space) == 0);
        assert(d.skip(0) =~= d);
        assert(trimmed_end(d) == d.len());
    }
    let empty = Seq::<char>::empty();
    lemma_no_line_end(empty);
    assert(empty + "\r\n"@ =~= "\r\n"@);
}

/// What a document is opened or changed with is what later requests about it
/// are answered from.
pub proof fn law_last_text_is_used(
    docs: Map<Seq<char>, Seq<char>>,
    m: MessageView,
    request: MessageView,
)
    requires
        m.method == "textDocument/didOpen"@ || m.method == "textDocument/didChange"@,
        m.uri is Some,
        request.method == "textDocument/completion"@,
        request.uri == m.uri,
        request.line is Some,
    ensures
        ({
            let text = if m.method == "textDocument/didOpen"@ {
                or_empty(m.text)
            } else {
                or_empty(m.change)
            };
            handled(handled(docs, m).docs, request).reply == Some(
                ReplyView::Completions {
                    id: request.id,
                    items: completed(text, request.line->0 as int),
                },
            )
        }),
{
    reveal_strlit("initialize");
    reveal_strlit("initialized");
    reveal_strlit("shutdown");
    reveal_strlit("exit");
    reveal_strlit("textDocument/didOpen");
    reveal_strlit("textDocument/didChange");
    reveal_strlit("textDocument/didClose");
    reveal_strlit("textDocument/hover");
    reveal_strlit("textDocument/completion");
    assert("textDocument/didOpen"@.len() == 20 && "textDocument/didChange"@.len() == 22
        && "textDocument/didClose"@.len() == 21 && "textDocument/hover"@.len() == 18
        && "textDocument/completion"@.len() == 23);
}

/// A request that the server does not know is answered, under its identifier;
/// a notification is not.
pub proof fn law_unknown_requests_are_answered(docs: Map<Seq<char>, Seq<char>>, m: MessageView)
    requires
        m.method != "initialize"@,
        m.method != "initialized"@,
        m.method != "shutdown"@,
        m.method != "exit"@,
        m.method != "textDocument/didOpen"@,
        m.method != "textDocument/didChange"@,
        m.method != "textDocument/didClose"@,
        m.method != "textDocument/hover"@,
        m.method != "textDocument/completion"@,
    ensures
        handled(docs, m).docs == docs,
        !handled(docs, m).done,
        m.id is Some ==> handled(docs, m).reply == Some(ReplyView::Unknown { id: m.id }),
        m.id is None ==> handled(docs, m).reply is None,
{
}

} // verus!
