//! The language server.

use serde_json::Value;
use trixie::config::lsp::{
    byte_to_lc, completions_at, diagnose, hover_at, key_docs, read_message, Completion, Message, Next,
    Reply, Server,
};
use trixie::config::wire::{encode, frame, read_header, Header, Served};

fn body(text: &str) -> Vec<u8> {
    text.as_bytes().to_vec()
}

fn sent(s: Served) -> Value {
    match s {
        Served::Send(t) => {
            let (head, json) = t.split_once("\r\n\r\n").unwrap();
            assert_eq!(head, format!("Content-Length: {}", json.len()));
            serde_json::from_str(json).unwrap()
        }
        other => panic!("{:?}", other),
    }
}

#[test]
fn headers_are_read() {
    assert_eq!(read_header("Content-Length: 12\r\n", 0), Header::More(12));
    assert_eq!(read_header("Content-Type: x\r\n", 12), Header::More(12));
    assert_eq!(read_header("\r\n", 12), Header::Body(12));
    assert_eq!(read_header("", 0), Header::NoLength);
    assert_eq!(read_header("Content-Length: -3\r\n", 0), Header::BadLength);
    assert_eq!(read_header("Content-Length:  7 \n", 0), Header::More(7));
    assert_eq!(frame("a–b"), "Content-Length: 5\r\n\r\na–b");
}

#[test]
fn places_are_counted_in_bytes() {
    assert_eq!(byte_to_lc("ab\ncd", 0), (0, 0));
    assert_eq!(byte_to_lc("ab\ncd", 4), (1, 1));
    assert_eq!(byte_to_lc("ab\ncd", 99), (1, 2));
    assert_eq!(byte_to_lc("é\nx", 3), (1, 0));
}

#[test]
fn errors_become_diagnostics() {
    let d = diagnose("gap = 1px\nactive_border = $nope\n");
    assert_eq!(d.len(), 1);
    assert_eq!(d[0].start, (1, 16));
    assert_eq!(d[0].end, (1, 21));
    assert_eq!(d[0].message, "undefined variable '$nope'");
    assert!(diagnose("gap = 1px").is_empty());
}

#[test]
fn keys_have_documentation() {
    assert_eq!(key_docs().len(), 15);
    assert!(hover_at("gap = 4px", 0).unwrap().starts_with("Gap between tiled panes"));
    assert!(hover_at("x\n  bind super = a", 1).is_none());
    assert!(hover_at("some layout = bsp", 0).unwrap().starts_with("Default tiling layout"));
    assert!(hover_at("gap = 4px", 7).is_none());
}

#[test]
fn keys_and_values_are_proposed() {
    assert_eq!(completions_at("", 0).len(), 15);
    let v = completions_at("layout = ", 0);
    assert_eq!(v.len(), 5);
    assert!(matches!(v[0], Completion::Value { label: "bsp" }));
    assert!(matches!(completions_at("bar_position =", 0)[1], Completion::Value { label: "bottom" }));
    assert!(completions_at("gap = ", 0).is_empty());
    assert!(matches!(completions_at("ga", 0)[2], Completion::Key { label: "gap", .. }));
}

#[test]
fn messages_are_read() {
    let m = read_message(&body(
        "{\"jsonrpc\":\"2.0\",\"id\":7,\"method\":\"textDocument/hover\",\"params\":{\"textDocument\":\
         {\"uri\":\"file:///a\"},\"position\":{\"line\":3,\"character\":1}}}",
    ))
    .unwrap();
    assert_eq!(m.method, "textDocument/hover");
    assert_eq!(m.id.as_deref(), Some("7"));
    assert_eq!(m.uri.as_deref(), Some("file:///a"));
    assert_eq!(m.line, Some(3));
    assert!(m.text.is_none() && m.change.is_none());
    let m = read_message(&body(
        "{\"method\":\"x\",\"params\":{\"contentChanges\":[{\"text\":\"new\"}]}}",
    ))
    .unwrap();
    assert_eq!(m.change.as_deref(), Some("new"));
    assert!(read_message(b"{").is_none());
    assert_eq!(read_message(b"[1]").unwrap().method, "");
}

#[test]
fn a_session_is_served() {
    let mut s = Server::new("0.1.0");
    let v = sent(s.serve(b"{\"id\":1,\"method\":\"initialize\"}"));
    assert_eq!(v["id"], 1);
    assert_eq!(v["jsonrpc"], "2.0");
    assert_eq!(v["result"]["capabilities"]["hoverProvider"], true);
    assert_eq!(v["result"]["capabilities"]["textDocumentSync"], 1);
    assert_eq!(v["result"]["capabilities"]["completionProvider"]["triggerCharacters"][1], " ");
    assert_eq!(v["result"]["serverInfo"]["name"], "trixie-lsp");
    assert_eq!(v["result"]["serverInfo"]["version"], "0.1.0");
    assert!(matches!(s.serve(b"{\"method\":\"initialized\"}"), Served::Quiet));

    let open = b"{\"method\":\"textDocument/didOpen\",\"params\":{\"textDocument\":{\"uri\":\"u\",\
        \"text\":\"gap = $x\"}}}";
    let v = sent(s.serve(open));
    assert_eq!(v["method"], "textDocument/publishDiagnostics");
    assert_eq!(v["params"]["uri"], "u");
    let d = &v["params"]["diagnostics"][0];
    assert_eq!(d["message"], "undefined variable '$x'");
    assert_eq!(d["severity"], 1);
    assert_eq!(d["source"], "trixie");
    assert_eq!(d["range"]["start"]["line"], 0);
    assert_eq!(d["range"]["start"]["character"], 6);
    assert_eq!(d["range"]["end"]["character"], 8);

    let hover = b"{\"id\":\"h\",\"method\":\"textDocument/hover\",\"params\":{\"textDocument\":{\"uri\":\
        \"u\"},\"position\":{\"line\":0,\"character\":0}}}";
    let v = sent(s.serve(hover));
    assert_eq!(v["id"], "h");
    assert_eq!(v["result"]["contents"]["kind"], "markdown");
    assert!(v["result"]["contents"]["value"].as_str().unwrap().starts_with("Gap between"));

    let change = b"{\"method\":\"textDocument/didChange\",\"params\":{\"textDocument\":{\"uri\":\"u\"},\
        \"contentChanges\":[{\"text\":\"layout = \"}]}}";
    sent(s.serve(change));
    let complete = b"{\"id\":3,\"method\":\"textDocument/completion\",\"params\":{\"textDocument\":\
        {\"uri\":\"u\"},\"position\":{\"line\":0}}}";
    let v = sent(s.serve(complete));
    assert_eq!(v["result"]["items"].as_array().unwrap().len(), 5);
    assert_eq!(v["result"]["items"][0]["label"], "bsp");
    assert_eq!(v["result"]["items"][0]["kind"], 12);

    let close = b"{\"method\":\"textDocument/didClose\",\"params\":{\"textDocument\":{\"uri\":\"u\"}}}";
    let v = sent(s.serve(close));
    assert_eq!(v["params"]["diagnostics"], Value::Array(vec![]));
    let v = sent(s.serve(complete));
    assert_eq!(v["result"]["items"].as_array().unwrap().len(), 15);
    assert_eq!(v["result"]["items"][0]["documentation"]["kind"], "markdown");
    let v = sent(s.serve(hover));
    assert_eq!(v["result"], Value::Null);

    let v = sent(s.serve(b"{\"id\":9,\"method\":\"dance\"}"));
    assert_eq!(v["error"]["code"], -32601);
    assert_eq!(v["error"]["message"], "Method not found");
    assert!(matches!(s.serve(b"{\"method\":\"dance\"}"), Served::Quiet));
    let v = sent(s.serve(b"{\"id\":10,\"method\":\"shutdown\"}"));
    assert_eq!(v["result"], Value::Null);
    assert!(matches!(s.serve(b"{\"method\":\"exit\"}"), Served::Exit));
    assert!(matches!(s.serve(b"no json"), Served::Unreadable));
}

#[test]
fn notifications_without_a_document_are_dropped() {
    let mut s = Server::new("1");
    let m = Message {
        method: "textDocument/didOpen".to_string(),
        id: None,
        uri: None,
        text: Some("x".to_string()),
        change: None,
        line: None,
    };
    assert!(matches!(s.handle(&m), Next::Nothing));
}

#[test]
fn replies_are_written() {
    let text = encode(&Reply::Done { id: None }, "1");
    let v: Value = serde_json::from_str(&text).unwrap();
    assert_eq!(v["id"], Value::Null);
    assert_eq!(v["result"], Value::Null);
    assert_eq!(text, "{\"id\":null,\"jsonrpc\":\"2.0\",\"result\":null}");
}
