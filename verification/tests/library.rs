use couscous::chat::{relay_token, Handler, HandlerError, RelayAction};
use couscous::driver::{Driver, DriverError, Kalosm, LoadStep, NewSession, Ollama, SupportedDriver};
use couscous::env::Variables;
use couscous::history::{ChatsHistory, HistoryError, HistoryRead};
use couscous::registry::ChatRegistry;
use couscous::session::{LocalEvent, LocalSession, RemoteEvent, RemoteSession, SessionAction};
use couscous::signal::{chat_end_signal, is_end_signal, DEFAULT_CHANNEL_BUFFER};

fn pairs(items: &[(&str, &str)]) -> Vec<(String, String)> {
    items.iter().map(|(k, v)| (k.to_string(), v.to_string())).collect()
}

fn sent(actions: &[SessionAction]) -> Vec<String> {
    actions
        .iter()
        .filter_map(|a| match a {
            SessionAction::Send(t) => Some(t.clone()),
            _ => None,
        })
        .collect()
}

fn relay_all(tokens: Vec<String>) -> Vec<String> {
    let mut out = Vec::new();
    for t in tokens {
        match relay_token(t) {
            RelayAction::Forward(t) => out.push(t),
            RelayAction::Finish => break,
        }
    }
    out
}

fn is_v4_text(s: &str) -> bool {
    let b = s.as_bytes();
    b.len() == 36
        && b.iter().enumerate().all(|(i, c)| {
            if [8, 13, 18, 23].contains(&i) {
                *c == b'-'
            } else {
                c.is_ascii_digit() || (b'a'..=b'f').contains(c)
            }
        })
        && b[14] == b'4'
        && [b'8', b'9', b'a', b'b'].contains(&b[19])
}

#[test]
fn default_variables() {
    let v = Variables::default();
    assert_eq!(v.ollama_host, "http://localhost");
    assert_eq!(v.ollama_port, "11434");
    assert_eq!(v.grpc_address, "127.0.0.1:50051");
}

#[test]
fn env_names_are_matched_in_any_case() {
    let v = Variables::from_env_pairs(pairs(&[
        ("OLLAMA_HOST", "https://pod-11434.proxy.runpod.net/"),
        ("Ollama_Port", "443"),
        ("GRPC_SERVER_ADDRESS", "127.0.0.1:50051"),
        ("PATH", "/usr/bin"),
    ]));
    assert_eq!(v.ollama_host, "https://pod-11434.proxy.runpod.net/");
    assert_eq!(v.ollama_port, "443");
    assert_eq!(v.grpc_address, "127.0.0.1:50051");
}

#[test]
fn later_env_variable_wins() {
    let v = Variables::from_env_pairs(pairs(&[("ollama_port", "1"), ("OLLAMA_PORT", "2")]));
    assert_eq!(v.ollama_port, "2");
    assert_eq!(v.ollama_host, "http://localhost");
}

#[test]
fn unknown_env_variables_leave_defaults() {
    let v = Variables::from_env_pairs(pairs(&[("grpc_address", "x"), ("HOME", "/root")]));
    assert_eq!(v.grpc_address, "127.0.0.1:50051");
    let mut w = Variables::default();
    w.apply("grpc_server_address", "0.0.0.0:1".to_string());
    assert_eq!(w.grpc_address, "0.0.0.0:1");
    w.apply("GRPC_SERVER_ADDRESS", "ignored".to_string());
    assert_eq!(w.grpc_address, "0.0.0.0:1");
}

#[test]
fn registry_insert_replaces_and_finds() {
    let mut r: ChatRegistry<u32> = ChatRegistry::new();
    assert_eq!(r.len(), 0);
    assert_eq!(r.insert("a".to_string(), 1), None);
    assert_eq!(r.insert("b".to_string(), 2), None);
    assert_eq!(r.insert("a".to_string(), 3), Some(1));
    assert_eq!(r.len(), 2);
    assert!(r.contains("a"));
    assert!(!r.contains("c"));
    *r.get_mut("b").unwrap() += 10;
    assert_eq!(r.get_mut("b").copied(), Some(12));
    assert_eq!(r.get_mut("a").copied(), Some(3));
    assert!(r.get_mut("c").is_none());
}

#[test]
fn registry_from_entries_last_wins() {
    let mut r = ChatRegistry::from_entries(vec![
        ("x".to_string(), 1u32),
        ("y".to_string(), 2),
        ("x".to_string(), 3),
    ]);
    assert_eq!(r.len(), 2);
    assert_eq!(r.get_mut("x").copied(), Some(3));
    assert_eq!(r.get_mut("y").copied(), Some(2));
}

#[test]
fn history_json_shape() {
    let mut h = ChatsHistory::default();
    assert_eq!(h.to_json().unwrap(), "{\"uids\":[]}");
    h.record("4f17ed18-b34d-43bf-b865-1db64ab926b9".to_string());
    h.record("a\"b".to_string());
    assert_eq!(
        h.to_json().unwrap(),
        "{\"uids\":[\"4f17ed18-b34d-43bf-b865-1db64ab926b9\",\"a\\\"b\"]}"
    );
    let back: serde_json::Value = serde_json::from_str(&h.to_json().unwrap()).unwrap();
    assert_eq!(back["uids"][1], "a\"b");
}

#[test]
fn history_from_read_outcomes() {
    assert!(ChatsHistory::from_read(HistoryRead::Missing).unwrap().uids.is_empty());
    let h = ChatsHistory { uids: vec!["u".to_string()] };
    assert_eq!(ChatsHistory::from_read(HistoryRead::Decoded(h)).unwrap().uids, vec!["u".to_string()]);
    let e = ChatsHistory::from_read(HistoryRead::Unreadable).err().unwrap();
    assert!(matches!(e, HistoryError::Unreadable));
    assert_eq!(e.message(), "Unable to load the history");
    let e = ChatsHistory::from_read(HistoryRead::Malformed("bad json".to_string())).err().unwrap();
    assert_eq!(e.message(), "bad json");
}

#[test]
fn handler_new_chat_records_and_saves() {
    let mut h: Handler<u32> = Handler::new();
    assert_eq!(h.stored_chats_path(), "./chats.json");
    let text = h.new_chat("one".to_string(), 1).unwrap();
    assert_eq!(text, "{\"uids\":[\"one\"]}");
    let text = h.new_chat("two".to_string(), 2).unwrap();
    assert_eq!(text, "{\"uids\":[\"one\",\"two\"]}");
    assert_eq!(h.chat_mut("one").ok().copied(), Some(1));
    assert_eq!(h.chat_mut("two").ok().copied(), Some(2));
}

#[test]
fn handler_unknown_chat_is_refused() {
    let mut h: Handler<u32> = Handler::new();
    let e = h.chat_mut("nope").err().unwrap();
    assert!(matches!(e, HandlerError::UnknownChat));
    assert_eq!(e.message(), "Unable to get the lock");
}

#[test]
fn handler_load_keeps_restored_chats_listed() {
    let mut h: Handler<u32> = Handler::new();
    let restored = ChatRegistry::from_entries(vec![("old".to_string(), 7u32)]);
    h.load(restored, ChatsHistory { uids: vec!["old".to_string()] });
    assert_eq!(h.chat_mut("old").ok().copied(), Some(7));
    // The history written after a restart lists the restored chats and the new one.
    assert_eq!(h.new_chat("new".to_string(), 8).unwrap(), "{\"uids\":[\"old\",\"new\"]}");
    assert_eq!(h.chat_mut("old").ok().copied(), Some(7));
    assert_eq!(h.chat_mut("new").ok().copied(), Some(8));
}

#[test]
fn relay_stops_at_end_signal() {
    assert!(matches!(relay_token("<<end>>".to_string()), RelayAction::Finish));
    match relay_token("hello".to_string()) {
        RelayAction::Forward(t) => assert_eq!(t, "hello"),
        RelayAction::Finish => panic!("forwarded text expected"),
    }
    let out = relay_all(vec!["a".into(), "b".into(), "<<end>>".into(), "c".into()]);
    assert_eq!(out, vec!["a".to_string(), "b".to_string()]);
    let out = relay_all(vec!["a".into(), "<end>".into()]);
    assert_eq!(out, vec!["a".to_string(), "<end>".to_string()]);
}

#[test]
fn end_signal_text() {
    assert_eq!(chat_end_signal(), "<<end>>");
    assert!(is_end_signal("<<end>>"));
    assert!(!is_end_signal("<<END>>"));
    assert_eq!(DEFAULT_CHANNEL_BUFFER, 1000);
}

#[test]
fn local_session_turn() {
    let mut s = LocalSession::new("u".to_string(), "./u.llama".to_string(), None);
    let mut actions = Vec::new();
    actions.extend(s.step(LocalEvent::Message("hi".to_string())));
    actions.extend(s.step(LocalEvent::Token("Hel".to_string())));
    actions.extend(s.step(LocalEvent::Token("lo".to_string())));
    actions.extend(s.step(LocalEvent::StreamEnd));
    assert!(matches!(&actions[0], SessionAction::Generate(m) if m == "hi"));
    assert!(matches!(&actions[3], SessionAction::Save(p) if p == "./u.llama"));
    let texts = sent(&actions);
    assert_eq!(texts, vec!["Hel".to_string(), "lo".to_string(), "<<end>>".to_string()]);
    assert_eq!(relay_all(texts), vec!["Hel".to_string(), "lo".to_string()]);
    // Out-of-place events are ignored.
    assert!(s.step(LocalEvent::Token("x".to_string())).is_empty());
    assert!(s.step(LocalEvent::StreamEnd).is_empty());
}

#[test]
fn remote_session_turn() {
    let mut s = RemoteSession::new("1".to_string(), "llama3.1:latest".to_string());
    let mut actions = Vec::new();
    actions.extend(s.step(RemoteEvent::Message("hi".to_string())));
    actions.extend(s.step(RemoteEvent::Item { content: Some("Hel".to_string()), done: false }));
    actions.extend(s.step(RemoteEvent::ItemFailed));
    actions.extend(s.step(RemoteEvent::Item { content: None, done: false }));
    actions.extend(s.step(RemoteEvent::Item { content: Some("lo".to_string()), done: true }));
    actions.extend(s.step(RemoteEvent::StreamEnd));
    assert!(matches!(&actions[0], SessionAction::Generate(m) if m == "hi"));
    assert_eq!(
        sent(&actions),
        vec!["Hel".to_string(), "<<end>>".to_string(), "lo".to_string(), "<<end>>".to_string()]
    );
    assert!(!s.is_stopped());
    assert_eq!(s.uid_text(), "1");
    assert_eq!(s.model_name_text(), "llama3.1:latest");
}

#[test]
fn remote_session_stops_when_request_fails() {
    let mut s = RemoteSession::new("1".to_string(), "m".to_string());
    s.step(RemoteEvent::Message("hi".to_string()));
    let a = s.step(RemoteEvent::RequestFailed);
    assert_eq!(sent(&a), vec!["<<end>>".to_string()]);
    assert!(s.is_stopped());
    assert!(s.step(RemoteEvent::Message("again".to_string())).is_empty());
}

#[test]
fn supported_driver_default_is_kalosm() {
    assert_eq!(SupportedDriver::default(), SupportedDriver::Kalosm);
}

#[test]
fn driver_error_messages() {
    assert_eq!(DriverError::ModelLoad("boom".into()).message(), "Error while loading the model boom");
    assert_eq!(DriverError::Deserialize("bad".into()).message(), "Unable to deserialize message bad");
}

#[test]
fn kalosm_model_loading() {
    let mut k: Kalosm<u8> = Kalosm::default();
    assert!(!k.is_loaded());
    let e = k.set_model(Err("no weights".to_string())).err().unwrap();
    assert!(matches!(e, DriverError::ModelLoad(ref t) if t == "no weights"));
    assert!(!k.is_loaded());
    assert!(k.set_model(Ok(5)).is_ok());
    assert_eq!(k.loaded_model().copied(), Some(5));
}

#[test]
fn kalosm_new_chat_has_random_uuid() {
    let mut k: Kalosm<u8> = Kalosm::default();
    k.set_model(Ok(1)).unwrap();
    let a = k.new_chat();
    let b = k.new_chat();
    assert!(is_v4_text(&a.uid_text()));
    assert!(is_v4_text(&b.uid_text()));
    assert_ne!(a.uid_text(), b.uid_text());
    assert_eq!(a.save_path_text(), format!("./{}.llama", a.uid_text()));
    assert_eq!(a.restore_path(), None);
}

#[test]
fn kalosm_load_history() {
    let mut k: Kalosm<u8> = Kalosm::default();
    k.set_model(Ok(1)).unwrap();
    let h = ChatsHistory { uids: vec!["a".to_string(), "b".to_string()] };
    let sessions = k.load_history(Ok(h)).unwrap();
    assert_eq!(sessions.len(), 2);
    assert_eq!(sessions[1].uid_text(), "b");
    assert_eq!(sessions[1].save_path_text(), "./b.llama");
    assert_eq!(sessions[1].restore_path(), Some("./b.llama".to_string()));
    let e = k.load_history(Err(HistoryError::Unreadable)).err().unwrap();
    assert!(matches!(e, DriverError::Deserialize(ref t) if t == "Unable to load the history"));
}

#[test]
fn ollama_port_parsing() {
    let mut o = Ollama::default();
    assert_eq!(o.host_text(), "http://127.0.0.1");
    assert_eq!(o.port_number(), 11434);
    let mut v = Variables::default();
    v.ollama_host = "https://example.org/".to_string();
    v.ollama_port = "443".to_string();
    o.set_model(v.clone());
    assert_eq!(o.host_text(), "https://example.org/");
    assert_eq!(o.port_number(), 443);
    for (text, port) in [("+8080", 8080), ("007", 7), ("65535", 65535), ("65536", 11434), ("", 11434), ("+", 11434), ("-1", 11434), (" 80", 11434), ("8o", 11434)] {
        v.ollama_port = text.to_string();
        o.set_model(v.clone());
        assert_eq!(o.port_number(), port, "port text {:?}", text);
    }
}

#[test]
fn ollama_new_chat_has_random_uuid() {
    let o = Ollama::default();
    let a = o.new_chat();
    let b = o.new_chat();
    assert!(is_v4_text(&a.uid_text()));
    assert!(is_v4_text(&b.uid_text()));
    assert_ne!(a.uid_text(), b.uid_text());
    assert_eq!(a.model_name_text(), "llama3.1:latest");
}

#[test]
fn driver_selection() {
    let mut d: Driver<u8> = Driver::default();
    assert_eq!(d.get_driver(), SupportedDriver::Kalosm);
    assert_eq!(d.load_driver(SupportedDriver::Kalosm, None), LoadStep::LoadLocalModel);
    assert!(d.install_local_model(Ok(3)).is_ok());
    assert!(matches!(d.new_chat(), NewSession::Local(_)));
    let mut v = Variables::default();
    v.ollama_port = "1234".to_string();
    assert_eq!(d.load_driver(SupportedDriver::Ollama, Some(v)), LoadStep::Ready);
    assert_eq!(d.get_driver(), SupportedDriver::Ollama);
    assert_eq!(d.ollama_backend().port_number(), 1234);
    assert_eq!(d.ollama_backend().host_text(), "http://localhost");
    assert!(matches!(d.new_chat(), NewSession::Remote(_)));
    assert!(d.kalosm_backend().is_loaded());
    let mut e: Driver<u8> = Driver::default();
    e.load_driver(SupportedDriver::Ollama, None);
    assert_eq!(e.ollama_backend().host_text(), "http://localhost");
    assert_eq!(e.ollama_backend().port_number(), 11434);
}

#[test]
fn kalosm_history_error_needs_no_model() {
    let k: Kalosm<u8> = Kalosm::default();
    let e = k.load_history(Err(HistoryError::Malformed("expected value".to_string()))).err().unwrap();
    assert_eq!(e.message(), "Unable to deserialize message expected value");
}

#[test]
fn handler_history_file_path() {
    assert_eq!(couscous::chat::history_file_path(), "./chats.json");
}

#[test]
fn ollama_port_reads_as_std_parse() {
    let mut o = Ollama::default();
    let mut v = Variables::default();
    for text in ["0", "+0", "00065535", "65535", "65536", "99999999999", "++1", "+-1", "1_000", "٣", "12a", "", "\u{e9}1", "443 "] {
        v.ollama_port = text.to_string();
        o.set_model(v.clone());
        assert_eq!(o.port_number(), text.parse::<u16>().unwrap_or(11434), "port text {:?}", text);
    }
}

#[test]
fn history_json_matches_serde_escaping() {
    let uids = vec![
        "plain".to_string(),
        "quote\" and \\ backslash".to_string(),
        "\u{8}\t\n\u{c}\r\u{1}\u{1f}\u{7f}".to_string(),
        "caf\u{e9} \u{1f600} /".to_string(),
    ];
    let h = ChatsHistory { uids: uids.clone() };
    let expected = format!("{{\"uids\":{}}}", serde_json::to_string(&uids).unwrap());
    assert_eq!(h.to_json().unwrap(), expected);
    assert_eq!(
        ChatsHistory { uids: vec!["\u{1}\t".to_string()] }.to_json().unwrap(),
        "{\"uids\":[\"\\u0001\\t\"]}"
    );
}

#[test]
fn ollama_load_history() {
    let o = Ollama::default();
    let h = ChatsHistory { uids: vec!["a".to_string(), "b".to_string()] };
    let sessions = o.load_history(Ok(h)).unwrap();
    assert_eq!(sessions.len(), 2);
    assert_eq!(sessions[0].uid_text(), "a");
    assert_eq!(sessions[1].uid_text(), "b");
    assert_eq!(sessions[1].model_name_text(), "llama3.1:latest");
    assert!(!sessions[1].is_stopped());
    let e = o.load_history(Err(HistoryError::Unreadable)).err().unwrap();
    assert!(matches!(e, DriverError::Deserialize(ref t) if t == "Unable to load the history"));
}

#[test]
fn local_session_two_turns() {
    let mut s = LocalSession::new("u".to_string(), "./u.llama".to_string(), None);
    let mut actions = Vec::new();
    for (msg, tokens) in [("one", vec!["a", "b"]), ("two", vec!["c"])] {
        actions.extend(s.step(LocalEvent::Message(msg.to_string())));
        for t in tokens {
            actions.extend(s.step(LocalEvent::Token(t.to_string())));
        }
        actions.extend(s.step(LocalEvent::StreamEnd));
    }
    assert_eq!(sent(&actions), vec!["a", "b", "<<end>>", "c", "<<end>>"]);
}
