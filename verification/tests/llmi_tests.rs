use llmi::app::AppState;
use llmi::app::KeyAction;
use llmi::app::classify_key;
use llmi::bus::Event;
use llmi::bus::EventQueue;
use llmi::bus::KeyCode;
use llmi::bus::KeyInput;
use llmi::bus::TermInput;
use llmi::client::ClientLock;
use llmi::client::RequestSession;
use llmi::decoder::StreamCursor;
use llmi::decoder::StreamItem;
use llmi::json::Payload;
use llmi::json::parse_payload;
use llmi::llm::Choice;
use llmi::llm::LLMResponse;
use llmi::llm::Message;
use llmi::request::build_request_body;

fn bytes(s: &str) -> Vec<u8> {
    s.as_bytes().to_vec()
}

#[test]
fn llm_resolve_empty_delta() {
    let payload = r#"{"id":"chatcmpl-814de58f-d884-4f09-a0dd-276b02a04e41","object":"chat.completion.chunk","created":1711681319,"model":"mixtral-8x7b-32768","system_fingerprint":"fp_1cc6d039b0","choices":[{"index":0,"delta":{},"logprobs":null,"finish_reason":"stop"}],"x_groq":{"id":"req_01ht42gbv3ev59x93kqrkbstnr","usage":{"queue_time":0.060529005,"prompt_tokens":12,"prompt_time":0.005,"completion_tokens":164,"completion_time":0.289,"total_tokens":176,"total_time":0.294}}}"#;
    let msg = parse_payload(&bytes(payload));
    assert!(matches!(msg, Payload::Record { .. }), "msg: {:?}", msg);
    match msg {
        Payload::Record { message, delta, finish_reason } => {
            assert!(message.is_none());
            let d = delta.expect("delta present");
            assert!(d.role.is_none());
            assert!(d.content.is_none());
            assert_eq!(finish_reason, Some(bytes("stop")));
        },
        _ => unreachable!(),
    }
}

#[test]
fn llm_resolve_mid_delta() {
    let payload = r#"{"id":"chatcmpl-814de58f-d884-4f09-a0dd-276b02a04e41","object":"chat.completion.chunk","created":1711681319,"model":"mixtral-8x7b-32768","system_fingerprint":"fp_1cc6d039b0","choices":[{"index":0,"delta":{"content":" soft"},"logprobs":null,"finish_reason":null}]}"#;
    let msg = parse_payload(&bytes(payload));
    assert!(matches!(msg, Payload::Record { .. }), "msg: {:?}", msg);
    match msg {
        Payload::Record { message, delta, finish_reason } => {
            assert!(message.is_none());
            let d = delta.expect("delta present");
            assert_eq!(d.content, Some(bytes(" soft")));
            assert_eq!(finish_reason, None);
        },
        _ => unreachable!(),
    }
}

#[test]
fn payload_prefers_message_over_delta() {
    let payload = r#"{"choices":[{"index":0,"message":{"role":"assistant","content":"full"},"delta":{"content":"part"}}]}"#;
    match parse_payload(&bytes(payload)) {
        Payload::Record { message, delta, .. } => {
            let m = message.expect("message present");
            assert_eq!(m.role, Some(bytes("assistant")));
            assert_eq!(m.content, Some(bytes("full")));
            let d = delta.expect("delta present");
            assert_eq!(d.content, Some(bytes("part")));
        },
        other => panic!("unexpected: {:?}", other),
    }
}

#[test]
fn payload_zero_choices_is_violation_not_crash() {
    assert_eq!(parse_payload(&bytes(r#"{"choices":[]}"#)), Payload::NoChoices);
}

#[test]
fn payload_malformed_shapes() {
    assert_eq!(parse_payload(&bytes("{oops")), Payload::Malformed);
    assert_eq!(parse_payload(&bytes(r#"{"nope":1}"#)), Payload::Malformed);
    assert_eq!(parse_payload(&bytes(r#"{"choices":7}"#)), Payload::Malformed);
    assert_eq!(parse_payload(&bytes(r#"{"choices":[3]}"#)), Payload::Malformed);
    assert_eq!(parse_payload(&bytes(r#"{"choices":[{"message":"x"}]}"#)), Payload::Malformed);
    assert_eq!(parse_payload(&bytes("")), Payload::Malformed);
    assert_eq!(
        parse_payload(&bytes(r#"{"choices":[{"delta":{}}]} trailing"#)),
        Payload::Malformed
    );
}

#[test]
fn payload_unescapes_strings() {
    let payload = r#"{"choices":[{"delta":{"content":"a\"b\\c\nd"}}]}"#;
    match parse_payload(&bytes(payload)) {
        Payload::Record { delta, .. } => {
            let d = delta.expect("delta present");
            assert_eq!(d.content, Some(bytes("a\"b\\c\nd")));
        },
        other => panic!("unexpected: {:?}", other),
    }
}

#[test]
fn payload_decodes_unicode_escapes() {
    let payload = r#"{"choices":[{"delta":{"content":"\u0041\u00e9\u2603"}}]}"#;
    match parse_payload(&bytes(payload)) {
        Payload::Record { delta, .. } => {
            let d = delta.expect("delta present");
            assert_eq!(d.content, Some(bytes("A\u{e9}\u{2603}")));
        },
        other => panic!("unexpected: {:?}", other),
    }
}

#[test]
fn payload_refuses_surrogate_escape() {
    let payload = r#"{"choices":[{"delta":{"content":"\ud83d\ude00"}}]}"#;
    assert_eq!(parse_payload(&bytes(payload)), Payload::Malformed);
    let broken = r#"{"choices":[{"delta":{"content":"\uZZ00"}}]}"#;
    assert_eq!(parse_payload(&bytes(broken)), Payload::Malformed);
}

#[test]
fn decoder_split_inside_string_literal() {
    let mut cur = StreamCursor::new();
    let first = cur.feed(bytes("data: {\"choices\":[{\"delta\":{\"content\":\"Hel"));
    assert_eq!(first.len(), 0);
    let second = cur.feed(bytes("lo\"}}]}\ndata: [DONE]\n"));
    assert_eq!(second.len(), 2);
    match &second[0] {
        StreamItem::Fragment(f) => {
            assert_eq!(f.content, Some(bytes("Hello")));
            assert!(f.role.is_none());
        },
        other => panic!("unexpected: {:?}", other),
    }
    assert!(matches!(second[1], StreamItem::Done));
    assert_eq!(cur.buffered_len(), 0);
}

#[test]
fn decoder_chunk_boundary_invariance_concrete() {
    let full = bytes(
        "data: {\"choices\":[{\"delta\":{\"content\":\"ab\"}}]}\nnoise\ndata: [DONE]\ntail",
    );
    let mut one = StreamCursor::new();
    let expected = one.feed(full.clone());
    for cut in 0..=full.len() {
        let mut c = StreamCursor::new();
        let mut items = c.feed(full[..cut].to_vec());
        let more = c.feed(full[cut..].to_vec());
        items.extend(more);
        assert_eq!(items, expected, "cut at {}", cut);
        assert_eq!(c.buffered_len(), one.buffered_len());
    }
}

#[test]
fn decoder_scans_past_terminator() {
    let mut cur = StreamCursor::new();
    let items = cur.feed(bytes(
        "data: [DONE]\ndata: {\"choices\":[{\"delta\":{\"content\":\"late\"}}]}\n",
    ));
    assert_eq!(items.len(), 2);
    assert!(matches!(items[0], StreamItem::Done));
    assert!(matches!(items[1], StreamItem::Fragment(_)));
}

#[test]
fn decoder_requires_marker_prefix() {
    let mut cur = StreamCursor::new();
    let items = cur.feed(bytes("xdata: {\"choices\":[{\"delta\":{}}]}\ndat\n\n"));
    assert_eq!(items.len(), 0);
}

#[test]
fn session_success_framing() {
    let mut s = RequestSession::new();
    let opened = s.begin();
    assert_eq!(opened, vec![Event::LLMEventStart]);
    let on_ok = s.on_status(true);
    assert!(on_ok.is_empty());
    let evs = s.on_chunk(bytes(
        "data: {\"choices\":[{\"delta\":{\"content\":\"Hel\"}}]}\ndata: {\"choices\":[{\"delta\":{\"content\":\"lo\"}}]}\n",
    ));
    assert_eq!(evs.len(), 2);
    let done = s.finish();
    assert_eq!(done, vec![Event::LLMEventEnd]);
    let mut all = opened;
    all.extend(evs);
    all.extend(done);
    assert!(matches!(all[0], Event::LLMEventStart));
    assert!(matches!(all[all.len() - 1], Event::LLMEventEnd));
    for e in &all[1..all.len() - 1] {
        assert!(matches!(e, Event::LLMEventDelta(_)));
    }
}

#[test]
fn session_terminator_ends_exactly_once() {
    let mut s = RequestSession::new();
    let _ = s.begin();
    let _ = s.on_status(true);
    let evs = s.on_chunk(bytes(
        "data: [DONE]\ndata: {\"choices\":[{\"delta\":{\"content\":\"late\"}}]}\n",
    ));
    assert_eq!(evs, vec![Event::LLMEventEnd]);
    let done = s.finish();
    assert!(done.is_empty());
}

#[test]
fn session_error_status_ends_without_fragments() {
    let mut s = RequestSession::new();
    let opened = s.begin();
    assert_eq!(opened, vec![Event::LLMEventStart]);
    let evs = s.on_status(false);
    assert_eq!(evs, vec![Event::LLMEventEnd]);
}

#[test]
fn session_transport_failure_is_graceful() {
    let mut s = RequestSession::new();
    let _ = s.begin();
    let _ = s.on_status(true);
    let _ = s.on_chunk(bytes("data: {\"choices\":[{\"delta\":{\"content\":\"x\"}}]}\n"));
    let evs = s.fail("read failed".to_string());
    assert_eq!(evs.len(), 2);
    assert!(matches!(evs[0], Event::Notification(_)));
    assert!(matches!(evs[1], Event::LLMEventEnd));
}

#[test]
fn session_malformed_record_tolerance() {
    let mut s = RequestSession::new();
    let _ = s.begin();
    let _ = s.on_status(true);
    let evs = s.on_chunk(bytes(
        "data: {\"choices\":[{\"delta\":{\"content\":\"hi\"}}]}\ndata: {oops\ndata: [DONE]\n",
    ));
    assert_eq!(evs.len(), 2);
    match &evs[0] {
        Event::LLMEventDelta(m) => assert_eq!(m.content.as_deref(), Some("hi")),
        other => panic!("unexpected: {:?}", other),
    }
    assert!(matches!(evs[1], Event::LLMEventEnd));
}

#[test]
fn session_decodes_multibyte_content() {
    let mut s = RequestSession::new();
    let _ = s.begin();
    let _ = s.on_status(true);
    let evs = s.on_chunk(bytes(
        "data: {\"choices\":[{\"delta\":{\"role\":\"assistant\",\"content\":\"h\u{00e9}llo \u{2603}\"}}]}\n",
    ));
    assert_eq!(evs.len(), 1);
    match &evs[0] {
        Event::LLMEventDelta(m) => {
            assert_eq!(m.role.as_deref(), Some("assistant"));
            assert_eq!(m.content.as_deref(), Some("h\u{00e9}llo \u{2603}"));
        },
        other => panic!("unexpected: {:?}", other),
    }
}

#[test]
fn session_skips_invalid_utf8_content() {
    // a content string holding a byte that is not valid UTF-8: the record
    // decodes to a fragment, but no delta event may carry it
    let mut payload = bytes("data: {\"choices\":[{\"delta\":{\"content\":\"");
    payload.push(0xFF);
    payload.extend_from_slice("\"}}]}\ndata: [DONE]\n".as_bytes());
    let mut cur = StreamCursor::new();
    let items = cur.feed(payload.clone());
    assert_eq!(items.len(), 2);
    match &items[0] {
        StreamItem::Fragment(f) => assert_eq!(f.content, Some(vec![0xFF])),
        other => panic!("unexpected: {:?}", other),
    }
    let mut s = RequestSession::new();
    let _ = s.begin();
    let _ = s.on_status(true);
    let evs = s.on_chunk(payload);
    assert_eq!(evs, vec![Event::LLMEventEnd]);
}

#[test]
fn bus_delivers_in_publish_order_without_loss() {
    let key = |c: char| {
        Event::TermEvent(TermInput::Key(KeyInput {
            code: KeyCode::Char(c),
            ctrl: false,
            press: true,
        }))
    };
    let published = vec![
        key('a'),
        Event::TickEvent,
        key('b'),
        Event::TickEvent,
        Event::TickEvent,
        key('c'),
    ];
    let mut q = EventQueue::new();
    for e in published.clone() {
        q.send(e);
    }
    assert_eq!(q.len(), 6);
    let mut delivered = Vec::new();
    while let Some(e) = q.next() {
        delivered.push(e);
    }
    assert_eq!(delivered, published);
    let inputs: Vec<&Event> =
        delivered.iter().filter(|e| matches!(e, Event::TermEvent(_))).collect();
    let ticks: Vec<&Event> = delivered.iter().filter(|e| matches!(e, Event::TickEvent)).collect();
    assert_eq!(inputs.len() + ticks.len(), delivered.len());
    assert_eq!(inputs, vec![&key('a'), &key('b'), &key('c')]);
    assert_eq!(ticks.len(), 3);
}

#[test]
fn bus_send_all_appends_in_order() {
    let mut q = EventQueue::new();
    q.send(Event::TickEvent);
    q.send_all(vec![Event::LLMEventStart, Event::LLMEventEnd]);
    assert_eq!(q.next(), Some(Event::TickEvent));
    assert_eq!(q.next(), Some(Event::LLMEventStart));
    assert_eq!(q.next(), Some(Event::LLMEventEnd));
    assert_eq!(q.next(), None);
}

#[test]
fn client_lock_mutual_exclusion() {
    let mut lock = ClientLock::new();
    assert!(lock.try_acquire());
    assert!(!lock.try_acquire());
    assert!(!lock.try_acquire());
    lock.release();
    assert!(lock.try_acquire());
    lock.release();
}

#[test]
fn request_body_exact_shape() {
    let history = vec![Message::user("hi".to_string())];
    let body = build_request_body("mixtral-8x7b-32768", &history, "yo");
    assert_eq!(
        String::from_utf8(body).unwrap(),
        "{\"model\":\"mixtral-8x7b-32768\",\"stream\":true,\"max_tokens\":3000,\"messages\":[{\"role\":\"user\",\"content\":\"hi\"},{\"role\":\"user\",\"content\":\"yo\"}]}"
    );
}

#[test]
fn request_body_escapes_strings() {
    let history: Vec<Message> = Vec::new();
    let body = build_request_body("m", &history, "a\"b\\c\nd\te\u{1}");
    assert_eq!(
        String::from_utf8(body).unwrap(),
        "{\"model\":\"m\",\"stream\":true,\"max_tokens\":3000,\"messages\":[{\"role\":\"user\",\"content\":\"a\\\"b\\\\c\\nd\\te\\u0001\"}]}"
    );
}

#[test]
fn extract_message_prefers_whole_message() {
    let resp = LLMResponse {
        choices: vec![Choice {
            index: 0,
            message: Some(Message::assistant("full".to_string())),
            delta: Some(Message::assistant("part".to_string())),
            finish_reason: None,
        }],
    };
    assert_eq!(resp.extract_message().content.as_deref(), Some("full"));
    let resp2 = LLMResponse {
        choices: vec![Choice {
            index: 0,
            message: None,
            delta: Some(Message::assistant("part".to_string())),
            finish_reason: Some("stop".to_string()),
        }],
    };
    assert_eq!(resp2.extract_message().content.as_deref(), Some("part"));
}

#[test]
fn empty_response_has_no_choices() {
    let resp = LLMResponse::new();
    assert_eq!(resp.choices.len(), 0);
}

#[test]
fn len_by_columns_counts_wrapped_rows() {
    let m = Message::user("hello\nworld!!".to_string());
    assert_eq!(m.len_by_columns(3), 5);
    let empty = Message::user("".to_string());
    assert_eq!(empty.len_by_columns(3), 1);
    let trailing = Message::user("abc\n".to_string());
    assert_eq!(trailing.len_by_columns(80), 2);
}

#[test]
fn key_rules() {
    let ctrl = |c: char, press: bool| KeyInput { code: KeyCode::Char(c), ctrl: true, press };
    assert_eq!(classify_key(ctrl('c', true)), KeyAction::Quit);
    assert_eq!(classify_key(ctrl('c', false)), KeyAction::Insert);
    assert_eq!(classify_key(ctrl('j', true)), KeyAction::Submit);
    assert_eq!(classify_key(ctrl('j', false)), KeyAction::Submit);
    assert_eq!(
        classify_key(KeyInput { code: KeyCode::Char('a'), ctrl: false, press: true }),
        KeyAction::Insert
    );
    assert_eq!(
        classify_key(KeyInput { code: KeyCode::Other, ctrl: true, press: true }),
        KeyAction::Insert
    );
}

#[test]
fn app_state_accumulates_deltas_into_turn() {
    let mut st = AppState::new();
    st.apply_event(Event::LLMEventStart);
    st.apply_event(Event::LLMEventDelta(Message::assistant("Hel".to_string())));
    st.apply_event(Event::LLMEventDelta(Message::assistant("lo".to_string())));
    assert_eq!(st.current_message.as_deref(), Some("Hello"));
    st.apply_event(Event::LLMEventEnd);
    assert!(st.current_message.is_none());
    assert_eq!(st.messages.len(), 1);
    assert_eq!(st.messages[0].role.as_deref(), Some("assistant"));
    assert_eq!(st.messages[0].content.as_deref(), Some("Hello"));
    st.apply_event(Event::LLMEventEnd);
    assert_eq!(st.messages.len(), 1);
}

#[test]
fn app_state_delta_without_content_is_ignored() {
    let mut st = AppState::new();
    st.apply_event(Event::LLMEventDelta(Message { role: Some("assistant".to_string()), content: None }));
    assert!(st.current_message.is_none());
}

#[test]
fn app_state_notification_appends() {
    let mut st = AppState::new();
    st.apply_event(Event::Notification("ab".to_string()));
    assert_eq!(st.notification.as_deref(), Some("abab"));
    st.apply_event(Event::Notification("c".to_string()));
    assert_eq!(st.notification.as_deref(), Some("ababc"));
}

#[test]
fn app_state_submit_prompt() {
    let mut st = AppState::new();
    assert!(!st.submit_prompt(""));
    assert_eq!(st.messages.len(), 0);
    assert!(st.submit_prompt("question"));
    assert_eq!(st.messages.len(), 1);
    assert_eq!(st.messages[0].role.as_deref(), Some("user"));
    assert_eq!(st.messages[0].content.as_deref(), Some("question"));
}

#[test]
fn message_constructors() {
    let u = Message::user("q".to_string());
    assert_eq!(u.role.as_deref(), Some("user"));
    assert_eq!(u.content.as_deref(), Some("q"));
    let a = Message::assistant("r".to_string());
    assert_eq!(a.role.as_deref(), Some("assistant"));
    assert_eq!(a.content.as_deref(), Some("r"));
}
