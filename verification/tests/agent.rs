use gader::agent::{
    handshake_reply, history_packet, same_ignoring_ascii_case, secret_matches, step_for_parsed,
    watch_step, ClientEvent, ClientSession, ClientStep, WatchEvent, WatchStep, BATCH_SIZE,
};
use gader::common::{handshake_accepted, LogEntry, NetworkPacket};
use gader::history::History;
use gader::parsers::{LineParser, LogParser};
use gader::tofu::{tofu_decision, PinDecision};

fn entry(service: &str, message: &str) -> LogEntry {
    LogEntry {
        service: service.to_string(),
        timestamp: "ts".to_string(),
        level: "INFO".to_string(),
        context: "ctx".to_string(),
        message: message.to_string(),
    }
}

#[test]
fn secret_comparison() {
    assert!(secret_matches("s3cret", "s3cret"));
    assert!(!secret_matches("s3cret", "s3cre"));
    assert!(!secret_matches("S3cret", "s3cret"));
    assert!(secret_matches("", ""));
}

#[test]
fn handshake_replies() {
    assert_eq!(handshake_reply(None, "pw"), None);
    assert_eq!(handshake_reply(Some(None), "pw"), Some(false));
    assert_eq!(
        handshake_reply(Some(Some(NetworkPacket::HandshakeAck { accepted: true })), "pw"),
        Some(false)
    );
    assert_eq!(
        handshake_reply(
            Some(Some(NetworkPacket::Handshake { secret_token: "nope".to_string() })),
            "pw"
        ),
        Some(false)
    );
    assert_eq!(
        handshake_reply(
            Some(Some(NetworkPacket::Handshake { secret_token: "pw".to_string() })),
            "pw"
        ),
        Some(true)
    );
}

#[test]
fn history_is_sent_only_when_present() {
    assert_eq!(history_packet(vec![]), None);
    let h = vec![entry("a", "1"), entry("b", "2")];
    assert_eq!(history_packet(h.clone()), Some(NetworkPacket::Batch(h)));
}

#[test]
fn full_batch_is_sent_on_the_tenth_entry() {
    let mut s = ClientSession::new();
    for i in 0..(BATCH_SIZE - 1) {
        assert_eq!(s.on_log(entry("a", &i.to_string())), None);
    }
    let out = s.on_log(entry("a", "last")).expect("full batch");
    assert_eq!(out.len(), BATCH_SIZE);
    assert_eq!(out[0].message, "0");
    assert_eq!(out[9].message, "last");
    assert!(s.batch.is_empty());
    assert_eq!(s.on_tick(), None);
}

#[test]
fn tick_flushes_partial_batch() {
    let mut s = ClientSession::new();
    s.on_log(entry("a", "1"));
    s.on_log(entry("b", "2"));
    let out = s.on_tick().expect("pending entries");
    assert_eq!(out.len(), 2);
    assert_eq!(out[1].message, "2");
    assert_eq!(s.on_tick(), None);
}

#[test]
fn filter_ignores_ascii_case_and_drops_pending() {
    let mut s = ClientSession::new();
    s.on_log(entry("immich", "x"));
    s.on_packet(Some(NetworkPacket::UpdateFilter { service: Some("IMMICH".to_string()) }));
    assert!(s.batch.is_empty());
    assert_eq!(s.filter, Some("IMMICH".to_string()));
    assert_eq!(s.on_log(entry("vaultwarden", "no")), None);
    s.on_log(entry("Immich", "yes"));
    let out = s.on_tick().expect("one entry");
    assert_eq!(out.len(), 1);
    assert_eq!(out[0].message, "yes");
    s.on_packet(Some(NetworkPacket::UpdateFilter { service: None }));
    assert_eq!(s.filter, None);
    s.on_log(entry("vaultwarden", "now"));
    assert_eq!(s.on_tick().map(|b| b.len()), Some(1));
}

#[test]
fn other_packets_leave_the_session_alone() {
    let mut s = ClientSession::new();
    s.on_log(entry("a", "1"));
    s.on_packet(None);
    s.on_packet(Some(NetworkPacket::HandshakeAck { accepted: true }));
    assert_eq!(s.batch.len(), 1);
    assert_eq!(s.filter, None);
}

struct PrefixParser;

impl LogParser for PrefixParser {
    fn parse(&self, line: &str) -> Option<LogEntry> {
        line.strip_prefix("LOG ").map(|m| entry("svc", m))
    }
}

#[test]
fn watcher_steps() {
    let p = PrefixParser;
    match watch_step(&p, WatchEvent::Line("LOG hi".to_string())) {
        WatchStep::Forward(e) => assert_eq!(e.message, "hi"),
        _ => panic!("expected an entry"),
    }
    assert!(matches!(watch_step(&p, WatchEvent::Line("junk".to_string())), WatchStep::Skip));
    assert!(matches!(watch_step(&p, WatchEvent::StreamError), WatchStep::Skip));
    assert!(matches!(watch_step(&p, WatchEvent::StreamEnded), WatchStep::Reconnect));
    assert!(matches!(watch_step(&p, WatchEvent::Cancelled), WatchStep::Stop));
    assert!(matches!(step_for_parsed(None), WatchStep::Skip));
}

#[test]
fn trust_on_first_use() {
    let cert = [1u8, 2, 3];
    assert_eq!(tofu_decision(&cert, None), PinDecision::Pin);
    assert_eq!(tofu_decision(&cert, Some(&[1u8, 2, 3][..])), PinDecision::Accept);
    assert_eq!(tofu_decision(&cert, Some(&[1u8, 2][..])), PinDecision::Reject);
    assert_eq!(tofu_decision(&cert, Some(&[1u8, 2, 4][..])), PinDecision::Reject);
}

#[test]
fn history_keeps_the_newest_entries() {
    let mut h = History::new(3);
    assert!(h.get_snapshot().is_empty());
    for i in 0..5 {
        h.add_log(entry("a", &i.to_string()));
    }
    let msgs: Vec<String> = h.get_snapshot().into_iter().map(|e| e.message).collect();
    assert_eq!(msgs, vec!["2".to_string(), "3".to_string(), "4".to_string()]);

    let mut none = History::new(0);
    none.add_log(entry("a", "x"));
    assert!(none.get_snapshot().is_empty());
}

#[test]
fn line_parser_takes_non_blank_lines() {
    let p = LineParser { service: "immich".to_string() };
    assert_eq!(p.parse("   \n"), None);
    let e = p.parse("  started server\n").expect("an entry");
    assert_eq!(e.service, "immich");
    assert_eq!(e.message, "started server");
    assert_eq!(e.level, "");
    assert_eq!(e.timestamp, "");
    assert_eq!(e.context, "");
}

#[test]
fn entries_reach_a_viewer_in_order_without_loss() {
    let mut s = ClientSession::new();
    s.on_packet(Some(NetworkPacket::UpdateFilter { service: Some("keep".to_string()) }));
    let mut sent: Vec<String> = Vec::new();
    let mut expected: Vec<String> = Vec::new();
    for i in 0..37 {
        let service = if i % 3 == 0 { "other" } else { "KEEP" };
        let msg = i.to_string();
        if service == "KEEP" {
            expected.push(msg.clone());
        }
        if let Some(batch) = s.on_log(entry(service, &msg)) {
            assert_eq!(batch.len(), BATCH_SIZE);
            sent.extend(batch.into_iter().map(|e| e.message));
        }
    }
    sent.extend(s.batch.iter().map(|e| e.message.clone()));
    assert_eq!(sent, expected);
}

#[test]
fn viewer_goes_on_only_after_an_accepting_ack() {
    assert!(handshake_accepted(Some(NetworkPacket::HandshakeAck { accepted: true })));
    assert!(!handshake_accepted(Some(NetworkPacket::HandshakeAck { accepted: false })));
    assert!(!handshake_accepted(Some(NetworkPacket::Batch(vec![]))));
    assert!(!handshake_accepted(None));
}

#[test]
fn watcher_forwards_what_the_line_parser_gives() {
    let p = LineParser { service: "vaultwarden".to_string() };
    match watch_step(&p, WatchEvent::Line("  unlocked vault \n".to_string())) {
        WatchStep::Forward(e) => {
            assert_eq!(e.service, "vaultwarden");
            assert_eq!(e.message, "unlocked vault");
        }
        _ => panic!("expected an entry"),
    }
    assert!(matches!(watch_step(&p, WatchEvent::Line(" \n".to_string())), WatchStep::Skip));
}

#[test]
fn ascii_case_comparison() {
    assert!(same_ignoring_ascii_case("Immich", "iMMICH"));
    assert!(same_ignoring_ascii_case("", ""));
    assert!(!same_ignoring_ascii_case("immich", "immic"));
    assert!(!same_ignoring_ascii_case("immich", "immicx"));
    // only ASCII letters are folded
    assert!(!same_ignoring_ascii_case("É", "é"));
    assert!(same_ignoring_ascii_case("straße-X", "STRAße-x"));
    assert!(!same_ignoring_ascii_case("[", "{"));
}

#[test]
fn connection_events() {
    let mut s = ClientSession::new();
    for i in 0..(BATCH_SIZE - 1) {
        assert!(matches!(s.on_event(ClientEvent::Log(entry("a", &i.to_string()))), ClientStep::Continue));
    }
    match s.on_event(ClientEvent::Log(entry("a", "x"))) {
        ClientStep::Send(b) => assert_eq!(b.len(), BATCH_SIZE),
        _ => panic!("expected a full batch"),
    }
    assert!(matches!(s.on_event(ClientEvent::BroadcastError), ClientStep::Continue));
    assert!(matches!(s.on_event(ClientEvent::Log(entry("a", "y"))), ClientStep::Continue));
    match s.on_event(ClientEvent::Tick) {
        ClientStep::Send(b) => assert_eq!(b[0].message, "y"),
        _ => panic!("expected the pending entry"),
    }
    assert!(matches!(s.on_event(ClientEvent::Tick), ClientStep::Continue));
    assert!(matches!(
        s.on_event(ClientEvent::Packet(Some(NetworkPacket::UpdateFilter { service: Some("b".to_string()) }))),
        ClientStep::Continue
    ));
    assert_eq!(s.filter, Some("b".to_string()));
    assert!(matches!(s.on_event(ClientEvent::Packet(None)), ClientStep::Continue));
    assert!(matches!(s.on_event(ClientEvent::FramingError), ClientStep::Stop));
    assert!(matches!(s.on_event(ClientEvent::StreamClosed), ClientStep::Stop));
    assert!(matches!(s.on_event(ClientEvent::Cancelled), ClientStep::Stop));
    assert!(matches!(s.on_event(ClientEvent::SendFailed), ClientStep::Stop));
}
