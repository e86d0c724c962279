use packet_browser::client::state::ConnectionState;
use packet_browser::client::transport::agwpe::{
    agwpe_to_transport_err, contains_slice, data_frames, is_session_dead_payload, link_reply,
    port_reply, registration_reply, session_event, transport_err_to_agwpe, AgwpeError, AgwpeFrame,
    FrameReader, FrameType, LinkReply, HEADER_SIZE, MAX_FRAME_DATA_SIZE,
};
use packet_browser::client::transport::session::{
    hear, matches_stored_disclaimer, Goal, Phase, Prompt, ResponseReader, Retry, RetryAction,
    RetryEvent, RetryPhase, SessionState, Setup, SetupAction, SetupEvent,
};
use packet_browser::client::transport::vara::{
    acknowledged, bandwidth_wire_command, check_kind, command_event, connect_command, connect_reply,
    data_event, mycall_command, parse_line, reports_disconnect, setup_commands, CommandLines,
    ConnectReply, VaraResponse,
};
use packet_browser::client::transport::{
    TransportError, TransportEvent, TransportKind, VaraBandwidth, VaraMode,
};
use packet_browser::shared::protocol::{Response, Status};

#[test]
fn test_frame_encode_decode() {
    let frame = AgwpeFrame::new(0, FrameType::RegisterCallsign, "N0CALL", "", vec![]);

    let encoded = frame.encode();
    let decoded = AgwpeFrame::decode(&encoded).unwrap();

    assert_eq!(decoded.port, 0);
    assert_eq!(decoded.frame_type, FrameType::RegisterCallsign);
    assert_eq!(decoded.call_from, "N0CALL");
    assert_eq!(decoded.call_to, "");
    assert_eq!(decoded.data_len, 0);
}

#[test]
fn agwpe_test_frame_encode_decode() {
    let frame = AgwpeFrame::new(0, FrameType::RegisterCallsign, "N0CALL", "", vec![]);

    let encoded = frame.encode();
    let decoded = AgwpeFrame::decode(&encoded).unwrap();

    assert_eq!(decoded.port, 0);
    assert_eq!(decoded.frame_type, FrameType::RegisterCallsign);
    assert_eq!(decoded.call_from, "N0CALL");
    assert_eq!(decoded.call_to, "");
    assert_eq!(decoded.data_len, 0);
    assert_eq!(encoded.len(), HEADER_SIZE);
    assert_eq!(encoded[4], 0x58);
    assert_eq!(&encoded[8..14], b"N0CALL");
}

#[test]
fn test_frame_with_data() {
    let data = b"Hello, world!".to_vec();
    let frame = AgwpeFrame::new(1, FrameType::SendData, "N0CALL", "NODE1", data.clone());

    let encoded = frame.encode();
    let decoded = AgwpeFrame::decode(&encoded).unwrap();

    assert_eq!(decoded.port, 1);
    assert_eq!(decoded.frame_type, FrameType::SendData);
    assert_eq!(decoded.call_from, "N0CALL");
    assert_eq!(decoded.call_to, "NODE1");
    assert_eq!(decoded.data_len, 13);
    assert_eq!(decoded.data, data);
}

#[test]
fn agwpe_test_frame_with_data() {
    let data = b"Hello, world!".to_vec();
    let frame = AgwpeFrame::new(1, FrameType::SendData, "N0CALL", "NODE1", data.clone());

    let encoded = frame.encode();
    let decoded = AgwpeFrame::decode(&encoded).unwrap();

    assert_eq!(decoded.port, 1);
    assert_eq!(decoded.frame_type, FrameType::SendData);
    assert_eq!(decoded.call_from, "N0CALL");
    assert_eq!(decoded.call_to, "NODE1");
    assert_eq!(decoded.data_len, 13);
    assert_eq!(decoded.data, data);
    assert_eq!(&encoded[28..32], &[13, 0, 0, 0]);
    assert_eq!(&encoded[36..], b"Hello, world!");
}

#[test]
fn test_callsign_truncation() {
    let frame = AgwpeFrame::new(
        0,
        FrameType::RegisterCallsign,
        "VERYLONGCALLSIGN",
        "ANOTHERLONGONE",
        vec![],
    );

    let encoded = frame.encode();
    let decoded = AgwpeFrame::decode(&encoded).unwrap();

    assert_eq!(decoded.call_from.len(), 9);
    assert_eq!(decoded.call_to.len(), 9);
}

#[test]
fn agwpe_test_callsign_truncation() {
    let frame = AgwpeFrame::new(
        0,
        FrameType::RegisterCallsign,
        "VERYLONGCALLSIGN",
        "ANOTHERLONGONE",
        vec![],
    );

    let encoded = frame.encode();
    let decoded = AgwpeFrame::decode(&encoded).unwrap();

    assert_eq!(decoded.call_from.len(), 9);
    assert_eq!(decoded.call_to.len(), 9);
    assert_eq!(decoded.call_from, "VERYLONGC");
}

#[test]
fn test_decode_rejects_oversized_data_len() {
    let mut buf = vec![0u8; HEADER_SIZE];
    buf[4] = FrameType::Disconnect.code();
    let huge = (MAX_FRAME_DATA_SIZE as u32 + 1).to_le_bytes();
    buf[28..32].copy_from_slice(&huge);
    let result = AgwpeFrame::decode(&buf);
    assert!(matches!(result, Err(AgwpeError::InvalidFrame(_))));
}

#[test]
fn test_frame_type_conversion() {
    assert_eq!(FrameType::try_from(0x58).unwrap(), FrameType::RegisterCallsign);
    assert_eq!(FrameType::try_from(0x78).unwrap(), FrameType::RegistrationResponse);
    assert_eq!(FrameType::try_from(0x43).unwrap(), FrameType::Connect);
    assert_eq!(FrameType::try_from(0x63).unwrap(), FrameType::Connected);
    assert_eq!(FrameType::try_from(0x64).unwrap(), FrameType::Disconnect);
    assert_eq!(FrameType::try_from(0x44).unwrap(), FrameType::SendData);
    assert_eq!(FrameType::try_from(0x52).unwrap(), FrameType::ConnectionRejected);
    assert_eq!(FrameType::try_from(0x47).unwrap(), FrameType::QueryPorts);
    assert_eq!(FrameType::try_from(0x67).unwrap(), FrameType::PortInfo);
    assert!(FrameType::try_from(0xFF).is_err());
}

#[test]
fn test_new_error_variants_display() {
    let e = AgwpeError::SessionDied { reason: "no response after 30s".to_string() };
    assert_eq!(e.message(), "Session died: no response after 30s");

    let e = AgwpeError::NeedsReconsent;
    assert_eq!(e.message(), "Session dropped and requires re-consent");

    let e = AgwpeError::DisconnectedByOperator;
    assert_eq!(e.message(), "Disconnected by operator");
}

#[test]
fn test_is_session_dead_payload() {
    assert!(is_session_dead_payload(b"*** DISCONNECTED FROM Station N0CALL\r"));
    assert!(is_session_dead_payload(b"*** DISCONNECTED"));
    assert!(is_session_dead_payload(b"Returned to Node DEMO:N0CALL-7\r"));
    assert!(is_session_dead_payload(b"partial response...\r\n*** DISCONNECTED FROM X"));
    assert!(is_session_dead_payload(b"garbage bytes\rReturned to Node DEMO:X"));
    assert!(!is_session_dead_payload(b"RESP0 300 abc123 3600\r"));
    assert!(!is_session_dead_payload(b""));
    assert!(!is_session_dead_payload(b"*** CONNECTED WITH N0CALL"));
    assert!(!is_session_dead_payload(b"Returned"));
}

#[test]
fn agwpe_transport_reports_disconnect_payload_as_disconnected_event() {
    let frame = AgwpeFrame::new(
        0,
        FrameType::SendData,
        "N0CALL-8",
        "W1TEST",
        b"*** DISCONNECTED FROM N0CALL-8\r\n".to_vec(),
    );
    match session_event(frame) {
        TransportEvent::Disconnected { reason } => {
            assert!(reason.contains("DISCONNECTED"), "reason={}", reason);
        }
        other => panic!("expected Disconnected, got {:?}", other),
    }
}

#[test]
fn frames_come_out_of_a_stream_whole() {
    let a = AgwpeFrame::new(0, FrameType::Connect, "A", "B", b"one".to_vec()).encode();
    let b = AgwpeFrame::new(0, FrameType::SendData, "A", "B", b"two".to_vec()).encode();
    let mut stream = a.clone();
    stream.extend_from_slice(&b);
    let mut reader = FrameReader::new();
    reader.feed(&stream[..HEADER_SIZE + 2]);
    assert!(reader.next().unwrap().is_none());
    reader.feed(&stream[HEADER_SIZE + 2..]);
    assert_eq!(reader.next().unwrap().unwrap().data, b"one");
    assert_eq!(reader.next().unwrap().unwrap().data, b"two");
    assert!(reader.next().unwrap().is_none());
}

#[test]
fn data_goes_out_in_pieces() {
    let data: Vec<u8> = (0..600u32).map(|i| i as u8).collect();
    let frames = data_frames(2, "A", "B", &data);
    assert_eq!(frames.len(), 3);
    assert_eq!(frames[0].data.len(), 256);
    assert_eq!(frames[2].data.len(), 88);
    let whole: Vec<u8> = frames.iter().flat_map(|f| f.data.clone()).collect();
    assert_eq!(whole, data);
    assert!(frames.iter().all(|f| f.frame_type == FrameType::SendData && f.port == 2));
}

#[test]
fn modem_replies_are_judged() {
    let ok = AgwpeFrame::new(0, FrameType::RegisterCallsign, "A", "", vec![1]);
    assert!(registration_reply(&ok).is_ok());
    let bad = AgwpeFrame::new(0, FrameType::RegisterCallsign, "A", "", vec![0]);
    match registration_reply(&bad) {
        Err(AgwpeError::RegistrationFailed(m)) => assert_eq!(
            m,
            "Unexpected response to registration: RegisterCallsign (port=0, call_from=A, call_to=, data=[0])"
        ),
        other => panic!("{:?}", other),
    }

    let ports = AgwpeFrame::new(0, FrameType::QueryPorts, "", "", b"2;Port1 a;Port2 b;\0".to_vec());
    let got = port_reply(&ports).unwrap();
    assert_eq!(got.len(), 2);
    assert_eq!((got[1].port_num, got[1].description.as_str()), (1, "Port2 b"));
    assert!(port_reply(&ok).is_none());

    let up = AgwpeFrame::new(0, FrameType::Connect, "", "", b"*** CONNECTED With X".to_vec());
    assert!(matches!(link_reply(&up), LinkReply::Opened));
    let no = AgwpeFrame::new(0, FrameType::ConnectionRejected, "", "", b"busy".to_vec());
    match link_reply(&no) {
        LinkReply::Rejected { reason } => assert_eq!(reason, "connection rejected by peer: busy"),
        _ => panic!("no rejection"),
    }
    assert!(matches!(link_reply(&ok), LinkReply::Unrelated));
    assert!(contains_slice(b"abc", b"bc"));
    assert!(!contains_slice(b"abc", b"cb"));
}

#[test]
fn lossy_text_replaces_what_is_no_utf8() {
    let no = AgwpeFrame::new(0, FrameType::ConnectionRejected, "", "", vec![0x61, 0xff]);
    match link_reply(&no) {
        LinkReply::Rejected { reason } => {
            assert_eq!(reason, "connection rejected by peer: a\u{fffd}")
        }
        _ => panic!("no rejection"),
    }
}

#[test]
fn errors_change_sides() {
    assert!(matches!(transport_err_to_agwpe(TransportError::Timeout), AgwpeError::Timeout));
    assert!(matches!(
        transport_err_to_agwpe(TransportError::SessionRejected("x".to_string())),
        AgwpeError::ConnectionFailed(_)
    ));
    match agwpe_to_transport_err(AgwpeError::TaskStopped) {
        TransportError::ModemError(m) => assert_eq!(m, "Background task stopped"),
        other => panic!("{:?}", other),
    }
    assert_eq!(TransportError::NotConnected.message(), "transport not connected");
    assert_eq!(TransportError::Io("e".to_string()).message(), "io: e");
    assert_eq!(TransportError::ModemError("e".to_string()).message(), "modem error: e");
    assert_eq!(TransportError::SessionRejected("e".to_string()).message(), "session rejected: e");
    assert_eq!(TransportError::Timeout.message(), "timed out");
    assert_eq!(AgwpeError::Io("e".to_string()).message(), "IO error: e");
    assert_eq!(AgwpeError::ConnectionFailed("e".to_string()).message(), "Connection failed: e");
    assert_eq!(AgwpeError::RegistrationFailed("e".to_string()).message(), "Registration failed: e");
    assert_eq!(AgwpeError::NotConnected.message(), "Not connected");
    assert_eq!(AgwpeError::InvalidFrame("e".to_string()).message(), "Invalid frame: e");
    assert_eq!(AgwpeError::Timeout.message(), "Timeout");
}

#[test]
fn transport_kind_roundtrips_config_strings() {
    assert_eq!(TransportKind::from_str("ax25").unwrap(), TransportKind::Ax25);
    assert_eq!(TransportKind::from_str("vara_fm").unwrap(), TransportKind::VaraFm);
    assert_eq!(TransportKind::from_str("vara_hf").unwrap(), TransportKind::VaraHf);
    assert_eq!(TransportKind::Ax25.to_text(), "ax25");
    assert_eq!(TransportKind::VaraFm.to_text(), "vara_fm");
    assert_eq!(TransportKind::VaraHf.to_text(), "vara_hf");
}

#[test]
fn transport_kind_rejects_unknown() {
    assert!(TransportKind::from_str("carrier-pigeon").is_err());
}

#[test]
fn test_matches_stored_disclaimer() {
    let text = "All activity is logged including your callsign.\rType AGREE to proceed: ";
    assert!(matches_stored_disclaimer(text, Some(text)));

    let differs_by_space =
        "All activity is logged including your callsign. \rType AGREE to proceed: ";
    assert!(!matches_stored_disclaimer(differs_by_space, Some(text)));

    assert!(!matches_stored_disclaimer(text, None));

    assert!(matches_stored_disclaimer("", Some("")));
}

#[test]
fn parses_all_known_responses() {
    assert!(matches!(parse_line("OK"), VaraResponse::Okay));
    assert!(matches!(parse_line("PENDING"), VaraResponse::Pending));
    assert!(matches!(parse_line("DISCONNECTED"), VaraResponse::Disconnected));
    assert!(matches!(parse_line("BUSY DETECTED"), VaraResponse::BusyDetected));
    assert!(matches!(parse_line("LINK REGISTERED"), VaraResponse::LinkRegistered));

    match parse_line("CONNECTED W1TEST N0CALL-8") {
        VaraResponse::Connected { local, remote } => {
            assert_eq!(local, "W1TEST");
            assert_eq!(remote, "N0CALL-8");
        }
        other => panic!("{:?}", other),
    }

    match parse_line("BUFFER 42") {
        VaraResponse::Buffer(n) => assert_eq!(n, 42),
        other => panic!("{:?}", other),
    }

    match parse_line("MISSING MYCALL") {
        VaraResponse::Missing(s) => assert_eq!(s, "MYCALL"),
        other => panic!("{:?}", other),
    }
}

#[test]
fn parse_line_trims_line_terminators() {
    assert!(matches!(parse_line("OK\r"), VaraResponse::Okay));
    assert!(matches!(parse_line("OK\r\n"), VaraResponse::Okay));
    assert!(matches!(parse_line("OK\n"), VaraResponse::Okay));
}

#[test]
fn unknown_responses_are_preserved_for_debug_logging() {
    match parse_line("REGISTERED W1TEST 2026") {
        VaraResponse::Unknown(s) => assert_eq!(s, "REGISTERED W1TEST 2026"),
        other => panic!("{:?}", other),
    }
}

#[test]
fn bandwidth_wire_command_matches_vara_spec() {
    assert_eq!(bandwidth_wire_command(VaraBandwidth::VNarrow), "VNARROW");
    assert_eq!(bandwidth_wire_command(VaraBandwidth::VWide), "VWIDE");
    assert_eq!(bandwidth_wire_command(VaraBandwidth::Bw250), "BW250");
    assert_eq!(bandwidth_wire_command(VaraBandwidth::Bw500), "BW500");
    assert_eq!(bandwidth_wire_command(VaraBandwidth::Bw2300), "BW2300");
    assert_eq!(bandwidth_wire_command(VaraBandwidth::Bw2750), "BW2750");
}

#[test]
fn setup_commands_emit_expected_ordering() {
    let cmds = setup_commands("W1TEST", VaraMode::Fm, VaraBandwidth::VWide);
    assert_eq!(
        cmds,
        vec![
            "MYCALL W1TEST".to_string(),
            "LISTEN OFF".to_string(),
            "COMPRESSION OFF".to_string(),
            "VWIDE".to_string(),
        ]
    );
}

#[test]
fn vara_commands_and_replies() {
    assert_eq!(mycall_command("W1TEST"), "MYCALL W1TEST");
    assert_eq!(connect_command("W1TEST", "N0CALL"), "CONNECT W1TEST N0CALL");
    assert!(check_kind(TransportKind::VaraHf).is_ok());
    assert!(check_kind(TransportKind::Ax25).is_err());
    assert!(acknowledged("OK\r").is_ok());
    assert!(acknowledged("MISSING X").is_err());
    assert!(matches!(connect_reply("CONNECTED A B"), ConnectReply::Connected));
    assert!(matches!(connect_reply("PENDING"), ConnectReply::KeepWaiting));
    assert!(reports_disconnect("DISCONNECTED\r"));
    assert!(!reports_disconnect("OK"));
    assert!(matches!(command_event("DISCONNECTED"), Some(TransportEvent::Disconnected { .. })));
    assert!(command_event("BUFFER 1").is_none());
    match data_event(vec![1, 2]) {
        TransportEvent::Data(d) => assert_eq!(d, vec![1, 2]),
        other => panic!("{:?}", other),
    }
}

#[test]
fn command_lines_come_out_whole() {
    let mut lines = CommandLines::new();
    lines.feed(b"OK\rPEND");
    assert_eq!(lines.next_line().unwrap().trim(), "OK");
    assert!(lines.next_line().is_none());
    lines.feed(b"ING\r");
    assert_eq!(lines.next_line().unwrap().trim(), "PENDING");
}

// Setting up a session

fn heard(text: &str) -> SetupEvent {
    SetupEvent::Received(TransportEvent::Data(text.as_bytes().to_vec()))
}

const DISCLAIMER: &str = "All activity is logged.\rType AGREE to proceed: ";

#[test]
fn a_first_connection_asks_the_operator() {
    let (mut setup, step) =
        Setup::start(Goal::Connect, "W1TEST".to_string(), Some("WEB".to_string()));
    assert!(matches!(step.action, SetupAction::OpenLink));
    match setup.step(SetupEvent::Done, false).action {
        SetupAction::SendCommand(b) => assert_eq!(b, b"WEB\n"),
        _ => panic!("no command"),
    }
    assert!(matches!(setup.step(SetupEvent::Done, false).action, SetupAction::Receive));
    assert!(matches!(setup.step(heard("Enter your "), false).action, SetupAction::Receive));
    match setup.step(heard("callsign: "), false).action {
        SetupAction::SendCallsign(b) => assert_eq!(b, b"W1TEST\n"),
        _ => panic!("no callsign"),
    }
    assert!(matches!(setup.step(SetupEvent::Done, false).action, SetupAction::Receive));
    let step = setup.step(heard(DISCLAIMER), false);
    assert!(matches!(step.action, SetupAction::AskOperator));
    match step.show {
        Some(ConnectionState::AwaitingConsent { disclaimer }) => assert_eq!(disclaimer, DISCLAIMER),
        other => panic!("{:?}", other),
    }
    match setup.step(SetupEvent::Consent(Some(true)), false).action {
        SetupAction::SendAgree(b) => assert_eq!(b, b"AGREE\n"),
        _ => panic!("no agreement"),
    }
    let step = setup.step(SetupEvent::Done, false);
    assert!(matches!(step.action, SetupAction::Finish(Ok(()))));
    assert!(matches!(step.show, Some(ConnectionState::Connected)));
    assert_eq!(setup.phase, Phase::Over);
}

fn reconnecting(stored: Option<&str>) -> Setup {
    let goal = Goal::Reconnect {
        reason: "gone".to_string(),
        stored: stored.map(|s| s.to_string()),
    };
    let (mut setup, step) = Setup::start(goal, "W1TEST".to_string(), None);
    assert!(matches!(step.action, SetupAction::ReopenModem));
    assert!(matches!(setup.step(SetupEvent::Done, false).action, SetupAction::OpenLink));
    assert!(matches!(setup.step(SetupEvent::Done, false).action, SetupAction::Receive));
    assert!(matches!(
        setup.step(heard("Enter your callsign: "), false).action,
        SetupAction::SendCallsign(_)
    ));
    assert!(matches!(setup.step(SetupEvent::Done, false).action, SetupAction::Receive));
    setup
}

#[test]
fn a_lost_session_is_restored_without_asking_where_the_text_is_the_same() {
    let mut setup = reconnecting(Some(DISCLAIMER));
    match setup.step(heard(DISCLAIMER), false).action {
        SetupAction::SendAgree(b) => assert_eq!(b, b"AGREE\n"),
        _ => panic!("no agreement"),
    }
}

#[test]
fn a_changed_disclaimer_needs_a_new_consent() {
    let mut setup = reconnecting(Some("another text, AGREE"));
    match setup.step(heard(DISCLAIMER), false).action {
        SetupAction::Finish(Err(AgwpeError::NeedsReconsent)) => {}
        _ => panic!("went on"),
    }
}

#[test]
fn calling_off_ends_a_reconnect() {
    let mut setup = reconnecting(Some(DISCLAIMER));
    match setup.step(heard(DISCLAIMER), true).action {
        SetupAction::Finish(Err(AgwpeError::DisconnectedByOperator)) => {}
        _ => panic!("went on"),
    }
}

#[test]
fn prompts_are_heard_in_pieces() {
    let mut text = String::new();
    assert!(!hear(Prompt::Callsign, &mut text, b"Enter your call").unwrap());
    assert!(hear(Prompt::Callsign, &mut text, b"sign: ").unwrap());
    assert_eq!(text, "Enter your callsign: ");
    let mut text = String::new();
    assert!(hear(Prompt::Agree, &mut text, b"type agree").unwrap());
    let long = vec![b'x'; 65537];
    assert!(hear(Prompt::Agree, &mut text, &long).is_err());
}

#[test]
fn an_answer_is_complete_with_its_payload() {
    let wire = Response {
        status: Status::Success,
        etag: "-".to_string(),
        max_age: 5,
        payload: b"some payload".to_vec(),
    }
    .encode();
    let mut reader = ResponseReader::new();
    let n = wire.len() - 1;
    for i in 0..n - 1 {
        assert!(!reader.take(TransportEvent::Data(vec![wire[i]]), false).unwrap(), "{}", i);
    }
    assert!(reader.take(TransportEvent::Data(vec![wire[n - 1]]), false).unwrap());
    assert_eq!(reader.into_data(), wire[..n].to_vec());
}

#[test]
fn answers_that_fail() {
    let died = |r: Result<bool, AgwpeError>| match r {
        Err(AgwpeError::SessionDied { reason }) => reason,
        other => panic!("{:?}", other),
    };
    let mut reader = ResponseReader::new();
    let r = reader.take(TransportEvent::Data(b"*** DISCONNECTED".to_vec()), false);
    assert_eq!(died(r), "remote sent AX.25 disconnect notification");
    let mut reader = ResponseReader::new();
    let r = reader.take(TransportEvent::Data(b"RESPx 1\n".to_vec()), false);
    assert_eq!(died(r), "malformed response header: InvalidResponse");
    let mut reader = ResponseReader::new();
    let r = reader.take(TransportEvent::Data(vec![b'z'; 32769]), false);
    assert!(died(r).starts_with("malformed response (32769 bytes with no RESP magic: \"zzz"));
    let mut reader = ResponseReader::new();
    assert!(matches!(
        reader.take(TransportEvent::Data(vec![1]), true),
        Err(AgwpeError::DisconnectedByOperator)
    ));
    let r = reader.take(TransportEvent::Disconnected { reason: "r".to_string() }, false);
    assert_eq!(died(r), "r");
    match ResponseReader::receive_error(TransportError::Timeout, 30) {
        AgwpeError::SessionDied { reason } => assert_eq!(reason, "no response after 30s"),
        other => panic!("{:?}", other),
    }
}

fn dead(reason: &str) -> RetryEvent {
    RetryEvent::Attempted(Err(AgwpeError::SessionDied { reason: reason.to_string() }))
}

#[test]
fn only_a_dead_session_is_retried() {
    let (mut retry, action) = Retry::start();
    assert!(matches!(action, RetryAction::Send));
    assert!(matches!(
        retry.step(RetryEvent::Attempted(Err(AgwpeError::Timeout))),
        RetryAction::Finish(Err(AgwpeError::Timeout))
    ));
    let (mut retry, _) = Retry::start();
    assert!(matches!(
        retry.step(RetryEvent::Attempted(Ok(vec![1]))),
        RetryAction::Finish(Ok(_))
    ));
    assert_eq!(retry.phase, RetryPhase::Over);
}

#[test]
fn a_request_is_sent_once_more_and_not_again() {
    let (mut retry, _) = Retry::start();
    match retry.step(dead("r")) {
        RetryAction::Restore { reason } => assert_eq!(reason, "r"),
        _ => panic!("no retry"),
    }
    assert!(matches!(retry.step(RetryEvent::Restored(Ok(()))), RetryAction::Send));
    match retry.step(dead("s")) {
        RetryAction::Finish(Err(AgwpeError::SessionDied { reason })) => assert_eq!(reason, "s"),
        _ => panic!("sent a third time"),
    }
    let (mut retry, _) = Retry::start();
    retry.step(dead("r"));
    assert!(matches!(
        retry.step(RetryEvent::Restored(Err(AgwpeError::NeedsReconsent))),
        RetryAction::Finish(Err(AgwpeError::NeedsReconsent))
    ));
}

#[test]
fn an_abort_lasts_until_it_is_taken_back() {
    let mut s = SessionState::new(0);
    assert_eq!(s.response_timeout_secs, 1);
    assert!(!s.is_aborted());
    s.abort();
    assert!(s.is_aborted());
    s.reset_abort();
    assert!(!s.is_aborted());
}
