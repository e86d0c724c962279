use packet_browser::client::browse::{dispatch_ax25, Answer, Sent};
use packet_browser::client::cache::{Cache, Moment};
use packet_browser::client::config::CacheSection;
use packet_browser::client::state::ConnectionState;
use packet_browser::client::transport::session::{
    Goal, ResponseReader, Setup, SetupAction, SetupEvent,
};
use packet_browser::client::transport::TransportEvent;
use packet_browser::server::blocklist::{take_chunk, MAX_BLOCKLIST_BYTES};
use packet_browser::server::login::{Login, LoginStep};
use packet_browser::server::requests::{page_response, read_head, RequestHead};
use packet_browser::shared::protocol::Request;

fn said(text: &str) -> SetupEvent {
    SetupEvent::Received(TransportEvent::Data(text.as_bytes().to_vec()))
}

fn line(bytes: &[u8]) -> Option<String> {
    Some(String::from_utf8(bytes.to_vec()).unwrap())
}

/// A first connection that has come to the question to the operator.
fn asking() -> Setup {
    let (mut setup, _) = Setup::start(Goal::Connect, "W1TEST-7".to_string(), None);
    setup.step(SetupEvent::Done, false);
    let (login, prompt) = Login::start();
    let call = match setup.step(said(&prompt), false).action {
        SetupAction::SendCallsign(bytes) => bytes,
        _ => panic!("no callsign"),
    };
    assert_eq!(call, b"W1TEST-7\n");
    let disclaimer = match login.hear(line(&call), &[]) {
        LoginStep::Ask { say, .. } => say,
        other => panic!("{:?}", other),
    };
    setup.step(SetupEvent::Done, false);
    let step = setup.step(said(&disclaimer), false);
    assert!(matches!(step.action, SetupAction::AskOperator));
    assert_eq!(step.show, Some(ConnectionState::AwaitingConsent { disclaimer }));
    setup
}

#[test]
fn a_station_gets_in() {
    let mut setup = asking();
    let word = match setup.step(SetupEvent::Consent(Some(true)), false).action {
        SetupAction::SendAgree(bytes) => bytes,
        _ => panic!("no consent"),
    };
    let login = Login::AwaitConsent { callsign: "W1TEST".to_string() };
    match login.hear(line(&word), &[]) {
        LoginStep::Admit { callsign, entry } => {
            assert_eq!(callsign, "W1TEST");
            assert_eq!(entry.url, "AGREED");
        }
        other => panic!("{:?}", other),
    }
    let step = setup.step(SetupEvent::Done, false);
    assert!(matches!(step.action, SetupAction::Finish(Ok(()))));
}

#[test]
fn declining_closes_the_link() {
    let cases = [
        (Some(false), "Operator declined the logging disclaimer"),
        (None, "Consent timeout: operator did not respond"),
    ];
    for (answer, words) in cases {
        let step = asking().step(SetupEvent::Consent(answer), false);
        let told = format!("BPQ handshake failed: Connection failed: {}", words);
        match step.action {
            SetupAction::HangUp(e) => {
                assert_eq!(e.message(), format!("Connection failed: {}", told))
            }
            _ => panic!("still open"),
        }
        assert_eq!(step.show, Some(ConnectionState::Error(told)));
    }
}

#[test]
fn a_page_goes_all_the_way() {
    let url = "https://example.com/a";
    let asked = Request::Get { url: url.to_string(), if_none_match: None }.encode();
    match read_head(&line(&asked).unwrap()) {
        Ok(RequestHead::Complete(Request::Get { url: u, .. })) => assert_eq!(u, url),
        other => panic!("{:?}", other),
    }
    let wire = page_response("<p>73</p>", None, 60, 11).encode();
    let mut reader = ResponseReader::new();
    let noise = b"*** Connected to WEB\r".to_vec();
    assert!(!reader.take(TransportEvent::Data(noise), false).unwrap());
    let (front, back) = wire.split_at(wire.len() / 2);
    assert!(!reader.take(TransportEvent::Data(front.to_vec()), false).unwrap());
    assert!(reader.take(TransportEvent::Data(back.to_vec()), false).unwrap());
    let now = Moment { secs: 0, nanos: 0 };
    let sent = Sent::Asked { etag: None };
    match dispatch_ax25(Ok(reader.into_data()), url, &sent, &mut None, 600, now) {
        Answer::Kept { body, .. } => assert!(body.contains("<p>73</p>")),
        other => panic!("{:?}", other),
    }
}

#[test]
fn an_unchanged_page_is_confirmed() {
    let url = "https://example.com/a";
    let html = "<p>same</p>";
    let first = page_response(html, None, 10, 11);
    let mut cache = Some(Cache::open(1_000_000, 600));
    let at = |secs| Moment { secs, nanos: 0 };
    let sent = Sent::Asked { etag: None };
    dispatch_ax25(Ok(first.encode()), url, &sent, &mut cache, 600, at(0));
    let second = page_response(html, Some(&first.etag), 10, 11);
    assert!(second.payload.is_empty());
    let sent = Sent::Asked { etag: Some(first.etag.clone()) };
    match dispatch_ax25(Ok(second.encode()), url, &sent, &mut cache, 600, at(100)) {
        Answer::Kept { body, cache_control, .. } => {
            assert!(body.contains(html));
            assert_eq!(cache_control, "private, max-age=10");
        }
        other => panic!("{:?}", other),
    }
    assert_eq!(cache.unwrap().rows[0].fetched_at, 100);
}

#[test]
fn hosts_files_grow_only_so_far() {
    let mut buf = vec![b'x'; MAX_BLOCKLIST_BYTES - 2];
    assert!(take_chunk("u", &mut buf, b"yz").is_ok());
    assert_eq!(buf.len(), MAX_BLOCKLIST_BYTES);
    assert_eq!(buf[MAX_BLOCKLIST_BYTES - 1], b'z');
    let e = take_chunk("u", &mut buf, b"!").unwrap_err();
    assert_eq!(e, format!("Blocklist u exceeded maximum size {} bytes", MAX_BLOCKLIST_BYTES));
    assert_eq!(buf.len(), MAX_BLOCKLIST_BYTES);
}

#[test]
fn the_cache_has_a_directory() {
    let mut section = CacheSection::default();
    assert_eq!(section.effective_dir(Some("s".to_string())).unwrap(), "s");
    assert!(section.effective_dir(None).is_err());
    section.dir = Some("d".to_string());
    assert_eq!(section.effective_dir(Some("s".to_string())).unwrap(), "d");
}
