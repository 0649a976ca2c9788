use printer_monitor::error::{PrinterError, ProtocolError};
use printer_monitor::models::{EndStopPosition, Position, PrinterInfo, PrinterStatus};
use printer_monitor::printer::{CameraMux, Exchange, FrameCache, Printer};
use printer_monitor::protocol::{PrinterRequest, PrinterResponse};

fn status(file: Option<&str>) -> PrinterStatus {
    PrinterStatus {
        end_stop: EndStopPosition { x_max: 0, y_max: 0, z_min: 0 },
        machine_status: "READY".to_string(),
        move_mode: "READY".to_string(),
        led: false,
        current_file: file.map(|f| f.to_string()),
    }
}

fn info(name: &str) -> PrinterInfo {
    PrinterInfo {
        name: name.to_string(),
        firmware_version: "v1".to_string(),
        sn: "sn".to_string(),
        tool_count: 1,
        model_name: "m".to_string(),
        mac_addr: "mac".to_string(),
        position: Position { x: 1, y: 2, z: 3 },
    }
}

#[test]
fn new_printer_is_offline() {
    let p = Printer::new("a".to_string(), "10.0.0.2".to_string());
    assert_eq!(p.name(), "a");
    assert_eq!(p.ip(), "10.0.0.2");
    assert!(!p.online());
    assert!(p.current_file().is_none());
    assert!(p.needs_info());
}

#[test]
fn refresh_status_success_and_failure() {
    let mut p = Printer::new("a".to_string(), "10.0.0.2".to_string());
    assert!(p.refresh_status(Ok(status(Some("cube.gx")))).is_ok());
    assert!(p.online());
    assert_eq!(p.current_file().as_deref(), Some("cube.gx"));
    let r = p.refresh_status(Err(PrinterError::Timeout));
    assert!(matches!(r, Err(PrinterError::Offline)));
    assert!(!p.online());
    assert_eq!(p.current_file().as_deref(), Some("cube.gx"));
    assert!(p.refresh_status(Ok(status(None))).is_ok());
    assert!(p.current_file().is_none());
}

#[test]
fn identity_fetched_once() {
    let mut p = Printer::new("a".to_string(), "10.0.0.2".to_string());
    assert!(!p.get_meta(Err(PrinterError::Timeout)));
    assert!(p.needs_info());
    assert!(p.get_meta(Ok(info("first"))));
    assert!(!p.needs_info());
    assert!(p.get_meta(Ok(info("second"))));
    assert_eq!(p.info().as_ref().unwrap().name, "first");
}

#[test]
fn summary_reports_cached_state() {
    let mut p = Printer::new("a".to_string(), "10.0.0.2".to_string());
    p.refresh_status(Ok(status(Some("x.gx")))).unwrap();
    let s = p.summary();
    assert_eq!(s.name, "a");
    assert!(s.is_online);
    assert_eq!(s.current_file.as_deref(), Some("x.gx"));
    assert!(s.firmware_version.is_none());
}

#[test]
fn camera_urls() {
    let p = Printer::new("a".to_string(), "192.168.1.5".to_string());
    assert_eq!(p.camera_url(), "http://192.168.1.5:8080/?action=stream");
    let q = Printer::new("b".to_string(), "fe80::1".to_string());
    assert_eq!(q.camera_url(), "http://[fe80::1]:8080/?action=stream");
}

#[test]
fn exchange_sends_handshake_then_request() {
    let mut x = Exchange::new(PrinterRequest::GetProgress);
    assert_eq!(x.instruction(), "~M601 S1\r\n");
    assert!(x.on_response("CMD M601 Received.\r\nControl Success.\r\nok\r\n").is_none());
    assert_eq!(x.instruction(), "~M27\r\n");
    match x.on_response("CMD M27 Received.\r\nSD printing byte 5/10\r\nLayer: 1/2\r\nok\r\n") {
        Some(Ok(PrinterResponse::PrinterProgress(p))) => {
            assert_eq!(p.byte, (5, 10));
            assert_eq!(p.layer, (1, 2));
        }
        other => panic!("unexpected {:?}", other),
    }
}

#[test]
fn exchange_stops_on_bad_handshake() {
    let mut x = Exchange::new(PrinterRequest::GetStatus);
    assert!(matches!(
        x.on_response("CMD M601 Received.\r\n"),
        Some(Err(ProtocolError::Unterminated))
    ));
    assert_eq!(x.instruction(), "~M601 S1\r\n");
}

#[test]
fn two_subscriptions_start_one_upstream() {
    let mut m = CameraMux::new();
    assert!(m.subscribe(false));
    assert!(!m.subscribe(false));
    assert!(!m.subscribe(false));
    assert!(m.subscribe(true));
}

#[test]
fn frame_cache_keeps_latest() {
    let mut c = FrameCache::new();
    assert!(c.latest().is_none());
    c.store(vec![1, 2]);
    c.store(vec![3]);
    assert_eq!(c.latest().as_deref(), Some(&[3u8][..]));
}

#[test]
fn printer_error_messages() {
    assert_eq!(PrinterError::Connection("refused".to_string()).message(), "refused");
    assert_eq!(PrinterError::Timeout.message(), "timed out");
    assert_eq!(PrinterError::Offline.message(), "Printer unreachable or offline");
    assert_eq!(
        PrinterError::Protocol(ProtocolError::Unterminated).message(),
        "response not terminated by ok"
    );
    assert_eq!(PrinterError::Protocol(ProtocolError::Malformed).message(), "malformed response");
}
