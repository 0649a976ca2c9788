use printer_monitor::error::ProtocolError;
use printer_monitor::kv::{parse_kv, parse_multi_line};

#[test]
fn multi_line_tokens() {
    let t = parse_multi_line("X: 0 Y: 12 Z: -3");
    assert_eq!(t.len(), 3);
    assert_eq!(t.get("X").unwrap(), "0");
    assert_eq!(t.get("Y").unwrap(), "12");
    assert_eq!(t.get("Z").unwrap(), "-3");
}

#[test]
fn multi_line_later_token_wins() {
    let t = parse_multi_line("A:1 A:2");
    assert_eq!(t.len(), 1);
    assert_eq!(t.get("A").unwrap(), "2");
}

#[test]
fn multi_line_skips_tokens_without_value() {
    let t = parse_multi_line("ab: :cd");
    assert_eq!(t.len(), 1);
    assert_eq!(t.get("").unwrap(), "cd");
    assert_eq!(parse_multi_line("").len(), 0);
    assert_eq!(parse_multi_line("no tokens here").len(), 0);
}

#[test]
fn kv_basic_lines() {
    let t = parse_kv("CMD M115 Received.\r\nMachine Name:   Box\r\nbroken line\r\nSN: 1\r\nok\r\nAfter: x\r\n").unwrap();
    assert_eq!(t.len(), 2);
    assert_eq!(t.get("Machine Name").unwrap(), "Box");
    assert_eq!(t.get("SN").unwrap(), "1");
    assert!(t.get("After").is_none());
}

#[test]
fn kv_endstop_and_tool_lines() {
    let t = parse_kv("echo\nEndstop: X-max:1 Y-max:2 Z-min:3\nT0:200/210 B:50/60\nok").unwrap();
    assert_eq!(t.get("X-max").unwrap(), "1");
    assert_eq!(t.get("Y-max").unwrap(), "2");
    assert_eq!(t.get("Z-min").unwrap(), "3");
    assert_eq!(t.get("T0").unwrap(), "200/210");
    assert_eq!(t.get("B").unwrap(), "50/60");
    assert!(t.get("Endstop").is_none());
}

#[test]
fn kv_needs_ok_line() {
    assert!(matches!(parse_kv(""), Err(ProtocolError::Unterminated)));
    assert!(matches!(parse_kv("echo only"), Err(ProtocolError::Unterminated)));
    assert!(matches!(parse_kv("echo\r\nA: 1\r\nok\r"), Err(ProtocolError::Unterminated)));
    assert!(matches!(parse_kv("echo\r\nA: 1\r\n ok\r\n"), Err(ProtocolError::Unterminated)));
    assert_eq!(parse_kv("echo\r\nok").unwrap().len(), 0);
}
