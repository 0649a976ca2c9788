use printer_monitor::error::ProtocolError;
use printer_monitor::numbers::Decimal;
use printer_monitor::protocol::{parse_measurement, PrinterRequest, PrinterResponse};

fn dec(negative: bool, mantissa: u64, scale: u32) -> Decimal {
    Decimal { negative, mantissa, scale }
}

#[test]
fn status_body_decodes() {
    let body = "...\r\nX: 0 Y: 0 Z: 0\r\nEndstop: X-max:0 Y-max:0 Z-min:1\r\nMachineStatus: READY\r\nMoveMode: READY\r\nLED: 1\r\nCurrentFile: test.gcode\r\nok";
    match PrinterRequest::GetStatus.parse_response(body) {
        Ok(PrinterResponse::PrinterStatus(st)) => {
            assert_eq!(st.end_stop.x_max, 0);
            assert_eq!(st.end_stop.y_max, 0);
            assert_eq!(st.end_stop.z_min, 1);
            assert!(st.led);
            assert_eq!(st.current_file, Some("test.gcode".to_string()));
            assert_eq!(st.machine_status, "READY");
            assert_eq!(st.move_mode, "READY");
        }
        other => panic!("unexpected {:?}", other),
    }
}

#[test]
fn status_empty_file_is_no_file() {
    let body = "CMD M119 Received.\r\nEndstop: X-max:1 Y-max:0 Z-min:0\r\nMachineStatus: READY\r\nMoveMode: READY\r\nLED: 0\r\nCurrentFile: \r\nok\r\n";
    match PrinterRequest::GetStatus.parse_response(body) {
        Ok(PrinterResponse::PrinterStatus(st)) => {
            assert_eq!(st.end_stop.x_max, 1);
            assert!(!st.led);
            assert_eq!(st.current_file, None);
        }
        other => panic!("unexpected {:?}", other),
    }
}

#[test]
fn status_missing_key_is_malformed() {
    let body = "CMD M119 Received.\r\nEndstop: X-max:1 Y-max:0\r\nMachineStatus: READY\r\nMoveMode: READY\r\nLED: 0\r\nok\r\n";
    assert!(matches!(
        PrinterRequest::GetStatus.parse_response(body),
        Err(ProtocolError::Malformed)
    ));
}

#[test]
fn status_bad_number_is_malformed() {
    let body = "CMD M119 Received.\r\nEndstop: X-max:a Y-max:0 Z-min:0\r\nMachineStatus: READY\r\nMoveMode: READY\r\nLED: 0\r\nok\r\n";
    assert!(matches!(
        PrinterRequest::GetStatus.parse_response(body),
        Err(ProtocolError::Malformed)
    ));
}

#[test]
fn missing_terminator_is_protocol_error() {
    let body = "CMD M119 Received.\r\nEndstop: X-max:0 Y-max:0 Z-min:1\r\nMachineStatus: READY\r\nMoveMode: READY\r\nLED: 1\r\n";
    assert!(matches!(
        PrinterRequest::GetStatus.parse_response(body),
        Err(ProtocolError::Unterminated)
    ));
    assert!(matches!(
        PrinterRequest::GetProgress.parse_response("CMD M27 Received.\r\nSD printing byte 1/2\r\nLayer: 1/2\r\n"),
        Err(ProtocolError::Unterminated)
    ));
    assert!(matches!(
        PrinterRequest::ControlMessage.parse_response(""),
        Err(ProtocolError::Unterminated)
    ));
}

#[test]
fn ok_on_echo_line_does_not_terminate() {
    assert!(matches!(
        PrinterRequest::ControlMessage.parse_response("ok\r\n"),
        Err(ProtocolError::Unterminated)
    ));
    assert!(matches!(
        PrinterRequest::ControlMessage.parse_response("CMD M601 Received.\r\nControl Success.\r\nok\r\n"),
        Ok(PrinterResponse::ControlSuccess(c)) if c.success
    ));
}

#[test]
fn progress_pairs_in_order() {
    let body = "CMD M27 Received.\r\nSD printing byte 120/1000\r\nLayer: 3/50\r\nok\r\n";
    match PrinterRequest::GetProgress.parse_response(body) {
        Ok(PrinterResponse::PrinterProgress(p)) => {
            assert_eq!(p.byte, (120, 1000));
            assert_eq!(p.layer, (3, 50));
        }
        other => panic!("unexpected {:?}", other),
    }
}

#[test]
fn progress_pairs_swapped() {
    let body = "CMD M27 Received.\r\nLayer: 3/50\r\nSD printing byte 120/1000\r\nok\r\n";
    match PrinterRequest::GetProgress.parse_response(body) {
        Ok(PrinterResponse::PrinterProgress(p)) => {
            assert_eq!(p.byte, (3, 50));
            assert_eq!(p.layer, (120, 1000));
        }
        other => panic!("unexpected {:?}", other),
    }
}

#[test]
fn progress_needs_two_pairs() {
    let body = "CMD M27 Received.\r\nSD printing byte 120/1000\r\nok\r\n";
    assert!(matches!(
        PrinterRequest::GetProgress.parse_response(body),
        Err(ProtocolError::Malformed)
    ));
}

#[test]
fn progress_overflow_is_malformed() {
    let body = "CMD M27 Received.\r\nbyte 4294967296/1\r\nLayer: 0/0\r\nok\r\n";
    assert!(matches!(
        PrinterRequest::GetProgress.parse_response(body),
        Err(ProtocolError::Malformed)
    ));
}

#[test]
fn info_body_decodes() {
    let body = "CMD M115 Received.\r\nMachine Type: Flashforge Adventurer 4\r\nMachine Name: Adventurer4\r\nFirmware: v2.1.4-3.3\r\nSN: SNADVA1234\r\nX: 220 Y: 200 Z: 250\r\nTool Count: 1\r\nMac Address: 88:A9:A7:90:00:00\r\nok\r\n";
    match PrinterRequest::GetInfo.parse_response(body) {
        Ok(PrinterResponse::PrinterInfo(i)) => {
            assert_eq!(i.name, "Adventurer4");
            assert_eq!(i.model_name, "Flashforge Adventurer 4");
            assert_eq!(i.firmware_version, "v2.1.4-3.3");
            assert_eq!(i.sn, "SNADVA1234");
            assert_eq!(i.tool_count, 1);
            assert_eq!(i.mac_addr, "88:A9:A7:90:00:00");
            assert_eq!((i.position.x, i.position.y, i.position.z), (220, 200, 250));
        }
        other => panic!("unexpected {:?}", other),
    }
}

#[test]
fn info_tool_count_out_of_range() {
    let body = "CMD M115 Received.\r\nMachine Type: T\r\nMachine Name: N\r\nFirmware: F\r\nSN: S\r\nX: 1 Y: 2 Z: 3\r\nTool Count: 256\r\nMac Address: M\r\nok\r\n";
    assert!(matches!(
        PrinterRequest::GetInfo.parse_response(body),
        Err(ProtocolError::Malformed)
    ));
}

#[test]
fn head_position_decodes() {
    let body = "CMD M114 Received.\r\nX:1.5 Y:-2 Z:10.25 A:0 B:7\r\nok\r\n";
    match PrinterRequest::GetHeadPosition.parse_response(body) {
        Ok(PrinterResponse::PrinterHeadPosition(h)) => {
            assert_eq!(h.x, dec(false, 15, 1));
            assert_eq!(h.y, dec(true, 2, 0));
            assert_eq!(h.z, dec(false, 1025, 2));
            assert_eq!(h.a, dec(false, 0, 0));
            assert_eq!(h.b, 7);
        }
        other => panic!("unexpected {:?}", other),
    }
}

#[test]
fn temperature_decodes() {
    let body = "CMD M105 Received.\r\nT0:210/220 B:60/60.5\r\nok\r\n";
    match PrinterRequest::GetTemperature.parse_response(body) {
        Ok(PrinterResponse::PrinterTemperature(t)) => {
            assert_eq!(t.0.len(), 2);
            let t0 = t.0.get("T0").unwrap();
            assert_eq!(t0.current, dec(false, 210, 0));
            assert_eq!(t0.target, dec(false, 220, 0));
            let b = t.0.get("B").unwrap();
            assert_eq!(b.current, dec(false, 60, 0));
            assert_eq!(b.target, dec(false, 605, 1));
        }
        other => panic!("unexpected {:?}", other),
    }
}

#[test]
fn temperature_without_slash_is_malformed() {
    let body = "CMD M105 Received.\r\nT0:210 B:60/60\r\nok\r\n";
    assert!(matches!(
        PrinterRequest::GetTemperature.parse_response(body),
        Err(ProtocolError::Malformed)
    ));
}

#[test]
fn measurement_pieces() {
    assert_eq!(
        parse_measurement("1/2/3"),
        Some(printer_monitor::models::TemperatureMeasurement {
            current: dec(false, 1, 0),
            target: dec(false, 2, 0)
        })
    );
    assert_eq!(parse_measurement("1/x/3"), None);
    assert_eq!(parse_measurement("12"), None);
    assert_eq!(parse_measurement("/"), None);
}

#[test]
fn set_temperature_acknowledged() {
    let body = "CMD M104 Received.\r\nok\r\n";
    assert!(matches!(
        PrinterRequest::SetTemperature(0, dec(false, 200, 0)).parse_response(body),
        Ok(PrinterResponse::ControlSuccess(c)) if c.success
    ));
}

#[test]
fn gcodes_and_instructions() {
    assert_eq!(PrinterRequest::ControlMessage.get_gcode(), "~M601 S1");
    assert_eq!(PrinterRequest::GetInfo.get_gcode(), "~M115");
    assert_eq!(PrinterRequest::GetHeadPosition.get_gcode(), "~M114");
    assert_eq!(PrinterRequest::GetTemperature.get_gcode(), "~M105");
    assert_eq!(PrinterRequest::GetProgress.get_gcode(), "~M27");
    assert_eq!(PrinterRequest::GetStatus.get_gcode(), "~M119");
    assert_eq!(PrinterRequest::GetStatus.get_instruction(), "~M119\r\n");
}

#[test]
fn set_temperature_gcode() {
    assert_eq!(
        PrinterRequest::SetTemperature(1, dec(false, 2105, 1)).get_gcode(),
        "~M104 S210.5 T1"
    );
    assert_eq!(
        PrinterRequest::SetTemperature(0, dec(false, 2100, 1)).get_gcode(),
        "~M104 S210 T0"
    );
    assert_eq!(
        PrinterRequest::SetTemperature(12, dec(false, 5, 2)).get_instruction(),
        "~M104 S0.05 T12\r\n"
    );
}
