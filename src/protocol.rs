//! The device's command set: requests, how each is written on the wire, and
//! how each response body decodes.
use vstd::prelude::*;
use vstd::string::StringExecFns;
use crate::error::ProtocolError;
use crate::kv::{kv_pairs, pairs_map, parse_kv, text_map};
use crate::models::{
    ControlSuccess, EndStopPosition, Position, PrinterHeadPosition, PrinterInfo, PrinterProgress,
    PrinterStatus, PrinterTemperature, TemperatureMeasurement,
};
use crate::numbers::{
    Decimal, decimal_of, decimal_of_chars, decimal_text, digits_up_to, i32_of, parse_decimal,
    parse_i32, parse_u32, parse_u8, u32_of, u8_of,
};
use crate::table::{Table, entries_map, keys_distinct, lemma_entries_map_keys, lemma_entries_map_value};
use crate::text::{
    CharClass, char_in_class, chars_of, find_char, find_from, find_run_end, in_class,
    lemma_find_from_bounds, lemma_run_end_bounds, nat_text, push_decimal, run_end,
};

verus! {

/// A request to a printer.
#[derive(Clone, Copy, Debug, PartialEq, Eq)]
pub enum PrinterRequest {
    /// The handshake that must precede every request on a connection.
    ControlMessage,
    GetInfo,
    GetHeadPosition,
    GetTemperature,
    GetProgress,
    GetStatus,
    /// Sets the temperature of a tool: (tool index, degrees).
    SetTemperature(u8, Decimal),
}

/// A decoded response.
#[derive(Debug)]
pub enum PrinterResponse {
    ControlSuccess(ControlSuccess),
    PrinterInfo(PrinterInfo),
    PrinterHeadPosition(PrinterHeadPosition),
    PrinterTemperature(PrinterTemperature),
    PrinterProgress(PrinterProgress),
    PrinterStatus(PrinterStatus),
}

/// The command mnemonic of each request.
pub open spec fn gcode_of(r: PrinterRequest) -> Seq<char> {
    match r {
        PrinterRequest::ControlMessage => "~M601 S1"@,
        PrinterRequest::GetInfo => "~M115"@,
        PrinterRequest::GetHeadPosition => "~M114"@,
        PrinterRequest::GetTemperature => "~M105"@,
        PrinterRequest::GetProgress => "~M27"@,
        PrinterRequest::GetStatus => "~M119"@,
        PrinterRequest::SetTemperature(index, temp) => "~M104 S"@ + decimal_text(temp) + " T"@
            + nat_text(index as nat),
    }
}

/// The line sent for a request: its mnemonic and CRLF.
pub open spec fn instruction_of(r: PrinterRequest) -> Seq<char> {
    gcode_of(r) + "\r\n"@
}

pub open spec fn text_field(m: Map<Seq<char>, Seq<char>>, k: Seq<char>) -> Option<Seq<char>> {
    if m.contains_key(k) {
        Some(m[k])
    } else {
        None
    }
}

pub open spec fn i32_field(m: Map<Seq<char>, Seq<char>>, k: Seq<char>) -> Option<i32> {
    match text_field(m, k) {
        Some(v) => i32_of(v),
        None => None,
    }
}

pub open spec fn u8_field(m: Map<Seq<char>, Seq<char>>, k: Seq<char>) -> Option<u8> {
    match text_field(m, k) {
        Some(v) => u8_of(v),
        None => None,
    }
}

pub open spec fn u32_field(m: Map<Seq<char>, Seq<char>>, k: Seq<char>) -> Option<u32> {
    match text_field(m, k) {
        Some(v) => u32_of(v),
        None => None,
    }
}

pub open spec fn decimal_field(m: Map<Seq<char>, Seq<char>>, k: Seq<char>) -> Option<Decimal> {
    match text_field(m, k) {
        Some(v) => decimal_of(v),
        None => None,
    }
}

/// `i` is the identity that the entries `m` describe.
pub open spec fn is_info_of(i: PrinterInfo, m: Map<Seq<char>, Seq<char>>) -> bool {
    &&& Some(i.name@) == text_field(m, "Machine Name"@)
    &&& Some(i.firmware_version@) == text_field(m, "Firmware"@)
    &&& Some(i.sn@) == text_field(m, "SN"@)
    &&& Some(i.tool_count) == u8_field(m, "Tool Count"@)
    &&& Some(i.model_name@) == text_field(m, "Machine Type"@)
    &&& Some(i.mac_addr@) == text_field(m, "Mac Address"@)
    &&& Some(i.position.x) == i32_field(m, "X"@)
    &&& Some(i.position.y) == i32_field(m, "Y"@)
    &&& Some(i.position.z) == i32_field(m, "Z"@)
}

pub open spec fn info_decodable(m: Map<Seq<char>, Seq<char>>) -> bool {
    &&& text_field(m, "Machine Name"@) is Some
    &&& text_field(m, "Firmware"@) is Some
    &&& text_field(m, "SN"@) is Some
    &&& u8_field(m, "Tool Count"@) is Some
    &&& text_field(m, "Machine Type"@) is Some
    &&& text_field(m, "Mac Address"@) is Some
    &&& i32_field(m, "X"@) is Some
    &&& i32_field(m, "Y"@) is Some
    &&& i32_field(m, "Z"@) is Some
}

/// The current file of a status: absent when the entry is missing or empty.
pub open spec fn file_field(m: Map<Seq<char>, Seq<char>>) -> Option<Seq<char>> {
    match text_field(m, "CurrentFile"@) {
        Some(f) => if f.len() > 0 {
            Some(f)
        } else {
            None
        },
        None => None,
    }
}

pub open spec fn optional_text(o: Option<String>) -> Option<Seq<char>> {
    match o {
        Some(s) => Some(s@),
        None => None,
    }
}

/// `st` is the status that the entries `m` describe.
pub open spec fn is_status_of(st: PrinterStatus, m: Map<Seq<char>, Seq<char>>) -> bool {
    &&& Some(st.end_stop.x_max) == i32_field(m, "X-max"@)
    &&& Some(st.end_stop.y_max) == i32_field(m, "Y-max"@)
    &&& Some(st.end_stop.z_min) == i32_field(m, "Z-min"@)
    &&& Some(st.machine_status@) == text_field(m, "MachineStatus"@)
    &&& Some(st.move_mode@) == text_field(m, "MoveMode"@)
    &&& text_field(m, "LED"@) is Some
    &&& st.led == (text_field(m, "LED"@) == Some("1"@))
    &&& optional_text(st.current_file) == file_field(m)
}

pub open spec fn status_decodable(m: Map<Seq<char>, Seq<char>>) -> bool {
    &&& i32_field(m, "X-max"@) is Some
    &&& i32_field(m, "Y-max"@) is Some
    &&& i32_field(m, "Z-min"@) is Some
    &&& text_field(m, "MachineStatus"@) is Some
    &&& text_field(m, "MoveMode"@) is Some
    &&& text_field(m, "LED"@) is Some
}

/// `h` is the head position that the entries `m` describe.
pub open spec fn is_head_position_of(h: PrinterHeadPosition, m: Map<Seq<char>, Seq<char>>) -> bool {
    &&& Some(h.x) == decimal_field(m, "X"@)
    &&& Some(h.y) == decimal_field(m, "Y"@)
    &&& Some(h.z) == decimal_field(m, "Z"@)
    &&& Some(h.a) == decimal_field(m, "A"@)
    &&& Some(h.b) == u32_field(m, "B"@)
}

pub open spec fn head_position_decodable(m: Map<Seq<char>, Seq<char>>) -> bool {
    &&& decimal_field(m, "X"@) is Some
    &&& decimal_field(m, "Y"@) is Some
    &&& decimal_field(m, "Z"@) is Some
    &&& decimal_field(m, "A"@) is Some
    &&& u32_field(m, "B"@) is Some
}

/// The pieces of `s` from index `i` on, split at each `/`.
pub open spec fn slash_pieces(s: Seq<char>, i: int) -> Seq<Seq<char>>
    decreases s.len() - i,
{
    if i < 0 || i > s.len() {
        Seq::empty()
    } else {
        proof {
            lemma_find_from_bounds(s, i, '/');
        }
        let j = find_from(s, i, '/');
        if j >= s.len() {
            seq![s.subrange(i, s.len() as int)]
        } else {
            seq![s.subrange(i, j)] + slash_pieces(s, j + 1)
        }
    }
}

/// A reading `current/target`: the value split at `/` into two or more
/// pieces, each a decimal; the first is the current value, the second the
/// target.
pub open spec fn measurement_of(v: Seq<char>) -> Option<TemperatureMeasurement> {
    let ps = slash_pieces(v, 0);
    if ps.len() >= 2 && forall|j: int| 0 <= j < ps.len() ==> (#[trigger] decimal_of(ps[j])) is Some {
        Some(
            TemperatureMeasurement {
                current: decimal_of(ps[0])->0,
                target: decimal_of(ps[1])->0,
            },
        )
    } else {
        None
    }
}

pub open spec fn temperature_decodable(m: Map<Seq<char>, Seq<char>>) -> bool {
    forall|k: Seq<char>| #[trigger] m.contains_key(k) ==> measurement_of(m[k]) is Some
}

/// `t` holds a reading for each entry of `m`, and nothing else.
pub open spec fn is_temperature_of(t: PrinterTemperature, m: Map<Seq<char>, Seq<char>>) -> bool {
    &&& t.0@.dom() == m.dom()
    &&& forall|k: Seq<char>| #[trigger] m.contains_key(k) ==> Some(t.0@[k]) == measurement_of(m[k])
}

/// The `digits/digits` pairs of `s` from index `i` on, left to right; a pair
/// is a maximal run of ASCII digits, `/`, and the maximal run of digits after.
pub open spec fn progress_pairs(s: Seq<char>, i: int) -> Seq<(Seq<char>, Seq<char>)>
    decreases s.len() - i,
{
    if i < 0 || i >= s.len() {
        Seq::empty()
    } else if !in_class(CharClass::Digit, s[i]) {
        progress_pairs(s, i + 1)
    } else {
        proof {
            lemma_run_end_bounds(s, i, CharClass::Digit);
        }
        let d = run_end(s, i, CharClass::Digit);
        if d + 1 < s.len() && s[d] == '/' && in_class(CharClass::Digit, s[d + 1]) {
            proof {
                lemma_run_end_bounds(s, d + 1, CharClass::Digit);
            }
            let e = run_end(s, d + 1, CharClass::Digit);
            seq![(s.subrange(i, d), s.subrange(d + 1, e))] + progress_pairs(s, e)
        } else {
            progress_pairs(s, d)
        }
    }
}

/// The progress in a body: the first pair counts bytes, the second layers.
pub open spec fn progress_of(s: Seq<char>) -> Option<PrinterProgress> {
    let p = progress_pairs(s, 0);
    if p.len() >= 2 {
        match (u32_of(p[0].0), u32_of(p[0].1), u32_of(p[1].0), u32_of(p[1].1)) {
            (Some(a), Some(b), Some(c), Some(d)) => Some(
                PrinterProgress { byte: (a, b), layer: (c, d) },
            ),
            _ => None,
        }
    } else {
        None
    }
}

/// Whether a terminated body `s`, with entries `m`, holds what `req` expects.
pub open spec fn decodable(req: PrinterRequest, s: Seq<char>, m: Map<Seq<char>, Seq<char>>) -> bool {
    match req {
        PrinterRequest::ControlMessage => true,
        PrinterRequest::SetTemperature(_, _) => true,
        PrinterRequest::GetInfo => info_decodable(m),
        PrinterRequest::GetHeadPosition => head_position_decodable(m),
        PrinterRequest::GetTemperature => temperature_decodable(m),
        PrinterRequest::GetProgress => progress_of(s) is Some,
        PrinterRequest::GetStatus => status_decodable(m),
    }
}

/// `resp` is what a terminated body `s`, with entries `m`, decodes to for `req`.
pub open spec fn decodes_as(
    req: PrinterRequest,
    s: Seq<char>,
    m: Map<Seq<char>, Seq<char>>,
    resp: PrinterResponse,
) -> bool {
    match req {
        PrinterRequest::ControlMessage => resp == PrinterResponse::ControlSuccess(
            ControlSuccess { success: true },
        ),
        PrinterRequest::SetTemperature(_, _) => resp == PrinterResponse::ControlSuccess(
            ControlSuccess { success: true },
        ),
        PrinterRequest::GetInfo => resp matches PrinterResponse::PrinterInfo(i) && is_info_of(i, m),
        PrinterRequest::GetHeadPosition => resp matches PrinterResponse::PrinterHeadPosition(h)
            && is_head_position_of(h, m),
        PrinterRequest::GetTemperature => resp matches PrinterResponse::PrinterTemperature(t)
            && is_temperature_of(t, m),
        PrinterRequest::GetProgress => resp == PrinterResponse::PrinterProgress(
            progress_of(s)->0,
        ),
        PrinterRequest::GetStatus => resp matches PrinterResponse::PrinterStatus(st)
            && is_status_of(st, m),
    }
}

/// The outcome of decoding body `s` for `req`.
pub open spec fn decoded(
    req: PrinterRequest,
    s: Seq<char>,
    r: Result<PrinterResponse, ProtocolError>,
) -> bool {
    match kv_pairs(s) {
        None => r == Err::<PrinterResponse, ProtocolError>(ProtocolError::Unterminated),
        Some(p) => if decodable(req, s, pairs_map(p)) {
            r matches Ok(resp) && decodes_as(req, s, pairs_map(p), resp)
        } else {
            r == Err::<PrinterResponse, ProtocolError>(ProtocolError::Malformed)
        },
    }
}

fn get_text<'a>(kv: &'a Table<String>, key: &str) -> (r: Option<&'a String>)
    ensures
        optional_text(
            match r {
                Some(v) => Some(*v),
                None => None,
            },
        ) == text_field(text_map(kv@), key@),
{
    kv.get(key)
}

fn copy_text(kv: &Table<String>, key: &str) -> (r: Option<String>)
    ensures
        optional_text(r) == text_field(text_map(kv@), key@),
{
    match kv.get(key) {
        Some(v) => Some(v.clone()),
        None => None,
    }
}

fn get_i32(kv: &Table<String>, key: &str) -> (r: Option<i32>)
    ensures
        r == i32_field(text_map(kv@), key@),
{
    match kv.get(key) {
        Some(v) => parse_i32(v.as_str()),
        None => None,
    }
}

fn get_u8(kv: &Table<String>, key: &str) -> (r: Option<u8>)
    ensures
        r == u8_field(text_map(kv@), key@),
{
    match kv.get(key) {
        Some(v) => parse_u8(v.as_str()),
        None => None,
    }
}

fn get_u32(kv: &Table<String>, key: &str) -> (r: Option<u32>)
    ensures
        r == u32_field(text_map(kv@), key@),
{
    match kv.get(key) {
        Some(v) => parse_u32(v.as_str()),
        None => None,
    }
}

fn get_decimal(kv: &Table<String>, key: &str) -> (r: Option<Decimal>)
    ensures
        r == decimal_field(text_map(kv@), key@),
{
    match kv.get(key) {
        Some(v) => parse_decimal(v.as_str()),
        None => None,
    }
}

fn decode_info(kv: &Table<String>) -> (r: Option<PrinterInfo>)
    ensures
        match r {
            Some(i) => is_info_of(i, text_map(kv@)),
            None => !info_decodable(text_map(kv@)),
        },
{
    let name = copy_text(kv, "Machine Name");
    let firmware_version = copy_text(kv, "Firmware");
    let sn = copy_text(kv, "SN");
    let tool_count = get_u8(kv, "Tool Count");
    let model_name = copy_text(kv, "Machine Type");
    let mac_addr = copy_text(kv, "Mac Address");
    let x = get_i32(kv, "X");
    let y = get_i32(kv, "Y");
    let z = get_i32(kv, "Z");
    match (name, firmware_version, sn, tool_count, model_name, mac_addr, x, y, z) {
        (
            Some(name),
            Some(firmware_version),
            Some(sn),
            Some(tool_count),
            Some(model_name),
            Some(mac_addr),
            Some(x),
            Some(y),
            Some(z),
        ) => Some(
            PrinterInfo {
                name,
                firmware_version,
                sn,
                tool_count,
                model_name,
                mac_addr,
                position: Position { x, y, z },
            },
        ),
        _ => None,
    }
}

fn decode_status(kv: &Table<String>) -> (r: Option<PrinterStatus>)
    ensures
        match r {
            Some(st) => is_status_of(st, text_map(kv@)),
            None => !status_decodable(text_map(kv@)),
        },
{
    let x_max = get_i32(kv, "X-max");
    let y_max = get_i32(kv, "Y-max");
    let z_min = get_i32(kv, "Z-min");
    let machine_status = copy_text(kv, "MachineStatus");
    let move_mode = copy_text(kv, "MoveMode");
    let led = get_text(kv, "LED");
    let current_file = match get_text(kv, "CurrentFile") {
        Some(f) => if f.as_str().is_empty() {
            None
        } else {
            Some(f.clone())
        },
        None => None,
    };
    match (x_max, y_max, z_min, machine_status, move_mode, led) {
        (Some(x_max), Some(y_max), Some(z_min), Some(machine_status), Some(move_mode), Some(led)) => {
            let one = String::from_str("1");
            Some(
                PrinterStatus {
                    end_stop: EndStopPosition { x_max, y_max, z_min },
                    machine_status,
                    move_mode,
                    led: *led == one,
                    current_file,
                },
            )
        },
        _ => None,
    }
}

fn decode_head_position(kv: &Table<String>) -> (r: Option<PrinterHeadPosition>)
    ensures
        match r {
            Some(h) => is_head_position_of(h, text_map(kv@)),
            None => !head_position_decodable(text_map(kv@)),
        },
{
    let x = get_decimal(kv, "X");
    let y = get_decimal(kv, "Y");
    let z = get_decimal(kv, "Z");
    let a = get_decimal(kv, "A");
    let b = get_u32(kv, "B");
    match (x, y, z, a, b) {
        (Some(x), Some(y), Some(z), Some(a), Some(b)) => Some(PrinterHeadPosition { x, y, z, a, b }),
        _ => None,
    }
}

/// Reads a `current/target` reading.
pub fn parse_measurement(v: &str) -> (r: Option<TemperatureMeasurement>)
    ensures
        r == measurement_of(v@),
{
    let cs = chars_of(v);
    let ghost s = cs@;
    let n = cs.len();
    let zero = Decimal { negative: false, mantissa: 0, scale: 0 };
    let mut first = zero;
    let mut second = zero;
    let mut count: usize = 0;
    let mut i: usize = 0;
    let ghost mut done: Seq<Seq<char>> = Seq::empty();
    assert(slash_pieces(s, 0) =~= done + slash_pieces(s, 0));
    loop
        invariant_except_break
            0 <= i <= n,
            slash_pieces(s, 0) == done + slash_pieces(s, i as int),
        invariant
            s == cs@,
            s == v@,
            n == s.len(),
            forall|j: int| 0 <= j < done.len() ==> (#[trigger] decimal_of(done[j])) is Some,
            count as int == (if done.len() < 2 { done.len() as int } else { 2 }),
            done.len() >= 1 ==> Some(first) == decimal_of(done[0]),
            done.len() >= 2 ==> Some(second) == decimal_of(done[1]),
        ensures
            slash_pieces(s, 0) == done,
        decreases n - i,
    {
        let j = find_char(&cs, i, '/');
        proof {
            lemma_find_from_bounds(s, i as int, '/');
        }
        let mut piece: Vec<char> = Vec::new();
        let mut k = i;
        while k < j
            invariant
                i <= k <= j <= n == cs@.len(),
                piece@ == cs@.subrange(i as int, k as int),
            decreases j - k,
        {
            piece.push(cs[k]);
            k = k + 1;
        }
        let d = decimal_of_chars(&piece);
        let ghost p = piece@;
        match d {
            None => {
                proof {
                    let ps = slash_pieces(s, 0);
                    assert(slash_pieces(s, i as int)[0] == p);
                    assert(ps[done.len() as int] == p);
                }
                return None;
            },
            Some(dv) => {
                if count == 0 {
                    first = dv;
                    count = 1;
                } else if count == 1 {
                    second = dv;
                    count = 2;
                }
                let ghost old_done = done;
                proof {
                    done = done.push(p);
                    assert(done[old_done.len() as int] == p);
                    assert forall|q: int| 0 <= q < done.len() implies (#[trigger] decimal_of(
                        done[q],
                    )) is Some by {
                        if q < old_done.len() {
                            assert(done[q] == old_done[q]);
                        }
                    }
                    if old_done.len() >= 1 {
                        assert(done[0] == old_done[0]);
                    }
                    if old_done.len() >= 2 {
                        assert(done[1] == old_done[1]);
                    }
                }
                if j >= n {
                    assert(slash_pieces(s, i as int) =~= seq![p]);
                    assert(old_done + seq![p] =~= done);
                    break;
                }
                proof {
                    let rest = slash_pieces(s, j + 1);
                    assert(slash_pieces(s, i as int) == seq![p] + rest);
                    assert(old_done + (seq![p] + rest) =~= done + rest);
                }
                i = j + 1;
            },
        }
    }
    if count == 2 {
        Some(TemperatureMeasurement { current: first, target: second })
    } else {
        None
    }
}

fn decode_temperature(kv: &Table<String>) -> (r: Option<PrinterTemperature>)
    ensures
        match r {
            Some(t) => is_temperature_of(t, text_map(kv@)),
            None => !temperature_decodable(text_map(kv@)),
        },
{
    let entries = kv.entries();
    let ghost e = entries@;
    let ghost m = text_map(kv@);
    let mut out: Table<TemperatureMeasurement> = Table::new();
    let mut i: usize = 0;
    while i < entries.len()
        invariant
            e == entries@,
            m == text_map(kv@),
            keys_distinct(e),
            entries_map(e) == kv@,
            0 <= i <= e.len(),
            forall|k: Seq<char>|
                out@.contains_key(k) <==> exists|j: int| 0 <= j < i && (#[trigger] e[j]).0@ == k,
            forall|j: int|
                0 <= j < i ==> Some(out@[(#[trigger] e[j]).0@]) == measurement_of(e[j].1@),
        decreases e.len() - i,
    {
        let ghost old_out = out@;
        match parse_measurement(entries[i].1.as_str()) {
            None => {
                proof {
                    lemma_entries_map_value(e, i as int);
                    assert(m.contains_key(e[i as int].0@));
                }
                return None;
            },
            Some(t) => {
                out.insert(entries[i].0.clone(), t);
                proof {
                    assert forall|k: Seq<char>| out@.contains_key(k) <==> exists|j: int|
                        0 <= j < i + 1 && (#[trigger] e[j]).0@ == k by {
                        if k == e[i as int].0@ {
                            assert(e[i as int].0@ == k);
                        }
                    }
                    assert forall|j: int| 0 <= j < i + 1 implies Some(
                        out@[(#[trigger] e[j]).0@],
                    ) == measurement_of(e[j].1@) by {
                        if j < i {
                            assert(e[j].0@ != e[i as int].0@);
                        }
                    }
                }
            },
        }
        i = i + 1;
    }
    proof {
        assert forall|k: Seq<char>| #[trigger] m.contains_key(k) implies out@.contains_key(k) && Some(
            out@[k],
        ) == measurement_of(m[k]) by {
            lemma_entries_map_keys(e, k);
            let j = choose|j: int| 0 <= j < e.len() && (#[trigger] e[j]).0@ == k;
            lemma_entries_map_value(e, j);
        }
        assert forall|k: Seq<char>| out@.contains_key(k) implies #[trigger] m.contains_key(k) by {
            let j = choose|j: int| 0 <= j < e.len() && (#[trigger] e[j]).0@ == k;
            lemma_entries_map_value(e, j);
        }
        assert(out@.dom() =~= m.dom());
    }
    Some(PrinterTemperature(out))
}

/// The first `digits/digits` pair at or after `from`: the start of its first
/// run, the index of its `/`, and the end of its second run.
fn next_progress_pair(cs: &Vec<char>, from: usize) -> (r: Option<(usize, usize, usize)>)
    requires
        from <= cs@.len(),
    ensures
        match r {
            None => progress_pairs(cs@, from as int).len() == 0,
            Some((a, d, e)) => a < d && d + 1 < e <= cs@.len() && progress_pairs(cs@, from as int) == seq![
                (cs@.subrange(a as int, d as int), cs@.subrange(d + 1, e as int)),
            ] + progress_pairs(cs@, e as int) && in_class(CharClass::Digit, cs@[a as int])
                && in_class(CharClass::Digit, cs@[d + 1]),
        },
{
    let ghost s = cs@;
    let n = cs.len();
    let mut i = from;
    while i < n
        invariant
            s == cs@,
            n == s.len(),
            from <= i <= n,
            progress_pairs(s, from as int) == progress_pairs(s, i as int),
        decreases n - i,
    {
        if !char_in_class(CharClass::Digit, cs[i]) {
            i = i + 1;
        } else {
            proof {
                lemma_run_end_bounds(s, i as int, CharClass::Digit);
            }
            let d = find_run_end(cs, i, CharClass::Digit);
            if d < n && d + 1 < n && cs[d] == '/' && char_in_class(CharClass::Digit, cs[d + 1]) {
                proof {
                    lemma_run_end_bounds(s, d + 1, CharClass::Digit);
                }
                let e = find_run_end(cs, d + 1, CharClass::Digit);
                return Some((i, d, e));
            }
            i = d;
        }
    }
    None
}

/// Reads the digits `cs[from..to]`, which start with a digit, as a `u32`.
fn u32_in(cs: &Vec<char>, from: usize, to: usize) -> (r: Option<u32>)
    requires
        from < to <= cs@.len(),
        in_class(CharClass::Digit, cs@[from as int]),
    ensures
        r == u32_of(cs@.subrange(from as int, to as int)),
{
    assert(cs@.subrange(from as int, to as int)[0] == cs@[from as int]);
    match digits_up_to(cs, from, to, 0xffff_ffff) {
        Some(v) => Some(v as u32),
        None => None,
    }
}

fn decode_progress(input: &str) -> (r: Option<PrinterProgress>)
    ensures
        r == progress_of(input@),
{
    let cs = chars_of(input);
    let ghost s = cs@;
    match next_progress_pair(&cs, 0) {
        None => None,
        Some((a0, d0, e0)) => {
            match next_progress_pair(&cs, e0) {
                None => None,
                Some((a1, d1, e1)) => {
                    let ghost p = progress_pairs(s, 0);
                    assert(p[0] == (s.subrange(a0 as int, d0 as int), s.subrange(d0 + 1, e0 as int)));
                    assert(p[1] == (s.subrange(a1 as int, d1 as int), s.subrange(d1 + 1, e1 as int)));
                    let a = u32_in(&cs, a0, d0);
                    let b = u32_in(&cs, d0 + 1, e0);
                    let c = u32_in(&cs, a1, d1);
                    let d = u32_in(&cs, d1 + 1, e1);
                    match (a, b, c, d) {
                        (Some(a), Some(b), Some(c), Some(d)) => Some(
                            PrinterProgress { byte: (a, b), layer: (c, d) },
                        ),
                        _ => None,
                    }
                },
            }
        },
    }
}

impl PrinterRequest {
    /// Decodes the body that answered this request.
    pub fn parse_response(&self, input: &str) -> (r: Result<PrinterResponse, ProtocolError>)
        ensures
            decoded(*self, input@, r),
    {
        let kv = match parse_kv(input) {
            Ok(kv) => kv,
            Err(e) => {
                return Err(e);
            },
        };
        let ghost m = text_map(kv@);
        match self {
            PrinterRequest::ControlMessage => Ok(
                PrinterResponse::ControlSuccess(ControlSuccess { success: true }),
            ),
            PrinterRequest::SetTemperature(_, _) => Ok(
                PrinterResponse::ControlSuccess(ControlSuccess { success: true }),
            ),
            PrinterRequest::GetInfo => match decode_info(&kv) {
                Some(i) => Ok(PrinterResponse::PrinterInfo(i)),
                None => Err(ProtocolError::Malformed),
            },
            PrinterRequest::GetHeadPosition => match decode_head_position(&kv) {
                Some(h) => Ok(PrinterResponse::PrinterHeadPosition(h)),
                None => Err(ProtocolError::Malformed),
            },
            PrinterRequest::GetTemperature => match decode_temperature(&kv) {
                Some(t) => Ok(PrinterResponse::PrinterTemperature(t)),
                None => Err(ProtocolError::Malformed),
            },
            PrinterRequest::GetProgress => match decode_progress(input) {
                Some(p) => Ok(PrinterResponse::PrinterProgress(p)),
                None => Err(ProtocolError::Malformed),
            },
            PrinterRequest::GetStatus => match decode_status(&kv) {
                Some(st) => Ok(PrinterResponse::PrinterStatus(st)),
                None => Err(ProtocolError::Malformed),
            },
        }
    }

    /// The command mnemonic of this request.
    pub fn get_gcode(&self) -> (r: String)
        ensures
            r@ == gcode_of(*self),
    {
        match self {
            PrinterRequest::ControlMessage => String::from_str("~M601 S1"),
            PrinterRequest::GetInfo => String::from_str("~M115"),
            PrinterRequest::GetHeadPosition => String::from_str("~M114"),
            PrinterRequest::GetTemperature => String::from_str("~M105"),
            PrinterRequest::GetProgress => String::from_str("~M27"),
            PrinterRequest::GetStatus => String::from_str("~M119"),
            PrinterRequest::SetTemperature(index, temp) => {
                let mut s = String::from_str("~M104 S");
                let t = temp.to_text();
                s.append(t.as_str());
                s.append(" T");
                push_decimal(&mut s, *index as u64);
                s
            },
        }
    }

    /// The line to send for this request: its mnemonic followed by CRLF.
    pub fn get_instruction(&self) -> (r: String)
        ensures
            r@ == instruction_of(*self),
    {
        let mut s = self.get_gcode();
        s.append("\r\n");
        s
    }
}

} // verus!
