//! One printer as the library keeps it: its identity, whether it answered
//! the last status request, what it is printing; the exchange of one request
//! on a connection; and the decisions of its camera multiplexer.
use vstd::prelude::*;
use vstd::string::StringExecFns;
use crate::error::{PrinterError, ProtocolError};
use crate::kv::kv_pairs;
use crate::models::{CachedPrinterInfo, PrinterInfo, PrinterStatus};
use crate::protocol::{PrinterRequest, PrinterResponse, decoded, instruction_of, optional_text};
use crate::text::{chars_of, nat_text, push_decimal};

verus! {

/// The TCP port of the device's command interface.
pub const PRINTER_API_PORT: u16 = 8899;

/// The TCP port of the device's camera server.
pub const PRINTER_CAM_PORT: u16 = 8080;

/// What the library knows of a printer, in mathematical terms.
pub struct PrinterView {
    pub name: Seq<char>,
    pub ip: Seq<char>,
    pub online: bool,
    pub current_file: Option<Seq<char>>,
    pub info: Option<PrinterInfo>,
}

/// A printer: its name and address, its identity once fetched, and what its
/// last status refresh found.
#[derive(Debug)]
pub struct Printer {
    name: String,
    ip: String,
    info: Option<PrinterInfo>,
    is_online: bool,
    current_file: Option<String>,
}

impl View for Printer {
    type V = PrinterView;

    closed spec fn view(&self) -> PrinterView {
        PrinterView {
            name: self.name@,
            ip: self.ip@,
            online: self.is_online,
            current_file: optional_text(self.current_file),
            info: self.info,
        }
    }
}

/// The host part of a URL for an address: an IPv6 address goes in brackets.
pub open spec fn url_host(ip: Seq<char>) -> Seq<char> {
    if ip.contains(':') {
        seq!['['] + ip + seq![']']
    } else {
        ip
    }
}

/// The URL of a printer's MJPEG stream.
pub open spec fn camera_url_of(ip: Seq<char>) -> Seq<char> {
    "http://"@ + url_host(ip) + seq![':'] + nat_text(PRINTER_CAM_PORT as nat) + "/?action=stream"@
}

impl Printer {
    /// A printer not yet heard from: offline, printing nothing, identity
    /// unknown. `ip` is the textual form of its address.
    pub fn new(name: String, ip: String) -> (r: Printer)
        ensures
            r@ == (PrinterView {
                name: name@,
                ip: ip@,
                online: false,
                current_file: None,
                info: None,
            }),
    {
        Printer { name, ip, info: None, is_online: false, current_file: None }
    }

    pub fn name(&self) -> (r: &str)
        ensures
            r@ == self@.name,
    {
        self.name.as_str()
    }

    pub fn ip(&self) -> (r: &str)
        ensures
            r@ == self@.ip,
    {
        self.ip.as_str()
    }

    /// Whether the last status refresh succeeded.
    pub fn online(&self) -> (r: bool)
        ensures
            r == self@.online,
    {
        self.is_online
    }

    /// The file being printed, as the last successful status refresh found it.
    pub fn current_file(&self) -> (r: &Option<String>)
        ensures
            optional_text(*r) == self@.current_file,
    {
        &self.current_file
    }

    /// The identity, once fetched.
    pub fn info(&self) -> (r: &Option<PrinterInfo>)
        ensures
            *r == self@.info,
    {
        &self.info
    }

    /// Whether the identity is still to be fetched. Until one fetch succeeds,
    /// each access tries again; after that it is kept for good.
    pub fn needs_info(&self) -> (r: bool)
        ensures
            r == (self@.info is None),
    {
        self.info.is_none()
    }

    /// Takes the outcome of an identity fetch: a success is kept unless an
    /// identity is already held; a failure changes nothing. Returns whether
    /// the identity is now known.
    pub fn get_meta(&mut self, fetched: Result<PrinterInfo, PrinterError>) -> (r: bool)
        ensures
            final(self)@ == (PrinterView {
                info: match (old(self)@.info, fetched) {
                    (Some(i), _) => Some(i),
                    (None, Ok(i)) => Some(i),
                    (None, Err(_)) => None,
                },
                ..old(self)@
            }),
            r == (final(self)@.info is Some),
    {
        if self.info.is_none() {
            if let Ok(info) = fetched {
                self.info = Some(info);
            }
        }
        self.info.is_some()
    }

    /// Takes the outcome of a status request. On success the printer is
    /// online and its current file is the one reported; on failure it is
    /// offline, its current file unchanged, and the refresh fails with
    /// `Offline`.
    pub fn refresh_status(&mut self, fetched: Result<PrinterStatus, PrinterError>) -> (r: Result<
        (),
        PrinterError,
    >)
        ensures
            match fetched {
                Ok(st) => r is Ok && final(self)@ == (PrinterView {
                    online: true,
                    current_file: optional_text(st.current_file),
                    ..old(self)@
                }),
                Err(_) => r matches Err(PrinterError::Offline) && final(self)@ == (PrinterView {
                    online: false,
                    ..old(self)@
                }),
            },
    {
        match fetched {
            Ok(status) => {
                self.current_file = status.current_file;
                self.is_online = true;
                Ok(())
            },
            Err(_) => {
                self.is_online = false;
                Err(PrinterError::Offline)
            },
        }
    }

    /// What callers may read without asking the printer.
    pub fn summary(&self) -> (r: CachedPrinterInfo)
        ensures
            r.name@ == self@.name,
            r.is_online == self@.online,
            optional_text(r.current_file) == self@.current_file,
            r.firmware_version is None,
    {
        let current_file = match &self.current_file {
            Some(f) => Some(f.clone()),
            None => None,
        };
        CachedPrinterInfo {
            name: self.name.clone(),
            is_online: self.is_online,
            current_file,
            firmware_version: None,
        }
    }

    /// The URL of the printer's MJPEG stream.
    pub fn camera_url(&self) -> (r: String)
        ensures
            r@ == camera_url_of(self@.ip),
    {
        let cs = chars_of(self.ip.as_str());
        let mut is_v6 = false;
        let mut i: usize = 0;
        while i < cs.len()
            invariant
                cs@ == self.ip@,
                0 <= i <= cs@.len(),
                is_v6 == (exists|j: int| 0 <= j < i && cs@[j] == ':'),
            decreases cs@.len() - i,
        {
            if cs[i] == ':' {
                is_v6 = true;
            }
            i = i + 1;
        }
        assert(is_v6 == self.ip@.contains(':'));
        let mut r = String::from_str("http://");
        if is_v6 {
            r.push('[');
            r.append(self.ip.as_str());
            r.push(']');
        } else {
            r.append(self.ip.as_str());
        }
        r.push(':');
        push_decimal(&mut r, PRINTER_CAM_PORT as u64);
        r.append("/?action=stream");
        assert(r@ =~= camera_url_of(self@.ip));
        r
    }
}

/// One request on one connection: the handshake is sent and answered first,
/// then the request itself.
#[derive(Clone, Copy, Debug)]
pub struct Exchange {
    request: PrinterRequest,
    handshaken: bool,
}

impl Exchange {
    pub fn new(request: PrinterRequest) -> (r: Exchange)
        ensures
            r.request() == request,
            !r.handshaken(),
    {
        Exchange { request, handshaken: false }
    }

    pub closed spec fn request(self) -> PrinterRequest {
        self.request
    }

    pub closed spec fn handshaken(self) -> bool {
        self.handshaken
    }

    /// The request whose line goes out next.
    pub open spec fn pending(self) -> PrinterRequest {
        if self.handshaken() {
            self.request()
        } else {
            PrinterRequest::ControlMessage
        }
    }

    /// The line to send next.
    pub fn instruction(&self) -> (r: String)
        ensures
            r@ == instruction_of(self.pending()),
    {
        if self.handshaken {
            self.request.get_instruction()
        } else {
            PrinterRequest::ControlMessage.get_instruction()
        }
    }

    /// Takes the body that answered the line just sent. After the handshake's
    /// answer: `None` to go on with the request, or the handshake's decoding
    /// error. After the request's answer: its decoding.
    pub fn on_response(&mut self, body: &str) -> (r: Option<Result<PrinterResponse, ProtocolError>>)
        ensures
            final(self).request() == old(self).request(),
            old(self).handshaken() ==> (r matches Some(d) && decoded(old(self).request(), body@, d)
                && final(self).handshaken()),
            !old(self).handshaken() ==> (match kv_pairs(body@) {
                None => r == Some(
                    Err::<PrinterResponse, ProtocolError>(ProtocolError::Unterminated),
                ) && !final(self).handshaken(),
                Some(_) => r is None && final(self).handshaken(),
            }),
    {
        if self.handshaken {
            Some(self.request.parse_response(body))
        } else {
            match PrinterRequest::ControlMessage.parse_response(body) {
                Ok(_) => {
                    self.handshaken = true;
                    None
                },
                Err(e) => Some(Err(e)),
            }
        }
    }
}

/// The decisions of a camera multiplexer: at most one upstream connection
/// runs per printer, whatever the number of viewers.
#[derive(Clone, Copy, Debug)]
pub struct CameraMux {
    upstream: bool,
}

impl CameraMux {
    pub fn new() -> (r: CameraMux)
        ensures
            !r.upstream_started(),
    {
        CameraMux { upstream: false }
    }

    /// Whether an upstream task has been started (it may since have ended).
    pub closed spec fn upstream_started(self) -> bool {
        self.upstream
    }

    /// A new viewer subscribes; `upstream_finished` tells whether the task
    /// last started has ended. Returns whether a new upstream task must be
    /// started: when none was, or the last one ended.
    pub fn subscribe(&mut self, upstream_finished: bool) -> (spawn: bool)
        ensures
            spawn == spawns(old(self).upstream_started(), upstream_finished),
            final(self).upstream_started(),
    {
        let spawn = !self.upstream || upstream_finished;
        self.upstream = true;
        spawn
    }
}

/// Whether a subscription starts an upstream task, given whether one was
/// started before and whether it has ended.
pub open spec fn spawns(started: bool, finished: bool) -> bool {
    !started || finished
}

/// Two subscriptions in a row, with no upstream task ending in between, start
/// exactly one upstream task where none was running, and none where one was:
/// after the first the task counts as started, so the second starts nothing.
pub proof fn lemma_single_upstream(started: bool, finished: bool)
    ensures
        !spawns(true, false),
        spawns(started, finished) <==> !(started && !finished),
{
}

/// The most recent camera frame: one slot, overwritten by each new frame.
#[derive(Clone, Debug)]
pub struct FrameCache {
    frame: Option<Vec<u8>>,
}

impl FrameCache {
    pub fn new() -> (r: FrameCache)
        ensures
            r.latest_frame() is None,
    {
        FrameCache { frame: None }
    }

    pub closed spec fn latest_frame(self) -> Option<Seq<u8>> {
        match self.frame {
            Some(f) => Some(f@),
            None => None,
        }
    }

    /// Keeps `frame` in place of the one held.
    pub fn store(&mut self, frame: Vec<u8>)
        ensures
            final(self).latest_frame() == Some(frame@),
    {
        self.frame = Some(frame);
    }

    pub fn latest(&self) -> (r: &Option<Vec<u8>>)
        ensures
            self.latest_frame() == match *r {
                Some(f) => Some(f@),
                None => None::<Seq<u8>>,
            },
    {
        &self.frame
    }
}

} // verus!
