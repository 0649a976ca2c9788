//! The registry of printers, the ledger that keeps completion notifications
//! to one per printed file, and the composition of notifications.
use vstd::prelude::*;
use vstd::string::StringExecFns;
use crate::config::EmailConfig;
use crate::kv::text_map;
use crate::models::PrinterProgress;
use crate::printer::{Printer, PrinterView};
use crate::table::{Table, entries_map, keys_distinct, lemma_entries_map_keys, lemma_entries_map_value};

verus! {

/// The kinds of event that are notified.
#[derive(Clone, Copy, Debug, PartialEq, Eq, Structural)]
pub enum NotificationType {
    PrintComplete,
}

pub open spec fn subject_of(t: NotificationType, p: PrinterView) -> Seq<char> {
    match t {
        NotificationType::PrintComplete => "Print complete on "@ + p.name,
    }
}

pub open spec fn message_of(t: NotificationType, p: PrinterView) -> Seq<char> {
    match t {
        NotificationType::PrintComplete => "File: "@ + match p.current_file {
            Some(f) => f,
            None => "(None)"@,
        } + "\nIP: "@ + p.ip + "\n"@,
    }
}

impl NotificationType {
    /// The subject line: the event and the printer's name.
    pub fn get_subject(&self, printer: &Printer) -> (r: String)
        ensures
            r@ == subject_of(*self, printer@),
    {
        match self {
            NotificationType::PrintComplete => {
                let mut s = String::from_str("Print complete on ");
                s.append(printer.name());
                s
            },
        }
    }

    /// The body: the file being printed and the printer's address.
    pub fn get_message(&self, printer: &Printer) -> (r: String)
        ensures
            r@ == message_of(*self, printer@),
    {
        match self {
            NotificationType::PrintComplete => {
                let mut s = String::from_str("File: ");
                match printer.current_file() {
                    Some(f) => s.append(f.as_str()),
                    None => s.append("(None)"),
                }
                s.append("\nIP: ");
                s.append(printer.ip());
                s.append("\n");
                s
            },
        }
    }
}

/// A layer count that has reached its total means the print is done.
pub open spec fn is_complete(p: PrinterProgress) -> bool {
    p.layer.0 >= p.layer.1
}

/// Whether a completion notification is due: the printer is online, prints
/// a file, has done all layers, and was not yet notified for that file.
pub open spec fn notification_due(
    ledger: Map<Seq<char>, Seq<char>>,
    p: PrinterView,
    progress: PrinterProgress,
) -> bool {
    &&& p.online
    &&& p.current_file is Some
    &&& is_complete(progress)
    &&& !(ledger.contains_key(p.name) && ledger[p.name] == p.current_file->0)
}

/// The ledger after a completion check: a due notification records the file.
pub open spec fn ledger_after(
    ledger: Map<Seq<char>, Seq<char>>,
    p: PrinterView,
    progress: PrinterProgress,
) -> Map<Seq<char>, Seq<char>> {
    if notification_due(ledger, p, progress) {
        ledger.insert(p.name, p.current_file->0)
    } else {
        ledger
    }
}

/// For each printer, the last file that a completion notification was sent
/// for.
#[derive(Debug)]
pub struct NotificationLedger {
    sent: Table<String>,
}

impl View for NotificationLedger {
    type V = Map<Seq<char>, Seq<char>>;

    closed spec fn view(&self) -> Map<Seq<char>, Seq<char>> {
        text_map(self.sent@)
    }
}

impl NotificationLedger {
    pub fn new() -> (r: NotificationLedger)
        ensures
            r@ == Map::<Seq<char>, Seq<char>>::empty(),
    {
        let r = NotificationLedger { sent: Table::new() };
        assert(r@ =~= Map::<Seq<char>, Seq<char>>::empty());
        r
    }

    /// The file last notified for a printer.
    pub fn last_notified(&self, printer_id: &str) -> (r: Option<&String>)
        ensures
            match r {
                Some(f) => self@.contains_key(printer_id@) && self@[printer_id@] == f@,
                None => !self@.contains_key(printer_id@),
            },
    {
        self.sent.get(printer_id)
    }

    /// An independent copy.
    pub fn copy(&self) -> (r: NotificationLedger)
        ensures
            r@ == self@,
    {
        let entries = self.sent.entries();
        let ghost e = entries@;
        let mut out: Table<String> = Table::new();
        let mut i: usize = 0;
        while i < entries.len()
            invariant
                e == entries@,
                keys_distinct(e),
                entries_map(e) == self.sent@,
                0 <= i <= e.len(),
                forall|k: Seq<char>|
                    out@.contains_key(k) <==> exists|j: int| 0 <= j < i && (#[trigger] e[j]).0@ == k,
                forall|j: int| 0 <= j < i ==> out@[(#[trigger] e[j]).0@]@ == e[j].1@,
            decreases e.len() - i,
        {
            out.insert(entries[i].0.clone(), entries[i].1.clone());
            proof {
                assert forall|k: Seq<char>| out@.contains_key(k) <==> exists|j: int|
                    0 <= j < i + 1 && (#[trigger] e[j]).0@ == k by {
                    if k == e[i as int].0@ {
                        assert(e[i as int].0@ == k);
                    }
                }
                assert forall|j: int| 0 <= j < i + 1 implies out@[(#[trigger] e[j]).0@]@
                    == e[j].1@ by {
                    if j < i {
                        assert(e[j].0@ != e[i as int].0@);
                    }
                }
            }
            i = i + 1;
        }
        let r = NotificationLedger { sent: out };
        proof {
            assert forall|k: Seq<char>| #[trigger] self@.contains_key(k) implies r@.contains_key(k)
                && r@[k] == self@[k] by {
                lemma_entries_map_keys(e, k);
                let j = choose|j: int| 0 <= j < e.len() && (#[trigger] e[j]).0@ == k;
                lemma_entries_map_value(e, j);
            }
            assert forall|k: Seq<char>| #[trigger] r@.contains_key(k) implies self@.contains_key(k) by {
                let j = choose|j: int| 0 <= j < e.len() && (#[trigger] e[j]).0@ == k;
                lemma_entries_map_value(e, j);
            }
            assert(r@ =~= self@);
        }
        r
    }

    /// Decides whether `printer` is due a completion notification, given its
    /// progress, and if so records its current file as notified.
    pub fn check_completion(&mut self, printer: &Printer, progress: &PrinterProgress) -> (notify:
        bool)
        ensures
            notify == notification_due(old(self)@, printer@, *progress),
            final(self)@ == ledger_after(old(self)@, printer@, *progress),
    {
        if !printer.online() || progress.layer.0 < progress.layer.1 {
            return false;
        }
        match printer.current_file() {
            None => false,
            Some(file) => {
                let notified = match self.sent.get(printer.name()) {
                    Some(last) => *last == *file,
                    None => false,
                };
                if notified {
                    false
                } else {
                    let ghost old_sent = self.sent@;
                    let name = String::from_str(printer.name());
                    self.sent.insert(name, file.clone());
                    assert(text_map(self.sent@) =~= text_map(old_sent).insert(
                        printer@.name,
                        file@,
                    ));
                    true
                }
            },
        }
    }
}

/// Checking the same printer twice in a row, with the same progress, gives at
/// most one notification: the first check records the file, so the second
/// finds it notified.
pub proof fn lemma_completion_idempotent(
    ledger: Map<Seq<char>, Seq<char>>,
    p: PrinterView,
    progress: PrinterProgress,
)
    ensures
        !notification_due(ledger_after(ledger, p, progress), p, progress),
        ledger_after(ledger_after(ledger, p, progress), p, progress) == ledger_after(
            ledger,
            p,
            progress,
        ),
{
}

/// Once a printer's completed file has been checked (and so notified, now or
/// before), moving on to another file and completing it gives exactly one
/// new notification: the first check of the new file notifies, a second
/// check does not.
pub proof fn lemma_new_file_notified_once(
    ledger: Map<Seq<char>, Seq<char>>,
    p: PrinterView,
    progress: PrinterProgress,
    next_file: Seq<char>,
)
    requires
        p.online,
        p.current_file is Some,
        p.current_file != Some(next_file),
        is_complete(progress),
    ensures
        ({
            let first = ledger_after(ledger, p, progress);
            let q = PrinterView { current_file: Some(next_file), ..p };
            let second = ledger_after(first, q, progress);
            &&& first[p.name] == p.current_file->0
            &&& notification_due(first, q, progress)
            &&& second[p.name] == next_file
            &&& !notification_due(second, q, progress)
        }),
{
}

/// The registry: each printer's handle by id, and the notification ledger.
/// `H` is how callers hold a printer (behind their own lock).
#[derive(Debug)]
pub struct Printers<H> {
    printers: Table<H>,
    notification_sent: NotificationLedger,
}

impl<H> Printers<H> {
    pub closed spec fn devices(&self) -> Map<Seq<char>, H> {
        self.printers@
    }

    pub closed spec fn notifications(&self) -> Map<Seq<char>, Seq<char>> {
        self.notification_sent@
    }

    pub fn new() -> (r: Printers<H>)
        ensures
            r.devices() == Map::<Seq<char>, H>::empty(),
            r.notifications() == Map::<Seq<char>, Seq<char>>::empty(),
    {
        Printers { printers: Table::new(), notification_sent: NotificationLedger::new() }
    }

    /// The ids of the printers, each once.
    pub fn get_printer_names(&self) -> (r: Vec<String>)
        ensures
            r@.len() == self.devices().dom().len(),
            forall|i: int, j: int| 0 <= i < j < r@.len() ==> (#[trigger] r@[i])@ != (#[trigger] r@[j])@,
            forall|k: Seq<char>|
                self.devices().contains_key(k) <==> exists|i: int|
                    0 <= i < r@.len() && (#[trigger] r@[i])@ == k,
    {
        self.printers.keys()
    }

    /// The handles of all printers, one for each id.
    pub fn printers(&self) -> (r: Vec<&H>)
        ensures
            r@.len() == self.devices().dom().len(),
            forall|i: int|
                #![trigger r@[i]]
                0 <= i < r@.len() ==> exists|k: Seq<char>|
                    #![trigger self.devices()[k]]
                    self.devices().contains_key(k) && self.devices()[k] == *r@[i],
            forall|k: Seq<char>|
                #[trigger] self.devices().contains_key(k) ==> exists|i: int|
                    0 <= i < r@.len() && *r@[i] == self.devices()[k],
    {
        let entries = self.printers.entries();
        let ghost e = entries@;
        proof {
            crate::table::lemma_entries_map_len(e);
        }
        let mut r: Vec<&H> = Vec::new();
        let mut i: usize = 0;
        while i < entries.len()
            invariant
                e == entries@,
                keys_distinct(e),
                entries_map(e) == self.printers@,
                0 <= i <= e.len(),
                r@.len() == i,
                forall|j: int| 0 <= j < i ==> *r@[j] == (#[trigger] e[j]).1,
            decreases e.len() - i,
        {
            r.push(&entries[i].1);
            i = i + 1;
        }
        proof {
            assert forall|j: int| #![trigger r@[j]] 0 <= j < r@.len() implies exists|k: Seq<char>|
                #![trigger self.devices()[k]]
                self.devices().contains_key(k) && self.devices()[k] == *r@[j] by {
                lemma_entries_map_value(e, j);
                assert(*r@[j] == e[j].1);
                assert(self.devices()[e[j].0@] == *r@[j]);
            }
            assert forall|k: Seq<char>| #[trigger] self.devices().contains_key(k) implies exists|
                j: int,
            | 0 <= j < r@.len() && *r@[j] == self.devices()[k] by {
                lemma_entries_map_keys(e, k);
                let j = choose|j: int| 0 <= j < e.len() && (#[trigger] e[j]).0@ == k;
                lemma_entries_map_value(e, j);
                assert(*r@[j] == e[j].1);
            }
        }
        r
    }

    pub fn get_printer(&self, id: &str) -> (r: Option<&H>)
        ensures
            r == (if self.devices().contains_key(id@) {
                Some(&self.devices()[id@])
            } else {
                None
            }),
    {
        self.printers.get(id)
    }

    /// Registers a printer under `id`, replacing one registered under it.
    pub fn add_printer(&mut self, id: String, printer: H)
        ensures
            final(self).devices() == old(self).devices().insert(id@, printer),
            final(self).notifications() == old(self).notifications(),
    {
        self.printers.insert(id, printer);
    }

    /// A copy of the ledger, to be worked on without holding the registry.
    pub fn notification_snapshot(&self) -> (r: NotificationLedger)
        ensures
            r@ == self.notifications(),
    {
        self.notification_sent.copy()
    }

    /// Puts back a ledger worked on since its snapshot.
    pub fn commit_notifications(&mut self, ledger: NotificationLedger)
        ensures
            final(self).notifications() == ledger@,
            final(self).devices() == old(self).devices(),
    {
        self.notification_sent = ledger;
    }
}

/// The name the camera frame is attached under.
pub open spec fn image_file_name() -> Seq<char> {
    "printer_image.jpg"@
}

/// An email notification, ready to hand to a mail transport.
#[derive(Clone, Debug)]
pub struct EmailMessage {
    pub from: String,
    pub subject: String,
    pub body: String,
    /// A JPEG camera frame, attached as `printer_image.jpg`.
    pub attachment: Option<Vec<u8>>,
    pub bcc: Vec<String>,
}

/// A webhook notification, ready to be serialised and posted.
#[derive(Clone, Debug)]
pub struct WebhookPayload {
    pub username: String,
    pub title: String,
    pub description: String,
    /// Where the attached camera frame is found, when one is attached.
    pub image_url: Option<String>,
}

/// One message for all `emails`, blind-copied, sent from the SMTP user, with
/// the camera frame attached when there is one.
pub fn compose_email(
    smtp: &EmailConfig,
    notification_type: NotificationType,
    printer: &Printer,
    image: Option<Vec<u8>>,
    emails: &Vec<String>,
) -> (r: EmailMessage)
    ensures
        r.from@ == smtp.user@,
        r.subject@ == subject_of(notification_type, printer@),
        r.body@ == message_of(notification_type, printer@),
        r.attachment == image,
        r.bcc@.len() == emails@.len(),
        forall|i: int| 0 <= i < emails@.len() ==> (#[trigger] r.bcc@[i])@ == emails@[i]@,
{
    let mut bcc: Vec<String> = Vec::new();
    let mut i: usize = 0;
    while i < emails.len()
        invariant
            0 <= i <= emails@.len(),
            bcc@.len() == i,
            forall|j: int| 0 <= j < i ==> (#[trigger] bcc@[j])@ == emails@[j]@,
        decreases emails@.len() - i,
    {
        bcc.push(emails[i].clone());
        i = i + 1;
    }
    EmailMessage {
        from: smtp.user.clone(),
        subject: notification_type.get_subject(printer),
        body: notification_type.get_message(printer),
        attachment: image,
        bcc,
    }
}

/// The webhook payload: the printer's name as the sender, the subject as the
/// title, the message as the description, and a reference to the attached
/// frame when one is attached.
pub fn compose_webhook(notification_type: NotificationType, printer: &Printer, has_image: bool) -> (r:
    WebhookPayload)
    ensures
        r.username@ == printer@.name,
        r.title@ == subject_of(notification_type, printer@),
        r.description@ == message_of(notification_type, printer@),
        match r.image_url {
            Some(u) => has_image && u@ == "attachment://"@ + image_file_name(),
            None => !has_image,
        },
{
    let image_url = if has_image {
        let mut u = String::from_str("attachment://");
        u.append("printer_image.jpg");
        Some(u)
    } else {
        None
    };
    WebhookPayload {
        username: String::from_str(printer.name()),
        title: notification_type.get_subject(printer),
        description: notification_type.get_message(printer),
        image_url,
    }
}

} // verus!
