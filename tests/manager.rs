use printer_monitor::config::{EmailConfig, EmailEncryption};
use printer_monitor::manager::{
    compose_email, compose_webhook, NotificationLedger, NotificationType, Printers,
};
use printer_monitor::models::{EndStopPosition, PrinterProgress, PrinterStatus};
use printer_monitor::printer::Printer;

fn printing(name: &str, file: Option<&str>) -> Printer {
    let mut p = Printer::new(name.to_string(), "10.0.0.7".to_string());
    p.refresh_status(Ok(PrinterStatus {
        end_stop: EndStopPosition { x_max: 0, y_max: 0, z_min: 0 },
        machine_status: "BUILDING".to_string(),
        move_mode: "MOVING".to_string(),
        led: true,
        current_file: file.map(|f| f.to_string()),
    }))
    .unwrap();
    p
}

fn progress(done: u32, total: u32) -> PrinterProgress {
    PrinterProgress { layer: (done, total), byte: (done, total) }
}

#[test]
fn completion_notified_once_per_file() {
    let mut ledger = NotificationLedger::new();
    let p = printing("a", Some("cube.gx"));
    assert!(ledger.check_completion(&p, &progress(50, 50)));
    assert!(!ledger.check_completion(&p, &progress(50, 50)));
    assert_eq!(ledger.last_notified("a").unwrap(), "cube.gx");
}

#[test]
fn new_file_gets_one_new_notification() {
    let mut ledger = NotificationLedger::new();
    let p = printing("a", Some("cube.gx"));
    assert!(ledger.check_completion(&p, &progress(10, 10)));
    let q = printing("a", Some("boat.gx"));
    assert!(!ledger.check_completion(&q, &progress(3, 10)));
    assert!(ledger.check_completion(&q, &progress(10, 10)));
    assert!(!ledger.check_completion(&q, &progress(10, 10)));
    assert_eq!(ledger.last_notified("a").unwrap(), "boat.gx");
}

#[test]
fn no_notification_when_offline_idle_or_unfinished() {
    let mut ledger = NotificationLedger::new();
    let idle = printing("a", None);
    assert!(!ledger.check_completion(&idle, &progress(1, 1)));
    let unfinished = printing("b", Some("x.gx"));
    assert!(!ledger.check_completion(&unfinished, &progress(0, 1)));
    let offline = Printer::new("c".to_string(), "10.0.0.8".to_string());
    assert!(!ledger.check_completion(&offline, &progress(1, 1)));
    assert!(ledger.last_notified("a").is_none());
    // An empty job (0 of 0 layers) counts as complete.
    let empty = printing("d", Some("e.gx"));
    assert!(ledger.check_completion(&empty, &progress(0, 0)));
}

#[test]
fn ledgers_are_per_printer() {
    let mut ledger = NotificationLedger::new();
    assert!(ledger.check_completion(&printing("a", Some("f.gx")), &progress(1, 1)));
    assert!(ledger.check_completion(&printing("b", Some("f.gx")), &progress(1, 1)));
    let copy = ledger.copy();
    assert_eq!(copy.last_notified("a").unwrap(), "f.gx");
    assert_eq!(copy.last_notified("b").unwrap(), "f.gx");
}

#[test]
fn registry_snapshot_and_commit() {
    let mut reg: Printers<u32> = Printers::new();
    reg.add_printer("a".to_string(), 1);
    reg.add_printer("b".to_string(), 2);
    reg.add_printer("a".to_string(), 3);
    assert_eq!(reg.get_printer("a"), Some(&3));
    assert_eq!(reg.get_printer("b"), Some(&2));
    assert_eq!(reg.get_printer("c"), None);
    let mut names = reg.get_printer_names();
    names.sort();
    assert_eq!(names, vec!["a".to_string(), "b".to_string()]);
    let mut handles: Vec<u32> = reg.printers().into_iter().copied().collect();
    handles.sort();
    assert_eq!(handles, vec![2, 3]);

    let mut ledger = reg.notification_snapshot();
    assert!(ledger.check_completion(&printing("a", Some("f.gx")), &progress(1, 1)));
    assert!(reg.notification_snapshot().last_notified("a").is_none());
    reg.commit_notifications(ledger);
    assert_eq!(reg.notification_snapshot().last_notified("a").unwrap(), "f.gx");
}

#[test]
fn subject_and_message() {
    let p = printing("Shop", Some("cube.gx"));
    let t = NotificationType::PrintComplete;
    assert_eq!(t.get_subject(&p), "Print complete on Shop");
    assert_eq!(t.get_message(&p), "File: cube.gx\nIP: 10.0.0.7\n");
    let idle = printing("Shop", None);
    assert_eq!(t.get_message(&idle), "File: (None)\nIP: 10.0.0.7\n");
}

#[test]
fn email_composition() {
    let smtp = EmailConfig {
        host: "smtp.example.com".to_string(),
        port: 465,
        encryption: EmailEncryption::Tls,
        user: "bot@example.com".to_string(),
        password: "pw".to_string(),
    };
    let p = printing("Shop", Some("cube.gx"));
    let emails = vec!["a@example.com".to_string(), "b@example.com".to_string()];
    let m = compose_email(&smtp, NotificationType::PrintComplete, &p, Some(vec![0xff, 0xd8]), &emails);
    assert_eq!(m.from, "bot@example.com");
    assert_eq!(m.subject, "Print complete on Shop");
    assert_eq!(m.body, "File: cube.gx\nIP: 10.0.0.7\n");
    assert_eq!(m.attachment, Some(vec![0xff, 0xd8]));
    assert_eq!(m.bcc, emails);
}

#[test]
fn webhook_composition() {
    let p = printing("Shop", Some("cube.gx"));
    let w = compose_webhook(NotificationType::PrintComplete, &p, true);
    assert_eq!(w.username, "Shop");
    assert_eq!(w.title, "Print complete on Shop");
    assert_eq!(w.description, "File: cube.gx\nIP: 10.0.0.7\n");
    assert_eq!(w.image_url.as_deref(), Some("attachment://printer_image.jpg"));
    assert!(compose_webhook(NotificationType::PrintComplete, &p, false).image_url.is_none());
}
