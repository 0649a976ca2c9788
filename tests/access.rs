use printer_monitor::api::{error_404, AccessType, AuthGuard};
use printer_monitor::config::{
    AuthConfig, Config, ConfigManager, EmailConfig, EmailEncryption, NotificationDestinations,
    PrinterConfig,
};
use printer_monitor::error::{PrinterError, ProtocolError};
use printer_monitor::manager::NotificationType;
use printer_monitor::models::GenericError;
use printer_monitor::table::Table;

fn auth(read: bool, write: bool) -> Option<AuthConfig> {
    Some(AuthConfig { password_for_write: write, password_for_read: read, password: "s3".to_string() })
}

#[test]
fn not_found_error() {
    let e = error_404();
    assert_eq!(e.error, "NOT_FOUND");
    assert_eq!(e.message.as_deref(), Some("Route not found"));
}

#[test]
fn unknown_printer_error() {
    let e = GenericError::unknown_printer("garage");
    assert_eq!(e.error, "UNKNOWN_PRINTER");
    assert_eq!(e.message.as_deref(), Some("unknown printer garage"));
}

#[test]
fn printer_error_record() {
    let e = GenericError::printer_error(&PrinterError::Protocol(ProtocolError::Malformed));
    assert_eq!(e.error, "PRINTER_ERROR");
    assert_eq!(e.message.as_deref(), Some("malformed response"));
}

#[test]
fn auth_checks() {
    let good = Some("s3".to_string());
    assert!(AuthGuard::new(good.clone(), auth(true, false)).check_auth(AccessType::Read).is_ok());
    assert!(AuthGuard::new(good.clone(), auth(false, true)).check_auth(AccessType::Write).is_ok());
    assert!(AuthGuard::new(good.clone(), auth(false, true)).check_auth(AccessType::Read).is_err());
    assert!(AuthGuard::new(Some("x".to_string()), auth(true, true)).check_auth(AccessType::Read).is_err());
    assert!(AuthGuard::new(None, auth(true, true)).check_auth(AccessType::Write).is_err());
    let e = AuthGuard::new(good, None).check_auth(AccessType::Read).unwrap_err();
    assert_eq!(e.error, "PASSWORD_REQUIRED");
    assert_eq!(
        e.message.as_deref(),
        Some("The configured password is required to perform this action")
    );
}

fn smtp(host: &str, port: u16, user: &str) -> EmailConfig {
    EmailConfig {
        host: host.to_string(),
        port,
        encryption: EmailEncryption::StartTls,
        user: user.to_string(),
        password: "p".to_string(),
    }
}

#[test]
fn smtp_validation() {
    assert!(smtp("h", 25, "u").validate().is_ok());
    assert_eq!(
        smtp("h", 0, "u").validate().unwrap_err(),
        "SMTP: Smtp port is invalid, smtp support not enabled"
    );
    assert_eq!(
        smtp("h", 25, "").validate().unwrap_err(),
        "SMTP: Smtp user is empty, smtp support not enabled"
    );
    assert_eq!(
        smtp("", 25, "u").validate().unwrap_err(),
        "SMTP: Smtp host is empty, smtp support not enabled"
    );
}

#[test]
fn notification_destinations_lookup() {
    let mut notifications = Table::new();
    notifications.insert(
        "on_done".to_string(),
        NotificationDestinations { emails: Some(vec!["a@b.c".to_string()]), webhooks: None },
    );
    let mut printers = Table::new();
    printers.insert("shop".to_string(), PrinterConfig { ip: "10.0.0.2".to_string() });
    let cfg = ConfigManager::new(Config {
        smtp: Some(smtp("h", 25, "u")),
        notifications: Some(notifications),
        auth: None,
        printers,
    });
    let d = cfg.get_notification_destinations(&NotificationType::PrintComplete).unwrap();
    assert_eq!(d.emails.as_ref().unwrap()[0], "a@b.c");
    assert!(d.webhooks.is_none());
    assert_eq!(cfg.smtp().unwrap().user, "u");
    assert!(cfg.auth().is_none());
    assert_eq!(cfg.printers().get("shop").unwrap().ip, "10.0.0.2");

    let empty = ConfigManager::new(Config {
        smtp: None,
        notifications: None,
        auth: None,
        printers: Table::new(),
    });
    assert!(empty.get_notification_destinations(&NotificationType::PrintComplete).is_none());
    assert!(empty.smtp().is_none());
}
