//! The configuration as the library reads it, once loaded.
use vstd::prelude::*;
use vstd::string::StringExecFns;
use crate::manager::NotificationType;
use crate::table::Table;

verus! {

#[derive(Clone, Copy, Debug, PartialEq, Eq, Structural)]
pub enum EmailEncryption {
    /// Neither implicit TLS nor STARTTLS.
    Plain,
    StartTls,
    Tls,
}

/// The SMTP account that notifications are sent from.
#[derive(Clone, Debug)]
pub struct EmailConfig {
    pub host: String,
    pub port: u16,
    pub encryption: EmailEncryption,
    pub user: String,
    pub password: String,
}

/// Where the notifications of one kind go.
#[derive(Clone, Debug)]
pub struct NotificationDestinations {
    pub emails: Option<Vec<String>>,
    pub webhooks: Option<Vec<String>>,
}

#[derive(Clone, Debug)]
pub struct NotificationConfig {
    pub emails: Option<Vec<String>>,
    pub on_done: Option<Vec<String>>,
}

/// Which accesses need the password, and the password.
#[derive(Clone, Debug)]
pub struct AuthConfig {
    pub password_for_write: bool,
    pub password_for_read: bool,
    pub password: String,
}

/// One configured printer: the textual form of its address.
#[derive(Clone, Debug)]
pub struct PrinterConfig {
    pub ip: String,
}

#[derive(Debug)]
pub struct Config {
    pub smtp: Option<EmailConfig>,
    /// Destinations by notification kind (`on_done`: a print completed).
    pub notifications: Option<Table<NotificationDestinations>>,
    pub auth: Option<AuthConfig>,
    pub printers: Table<PrinterConfig>,
}

/// Why an SMTP configuration cannot be used, checked in this order.
pub open spec fn smtp_problem(c: EmailConfig) -> Option<Seq<char>> {
    if c.port == 0 {
        Some("SMTP: Smtp port is invalid, smtp support not enabled"@)
    } else if c.user@.len() == 0 {
        Some("SMTP: Smtp user is empty, smtp support not enabled"@)
    } else if c.host@.len() == 0 {
        Some("SMTP: Smtp host is empty, smtp support not enabled"@)
    } else {
        None
    }
}

impl EmailConfig {
    /// Checks that the account can be used: a port other than 0, a user and a
    /// host.
    pub fn validate(&self) -> (r: Result<(), String>)
        ensures
            match smtp_problem(*self) {
                None => r is Ok,
                Some(m) => r matches Err(e) && e@ == m,
            },
    {
        if self.port == 0 {
            Err(String::from_str("SMTP: Smtp port is invalid, smtp support not enabled"))
        } else if self.user.as_str().is_empty() {
            Err(String::from_str("SMTP: Smtp user is empty, smtp support not enabled"))
        } else if self.host.as_str().is_empty() {
            Err(String::from_str("SMTP: Smtp host is empty, smtp support not enabled"))
        } else {
            Ok(())
        }
    }
}

/// The loaded configuration, read through lookups.
#[derive(Debug)]
pub struct ConfigManager {
    config: Config,
}

/// The configuration key of the destinations of each notification kind.
pub open spec fn destination_key(t: NotificationType) -> Seq<char> {
    match t {
        NotificationType::PrintComplete => "on_done"@,
    }
}

impl ConfigManager {
    pub fn new(config: Config) -> (r: ConfigManager)
        ensures
            r.config() == config,
    {
        ConfigManager { config }
    }

    pub closed spec fn config(&self) -> Config {
        self.config
    }

    pub fn smtp(&self) -> (r: Option<&EmailConfig>)
        ensures
            match r {
                Some(c) => self.config().smtp == Some(*c),
                None => self.config().smtp is None,
            },
    {
        match &self.config.smtp {
            Some(c) => Some(c),
            None => None,
        }
    }

    pub fn auth(&self) -> (r: Option<&AuthConfig>)
        ensures
            match r {
                Some(c) => self.config().auth == Some(*c),
                None => self.config().auth is None,
            },
    {
        match &self.config.auth {
            Some(c) => Some(c),
            None => None,
        }
    }

    pub fn printers(&self) -> (r: &Table<PrinterConfig>)
        ensures
            r@ == self.config().printers@,
    {
        &self.config.printers
    }

    /// The destinations configured for a kind of notification, if any.
    pub fn get_notification_destinations(&self, notification_type: &NotificationType) -> (r:
        Option<&NotificationDestinations>)
        ensures
            match r {
                Some(d) => self.config().notifications matches Some(t) && t@.contains_key(
                    destination_key(*notification_type),
                ) && t@[destination_key(*notification_type)] == *d,
                None => !(self.config().notifications matches Some(t) && t@.contains_key(
                    destination_key(*notification_type),
                )),
            },
    {
        match &self.config.notifications {
            Some(t) => match notification_type {
                NotificationType::PrintComplete => t.get("on_done"),
            },
            None => None,
        }
    }
}

} // verus!
