//! What callers get back: the error records of unknown routes, unknown
//! printers and failed requests, and the password check.
use vstd::prelude::*;
use vstd::string::StringExecFns;
use crate::config::AuthConfig;
use crate::error::{PrinterError, error_message};
use crate::models::GenericError;

verus! {

/// The error of a route that does not exist.
pub fn error_404() -> (r: GenericError)
    ensures
        r.error@ == "NOT_FOUND"@,
        r.message matches Some(m) && m@ == "Route not found"@,
{
    GenericError {
        error: String::from_str("NOT_FOUND"),
        message: Some(String::from_str("Route not found")),
    }
}

impl GenericError {
    /// The error of an id that names no printer.
    pub fn unknown_printer(printer_id: &str) -> (r: GenericError)
        ensures
            r.error@ == "UNKNOWN_PRINTER"@,
            r.message matches Some(m) && m@ == "unknown printer "@ + printer_id@,
    {
        let mut m = String::from_str("unknown printer ");
        m.append(printer_id);
        GenericError { error: String::from_str("UNKNOWN_PRINTER"), message: Some(m) }
    }

    /// The error of a request to a printer that failed.
    pub fn printer_error(e: &PrinterError) -> (r: GenericError)
        ensures
            r.error@ == "PRINTER_ERROR"@,
            r.message matches Some(m) && m@ == error_message(*e),
    {
        GenericError { error: String::from_str("PRINTER_ERROR"), message: Some(e.message()) }
    }
}

#[derive(Clone, Copy, Debug, PartialEq, Eq, Structural)]
pub enum AccessType {
    Read,
    Write,
}

/// The password a request carried, and the configuration it is held to.
#[derive(Clone, Debug)]
pub struct AuthGuard {
    pub input_password: Option<String>,
    pub auth_config: Option<AuthConfig>,
}

/// Whether a request passes: a configuration is present that asks for the
/// password for this kind of access, and the request carries that password.
pub open spec fn access_granted(g: AuthGuard, access: AccessType) -> bool {
    match g.auth_config {
        Some(cfg) => {
            &&& ((access == AccessType::Read && cfg.password_for_read) || (access
                == AccessType::Write && cfg.password_for_write))
            &&& (g.input_password matches Some(p) && p@ == cfg.password@)
        },
        None => false,
    }
}

impl AuthGuard {
    pub fn new(input_password: Option<String>, auth_config: Option<AuthConfig>) -> (r: AuthGuard)
        ensures
            r.input_password == input_password,
            r.auth_config == auth_config,
    {
        AuthGuard { input_password, auth_config }
    }

    pub fn check_auth(self, access_type: AccessType) -> (r: Result<(), GenericError>)
        ensures
            r is Ok <==> access_granted(self, access_type),
            r matches Err(e) ==> (e.error@ == "PASSWORD_REQUIRED"@ && (e.message matches Some(m)
                && m@ == "The configured password is required to perform this action"@)),
    {
        if let Some(cfg) = &self.auth_config {
            if (access_type == AccessType::Read && cfg.password_for_read) || (access_type
                == AccessType::Write && cfg.password_for_write) {
                if let Some(inp_pass) = &self.input_password {
                    if cfg.password == *inp_pass {
                        return Ok(());
                    }
                }
            }
        }
        Err(
            GenericError {
                error: String::from_str("PASSWORD_REQUIRED"),
                message: Some(
                    String::from_str("The configured password is required to perform this action"),
                ),
            },
        )
    }
}

} // verus!
