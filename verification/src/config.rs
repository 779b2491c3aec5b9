//! Configuration records, filled by the surrounding process at start.
//! Reading the environment is the process's business; the values the
//! core works with are plain.

use vstd::prelude::*;

verus! {

/// The sender identity used for every outgoing notification.
#[derive(Debug)]
pub struct EmailConfig {
    pub from_email: String,
}

/// The mail transport's settings: host, port, whether to negotiate
/// encryption, and the credentials.
#[derive(Debug)]
pub struct SmtpConfig {
    pub host: String,
    pub port: u16,
    pub use_tls: bool,
    pub username: String,
    pub password: String,
}

} // verus!
