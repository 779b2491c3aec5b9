//! Turning a notification request into a transport-ready message and
//! classifying the outcome of a send.

use vstd::prelude::*;
use vstd::string::StringExecFns;
use crate::notify::{NotificationRequest, RequestView};

verus! {

/// Why a message produced no notification.
#[derive(Clone, Copy, Debug, PartialEq, Eq, Structural)]
pub enum SkipReason {
    /// the payload bytes are not valid text
    EncodingError,
    /// the text is not a well-formed event record
    SchemaError,
    /// the event names no recipient
    NoRecipient,
}

/// Why a dispatch failed.
#[derive(Clone, Copy, Debug, PartialEq, Eq, Structural)]
pub enum DispatchError {
    /// the recipient or sender address is malformed
    AddressError,
    /// the mail transport's session or send failed
    TransportError,
}

/// The classified fate of one message, consumed only for logging.
#[derive(Clone, Copy, Debug, PartialEq, Eq, Structural)]
pub enum DispatchOutcome {
    Sent,
    Skipped(SkipReason),
    Failed(DispatchError),
}

/// A transport-ready message: the plain values the mail collaborator
/// needs for one send.
#[derive(Debug)]
pub struct OutboundEmail {
    pub from: String,
    pub to: String,
    pub subject: String,
    pub body: String,
}

/// Mathematical model of an `OutboundEmail`.
pub ghost struct EmailView {
    pub from: Seq<char>,
    pub to: Seq<char>,
    pub subject: Seq<char>,
    pub body: Seq<char>,
}

impl View for OutboundEmail {
    type V = EmailView;

    open spec fn view(&self) -> EmailView {
        EmailView { from: self.from@, to: self.to@, subject: self.subject@, body: self.body@ }
    }
}

/// Whether the mail system accepts a string as an address.
pub uninterp spec fn address_accepted(s: Seq<char>) -> bool;

/// Relies on `lettre::Address::from_str`: whether a string is a
/// well-formed `user@domain` address depends on its characters alone.
#[verifier::external_body]
fn address_ok(s: &str) -> (r: bool)
    ensures
        r == address_accepted(s@),
{
    <lettre::Address as core::str::FromStr>::from_str(s).is_ok()
}

/// What `prepare_dispatch` returns for a request and sender.
pub open spec fn spec_prepare(req: RequestView, from: Seq<char>) -> Result<
    EmailView,
    DispatchError,
> {
    if address_accepted(from) && address_accepted(req.recipient) {
        Ok(EmailView { from: from, to: req.recipient, subject: req.subject, body: req.body })
    } else {
        Err(DispatchError::AddressError)
    }
}

/// Builds the transport message for a request, addressed from the
/// configured sender.  A malformed sender or recipient address is a
/// failed dispatch, never a halt.
pub fn prepare_dispatch(req: NotificationRequest, from: &str) -> (r: Result<
    OutboundEmail,
    DispatchError,
>)
    ensures
        match r {
            Ok(m) => spec_prepare(req@, from@) == Ok::<EmailView, DispatchError>(m@),
            Err(e) => spec_prepare(req@, from@) == Err::<EmailView, DispatchError>(e),
        },
{
    if !address_ok(from) {
        return Err(DispatchError::AddressError);
    }
    if !address_ok(req.recipient.as_str()) {
        return Err(DispatchError::AddressError);
    }
    let mut f = String::new();
    f.append(from);
    Ok(OutboundEmail { from: f, to: req.recipient, subject: req.subject, body: req.body })
}

/// Classifies what the mail transport reported for one send.
pub fn classify_send(ok: bool) -> (r: DispatchOutcome)
    ensures
        r == (if ok {
            DispatchOutcome::Sent
        } else {
            DispatchOutcome::Failed(DispatchError::TransportError)
        }),
{
    if ok {
        DispatchOutcome::Sent
    } else {
        DispatchOutcome::Failed(DispatchError::TransportError)
    }
}

} // verus!
