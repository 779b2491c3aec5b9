//! The consumer loop's decisions, as a verified state machine.
//!
//! The surrounding process owns the broker connection and the mail
//! transport; the machine here owns every decision.  The caller feeds
//! it each fetch outcome through [`ConsumerLoop::on_fetch`], performs
//! the send it may ask for, and reports the transport's answer through
//! [`ConsumerLoop::on_send_result`].  Exactly one message is in flight
//! at a time: the phase makes a second fetch impossible while a send
//! is outstanding, so the transport is invoked at most once per
//! extracted request.

use vstd::prelude::*;
use crate::codec::{decode, spec_decode, DecodeError};
use crate::payload::EventView;
use crate::dispatch::{
    classify_send, prepare_dispatch, spec_prepare, DispatchError, DispatchOutcome, EmailView,
    OutboundEmail, SkipReason,
};
use crate::notify::{extract, lemma_extract_no_recipient, recipient_key, spec_extract};

verus! {

/// What the broker hands the loop at one fetch.
pub enum FetchEvent {
    /// the next message's raw byte payload
    Payload(Vec<u8>),
    /// the stream ended cleanly
    EndOfStream,
    /// the broker connection failed: fatal
    BrokerError,
}

/// Mathematical model of a `FetchEvent`.
pub ghost enum FetchEventView {
    Payload(Seq<u8>),
    EndOfStream,
    BrokerError,
}

impl View for FetchEvent {
    type V = FetchEventView;

    open spec fn view(&self) -> FetchEventView {
        match self {
            FetchEvent::Payload(bytes) => FetchEventView::Payload(bytes@),
            FetchEvent::EndOfStream => FetchEventView::EndOfStream,
            FetchEvent::BrokerError => FetchEventView::BrokerError,
        }
    }
}

/// Why the loop stops.
#[derive(Clone, Copy, Debug, PartialEq, Eq, Structural)]
pub enum StopCause {
    /// the broker signalled end-of-stream
    EndOfStream,
    /// the broker connection failed; surfaces to the caller
    ConnectionError,
}

/// What the loop asks its caller to do with one fetched event.
pub enum LoopStep {
    /// hand this message to the mail transport, then report back
    Deliver(OutboundEmail),
    /// nothing to send; log and fetch the next message
    Skip(SkipReason),
    /// the dispatch failed before the transport was reached
    Reject(DispatchError),
    /// stop fetching
    Stop(StopCause),
}

/// Mathematical model of a `LoopStep`.
pub ghost enum LoopStepView {
    Deliver(EmailView),
    Skip(SkipReason),
    Reject(DispatchError),
    Stop(StopCause),
}

impl View for LoopStep {
    type V = LoopStepView;

    open spec fn view(&self) -> LoopStepView {
        match self {
            LoopStep::Deliver(m) => LoopStepView::Deliver(m@),
            LoopStep::Skip(r) => LoopStepView::Skip(*r),
            LoopStep::Reject(e) => LoopStepView::Reject(*e),
            LoopStep::Stop(c) => LoopStepView::Stop(*c),
        }
    }
}

/// Where the machine stands between calls.
#[derive(Clone, Copy, Debug, PartialEq, Eq, Structural)]
pub enum Phase {
    /// ready for the next fetch outcome
    Fetching,
    /// a send was requested and its outcome is still owed
    Dispatching,
    /// end-of-stream or a broker failure was seen
    Stopped,
}

/// The step the pipeline takes for one fetched event, as a function of
/// that event and the configured sender alone: no message leaves any
/// trace that could alter a later one.
pub open spec fn spec_step(ev: FetchEventView, from: Seq<char>) -> LoopStepView {
    match ev {
        FetchEventView::Payload(bytes) => match spec_decode(bytes) {
            Err(DecodeError::EncodingError) => LoopStepView::Skip(SkipReason::EncodingError),
            Err(DecodeError::SchemaError) => LoopStepView::Skip(SkipReason::SchemaError),
            Ok(e) => match spec_extract(e) {
                None => LoopStepView::Skip(SkipReason::NoRecipient),
                Some(req) => match spec_prepare(req, from) {
                    Ok(m) => LoopStepView::Deliver(m),
                    Err(err) => LoopStepView::Reject(err),
                },
            },
        },
        FetchEventView::EndOfStream => LoopStepView::Stop(StopCause::EndOfStream),
        FetchEventView::BrokerError => LoopStepView::Stop(StopCause::ConnectionError),
    }
}

/// One consumer's decision state: the configured sender address and
/// the phase of the message in flight.
pub struct ConsumerLoop {
    pub from: String,
    pub phase: Phase,
}

impl ConsumerLoop {
    /// A loop bound to one sender address, ready to fetch.
    pub fn new(from: String) -> (r: ConsumerLoop)
        ensures
            r.from == from,
            r.phase == Phase::Fetching,
    {
        ConsumerLoop { from, phase: Phase::Fetching }
    }

    /// Drives one fetched event through decoding, extraction,
    /// formatting and dispatch preparation.  Every per-message failure
    /// is contained in the returned step; only a broker-level event
    /// stops the loop.
    pub fn on_fetch(&mut self, ev: FetchEvent) -> (r: LoopStep)
        requires
            old(self).phase == Phase::Fetching,
        ensures
            r@ == spec_step(ev@, old(self).from@),
            final(self).from == old(self).from,
            final(self).phase == (match r {
                LoopStep::Deliver(_) => Phase::Dispatching,
                LoopStep::Stop(_) => Phase::Stopped,
                _ => Phase::Fetching,
            }),
    {
        match ev {
            FetchEvent::Payload(bytes) => match decode(&bytes) {
                Err(DecodeError::EncodingError) => LoopStep::Skip(SkipReason::EncodingError),
                Err(DecodeError::SchemaError) => LoopStep::Skip(SkipReason::SchemaError),
                Ok(e) => match extract(&e) {
                    None => LoopStep::Skip(SkipReason::NoRecipient),
                    Some(req) => match prepare_dispatch(req, self.from.as_str()) {
                        Ok(m) => {
                            self.phase = Phase::Dispatching;
                            LoopStep::Deliver(m)
                        },
                        Err(err) => LoopStep::Reject(err),
                    },
                },
            },
            FetchEvent::EndOfStream => {
                self.phase = Phase::Stopped;
                LoopStep::Stop(StopCause::EndOfStream)
            },
            FetchEvent::BrokerError => {
                self.phase = Phase::Stopped;
                LoopStep::Stop(StopCause::ConnectionError)
            },
        }
    }

    /// Records what the transport reported for the outstanding send
    /// and returns to fetching: a failed send never retries, never
    /// blocks the next message.
    pub fn on_send_result(&mut self, ok: bool) -> (r: DispatchOutcome)
        requires
            old(self).phase == Phase::Dispatching,
        ensures
            final(self).phase == Phase::Fetching,
            final(self).from == old(self).from,
            r == (if ok {
                DispatchOutcome::Sent
            } else {
                DispatchOutcome::Failed(DispatchError::TransportError)
            }),
    {
        self.phase = Phase::Fetching;
        classify_send(ok)
    }
}

/// A message whose decoded event names no recipient is skipped: the
/// machine never asks for a delivery, so the transport is not invoked
/// for it.
pub proof fn lemma_no_recipient_no_dispatch(bytes: Seq<u8>, e: EventView, from: Seq<char>)
    requires
        spec_decode(bytes) == Ok::<EventView, DecodeError>(e),
        forall|m: int| 0 <= m < e.parameters.len() ==> (#[trigger] e.parameters[m]).name
            != recipient_key(),
    ensures
        spec_step(FetchEventView::Payload(bytes), from) == LoopStepView::Skip(
            SkipReason::NoRecipient,
        ),
{
    lemma_extract_no_recipient(e);
}

/// The steps a whole stream of fetch outcomes produces, each from its
/// own event alone.
pub open spec fn run_steps(evs: Seq<FetchEventView>, from: Seq<char>) -> Seq<LoopStepView> {
    evs.map(|i: int, ev: FetchEventView| spec_step(ev, from))
}

/// Failure isolation: what the loop does with the message at `i`
/// depends on that message alone.  Replacing every other message of
/// the stream — malformed payloads, undeliverable notifications —
/// changes nothing for message `i`.
pub proof fn lemma_failure_isolation(
    evs1: Seq<FetchEventView>,
    evs2: Seq<FetchEventView>,
    from: Seq<char>,
    i: int,
)
    requires
        evs1.len() == evs2.len(),
        0 <= i < evs1.len(),
        evs1[i] == evs2[i],
    ensures
        run_steps(evs1, from)[i] == run_steps(evs2, from)[i],
{
}

} // verus!
