//! Deriving a notification request from a decoded event record.

use vstd::prelude::*;
use vstd::string::StringExecFns;
use crate::payload::{find_param, EventView, MessagePayload, Parameter, ParamView};

verus! {

/// The parameter name that designates a notification's recipient.
pub open spec fn recipient_key() -> Seq<char> {
    "email"@
}

/// A derived notification: recipient, subject line, and rendered body.
/// Ephemeral; discarded once dispatched.
#[derive(Debug)]
pub struct NotificationRequest {
    pub recipient: String,
    pub subject: String,
    pub body: String,
}

/// Mathematical model of a `NotificationRequest`.
pub ghost struct RequestView {
    pub recipient: Seq<char>,
    pub subject: Seq<char>,
    pub body: Seq<char>,
}

impl View for NotificationRequest {
    type V = RequestView;

    open spec fn view(&self) -> RequestView {
        RequestView { recipient: self.recipient@, subject: self.subject@, body: self.body@ }
    }
}

/// The rendered line of one parameter: its name and value.
pub open spec fn param_line(p: ParamView) -> Seq<char> {
    p.name + ": "@ + p.value + "\n"@
}

/// The rendered lines of the parameters from index `k` on, in
/// declaration order.
pub open spec fn param_lines_from(ps: Seq<ParamView>, k: int) -> Seq<char>
    decreases ps.len() - k when 0 <= k <= ps.len()
{
    if k >= ps.len() {
        Seq::empty()
    } else {
        param_line(ps[k]) + param_lines_from(ps, k + 1)
    }
}

/// The rendered body of an event: action, title, description, every
/// parameter in order, and the timestamp.
pub open spec fn format_body(e: EventView) -> Seq<char> {
    "Action: "@ + e.action + "\nTitle: "@ + e.text + "\nDescription: "@ + e.description
        + "\nParameters:\n"@ + param_lines_from(e.parameters, 0) + "Timestamp: "@ + e.timestamp
}

/// What `extract` yields: the first recipient parameter's value, the
/// event's display title as subject, and the rendered body — or
/// nothing, when no parameter carries the recipient key.
pub open spec fn spec_extract(e: EventView) -> Option<RequestView> {
    match find_param(e.parameters, recipient_key()) {
        Some(v) => Some(RequestView { recipient: v, subject: e.text, body: format_body(e) }),
        None => None,
    }
}

/// Renders the human-readable notification body of an event.
pub fn format(e: &MessagePayload) -> (r: String)
    ensures
        r@ == format_body(e@),
{
    let mut out = String::new();
    out.append("Action: ");
    out.append(e.action.as_str());
    out.append("\nTitle: ");
    out.append(e.text.as_str());
    out.append("\nDescription: ");
    out.append(e.description.as_str());
    out.append("\nParameters:\n");
    let ghost views = e.parameters@.map_values(|p: Parameter| p@);
    let ghost base = out@;
    let n = e.parameters.len();
    let mut k: usize = 0;
    while k < n
        invariant
            n == e.parameters.len(),
            views == e.parameters@.map_values(|p: Parameter| p@),
            n == views.len(),
            k <= n,
            base + param_lines_from(views, 0) == out@ + param_lines_from(views, k as int),
        decreases n - k,
    {
        let ghost out_old = out@;
        out.append(e.parameters[k].name.as_str());
        out.append(": ");
        out.append(e.parameters[k].value.as_str());
        out.append("\n");
        proof {
            assert(views[k as int] == e.parameters@[k as int]@);
            assert(param_lines_from(views, k as int) == param_line(views[k as int])
                + param_lines_from(views, k + 1));
            assert(out@ =~= out_old + param_line(views[k as int]));
            assert(out_old + (param_line(views[k as int]) + param_lines_from(views, k + 1))
                =~= out@ + param_lines_from(views, k + 1));
        }
        k += 1;
    }
    proof {
        assert(param_lines_from(views, n as int) == Seq::<char>::empty());
        assert(base + param_lines_from(views, 0) =~= out@);
    }
    out.append("Timestamp: ");
    out.append(e.timestamp.as_str());
    proof {
        assert(out@ =~= format_body(e@));
    }
    out
}

/// Derives the notification request of an event, or reports that the
/// event names no recipient — a legitimate "nothing to do" outcome,
/// not an error.  Recipient syntax is not checked here; that is the
/// dispatcher's concern.
pub fn extract(e: &MessagePayload) -> (r: Option<NotificationRequest>)
    ensures
        match r {
            Some(q) => spec_extract(e@) == Some(q@),
            None => spec_extract(e@) is None,
        },
{
    match e.get_parameter_value("email") {
        Some(v) => Some(
            NotificationRequest { recipient: v, subject: e.text.clone(), body: format(e) },
        ),
        None => None,
    }
}

// ---------------------------------------------------------------------
// Laws of the extractor
// ---------------------------------------------------------------------

proof fn lemma_find_param_none(ps: Seq<ParamView>, key: Seq<char>)
    requires
        forall|m: int| 0 <= m < ps.len() ==> (#[trigger] ps[m]).name != key,
    ensures
        find_param(ps, key) is None,
    decreases ps.len(),
{
    if ps.len() > 0 {
        assert forall|m: int| 0 <= m < ps.drop_first().len() implies (#[trigger] ps.drop_first()[
            m
        ]).name != key by {
            assert(ps.drop_first()[m] == ps[m + 1]);
        }
        lemma_find_param_none(ps.drop_first(), key);
    }
}

proof fn lemma_find_param_at(ps: Seq<ParamView>, key: Seq<char>, k: int)
    requires
        0 <= k < ps.len(),
        ps[k].name == key,
        forall|m: int| 0 <= m < k ==> (#[trigger] ps[m]).name != key,
    ensures
        find_param(ps, key) == Some(ps[k].value),
    decreases k,
{
    if k > 0 {
        assert(ps[0].name != key);
        assert forall|m: int| 0 <= m < k - 1 implies (#[trigger] ps.drop_first()[m]).name
            != key by {
            assert(ps.drop_first()[m] == ps[m + 1]);
        }
        assert(ps.drop_first()[k - 1] == ps[k]);
        lemma_find_param_at(ps.drop_first(), key, k - 1);
    }
}

/// An event none of whose parameters carries the recipient key yields
/// no request, so the dispatcher is never reached for it.
pub proof fn lemma_extract_no_recipient(e: EventView)
    requires
        forall|m: int| 0 <= m < e.parameters.len() ==> (#[trigger] e.parameters[m]).name
            != recipient_key(),
    ensures
        spec_extract(e) is None,
{
    lemma_find_param_none(e.parameters, recipient_key());
}

/// An event whose parameter at `k` is the first with the recipient key
/// yields a request whose recipient is exactly that parameter's value:
/// with several recipient parameters, declaration order breaks the tie.
pub proof fn lemma_extract_first_recipient(e: EventView, k: int)
    requires
        0 <= k < e.parameters.len(),
        e.parameters[k].name == recipient_key(),
        forall|m: int| 0 <= m < k ==> (#[trigger] e.parameters[m]).name != recipient_key(),
    ensures
        spec_extract(e) is Some,
        spec_extract(e)->Some_0.recipient == e.parameters[k].value,
        spec_extract(e)->Some_0.subject == e.text,
        spec_extract(e)->Some_0.body == format_body(e),
    decreases k,
{
    lemma_find_param_at(e.parameters, recipient_key(), k);
}

/// An event with exactly one recipient parameter yields a request
/// whose recipient is that parameter's value, however many other
/// parameters surround it.
pub proof fn lemma_extract_unique_recipient(e: EventView, k: int)
    requires
        0 <= k < e.parameters.len(),
        e.parameters[k].name == recipient_key(),
        forall|m: int| 0 <= m < e.parameters.len() && m != k ==> (#[trigger] e.parameters[m]).name
            != recipient_key(),
    ensures
        spec_extract(e) is Some,
        spec_extract(e)->Some_0.recipient == e.parameters[k].value,
{
    lemma_extract_first_recipient(e, k);
}

} // verus!
