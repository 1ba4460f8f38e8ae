//! The interception decisions: capture the runtime's original
//! diagnostic handler once at installation, and choose per diagnostic
//! whether to drop it, pass it through unchanged, or forward it with a
//! reformatted message.
//!
//! The original handler itself is foreign; here it is tracked as an
//! opaque handle, so that who is forwarded to — and that the captured
//! handler is never lost or overwritten — is part of the contract.

use vstd::prelude::*;
use crate::format::format_message;
use crate::format::format_spec;

verus! {

/// Opaque handle standing for the runtime's diagnostic-handler entry.
pub type CallbackHandle = usize;

/// What the replacement handler does with one diagnostic.
#[derive(Debug)]
pub enum Action {
    /// No original handler was ever captured: the event is dropped.
    Discard,
    /// No reformatting applies: the event is forwarded unchanged.
    PassThrough,
    /// The carried formatted message is forwarded in the original's
    /// place.
    Forward(Vec<u8>),
}

/// The template as the decision sees it.
pub open spec fn opt_bytes_view(t: Option<&[u8]>) -> Option<Seq<u8>> {
    match t {
        Some(b) => Some(b@),
        None => None,
    }
}

/// A template reformats only when it is present and nonempty.
pub open spec fn template_active(t: Option<Seq<u8>>) -> bool {
    t is Some && t->0.len() > 0
}

/// The single-assignment cell for the original handler: absent before
/// installation, set exactly once at installation, never cleared.
pub struct Interceptor {
    original: Option<CallbackHandle>,
}

impl Interceptor {
    /// The captured original handler, if any.
    pub closed spec fn original_spec(self) -> Option<CallbackHandle> {
        self.original
    }

    /// Before installation nothing is captured.
    pub fn new() -> (r: Self)
        ensures
            r.original_spec() is None,
    {
        Interceptor { original: None }
    }

    /// Captures the handler found in the runtime's global slot at
    /// installation; called at most once, before any event is handled.
    pub fn install(&mut self, current: CallbackHandle)
        requires
            old(self).original_spec() is None,
        ensures
            final(self).original_spec() == Some(current),
    {
        self.original = Some(current);
    }

    /// The captured original handler, to forward events to.
    pub fn original(&self) -> (r: Option<CallbackHandle>)
        ensures
            r == self.original_spec(),
    {
        self.original
    }

    /// Decides one diagnostic: dropped when no handler was captured,
    /// passed through — the message untouched — when the template is
    /// absent or empty, otherwise forwarded with the template's
    /// placeholders substituted from the event's fields.
    pub fn handle_event(
        &self,
        template: Option<&[u8]>,
        severity: i32,
        file: &[u8],
        line: u32,
        message: &[u8],
    ) -> (a: Action)
        ensures
            (a is Discard) <==> self.original_spec() is None,
            (a is PassThrough) <==> (self.original_spec() is Some && !template_active(
                opt_bytes_view(template),
            )),
            (a is Forward) <==> (self.original_spec() is Some && template_active(
                opt_bytes_view(template),
            )),
            a matches Action::Forward(m) ==> m@ == format_spec(
                opt_bytes_view(template)->0,
                severity as int,
                file@,
                line as nat,
                message@,
            ),
    {
        if self.original.is_none() {
            return Action::Discard;
        }
        match template {
            None => Action::PassThrough,
            Some(t) => {
                if t.len() == 0 {
                    Action::PassThrough
                } else {
                    Action::Forward(format_message(t, severity, file, line, message))
                }
            },
        }
    }
}

} // verus!
