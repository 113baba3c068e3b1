//! The `ErrorEmitter`: an explicitly owned sink that collects every emitted
//! message in order, drained on demand by whoever reports them.

use vstd::prelude::*;
use crate::diagnostic::DiagnosticResult;
use crate::diagnostic::ErrorMessage;
use crate::diagnostic::MessageView;
use crate::diagnostic::lemma_msgs_view_concat;
use crate::diagnostic::msgs_view;

verus! {

/// An ordered sink of emitted messages. Created once per compilation run,
/// threaded by exclusive ownership, and drained by the caller at the end of a
/// batch of loads.
pub struct ErrorEmitter {
    messages: Vec<ErrorMessage>,
}

impl View for ErrorEmitter {
    type V = Seq<MessageView>;

    closed spec fn view(&self) -> Seq<MessageView> {
        msgs_view(self.messages@)
    }
}

impl ErrorEmitter {
    /// An empty emitter.
    pub fn new() -> (r: Self)
        ensures
            r@ == Seq::<MessageView>::empty(),
    {
        let r = Self { messages: Vec::new() };
        proof {
            assert(r@ =~= Seq::<MessageView>::empty());
        }
        r
    }

    /// Appends the given messages, in order, to the emitted log.
    pub fn process(&mut self, messages: Vec<ErrorMessage>)
        ensures
            final(self)@ == old(self)@ + msgs_view(messages@),
    {
        let ghost pre = self.messages@;
        let ghost add = messages@;
        let mut messages = messages;
        self.messages.append(&mut messages);
        proof {
            lemma_msgs_view_concat(pre, add);
        }
    }

    /// Drains a result's diagnostics into the emitted log, yielding the
    /// carried value where one exists.
    pub fn consume_diagnostic<T>(&mut self, result: DiagnosticResult<T>) -> (r: Option<T>)
        ensures
            final(self)@ == old(self)@ + result.log(),
            r is Some <==> result.is_ok(),
            result.is_ok() ==> r == Some(result.value()),
    {
        match result {
            DiagnosticResult::Success { value, diagnostics } => {
                self.process(diagnostics);
                Some(value)
            },
            DiagnosticResult::Fail { diagnostics } => {
                self.process(diagnostics);
                None
            },
        }
    }

    /// The messages emitted so far, in emission order.
    pub fn messages(&self) -> (r: &Vec<ErrorMessage>)
        ensures
            msgs_view(r@) == self@,
    {
        &self.messages
    }

    /// Hands out every emitted message and leaves the emitter empty: a
    /// one-shot drain, not a peek.
    pub fn take(&mut self) -> (r: Vec<ErrorMessage>)
        ensures
            msgs_view(r@) == old(self)@,
            final(self)@ == Seq::<MessageView>::empty(),
    {
        let mut out: Vec<ErrorMessage> = Vec::new();
        core::mem::swap(&mut self.messages, &mut out);
        proof {
            assert(self@ =~= Seq::<MessageView>::empty());
        }
        out
    }
}

} // verus!
