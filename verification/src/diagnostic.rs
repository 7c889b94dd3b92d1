//! The shape of a diagnostic and its sub-diagnostics: consumed by the
//! rendering core, never produced by it.

use vstd::prelude::*;
use crate::level::Level;

verus! {

/// A half-open byte range within one source file, as plain values: the
/// file's stable identifier and the byte offsets of its two ends.
#[derive(Clone, Copy, Debug, PartialEq, Eq, Structural)]
pub struct Span {
    pub file: usize,
    pub lo: usize,
    pub hi: usize,
}

/// A set of spans describing all locations a diagnostic touches, with at
/// most one marked primary. An empty span set is called dummy: it carries
/// no location at all.
pub struct MultiSpan {
    /// The sub-spans, in arrival order.
    pub spans: Vec<Span>,
    /// Index into `spans` of the sub-span marked primary, if any.
    pub primary: Option<usize>,
}

impl MultiSpan {
    pub open spec fn wf(self) -> bool {
        match self.primary {
            Some(i) => i < self.spans@.len(),
            None => true,
        }
    }

    /// A dummy multi-span touches no location.
    pub open spec fn spec_is_dummy(self) -> bool {
        self.spans@.len() == 0
    }

    pub open spec fn spec_primary_span(self) -> Option<Span> {
        match self.primary {
            Some(i) => Some(self.spans@[i as int]),
            None => None,
        }
    }

    pub fn is_dummy(&self) -> (r: bool)
        ensures
            r == self.spec_is_dummy(),
    {
        self.spans.len() == 0
    }

    pub fn primary_span(&self) -> (r: Option<Span>)
        requires
            self.wf(),
        ensures
            r == self.spec_primary_span(),
    {
        match self.primary {
            Some(i) => Some(self.spans[i]),
            None => None,
        }
    }
}

/// A sub-diagnostic: a message attached to the main diagnostic, with its
/// own severity and location set but no identifier.
pub struct SubDiagnostic {
    pub level: Level,
    pub label: String,
    pub span: MultiSpan,
}

/// A diagnostic: an optional identifier, a message, a severity, a primary
/// location set and an ordered sequence of sub-diagnostics.
pub struct Diagnostic {
    pub id: Option<String>,
    pub level: Level,
    pub label: String,
    pub span: MultiSpan,
    pub children: Vec<SubDiagnostic>,
}

impl Diagnostic {
    pub open spec fn wf(self) -> bool {
        &&& self.span.wf()
        &&& forall|i: int|
            0 <= i < self.children@.len() ==> (#[trigger] self.children@[i]).span.wf()
    }
}

} // verus!
