use vstd::prelude::*;

verus! {

/// A half-open range of offsets into the source text that an error message points at.
#[derive(Clone, Copy, PartialEq, Eq, Structural, Debug)]
pub struct Span {
    pub start: usize,
    pub end: usize,
}

impl Span {
    pub fn new(start: usize, end: usize) -> (r: Span)
        ensures
            r.start == start,
            r.end == end,
    {
        Span { start, end }
    }

    pub fn none() -> (r: Span)
        ensures
            r.start == 0,
            r.end == 0,
    {
        Span { start: 0, end: 0 }
    }
}

/// A source location carried by expressions; equal to a span in this model.
pub type SourceLocation = Span;

#[derive(Clone, Copy, PartialEq, Eq, Structural)]
pub enum DiagnosticLevel {
    Error,
    Warning,
}

/// One reported message: the text, where it points, and how severe it is.
pub struct Diagnostic {
    pub message: String,
    pub span: Span,
    pub level: DiagnosticLevel,
}

/// The sink that every pass reports into; errors accumulate so one run can
/// surface many independent problems.
pub struct BuildDiagnostics {
    pub diags: Vec<Diagnostic>,
}

impl BuildDiagnostics {
    pub open spec fn has_error_spec(&self) -> bool {
        exists|i: int|
            0 <= i < self.diags@.len() && self.diags@[i].level == DiagnosticLevel::Error
    }

    pub fn new() -> (r: BuildDiagnostics)
        ensures
            r.diags@.len() == 0,
    {
        BuildDiagnostics { diags: Vec::new() }
    }

    pub fn push_error(&mut self, message: String, span: Span)
        ensures
            final(self).diags@ == old(self).diags@.push(
                Diagnostic { message, span, level: DiagnosticLevel::Error },
            ),
            final(self).has_error_spec(),
    {
        self.diags.push(Diagnostic { message, span, level: DiagnosticLevel::Error });
        proof {
            assert(self.diags@[self.diags@.len() - 1].level == DiagnosticLevel::Error);
        }
    }

    pub fn push_warning(&mut self, message: String, span: Span)
        ensures
            final(self).diags@ == old(self).diags@.push(
                Diagnostic { message, span, level: DiagnosticLevel::Warning },
            ),
            final(self).has_error_spec() == old(self).has_error_spec(),
    {
        self.diags.push(Diagnostic { message, span, level: DiagnosticLevel::Warning });
        proof {
            let oldd = old(self).diags@;
            let newd = self.diags@;
            assert(forall|i: int| 0 <= i < oldd.len() ==> newd[i] == oldd[i]);
            if self.has_error_spec() {
                let i = choose|i: int|
                    0 <= i < newd.len() && newd[i].level == DiagnosticLevel::Error;
                if i < oldd.len() {
                    assert(oldd[i].level == DiagnosticLevel::Error);
                }
            }
        }
    }

    /// A deprecated identifier was written; the canonical name is reported but
    /// the construct still binds.
    pub fn push_property_deprecation_warning(&mut self, message: String, span: Span)
        ensures
            final(self).diags@ == old(self).diags@.push(
                Diagnostic { message, span, level: DiagnosticLevel::Warning },
            ),
            final(self).has_error_spec() == old(self).has_error_spec(),
    {
        self.push_warning(message, span);
    }

    pub fn has_error(&self) -> (r: bool)
        ensures
            r == self.has_error_spec(),
    {
        let mut i: usize = 0;
        while i < self.diags.len()
            invariant
                0 <= i <= self.diags@.len(),
                forall|j: int| 0 <= j < i ==> self.diags@[j].level != DiagnosticLevel::Error,
            decreases self.diags@.len() - i,
        {
            if matches!(self.diags[i].level, DiagnosticLevel::Error) {
                return true;
            }
            i = i + 1;
        }
        false
    }

    pub fn len(&self) -> (r: usize)
        ensures
            r == self.diags@.len(),
    {
        self.diags.len()
    }
}

} // verus!
