//! Session-wide state and the structured diagnostics the core produces.
//!
//! The core never prints or aborts: it constructs diagnostic records and
//! hands them to the session's sink, which accumulates them for a driver
//! to render. Recoverable resolution errors are recorded here at the point
//! of detection; the failing query then returns a unit-valued failure, so
//! that dependent queries can branch on success without duplicating the
//! message.

use vstd::prelude::*;
use crate::ids::Def;

verus! {

/// An interned source-text name. Interning is done by the lexer, an
/// external collaborator; the core only compares names for equality.
pub type Name = u32;

/// A region of the source text, as byte offsets.
#[derive(Clone, Copy, PartialEq, Eq, Structural, Debug)]
pub struct Span {
    pub begin: usize,
    pub end: usize,
}

impl Span {
    pub fn new(begin: usize, end: usize) -> (s: Span)
        ensures
            s == (Span { begin, end }),
    {
        Span { begin, end }
    }
}

/// A value of any kind together with the span it covers in the source.
#[derive(Clone, Copy, PartialEq, Eq, Structural, Debug)]
pub struct Spanned<T> {
    pub value: T,
    pub span: Span,
}

impl<T> Spanned<T> {
    pub fn new(value: T, span: Span) -> (s: Spanned<T>)
        ensures
            s.span == span,
            s.value == value,
    {
        Spanned { value, span }
    }
}

/// A name as it appears in a position to be resolved: either an ordinary
/// identifier or a bit/character literal (an enumeration literal's name).
#[derive(Clone, Copy, PartialEq, Eq, Structural, Debug)]
pub enum ResolvableName {
    Ident(Name),
    Bit(char),
}

/// How severe a diagnostic is.
#[derive(Clone, Copy, PartialEq, Eq, Structural, Debug)]
pub enum Severity {
    Note,
    Warning,
    Error,
}

/// What a diagnostic reports. The record carries the structured reason;
/// rendering it as text is a driver concern, outside this core.
#[derive(Clone, Copy, PartialEq, Eq, Structural, Debug)]
pub enum DiagKind {
    /// A non-overloadable name bound more than once in the same table.
    DuplicateDefinition { name: ResolvableName },
    /// A library clause binding a local name that is already bound.
    AlreadyDeclared { name: Name },
    /// A library clause naming no known library.
    UnknownLibrary { name: Name },
    /// A name that does not resolve to any known definition.
    UnresolvedName { name: ResolvableName },
    /// Trailing syntax after a fully-consumed valid name prefix.
    InvalidNameSuffix,
    /// `all` selected on something that is not a package.
    SelectAllOnNonPackage,
    /// A construct whose resolution is intentionally unimplemented here.
    NotYetSupported,
    /// A query that, transitively, required its own result.
    CircularDependency,
}

/// A structured diagnostic record: severity, reason, the source spans it
/// cites, and the spans of any attached notes (e.g. the previous
/// declaration a duplicate conflicts with).
#[derive(Clone, PartialEq, Eq, Debug)]
pub struct Diagnostic {
    pub severity: Severity,
    pub kind: DiagKind,
    pub spans: Vec<Span>,
    pub note_spans: Vec<Span>,
}

/// Holds when `d` is an error diagnostic of the given kind citing exactly
/// the given spans and note spans.
pub open spec fn is_error_diag(d: Diagnostic, kind: DiagKind, spans: Seq<Span>, notes: Seq<Span>) -> bool {
    &&& d.severity == Severity::Error
    &&& d.kind == kind
    &&& d.spans@ == spans
    &&& d.note_spans@ == notes
}

/// One record of the scoreboard trace: a definition as it was declared.
/// Written only when the session's trace option is set; an observability
/// hook, not a correctness dependency.
#[derive(Clone, Copy, PartialEq, Eq, Structural, Debug)]
pub struct TraceEvent {
    pub name: ResolvableName,
    pub def: Def,
}

/// Options controlling a compilation session.
#[derive(Clone, Copy, PartialEq, Eq, Structural, Debug)]
pub struct SessionOptions {
    pub ignore_duplicate_defs: bool,
    /// Record a trace of scoreboard declarations for debugging purposes.
    pub trace_scoreboard: bool,
}

/// A compilation session: the options and the diagnostics sink. The sink
/// accepts structured records and never blocks or fails.
pub struct Session {
    pub opts: SessionOptions,
    /// Every diagnostic emitted so far, in emission order.
    pub diags: Vec<Diagnostic>,
    /// The scoreboard trace, in emission order.
    pub trace: Vec<TraceEvent>,
}

impl Session {
    /// Create a new session with default options and empty sinks.
    pub fn new() -> (s: Session)
        ensures
            s.opts == (SessionOptions { ignore_duplicate_defs: false, trace_scoreboard: false }),
            s.diags@ == Seq::<Diagnostic>::empty(),
            s.trace@ == Seq::<TraceEvent>::empty(),
    {
        Session {
            opts: SessionOptions { ignore_duplicate_defs: false, trace_scoreboard: false },
            diags: Vec::new(),
            trace: Vec::new(),
        }
    }

    /// Emit a diagnostic: append it to the sink. Fire-and-forget.
    pub fn emit(&mut self, err: Diagnostic)
        ensures
            final(self).opts == old(self).opts,
            final(self).diags@ == old(self).diags@.push(err),
            final(self).trace@ == old(self).trace@,
    {
        self.diags.push(err);
    }

    /// Record one trace event, if tracing is enabled.
    pub fn trace_decl(&mut self, name: ResolvableName, def: Def)
        ensures
            final(self).opts == old(self).opts,
            final(self).diags@ == old(self).diags@,
            final(self).trace@ == if old(self).opts.trace_scoreboard {
                old(self).trace@.push(TraceEvent { name, def })
            } else {
                old(self).trace@
            },
    {
        if self.opts.trace_scoreboard {
            self.trace.push(TraceEvent { name, def });
        }
    }
}

} // verus!
