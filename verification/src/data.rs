//! Source positions, designators and diagnostics.
use vstd::prelude::*;

verus! {

/// A span of source text, as a half-open range of character offsets.
#[derive(Clone, Copy, Debug, PartialEq, Eq, Structural)]
pub struct SrcPos {
    pub start: u32,
    pub end: u32,
}

/// An interned identifier. Two identifiers are the same name exactly when
/// their ids are equal.
#[derive(Clone, Copy, Debug, PartialEq, Eq, Structural)]
pub struct Symbol {
    pub id: u32,
}

/// The operator symbols that can designate an overloaded subprogram.
#[derive(Clone, Copy, Debug, PartialEq, Eq, Structural)]
pub enum Operator {
    And,
    Or,
    Nand,
    Nor,
    Xor,
    Xnor,
    EQ,
    NE,
    LT,
    LTE,
    GT,
    GTE,
    Plus,
    Minus,
    Concat,
    Times,
    Div,
    Mod,
    Rem,
    Pow,
    Abs,
    Not,
}

/// The name by which a declaration is referred to.
#[derive(Clone, Copy, Debug, PartialEq, Eq, Structural)]
pub enum Designator {
    Identifier(Symbol),
    OperatorSymbol(Operator),
    Character(u8),
}

#[derive(Clone, Copy, Debug, PartialEq, Eq, Structural)]
pub enum Severity {
    Error,
    Warning,
}

/// The design units that an instantiation statement can name.
#[derive(Clone, Copy, Debug, PartialEq, Eq, Structural)]
pub enum UnitKind {
    Entity,
    Component,
    Configuration,
}

/// What a diagnostic says. Declarations are given by their index in the
/// arena, names by their designator.
#[derive(Clone, Copy, Debug, PartialEq, Eq, Structural)]
pub enum Message {
    /// Ambiguous use of the designator.
    AmbiguousUse(Designator),
    /// The designator does not match the given type.
    DoesNotMatchType(Designator, usize),
    /// Could not resolve the designator.
    CouldNotResolve(Designator),
    /// No declaration of the designator.
    NoDeclaration(Designator),
    /// Duplicate declaration of the designator.
    DuplicateDeclaration(Designator),
    /// Functions cannot return without a value.
    FunctionReturnWithoutValue,
    /// Procedures cannot return a value.
    ProcedureReturnsValue,
    /// Cannot return from a process.
    ReturnFromProcess,
    /// Expected loop label, got the given declaration.
    ExpectedLoopLabel(usize),
    /// Expected loop label, got an overloaded name.
    ExpectedLoopLabelGotOverloaded(Designator),
    /// Expected a design unit of the given kind, got the given declaration.
    ExpectedUnit(UnitKind, usize),
    /// Expected a design unit of the given kind, got an overloaded name.
    ExpectedUnitGotOverloaded(UnitKind, Designator),
    /// The designator does not denote a type.
    ExpectedType(Designator),
    /// A literal does not match the given type.
    LiteralDoesNotMatchType(usize),
    /// The declaration does not denote a value.
    NotAValue(usize),
    /// The declaration cannot be called.
    NotCallable(usize),
    /// The designator does not denote a valid target of the assignment.
    InvalidTarget(Designator),
    /// An actual without a corresponding formal.
    UnexpectedExtraArgument,
    /// No association of the given formal.
    NoAssociation(usize),
}

/// How a related declaration bears on a diagnostic.
#[derive(Clone, Copy, Debug, PartialEq, Eq, Structural)]
pub enum RelatedKind {
    /// "Might be": a candidate that matches.
    MightBe,
    /// "Does not match": a candidate that was considered and rejected.
    DoesNotMatch,
    /// "Previously defined here".
    PreviouslyDefined,
}

/// A declaration mentioned by a diagnostic, with the position where it was
/// declared, if it has one.
#[derive(Clone, Copy, Debug, PartialEq, Eq, Structural)]
pub struct Related {
    pub pos: Option<SrcPos>,
    pub kind: RelatedKind,
    pub ent: usize,
}

/// A diagnostic record.
#[derive(Debug)]
pub struct Diagnostic {
    pub pos: SrcPos,
    pub severity: Severity,
    pub message: Message,
    pub related: Vec<Related>,
}

/// The mathematical value of a diagnostic.
pub struct DiagnosticView {
    pub pos: SrcPos,
    pub severity: Severity,
    pub message: Message,
    pub related: Seq<Related>,
}

impl View for Diagnostic {
    type V = DiagnosticView;

    open spec fn view(&self) -> DiagnosticView {
        DiagnosticView {
            pos: self.pos,
            severity: self.severity,
            message: self.message,
            related: self.related@,
        }
    }
}

/// An error diagnostic without related declarations.
pub open spec fn error_view(pos: SrcPos, message: Message) -> DiagnosticView {
    DiagnosticView { pos, severity: Severity::Error, message, related: Seq::empty() }
}

/// The values of a list of diagnostics, in order.
pub open spec fn views(diagnostics: Seq<Diagnostic>) -> Seq<DiagnosticView> {
    diagnostics.map_values(|d: Diagnostic| d@)
}

/// Appending a diagnostic appends its value.
pub proof fn lemma_views_push(diagnostics: Seq<Diagnostic>, d: Diagnostic)
    ensures
        views(diagnostics.push(d)) == views(diagnostics).push(d@),
{
    assert(views(diagnostics.push(d)) =~= views(diagnostics).push(d@));
}

impl Diagnostic {
    /// An error at `pos` without related declarations.
    pub fn error(pos: SrcPos, message: Message) -> (d: Diagnostic)
        ensures
            d@ == error_view(pos, message),
    {
        Diagnostic { pos, severity: Severity::Error, message, related: Vec::new() }
    }

    /// Adds a related declaration at the end of the list.
    pub fn add_related(&mut self, related: Related)
        ensures
            final(self)@ == (DiagnosticView {
                related: old(self)@.related.push(related),
                ..old(self)@
            }),
    {
        self.related.push(related);
    }
}

/// Appends an error without related declarations to the sink.
pub fn push_error(diagnostics: &mut Vec<Diagnostic>, pos: SrcPos, message: Message)
    ensures
        views(final(diagnostics)@) == views(old(diagnostics)@).push(error_view(pos, message)),
{
    let d = Diagnostic::error(pos, message);
    proof {
        lemma_views_push(diagnostics@, d);
    }
    diagnostics.push(d);
}

/// Appends a diagnostic to the sink.
pub fn push_diagnostic(diagnostics: &mut Vec<Diagnostic>, d: Diagnostic)
    ensures
        views(final(diagnostics)@) == views(old(diagnostics)@).push(d@),
{
    proof {
        lemma_views_push(diagnostics@, d);
    }
    diagnostics.push(d);
}

} // verus!
