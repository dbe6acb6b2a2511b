//! The syntax tree that the analysis reads: names, expressions and
//! association lists.
use vstd::prelude::*;
use crate::data::{Designator, SrcPos, Symbol};
use crate::named_entity::{Mode, ObjectClass};

verus! {

/// The slot of a name node in the table of references.
pub type Reference = usize;

/// A use of a name: the designator, where it stands, and the slot that
/// records which declaration it was resolved to.
#[derive(Clone, Copy, Debug, PartialEq, Eq, Structural)]
pub struct Name {
    pub designator: Designator,
    pub pos: SrcPos,
    pub reference: Reference,
}

/// A defining occurrence of an identifier.
#[derive(Clone, Copy, Debug, PartialEq, Eq, Structural)]
pub struct Ident {
    pub name: Symbol,
    pub pos: SrcPos,
}

#[derive(Debug)]
pub struct WithPos<T> {
    pub item: T,
    pub pos: SrcPos,
}

#[derive(Debug)]
pub enum Literal {
    Integer(u64),
    Physical(u64, Symbol),
    String(Vec<u8>),
}

#[derive(Debug)]
pub enum Expression {
    Literal(Literal),
    /// A name that stands for an object, an enumeration literal or a call
    /// without arguments.
    Name(Name),
    Call(FunctionCall),
    Binary(Name, Box<WithPos<Expression>>, Box<WithPos<Expression>>),
    Unary(Name, Box<WithPos<Expression>>),
}

#[derive(Debug)]
pub struct FunctionCall {
    pub name: Name,
    pub parameters: Vec<AssociationElement>,
}

#[derive(Debug)]
pub enum ActualPart {
    Expression(WithPos<Expression>),
    Open(SrcPos),
}

/// An actual bound to a formal, by position where `formal` is absent and by
/// name where it is present.
#[derive(Debug)]
pub struct AssociationElement {
    pub formal: Option<Name>,
    pub actual: ActualPart,
}

/// A range of values of a discrete type: the values of a type, or the
/// values between two bounds.
#[derive(Debug)]
pub enum DiscreteRange {
    Discrete(Name),
    Range(WithPos<Expression>, WithPos<Expression>),
}

#[derive(Debug)]
pub enum Choice {
    Expression(WithPos<Expression>),
    DiscreteRange(DiscreteRange),
    Others,
}

/// A value that a signal takes and the delay after which it takes it.
#[derive(Debug)]
pub struct WaveformElement {
    pub value: WithPos<Expression>,
    pub after: Option<WithPos<Expression>>,
}

#[derive(Debug)]
pub struct ReturnStatement {
    pub pos: SrcPos,
    pub expression: Option<WithPos<Expression>>,
}

#[derive(Debug)]
pub struct WaitStatement {
    pub sensitivity_clause: Vec<Name>,
    pub condition_clause: Option<WithPos<Expression>>,
    pub timeout_clause: Option<WithPos<Expression>>,
}

#[derive(Debug)]
pub struct AssertStatement {
    pub condition: WithPos<Expression>,
    pub report: Option<WithPos<Expression>>,
    pub severity: Option<WithPos<Expression>>,
}

#[derive(Debug)]
pub struct ReportStatement {
    pub report: WithPos<Expression>,
    pub severity: Option<WithPos<Expression>>,
}

/// An `exit` or a `next` statement.
#[derive(Debug)]
pub struct ExitStatement {
    pub condition: Option<WithPos<Expression>>,
    pub loop_label: Option<Name>,
}

/// A condition and the statements that it guards.
#[derive(Debug)]
pub struct Conditional {
    pub condition: WithPos<Expression>,
    pub item: Vec<LabeledSequentialStatement>,
}

#[derive(Debug)]
pub struct IfStatement {
    pub conditionals: Vec<Conditional>,
    pub else_item: Option<Vec<LabeledSequentialStatement>>,
}

/// The choices of a case alternative and the statements that they select.
#[derive(Debug)]
pub struct Alternative {
    pub choices: Vec<Choice>,
    pub item: Vec<LabeledSequentialStatement>,
}

#[derive(Debug)]
pub struct CaseStatement {
    pub expression: WithPos<Expression>,
    pub alternatives: Vec<Alternative>,
}

#[derive(Debug)]
pub enum IterationScheme {
    While(WithPos<Expression>),
    For(Ident, DiscreteRange),
}

#[derive(Debug)]
pub struct LoopStatement {
    pub iteration_scheme: Option<IterationScheme>,
    pub statements: Vec<LabeledSequentialStatement>,
}

#[derive(Debug)]
pub struct SignalAssignment {
    pub target: Name,
    pub rhs: Vec<WaveformElement>,
}

/// An assignment of the value of an expression: to a variable, or to a
/// signal that is forced.
#[derive(Debug)]
pub struct ExpressionAssignment {
    pub target: Name,
    pub rhs: WithPos<Expression>,
}

#[derive(Debug)]
pub struct SignalReleaseAssignment {
    pub target: Name,
}

#[derive(Debug)]
pub enum SequentialStatement {
    Return(ReturnStatement),
    Wait(WaitStatement),
    Assert(AssertStatement),
    Report(ReportStatement),
    Exit(ExitStatement),
    Next(ExitStatement),
    If(IfStatement),
    Case(CaseStatement),
    Loop(LoopStatement),
    ProcedureCall(FunctionCall),
    SignalAssignment(SignalAssignment),
    VariableAssignment(ExpressionAssignment),
    SignalForceAssignment(ExpressionAssignment),
    SignalReleaseAssignment(SignalReleaseAssignment),
    Null,
}

#[derive(Debug)]
pub struct LabeledSequentialStatement {
    pub label: Option<Ident>,
    pub statement: SequentialStatement,
}

/// The declaration of a signal, a constant or a variable.
#[derive(Debug)]
pub struct ObjectDeclaration {
    pub class: ObjectClass,
    pub ident: Ident,
    pub subtype: Name,
    pub expression: Option<WithPos<Expression>>,
}

#[derive(Debug)]
pub enum Declaration {
    Object(ObjectDeclaration),
}

/// The declaration of a generic or a port.
#[derive(Debug)]
pub struct InterfaceDeclaration {
    pub class: ObjectClass,
    pub ident: Ident,
    pub mode: Mode,
    pub subtype: Name,
    pub expression: Option<WithPos<Expression>>,
}

#[derive(Debug)]
pub struct BlockHeader {
    pub generic_clause: Option<Vec<InterfaceDeclaration>>,
    pub generic_map: Option<Vec<AssociationElement>>,
    pub port_clause: Option<Vec<InterfaceDeclaration>>,
    pub port_map: Option<Vec<AssociationElement>>,
}

#[derive(Debug)]
pub struct BlockStatement {
    pub guard_condition: Option<WithPos<Expression>>,
    pub header: BlockHeader,
    pub decl: Vec<Declaration>,
    pub statements: Vec<LabeledConcurrentStatement>,
}

#[derive(Debug)]
pub enum SensitivityList {
    Names(Vec<Name>),
    All,
}

#[derive(Debug)]
pub struct ProcessStatement {
    pub postponed: bool,
    pub sensitivity_list: Option<SensitivityList>,
    pub decl: Vec<Declaration>,
    pub statements: Vec<LabeledSequentialStatement>,
}

/// The declarations and statements that a generate statement stands for.
#[derive(Debug)]
pub struct GenerateBody {
    pub alternative_label: Option<Ident>,
    pub decl: Option<Vec<Declaration>>,
    pub statements: Vec<LabeledConcurrentStatement>,
}

#[derive(Debug)]
pub struct ForGenerateStatement {
    pub index_name: Ident,
    pub discrete_range: DiscreteRange,
    pub body: GenerateBody,
}

#[derive(Debug)]
pub struct GenerateConditional {
    pub condition: WithPos<Expression>,
    pub item: GenerateBody,
}

#[derive(Debug)]
pub struct IfGenerateStatement {
    pub conditionals: Vec<GenerateConditional>,
    pub else_item: Option<GenerateBody>,
}

#[derive(Debug)]
pub struct CaseGenerateStatement {
    pub alternatives: Vec<GenerateBody>,
}

/// The design unit that an instantiation statement names.
#[derive(Clone, Copy, Debug, PartialEq, Eq, Structural)]
pub enum InstantiatedUnit {
    Entity(Name),
    Component(Name),
    Configuration(Name),
}

#[derive(Debug)]
pub struct InstantiationStatement {
    pub unit: InstantiatedUnit,
    pub generic_map: Vec<AssociationElement>,
    pub port_map: Vec<AssociationElement>,
}

#[derive(Debug)]
pub struct ConcurrentSignalAssignment {
    pub postponed: bool,
    pub guarded: bool,
    pub target: Name,
    pub rhs: Vec<WaveformElement>,
}

#[derive(Debug)]
pub struct ConcurrentProcedureCall {
    pub postponed: bool,
    pub call: FunctionCall,
}

#[derive(Debug)]
pub struct ConcurrentAssertStatement {
    pub postponed: bool,
    pub statement: AssertStatement,
}

#[derive(Debug)]
pub enum ConcurrentStatement {
    Block(BlockStatement),
    Process(ProcessStatement),
    ForGenerate(ForGenerateStatement),
    IfGenerate(IfGenerateStatement),
    CaseGenerate(CaseGenerateStatement),
    Instance(InstantiationStatement),
    Assignment(ConcurrentSignalAssignment),
    ProcedureCall(ConcurrentProcedureCall),
    Assert(ConcurrentAssertStatement),
}

#[derive(Debug)]
pub struct LabeledConcurrentStatement {
    pub label: Option<Ident>,
    pub statement: ConcurrentStatement,
}

/// The number of nodes of an expression.
pub open spec fn expr_size(expr: Expression) -> nat
    decreases expr,
{
    match expr {
        Expression::Literal(_) => 1,
        Expression::Name(_) => 1,
        Expression::Call(call) => 1 + assoc_size(call.parameters@, call.parameters@.len()),
        Expression::Binary(_, left, right) => 2 + expr_size(left.item) + expr_size(right.item),
        Expression::Unary(_, operand) => 2 + expr_size(operand.item),
    }
}

/// The number of nodes of the first `n` elements of an association list.
pub open spec fn assoc_size(elems: Seq<AssociationElement>, n: nat) -> nat
    decreases elems, n,
{
    if n == 0 || n > elems.len() {
        0
    } else {
        assoc_size(elems, (n - 1) as nat) + 1 + match elems[n - 1].actual {
            ActualPart::Expression(expr) => expr_size(expr.item),
            ActualPart::Open(_) => 0,
        }
    }
}

/// The slots of the name nodes of an expression.
pub open spec fn expr_slots(expr: Expression) -> Set<Reference>
    decreases expr,
{
    match expr {
        Expression::Literal(_) => Set::empty(),
        Expression::Name(name) => set![name.reference],
        Expression::Call(call) => assoc_slots(call.parameters@, call.parameters@.len()).insert(
            call.name.reference,
        ),
        Expression::Binary(op, left, right) => (expr_slots(left.item) + expr_slots(
            right.item,
        )).insert(op.reference),
        Expression::Unary(op, operand) => expr_slots(operand.item).insert(op.reference),
    }
}

/// The slot of the formal of an association element, where it is named.
pub open spec fn formal_slots(elem: AssociationElement) -> Set<Reference> {
    match elem.formal {
        Some(name) => set![name.reference],
        None => Set::empty(),
    }
}

/// The slots of the name nodes of the actual of an association element.
pub open spec fn actual_slots(elem: AssociationElement) -> Set<Reference>
    decreases elem,
{
    match elem.actual {
        ActualPart::Expression(expr) => expr_slots(expr.item),
        ActualPart::Open(_) => Set::empty(),
    }
}

/// The slots of the name nodes of the first `n` elements of an association
/// list.
pub open spec fn assoc_slots(elems: Seq<AssociationElement>, n: nat) -> Set<Reference>
    decreases elems, n,
{
    if n == 0 || n > elems.len() {
        Set::empty()
    } else {
        assoc_slots(elems, (n - 1) as nat) + formal_slots(elems[n - 1]) + actual_slots(
            elems[n - 1],
        )
    }
}

/// Whether no positional element of the list follows a named one.
pub open spec fn assoc_shape_ok(elems: Seq<AssociationElement>) -> bool {
    forall|i: int, j: int|
        0 <= i < j < elems.len() && (#[trigger] elems[i]).formal is Some ==> (#[trigger] elems[j]).formal is Some
}

/// Whether every association list in the expression is well shaped.
pub open spec fn expr_ok(expr: Expression) -> bool
    decreases expr,
{
    match expr {
        Expression::Literal(_) => true,
        Expression::Name(_) => true,
        Expression::Call(call) => assoc_ok(call.parameters@, call.parameters@.len()),
        Expression::Binary(_, left, right) => expr_ok(left.item) && expr_ok(right.item),
        Expression::Unary(_, operand) => expr_ok(operand.item),
    }
}

/// Whether the actual of an association element holds only well shaped
/// association lists.
pub open spec fn elem_ok(elem: AssociationElement) -> bool
    decreases elem,
{
    match elem.actual {
        ActualPart::Expression(expr) => expr_ok(expr.item),
        ActualPart::Open(_) => true,
    }
}

/// Whether the list is well shaped and so is every list in the actuals of
/// its first `n` elements.
pub open spec fn assoc_ok(elems: Seq<AssociationElement>, n: nat) -> bool
    decreases elems, n,
{
    if n == 0 || n > elems.len() {
        assoc_shape_ok(elems)
    } else {
        assoc_ok(elems, (n - 1) as nat) && elem_ok(elems[n - 1])
    }
}

/// The slots of the name nodes of an expression that may be absent.
pub open spec fn opt_slots(expr: Option<WithPos<Expression>>) -> Set<Reference> {
    match expr {
        Some(expr) => expr_slots(expr.item),
        None => Set::empty(),
    }
}

/// Whether every association list in an expression that may be absent is
/// well shaped.
pub open spec fn opt_ok(expr: Option<WithPos<Expression>>) -> bool {
    match expr {
        Some(expr) => expr_ok(expr.item),
        None => true,
    }
}

/// The slots of the name nodes of a discrete range.
pub open spec fn drange_slots(drange: DiscreteRange) -> Set<Reference> {
    match drange {
        DiscreteRange::Discrete(name) => set![name.reference],
        DiscreteRange::Range(left, right) => expr_slots(left.item) + expr_slots(right.item),
    }
}

/// Whether every association list in a discrete range is well shaped.
pub open spec fn drange_ok(drange: DiscreteRange) -> bool {
    match drange {
        DiscreteRange::Discrete(_) => true,
        DiscreteRange::Range(left, right) => expr_ok(left.item) && expr_ok(right.item),
    }
}

/// The slots of the name nodes of a choice.
pub open spec fn choice_slots(choice: Choice) -> Set<Reference> {
    match choice {
        Choice::Expression(expr) => expr_slots(expr.item),
        Choice::DiscreteRange(drange) => drange_slots(drange),
        Choice::Others => Set::empty(),
    }
}

/// Whether every association list in a choice is well shaped.
pub open spec fn choice_ok(choice: Choice) -> bool {
    match choice {
        Choice::Expression(expr) => expr_ok(expr.item),
        Choice::DiscreteRange(drange) => drange_ok(drange),
        Choice::Others => true,
    }
}

/// The slots of the name nodes of the first `n` choices.
pub open spec fn choices_slots(choices: Seq<Choice>, n: nat) -> Set<Reference>
    decreases n,
{
    if n == 0 || n > choices.len() {
        Set::empty()
    } else {
        choices_slots(choices, (n - 1) as nat) + choice_slots(choices[n - 1])
    }
}

/// Whether every association list in the first `n` choices is well shaped.
pub open spec fn choices_ok(choices: Seq<Choice>, n: nat) -> bool
    decreases n,
{
    if n == 0 || n > choices.len() {
        true
    } else {
        choices_ok(choices, (n - 1) as nat) && choice_ok(choices[n - 1])
    }
}

/// The slots of the name nodes of the first `n` elements of a waveform.
pub open spec fn waveform_slots(elems: Seq<WaveformElement>, n: nat) -> Set<Reference>
    decreases n,
{
    if n == 0 || n > elems.len() {
        Set::empty()
    } else {
        waveform_slots(elems, (n - 1) as nat) + expr_slots(elems[n - 1].value.item) + opt_slots(
            elems[n - 1].after,
        )
    }
}

/// Whether every association list in the first `n` elements of a waveform
/// is well shaped.
pub open spec fn waveform_ok(elems: Seq<WaveformElement>, n: nat) -> bool
    decreases n,
{
    if n == 0 || n > elems.len() {
        true
    } else {
        waveform_ok(elems, (n - 1) as nat) && expr_ok(elems[n - 1].value.item) && opt_ok(
            elems[n - 1].after,
        )
    }
}

/// The slots of the first `n` names of a list.
pub open spec fn names_slots(names: Seq<Name>, n: nat) -> Set<Reference>
    decreases n,
{
    if n == 0 || n > names.len() {
        Set::empty()
    } else {
        names_slots(names, (n - 1) as nat) + set![names[n - 1].reference]
    }
}

/// Whether no positional element follows a named one.
pub fn check_shape(elems: &Vec<AssociationElement>) -> (ok: bool)
    ensures
        ok == assoc_shape_ok(elems@),
{
    let mut named: bool = false;
    let mut i: usize = 0;
    while i < elems.len()
        invariant
            i <= elems.len(),
            named <==> exists|k: int| 0 <= k < i && (#[trigger] elems@[k]).formal is Some,
            forall|a: int, b: int|
                0 <= a < b < i && (#[trigger] elems@[a]).formal is Some ==> (#[trigger] elems@[b]).formal is Some,
        decreases elems.len() - i,
    {
        match &elems[i].formal {
            Some(_) => {
                named = true;
            },
            None => {
                if named {
                    return false;
                }
            },
        }
        i = i + 1;
    }
    true
}

/// A list that is well formed up to an element is well formed up to every
/// earlier one.
pub proof fn lemma_assoc_ok_prefix(elems: Seq<AssociationElement>, k: nat, n: nat)
    requires
        k <= n <= elems.len(),
        assoc_ok(elems, n),
    ensures
        assoc_ok(elems, k),
    decreases n,
{
    if k < n {
        lemma_assoc_ok_prefix(elems, k, (n - 1) as nat);
    }
}

} // verus!
