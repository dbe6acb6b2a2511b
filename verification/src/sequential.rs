//! Analysis of sequential statements.
use vstd::prelude::*;
use crate::analyze::{
    AnalyzeContext, FatalResult, Outcome, Standard, Unit, World, advanced, extends,
    lemma_performed_bind, lemma_performed_bound, lemma_performed_nothing, lemma_performed_report,
    lemma_performed_unbound, performed, unit_of, world_of,
};
use crate::ast::{
    Alternative, CaseStatement, Conditional, ExitStatement, Ident, IfStatement, IterationScheme,
    LabeledSequentialStatement, LoopStatement, Name, Reference, ReturnStatement,
    SequentialStatement, choices_ok, choices_slots, drange_ok, drange_slots, expr_ok, expr_slots,
    names_slots, opt_ok, opt_slots, waveform_ok, waveform_slots,
};
use crate::data::{Designator, Diagnostic, Message, error_view, push_diagnostic, push_error, views};
use crate::named_entity::{AnyEntKind, EntityId, NamedEntity, TypeId};
use crate::labels::{lemma_labels_part_count, part_label_count};
use crate::names::{
    choices_outcome, drange_outcome, drange_type, names_outcome, opt_typed, optional_typed,
    unambiguous_type,
};
use crate::region::{NamedEntities, Scope, ScopeView, Visible, binding_of, lemma_scope_nesting};
use crate::semantic::TypeCheck;
use crate::target::{
    AssignmentType, call_ok, call_slots, expr_assignment, procedure_call, target_outcome,
    waveform_assignment,
};

verus! {

broadcast use crate::analyze::lemma_performed_advanced;

/// The construct that a sequence of statements is the body of. It decides
/// what a `return` statement may look like.
#[derive(Clone, Copy, Debug, PartialEq, Eq, Structural)]
pub enum SequentialRoot {
    Process,
    Procedure,
    Function(TypeId),
    Unknown,
}

/// Whether a declaration is a label.
pub open spec fn is_label(arena: Seq<NamedEntity>, ent: EntityId) -> bool {
    ent < arena.len() && arena[ent as int].kind is Label
}

/// The label of an `exit` or a `next` statement: it is bound where it
/// stands for one declaration, and reported where that is not a label.
pub open spec fn label_outcome(arena: Seq<NamedEntity>, scope: ScopeView, label: Name) -> Outcome {
    match scope.visible(label.designator) {
        None => Outcome::report(
            TypeCheck::Unknown,
            error_view(label.pos, Message::NoDeclaration(label.designator)),
        ).unbind(label.reference),
        Some(Visible::Single(ent)) => {
            if is_label(arena, ent) {
                Outcome::nothing().bind(label.reference, ent)
            } else {
                Outcome::report(
                    TypeCheck::NotOk,
                    error_view(label.pos, Message::ExpectedLoopLabel(ent)),
                ).bind(label.reference, ent)
            }
        },
        Some(Visible::Overloaded(_)) => Outcome::report(
            TypeCheck::NotOk,
            error_view(label.pos, Message::ExpectedLoopLabelGotOverloaded(label.designator)),
        ).unbind(label.reference),
    }
}

/// The label of an `exit` or a `next` statement, where it has one.
pub open spec fn optional_label(arena: Seq<NamedEntity>, scope: ScopeView, label: Option<Name>) -> Outcome {
    match label {
        Some(label) => label_outcome(arena, scope, label),
        None => Outcome::nothing(),
    }
}

/// The slot of a label that may be absent.
pub open spec fn label_slots(label: Option<Name>) -> Set<Reference> {
    match label {
        Some(label) => set![label.reference],
        None => Set::empty(),
    }
}

/// The declaration of the parameter of a `for` loop.
pub open spec fn loop_parameter(index: Ident, typ: Option<TypeId>) -> NamedEntity {
    NamedEntity {
        designator: Designator::Identifier(index.name),
        kind: AnyEntKind::LoopParameter(typ),
        decl_pos: Some(index.pos),
    }
}

/// The declaration of a label.
pub open spec fn label_entity(label: Ident) -> NamedEntity {
    NamedEntity {
        designator: Designator::Identifier(label.name),
        kind: AnyEntKind::Label,
        decl_pos: Some(label.pos),
    }
}

/// A `return` statement. In a function it must have a value, which is held
/// against the return type; in a procedure it must have none; in a process
/// it is never legal; where the construct is not known, a value is analyzed
/// on its own.
pub open spec fn return_world(
    scope: ScopeView,
    sroot: SequentialRoot,
    ret: ReturnStatement,
    w: World,
) -> World {
    match sroot {
        SequentialRoot::Function(typ) => match ret.expression {
            Some(expr) => w.step(
                expr_ok(expr.item),
                opt_typed(w.arena, scope, Some(typ), expr),
                expr_slots(expr.item),
            ),
            None => w.report(error_view(ret.pos, Message::FunctionReturnWithoutValue)),
        },
        SequentialRoot::Procedure => {
            if ret.expression is Some {
                w.report(error_view(ret.pos, Message::ProcedureReturnsValue))
            } else {
                w
            }
        },
        SequentialRoot::Process => w.report(error_view(ret.pos, Message::ReturnFromProcess)),
        SequentialRoot::Unknown => w.step(
            opt_ok(ret.expression),
            optional_typed(w.arena, scope, None, ret.expression),
            opt_slots(ret.expression),
        ),
    }
}

/// Whether every association list that the analysis of a `return`
/// statement comes to is well shaped.
pub open spec fn return_ok(sroot: SequentialRoot, ret: ReturnStatement) -> bool {
    match sroot {
        SequentialRoot::Function(_) => opt_ok(ret.expression),
        SequentialRoot::Unknown => opt_ok(ret.expression),
        _ => true,
    }
}

/// An `exit` or a `next` statement: the loop label, then the condition.
pub open spec fn exit_world(std: Standard, scope: ScopeView, exit: ExitStatement, w: World) -> World {
    w.step(
        true,
        optional_label(w.arena, scope, exit.loop_label),
        label_slots(exit.loop_label),
    ).step(
        opt_ok(exit.condition),
        optional_typed(w.arena, scope, Some(std.boolean), exit.condition),
        opt_slots(exit.condition),
    )
}

/// The analysis of one sequential statement.
pub open spec fn seq_stmt(
    std: Standard,
    scope: ScopeView,
    sroot: SequentialRoot,
    stmt: SequentialStatement,
    w: World,
) -> World
    decreases stmt, 0nat,
{
    if w.fatal {
        w
    } else {
        match stmt {
            SequentialStatement::Return(ret) => return_world(scope, sroot, ret, w),
            SequentialStatement::Wait(wait) => w.step(
                true,
                names_outcome(scope, wait.sensitivity_clause@, wait.sensitivity_clause@.len()),
                names_slots(wait.sensitivity_clause@, wait.sensitivity_clause@.len()),
            ).step(
                opt_ok(wait.condition_clause),
                optional_typed(w.arena, scope, Some(std.boolean), wait.condition_clause),
                opt_slots(wait.condition_clause),
            ).step(
                opt_ok(wait.timeout_clause),
                optional_typed(w.arena, scope, Some(std.time), wait.timeout_clause),
                opt_slots(wait.timeout_clause),
            ),
            SequentialStatement::Assert(assert_stmt) => w.step(
                expr_ok(assert_stmt.condition.item),
                opt_typed(w.arena, scope, Some(std.boolean), assert_stmt.condition),
                expr_slots(assert_stmt.condition.item),
            ).step(
                opt_ok(assert_stmt.report),
                optional_typed(w.arena, scope, Some(std.string), assert_stmt.report),
                opt_slots(assert_stmt.report),
            ).step(
                opt_ok(assert_stmt.severity),
                optional_typed(w.arena, scope, Some(std.severity_level), assert_stmt.severity),
                opt_slots(assert_stmt.severity),
            ),
            SequentialStatement::Report(report_stmt) => w.step(
                expr_ok(report_stmt.report.item),
                opt_typed(w.arena, scope, Some(std.string), report_stmt.report),
                expr_slots(report_stmt.report.item),
            ).step(
                opt_ok(report_stmt.severity),
                optional_typed(w.arena, scope, Some(std.severity_level), report_stmt.severity),
                opt_slots(report_stmt.severity),
            ),
            SequentialStatement::Exit(exit) => exit_world(std, scope, exit, w),
            SequentialStatement::Next(next) => exit_world(std, scope, next, w),
            SequentialStatement::If(ifstmt) => {
                let conditionals = seq_conditionals(
                    std,
                    scope,
                    sroot,
                    ifstmt.conditionals@,
                    ifstmt.conditionals@.len(),
                    w,
                );
                match ifstmt.else_item {
                    Some(else_item) => seq_part(
                        std,
                        scope,
                        sroot,
                        else_item@,
                        else_item@.len(),
                        conditionals,
                    ),
                    None => conditionals,
                }
            },
            SequentialStatement::Case(case_stmt) => seq_alternatives(
                std,
                scope,
                sroot,
                unambiguous_type(w.arena, scope, case_stmt.expression.item),
                case_stmt.alternatives@,
                case_stmt.alternatives@.len(),
                w.step(
                    expr_ok(case_stmt.expression.item),
                    opt_typed(w.arena, scope, None, case_stmt.expression),
                    expr_slots(case_stmt.expression.item),
                ),
            ),
            SequentialStatement::Loop(loop_stmt) => match loop_stmt.iteration_scheme {
                Some(IterationScheme::For(index, drange)) => {
                    let ent = loop_parameter(index, drange_type(w.arena, scope, drange));
                    seq_part(
                        std,
                        scope.nested().added(binding_of(w.arena.len() as usize, ent)),
                        sroot,
                        loop_stmt.statements@,
                        loop_stmt.statements@.len(),
                        w.step(
                            drange_ok(drange),
                            drange_outcome(w.arena, scope, drange),
                            drange_slots(drange),
                        ).define(ent),
                    )
                },
                Some(IterationScheme::While(expr)) => seq_part(
                    std,
                    scope,
                    sroot,
                    loop_stmt.statements@,
                    loop_stmt.statements@.len(),
                    w.step(
                        expr_ok(expr.item),
                        opt_typed(w.arena, scope, Some(std.boolean), expr),
                        expr_slots(expr.item),
                    ),
                ),
                None => seq_part(
                    std,
                    scope,
                    sroot,
                    loop_stmt.statements@,
                    loop_stmt.statements@.len(),
                    w,
                ),
            },
            SequentialStatement::ProcedureCall(call) => w.step(
                call_ok(call),
                procedure_call(w.arena, scope, call),
                call_slots(call),
            ),
            SequentialStatement::SignalAssignment(assign) => w.step(
                waveform_ok(assign.rhs@, assign.rhs@.len()),
                waveform_assignment(
                    w.arena,
                    scope,
                    std.time,
                    assign.target,
                    AssignmentType::Signal,
                    assign.rhs@,
                ),
                set![assign.target.reference] + waveform_slots(assign.rhs@, assign.rhs@.len()),
            ),
            SequentialStatement::VariableAssignment(assign) => w.step(
                expr_ok(assign.rhs.item),
                expr_assignment(w.arena, scope, assign.target, AssignmentType::Variable, assign.rhs),
                set![assign.target.reference] + expr_slots(assign.rhs.item),
            ),
            SequentialStatement::SignalForceAssignment(assign) => w.step(
                expr_ok(assign.rhs.item),
                expr_assignment(w.arena, scope, assign.target, AssignmentType::Signal, assign.rhs),
                set![assign.target.reference] + expr_slots(assign.rhs.item),
            ),
            SequentialStatement::SignalReleaseAssignment(assign) => w.step(
                true,
                target_outcome(w.arena, scope, assign.target, AssignmentType::Signal),
                set![assign.target.reference],
            ),
            SequentialStatement::Null => w,
        }
    }
}

/// The analysis of the first `n` statements of a sequence, in order.
pub open spec fn seq_part(
    std: Standard,
    scope: ScopeView,
    sroot: SequentialRoot,
    stmts: Seq<LabeledSequentialStatement>,
    n: nat,
    w: World,
) -> World
    decreases stmts, n,
{
    if w.fatal {
        w
    } else {
        if n == 0 || n > stmts.len() {
            w
        } else {
            seq_stmt(
                std,
                scope,
                sroot,
                stmts[n - 1].statement,
                seq_part(std, scope, sroot, stmts, (n - 1) as nat, w),
            )
        }
    }
}

/// The analysis of the first `n` branches of an `if` statement: of each the
/// condition, then the statements.
pub open spec fn seq_conditionals(
    std: Standard,
    scope: ScopeView,
    sroot: SequentialRoot,
    conds: Seq<Conditional>,
    n: nat,
    w: World,
) -> World
    decreases conds, n,
{
    if w.fatal {
        w
    } else {
        if n == 0 || n > conds.len() {
            w
        } else {
            let before = seq_conditionals(std, scope, sroot, conds, (n - 1) as nat, w);
            seq_part(
                std,
                scope,
                sroot,
                conds[n - 1].item@,
                conds[n - 1].item@.len(),
                before.step(
                    expr_ok(conds[n - 1].condition.item),
                    opt_typed(before.arena, scope, Some(std.boolean), conds[n - 1].condition),
                    expr_slots(conds[n - 1].condition.item),
                ),
            )
        }
    }
}

/// The analysis of the first `n` alternatives of a `case` statement: of
/// each the choices against the type of the selector, then the statements.
pub open spec fn seq_alternatives(
    std: Standard,
    scope: ScopeView,
    sroot: SequentialRoot,
    ctyp: Option<TypeId>,
    alts: Seq<Alternative>,
    n: nat,
    w: World,
) -> World
    decreases alts, n,
{
    if w.fatal {
        w
    } else {
        if n == 0 || n > alts.len() {
            w
        } else {
            let before = seq_alternatives(std, scope, sroot, ctyp, alts, (n - 1) as nat, w);
            seq_part(
                std,
                scope,
                sroot,
                alts[n - 1].item@,
                alts[n - 1].item@.len(),
                before.step(
                    choices_ok(alts[n - 1].choices@, alts[n - 1].choices@.len()),
                    choices_outcome(
                        before.arena,
                        scope,
                        ctyp,
                        alts[n - 1].choices@,
                        alts[n - 1].choices@.len(),
                    ),
                    choices_slots(alts[n - 1].choices@, alts[n - 1].choices@.len()),
                ),
            )
        }
    }
}

/// Whether every association list that the analysis of a statement comes
/// to is well shaped.
pub open spec fn seq_stmt_ok(sroot: SequentialRoot, stmt: SequentialStatement) -> bool
    decreases stmt, 0nat,
{
    match stmt {
        SequentialStatement::Return(ret) => return_ok(sroot, ret),
        SequentialStatement::Wait(wait) => opt_ok(wait.condition_clause) && opt_ok(
            wait.timeout_clause,
        ),
        SequentialStatement::Assert(assert_stmt) => expr_ok(assert_stmt.condition.item) && opt_ok(
            assert_stmt.report,
        ) && opt_ok(assert_stmt.severity),
        SequentialStatement::Report(report_stmt) => expr_ok(report_stmt.report.item) && opt_ok(
            report_stmt.severity,
        ),
        SequentialStatement::Exit(exit) => opt_ok(exit.condition),
        SequentialStatement::Next(next) => opt_ok(next.condition),
        SequentialStatement::If(ifstmt) => seq_conditionals_ok(
            sroot,
            ifstmt.conditionals@,
            ifstmt.conditionals@.len(),
        ) && match ifstmt.else_item {
            Some(else_item) => seq_part_ok(sroot, else_item@, else_item@.len()),
            None => true,
        },
        SequentialStatement::Case(case_stmt) => expr_ok(case_stmt.expression.item)
            && seq_alternatives_ok(
            sroot,
            case_stmt.alternatives@,
            case_stmt.alternatives@.len(),
        ),
        SequentialStatement::Loop(loop_stmt) => (match loop_stmt.iteration_scheme {
            Some(IterationScheme::For(_, drange)) => drange_ok(drange),
            Some(IterationScheme::While(expr)) => expr_ok(expr.item),
            None => true,
        }) && seq_part_ok(sroot, loop_stmt.statements@, loop_stmt.statements@.len()),
        SequentialStatement::ProcedureCall(call) => call_ok(call),
        SequentialStatement::SignalAssignment(assign) => waveform_ok(
            assign.rhs@,
            assign.rhs@.len(),
        ),
        SequentialStatement::VariableAssignment(assign) => expr_ok(assign.rhs.item),
        SequentialStatement::SignalForceAssignment(assign) => expr_ok(assign.rhs.item),
        SequentialStatement::SignalReleaseAssignment(_) => true,
        SequentialStatement::Null => true,
    }
}

/// The same of the first `n` statements of a sequence.
pub open spec fn seq_part_ok(
    sroot: SequentialRoot,
    stmts: Seq<LabeledSequentialStatement>,
    n: nat,
) -> bool
    decreases stmts, n,
{
    if n == 0 || n > stmts.len() {
        true
    } else {
        seq_part_ok(sroot, stmts, (n - 1) as nat) && seq_stmt_ok(sroot, stmts[n - 1].statement)
    }
}

/// The same of the first `n` branches of an `if` statement.
pub open spec fn seq_conditionals_ok(sroot: SequentialRoot, conds: Seq<Conditional>, n: nat) -> bool
    decreases conds, n,
{
    if n == 0 || n > conds.len() {
        true
    } else {
        seq_conditionals_ok(sroot, conds, (n - 1) as nat) && expr_ok(conds[n - 1].condition.item)
            && seq_part_ok(sroot, conds[n - 1].item@, conds[n - 1].item@.len())
    }
}

/// The same of the first `n` alternatives of a `case` statement.
pub open spec fn seq_alternatives_ok(sroot: SequentialRoot, alts: Seq<Alternative>, n: nat) -> bool
    decreases alts, n,
{
    if n == 0 || n > alts.len() {
        true
    } else {
        seq_alternatives_ok(sroot, alts, (n - 1) as nat) && choices_ok(
            alts[n - 1].choices@,
            alts[n - 1].choices@.len(),
        ) && seq_part_ok(sroot, alts[n - 1].item@, alts[n - 1].item@.len())
    }
}

/// The labels of a statement and of the statements nested in it, declared
/// in the order in which they are written.
pub open spec fn labels_stmt(stmt: LabeledSequentialStatement, u: Unit) -> Unit
    decreases stmt, 0nat,
{
    if u.world.fatal {
        u
    } else {
        let labeled = match stmt.label {
            Some(label) => u.declare(label_entity(label)),
            None => u,
        };
        match stmt.statement {
            SequentialStatement::If(ifstmt) => {
                let conditionals = labels_conditionals(
                    ifstmt.conditionals@,
                    ifstmt.conditionals@.len(),
                    labeled,
                );
                match ifstmt.else_item {
                    Some(else_item) => labels_part(else_item@, else_item@.len(), conditionals),
                    None => conditionals,
                }
            },
            SequentialStatement::Case(case_stmt) => labels_alternatives(
                case_stmt.alternatives@,
                case_stmt.alternatives@.len(),
                labeled,
            ),
            SequentialStatement::Loop(loop_stmt) => labels_part(
                loop_stmt.statements@,
                loop_stmt.statements@.len(),
                labeled,
            ),
            _ => labeled,
        }
    }
}

/// The labels of the first `n` statements of a sequence.
pub open spec fn labels_part(stmts: Seq<LabeledSequentialStatement>, n: nat, u: Unit) -> Unit
    decreases stmts, n,
{
    if u.world.fatal {
        u
    } else {
        if n == 0 || n > stmts.len() {
            u
        } else {
            labels_stmt(stmts[n - 1], labels_part(stmts, (n - 1) as nat, u))
        }
    }
}

/// The labels in the first `n` branches of an `if` statement.
pub open spec fn labels_conditionals(conds: Seq<Conditional>, n: nat, u: Unit) -> Unit
    decreases conds, n,
{
    if u.world.fatal {
        u
    } else {
        if n == 0 || n > conds.len() {
            u
        } else {
            labels_part(
                conds[n - 1].item@,
                conds[n - 1].item@.len(),
                labels_conditionals(conds, (n - 1) as nat, u),
            )
        }
    }
}

/// The labels in the first `n` alternatives of a `case` statement.
pub open spec fn labels_alternatives(alts: Seq<Alternative>, n: nat, u: Unit) -> Unit
    decreases alts, n,
{
    if u.world.fatal {
        u
    } else {
        if n == 0 || n > alts.len() {
            u
        } else {
            labels_part(
                alts[n - 1].item@,
                alts[n - 1].item@.len(),
                labels_alternatives(alts, (n - 1) as nat, u),
            )
        }
    }
}

/// Once the run over a sequence of statements is given up, the statements
/// that follow change nothing.
pub proof fn lemma_seq_part_stays(
    std: Standard,
    scope: ScopeView,
    sroot: SequentialRoot,
    stmts: Seq<LabeledSequentialStatement>,
    k: nat,
    n: nat,
    w: World,
)
    requires
        k <= n <= stmts.len(),
        seq_part(std, scope, sroot, stmts, k, w).fatal,
    ensures
        seq_part(std, scope, sroot, stmts, n, w) == seq_part(std, scope, sroot, stmts, k, w),
    decreases n,
{
    reveal_with_fuel(seq_part, 2);
    if k < n {
        lemma_seq_part_stays(std, scope, sroot, stmts, k, (n - 1) as nat, w);
    }
}

/// Once the run over the branches of an `if` statement is given up, the
/// branches that follow change nothing.
pub proof fn lemma_seq_conditionals_stays(
    std: Standard,
    scope: ScopeView,
    sroot: SequentialRoot,
    conds: Seq<Conditional>,
    k: nat,
    n: nat,
    w: World,
)
    requires
        k <= n <= conds.len(),
        seq_conditionals(std, scope, sroot, conds, k, w).fatal,
    ensures
        seq_conditionals(std, scope, sroot, conds, n, w) == seq_conditionals(
            std,
            scope,
            sroot,
            conds,
            k,
            w,
        ),
    decreases n,
{
    reveal_with_fuel(seq_conditionals, 2);
    if k < n {
        lemma_seq_conditionals_stays(std, scope, sroot, conds, k, (n - 1) as nat, w);
    }
}

/// Once the run over the alternatives of a `case` statement is given up,
/// the alternatives that follow change nothing.
pub proof fn lemma_seq_alternatives_stays(
    std: Standard,
    scope: ScopeView,
    sroot: SequentialRoot,
    ctyp: Option<TypeId>,
    alts: Seq<Alternative>,
    k: nat,
    n: nat,
    w: World,
)
    requires
        k <= n <= alts.len(),
        seq_alternatives(std, scope, sroot, ctyp, alts, k, w).fatal,
    ensures
        seq_alternatives(std, scope, sroot, ctyp, alts, n, w) == seq_alternatives(
            std,
            scope,
            sroot,
            ctyp,
            alts,
            k,
            w,
        ),
    decreases n,
{
    reveal_with_fuel(seq_alternatives, 2);
    if k < n {
        lemma_seq_alternatives_stays(std, scope, sroot, ctyp, alts, k, (n - 1) as nat, w);
    }
}

/// Statements that are well formed up to one of them are well formed up to
/// every earlier one.
pub proof fn lemma_seq_part_ok_prefix(
    sroot: SequentialRoot,
    stmts: Seq<LabeledSequentialStatement>,
    k: nat,
    n: nat,
)
    requires
        k <= n <= stmts.len(),
        seq_part_ok(sroot, stmts, n),
    ensures
        seq_part_ok(sroot, stmts, k),
    decreases n,
{
    if k < n {
        lemma_seq_part_ok_prefix(sroot, stmts, k, (n - 1) as nat);
    }
}

/// Branches that are well formed up to one of them are well formed up to
/// every earlier one.
pub proof fn lemma_seq_conditionals_ok_prefix(
    sroot: SequentialRoot,
    conds: Seq<Conditional>,
    k: nat,
    n: nat,
)
    requires
        k <= n <= conds.len(),
        seq_conditionals_ok(sroot, conds, n),
    ensures
        seq_conditionals_ok(sroot, conds, k),
    decreases n,
{
    if k < n {
        lemma_seq_conditionals_ok_prefix(sroot, conds, k, (n - 1) as nat);
    }
}

/// Alternatives that are well formed up to one of them are well formed up
/// to every earlier one.
pub proof fn lemma_seq_alternatives_ok_prefix(
    sroot: SequentialRoot,
    alts: Seq<Alternative>,
    k: nat,
    n: nat,
)
    requires
        k <= n <= alts.len(),
        seq_alternatives_ok(sroot, alts, n),
    ensures
        seq_alternatives_ok(sroot, alts, k),
    decreases n,
{
    if k < n {
        lemma_seq_alternatives_ok_prefix(sroot, alts, k, (n - 1) as nat);
    }
}

impl AnalyzeContext {
    /// Whether a declaration is a label.
    pub fn is_label(&self, ent: EntityId) -> (res: bool)
        ensures
            res == is_label(self.arena@, ent),
    {
        match self.arena.get(ent) {
            Some(r) => match &r.ent.kind {
                AnyEntKind::Label => true,
                _ => false,
            },
            None => false,
        }
    }

    /// Declares the labels of the statements and of the statements nested
    /// in them, so that a statement can refer to a label that is written
    /// after it.
    #[verifier::loop_isolation(false)]
    pub fn define_labels_for_sequential_part(
        &mut self,
        scope: &mut Scope,
        statements: &Vec<LabeledSequentialStatement>,
        diagnostics: &mut Vec<Diagnostic>,
    ) -> (res: FatalResult<()>)
        ensures
            res is Ok,
            final(self).standard == old(self).standard,
            final(self).references == old(self).references,
            extends(old(self).arena@, final(self).arena@),
            extends(views(old(diagnostics)@), views(final(diagnostics)@)),
            unit_of(*final(self), final(scope)@, final(diagnostics)@) == labels_part(
                statements@,
                statements@.len(),
                unit_of(*old(self), old(scope)@, old(diagnostics)@),
            ),
            final(self).arena@.len() == old(self).arena@.len() + part_label_count(
                statements@,
                statements@.len(),
            ),
        decreases statements@,
    {
        let ghost origin = unit_of(*self, scope@, diagnostics@);
        proof {
            lemma_labels_part_count(statements@, statements@.len(), origin);
        }
        let mut i: usize = 0;
        while i < statements.len()
            invariant
                i <= statements.len(),
                self.standard == old(self).standard,
                self.references == old(self).references,
                extends(old(self).arena@, self.arena@),
                extends(views(old(diagnostics)@), views(diagnostics@)),
                unit_of(*self, scope@, diagnostics@) == labels_part(statements@, i as nat, origin),
            decreases statements.len() - i,
        {
            let statement = &statements[i];
            let ghost upto = labels_part(statements@, i as nat, origin);
            if let Some(label) = &statement.label {
                self.declare(
                    scope,
                    Designator::Identifier(label.name),
                    AnyEntKind::Label,
                    Some(label.pos),
                    diagnostics,
                );
            }
            let ghost labeled = unit_of(*self, scope@, diagnostics@);
            assert(labeled == match statement.label {
                Some(label) => upto.declare(label_entity(label)),
                None => upto,
            });
            match &statement.statement {
                SequentialStatement::If(ifstmt) => {
                    let ghost before = unit_of(*self, scope@, diagnostics@);
                    let mut k: usize = 0;
                    while k < ifstmt.conditionals.len()
                        invariant
                            k <= ifstmt.conditionals.len(),
                            self.standard == old(self).standard,
                            self.references == old(self).references,
                            extends(old(self).arena@, self.arena@),
                            extends(views(old(diagnostics)@), views(diagnostics@)),
                            unit_of(*self, scope@, diagnostics@) == labels_conditionals(
                                ifstmt.conditionals@,
                                k as nat,
                                before,
                            ),
                        decreases ifstmt.conditionals.len() - k,
                    {
                        self.define_labels_for_sequential_part(
                            scope,
                            &ifstmt.conditionals[k].item,
                            diagnostics,
                        )?;
                        k = k + 1;
                    }
                    if let Some(else_item) = &ifstmt.else_item {
                        self.define_labels_for_sequential_part(scope, else_item, diagnostics)?;
                    }
                },
                SequentialStatement::Case(case_stmt) => {
                    let ghost before = unit_of(*self, scope@, diagnostics@);
                    let mut k: usize = 0;
                    while k < case_stmt.alternatives.len()
                        invariant
                            k <= case_stmt.alternatives.len(),
                            self.standard == old(self).standard,
                            self.references == old(self).references,
                            extends(old(self).arena@, self.arena@),
                            extends(views(old(diagnostics)@), views(diagnostics@)),
                            unit_of(*self, scope@, diagnostics@) == labels_alternatives(
                                case_stmt.alternatives@,
                                k as nat,
                                before,
                            ),
                        decreases case_stmt.alternatives.len() - k,
                    {
                        self.define_labels_for_sequential_part(
                            scope,
                            &case_stmt.alternatives[k].item,
                            diagnostics,
                        )?;
                        k = k + 1;
                    }
                },
                SequentialStatement::Loop(loop_stmt) => {
                    self.define_labels_for_sequential_part(
                        scope,
                        &loop_stmt.statements,
                        diagnostics,
                    )?;
                },
                _ => {
                    // Does not have sequential part
                },
            }
            assert(unit_of(*self, scope@, diagnostics@) == labels_stmt(statements@[i as int], upto));
            i = i + 1;
        }
        Ok(())
    }

    /// Checks the label of an `exit` or a `next` statement: it must stand
    /// for one declaration, and that must be a label.
    pub fn check_loop_label(
        &mut self,
        scope: &Scope,
        label: &Name,
        diagnostics: &mut Vec<Diagnostic>,
    )
        ensures
            performed(
                *old(self),
                *final(self),
                old(diagnostics)@,
                final(diagnostics)@,
                true,
                label_outcome(old(self).arena@, scope@, *label),
                set![label.reference],
            ),
    {
        match scope.lookup(&label.pos, &label.designator) {
            Ok(NamedEntities::Single(ent)) => {
                if self.is_label(ent) {
                    self.references.set_unique_reference(label.reference, ent);
                    proof {
                        lemma_performed_bind(*old(self), *self, diagnostics@, label.reference, ent);
                    }
                } else {
                    push_error(diagnostics, label.pos, Message::ExpectedLoopLabel(ent));
                    self.references.set_unique_reference(label.reference, ent);
                    proof {
                        let dv = error_view(label.pos, Message::ExpectedLoopLabel(ent));
                        lemma_performed_report(
                            *old(self),
                            old(diagnostics)@,
                            diagnostics@,
                            TypeCheck::NotOk,
                            dv,
                        );
                        lemma_performed_bound(
                            *old(self),
                            *old(self),
                            *self,
                            old(diagnostics)@,
                            diagnostics@,
                            Outcome::report(TypeCheck::NotOk, dv),
                            Set::empty(),
                            label.reference,
                            ent,
                        );
                    }
                }
            },
            Ok(NamedEntities::Overloaded(_)) => {
                push_error(
                    diagnostics,
                    label.pos,
                    Message::ExpectedLoopLabelGotOverloaded(label.designator),
                );
                self.references.clear_reference(label.reference);
                proof {
                    let dv = error_view(
                        label.pos,
                        Message::ExpectedLoopLabelGotOverloaded(label.designator),
                    );
                    lemma_performed_report(
                        *old(self),
                        old(diagnostics)@,
                        diagnostics@,
                        TypeCheck::NotOk,
                        dv,
                    );
                    lemma_performed_unbound(
                        *old(self),
                        *old(self),
                        *self,
                        old(diagnostics)@,
                        diagnostics@,
                        Outcome::report(TypeCheck::NotOk, dv),
                        Set::empty(),
                        label.reference,
                    );
                }
            },
            Err(diag) => {
                let ghost dv = diag@;
                push_diagnostic(diagnostics, diag);
                self.references.clear_reference(label.reference);
                proof {
                    lemma_performed_report(
                        *old(self),
                        old(diagnostics)@,
                        diagnostics@,
                        TypeCheck::Unknown,
                        dv,
                    );
                    lemma_performed_unbound(
                        *old(self),
                        *old(self),
                        *self,
                        old(diagnostics)@,
                        diagnostics@,
                        Outcome::report(TypeCheck::Unknown, dv),
                        Set::empty(),
                        label.reference,
                    );
                }
            },
        }
    }

    /// Checks the label of an `exit` or a `next` statement, where it has
    /// one.
    fn check_optional_label(
        &mut self,
        scope: &Scope,
        label: &Option<Name>,
        diagnostics: &mut Vec<Diagnostic>,
    )
        ensures
            performed(
                *old(self),
                *final(self),
                old(diagnostics)@,
                final(diagnostics)@,
                true,
                optional_label(old(self).arena@, scope@, *label),
                label_slots(*label),
            ),
    {
        match label {
            Some(label) => self.check_loop_label(scope, label, diagnostics),
            None => {
                proof {
                    lemma_performed_nothing(*self, diagnostics@);
                }
            },
        }
    }

    /// Analyzes an `exit` or a `next` statement.
    fn analyze_exit(
        &mut self,
        scope: &Scope,
        exit: &ExitStatement,
        diagnostics: &mut Vec<Diagnostic>,
    ) -> (res: FatalResult<()>)
        ensures
            advanced(
                *old(self),
                *final(self),
                old(diagnostics)@,
                final(diagnostics)@,
                res is Ok,
                exit_world(
                    old(self).standard,
                    scope@,
                    *exit,
                    world_of(*old(self), old(diagnostics)@),
                ),
            ),
            res is Ok <==> opt_ok(exit.condition),
    {
        self.check_optional_label(scope, &exit.loop_label, diagnostics);
        let boolean = self.boolean();
        self.optional_expr(scope, Some(boolean), &exit.condition, diagnostics)
    }

    /// Analyzes a `return` statement.
    fn analyze_return(
        &mut self,
        scope: &Scope,
        sroot: &SequentialRoot,
        ret: &ReturnStatement,
        diagnostics: &mut Vec<Diagnostic>,
    ) -> (res: FatalResult<()>)
        ensures
            advanced(
                *old(self),
                *final(self),
                old(diagnostics)@,
                final(diagnostics)@,
                res is Ok,
                return_world(scope@, *sroot, *ret, world_of(*old(self), old(diagnostics)@)),
            ),
            res is Ok <==> return_ok(*sroot, *ret),
    {
        match sroot {
            SequentialRoot::Function(ttyp) => {
                match &ret.expression {
                    Some(expression) => self.expr_with_ttyp(scope, *ttyp, expression, diagnostics),
                    None => {
                        push_error(diagnostics, ret.pos, Message::FunctionReturnWithoutValue);
                        Ok(())
                    },
                }
            },
            SequentialRoot::Procedure => {
                if ret.expression.is_some() {
                    push_error(diagnostics, ret.pos, Message::ProcedureReturnsValue);
                }
                Ok(())
            },
            SequentialRoot::Process => {
                push_error(diagnostics, ret.pos, Message::ReturnFromProcess);
                Ok(())
            },
            SequentialRoot::Unknown => self.optional_expr(scope, None, &ret.expression, diagnostics),
        }
    }

    /// Analyzes an `if` statement: of each branch the condition and the
    /// statements, then the statements of the `else` branch.
    #[verifier::loop_isolation(false)]
    fn analyze_if(
        &mut self,
        scope: &Scope,
        sroot: &SequentialRoot,
        ifstmt: &IfStatement,
        diagnostics: &mut Vec<Diagnostic>,
    ) -> (res: FatalResult<()>)
        ensures
            advanced(
                *old(self),
                *final(self),
                old(diagnostics)@,
                final(diagnostics)@,
                res is Ok,
                seq_stmt(
                    old(self).standard,
                    scope@,
                    *sroot,
                    SequentialStatement::If(*ifstmt),
                    world_of(*old(self), old(diagnostics)@),
                ),
            ),
            res is Ok <==> seq_stmt_ok(*sroot, SequentialStatement::If(*ifstmt)),
        decreases *ifstmt,
    {
        let ghost std = self.standard;
        let ghost origin = world_of(*self, diagnostics@);
        let ghost conds = ifstmt.conditionals@;
        let mut i: usize = 0;
        while i < ifstmt.conditionals.len()
            invariant
                i <= ifstmt.conditionals.len(),
                seq_conditionals_ok(*sroot, conds, i as nat),
                advanced(
                    *old(self),
                    *self,
                    old(diagnostics)@,
                    diagnostics@,
                    true,
                    seq_conditionals(std, scope@, *sroot, conds, i as nat, origin),
                ),
            decreases ifstmt.conditionals.len() - i,
        {
            let conditional = &ifstmt.conditionals[i];
            proof {
                if seq_conditionals_ok(*sroot, conds, conds.len()) {
                    lemma_seq_conditionals_ok_prefix(*sroot, conds, (i + 1) as nat, conds.len());
                }
            }
            match self.boolean_expr(scope, &conditional.condition, diagnostics) {
                Ok(()) => {},
                Err(fatal) => {
                    proof {
                        reveal_with_fuel(seq_conditionals, 2);
                        lemma_seq_conditionals_stays(
                            std,
                            scope@,
                            *sroot,
                            conds,
                            (i + 1) as nat,
                            conds.len(),
                            origin,
                        );
                    }
                    return Err(fatal);
                },
            }
            match self.analyze_sequential_part(scope, sroot, &conditional.item, diagnostics) {
                Ok(()) => {},
                Err(fatal) => {
                    proof {
                        reveal_with_fuel(seq_conditionals, 2);
                        lemma_seq_conditionals_stays(
                            std,
                            scope@,
                            *sroot,
                            conds,
                            (i + 1) as nat,
                            conds.len(),
                            origin,
                        );
                    }
                    return Err(fatal);
                },
            }
            i = i + 1;
        }
        if let Some(else_item) = &ifstmt.else_item {
            self.analyze_sequential_part(scope, sroot, else_item, diagnostics)?;
        }
        Ok(())
    }

    /// Analyzes a `case` statement: the selector on its own, then of each
    /// alternative the choices against the type of the selector and the
    /// statements.
    #[verifier::loop_isolation(false)]
    fn analyze_case(
        &mut self,
        scope: &Scope,
        sroot: &SequentialRoot,
        case_stmt: &CaseStatement,
        diagnostics: &mut Vec<Diagnostic>,
    ) -> (res: FatalResult<()>)
        ensures
            advanced(
                *old(self),
                *final(self),
                old(diagnostics)@,
                final(diagnostics)@,
                res is Ok,
                seq_stmt(
                    old(self).standard,
                    scope@,
                    *sroot,
                    SequentialStatement::Case(*case_stmt),
                    world_of(*old(self), old(diagnostics)@),
                ),
            ),
            res is Ok <==> seq_stmt_ok(*sroot, SequentialStatement::Case(*case_stmt)),
        decreases *case_stmt,
    {
        let ghost std = self.standard;
        let ghost alts = case_stmt.alternatives@;
        let ctyp = self.expr_unambiguous_type(scope, &case_stmt.expression, diagnostics)?;
        let ghost origin = world_of(*self, diagnostics@);
        let mut i: usize = 0;
        while i < case_stmt.alternatives.len()
            invariant
                i <= case_stmt.alternatives.len(),
                seq_alternatives_ok(*sroot, alts, i as nat),
                advanced(
                    *old(self),
                    *self,
                    old(diagnostics)@,
                    diagnostics@,
                    true,
                    seq_alternatives(std, scope@, *sroot, ctyp, alts, i as nat, origin),
                ),
            decreases case_stmt.alternatives.len() - i,
        {
            let alternative = &case_stmt.alternatives[i];
            proof {
                if seq_alternatives_ok(*sroot, alts, alts.len()) {
                    lemma_seq_alternatives_ok_prefix(*sroot, alts, (i + 1) as nat, alts.len());
                }
            }
            match self.choice_with_ttyp(scope, ctyp, &alternative.choices, diagnostics) {
                Ok(()) => {},
                Err(fatal) => {
                    proof {
                        reveal_with_fuel(seq_alternatives, 2);
                        lemma_seq_alternatives_stays(
                            std,
                            scope@,
                            *sroot,
                            ctyp,
                            alts,
                            (i + 1) as nat,
                            alts.len(),
                            origin,
                        );
                    }
                    return Err(fatal);
                },
            }
            match self.analyze_sequential_part(scope, sroot, &alternative.item, diagnostics) {
                Ok(()) => {},
                Err(fatal) => {
                    proof {
                        reveal_with_fuel(seq_alternatives, 2);
                        lemma_seq_alternatives_stays(
                            std,
                            scope@,
                            *sroot,
                            ctyp,
                            alts,
                            (i + 1) as nat,
                            alts.len(),
                            origin,
                        );
                    }
                    return Err(fatal);
                },
            }
            i = i + 1;
        }
        Ok(())
    }

    /// Analyzes a loop statement. A `for` loop declares its parameter in a
    /// scope of its own, in which its statements are analyzed.
    fn analyze_loop(
        &mut self,
        scope: &Scope,
        sroot: &SequentialRoot,
        loop_stmt: &LoopStatement,
        diagnostics: &mut Vec<Diagnostic>,
    ) -> (res: FatalResult<()>)
        ensures
            advanced(
                *old(self),
                *final(self),
                old(diagnostics)@,
                final(diagnostics)@,
                res is Ok,
                seq_stmt(
                    old(self).standard,
                    scope@,
                    *sroot,
                    SequentialStatement::Loop(*loop_stmt),
                    world_of(*old(self), old(diagnostics)@),
                ),
            ),
            res is Ok <==> seq_stmt_ok(*sroot, SequentialStatement::Loop(*loop_stmt)),
        decreases *loop_stmt,
    {
        match &loop_stmt.iteration_scheme {
            Some(IterationScheme::For(index, drange)) => {
                let typ = self.drange_type(scope, drange, diagnostics)?;
                let mut region = scope.nested();
                proof {
                    lemma_scope_nesting(
                        scope@,
                        binding_of(self.arena@.len() as usize, loop_parameter(*index, typ)),
                        Designator::Identifier(index.name),
                    );
                }
                self.declare(
                    &mut region,
                    Designator::Identifier(index.name),
                    AnyEntKind::LoopParameter(typ),
                    Some(index.pos),
                    diagnostics,
                );
                self.analyze_sequential_part(&region, sroot, &loop_stmt.statements, diagnostics)
            },
            Some(IterationScheme::While(expr)) => {
                self.boolean_expr(scope, expr, diagnostics)?;
                self.analyze_sequential_part(scope, sroot, &loop_stmt.statements, diagnostics)
            },
            None => self.analyze_sequential_part(scope, sroot, &loop_stmt.statements, diagnostics),
        }
    }

    /// Analyzes one sequential statement.
    pub fn analyze_sequential_statement(
        &mut self,
        scope: &Scope,
        sroot: &SequentialRoot,
        statement: &LabeledSequentialStatement,
        diagnostics: &mut Vec<Diagnostic>,
    ) -> (res: FatalResult<()>)
        ensures
            advanced(
                *old(self),
                *final(self),
                old(diagnostics)@,
                final(diagnostics)@,
                res is Ok,
                seq_stmt(
                    old(self).standard,
                    scope@,
                    *sroot,
                    statement.statement,
                    world_of(*old(self), old(diagnostics)@),
                ),
            ),
            res is Ok <==> seq_stmt_ok(*sroot, statement.statement),
        decreases *statement,
    {
        match &statement.statement {
            SequentialStatement::Return(ret) => self.analyze_return(scope, sroot, ret, diagnostics),
            SequentialStatement::Wait(wait_stmt) => {
                self.sensitivity_list_check(scope, &wait_stmt.sensitivity_clause, diagnostics);
                let boolean = self.boolean();
                self.optional_expr(scope, Some(boolean), &wait_stmt.condition_clause, diagnostics)?;
                let time = self.time();
                self.optional_expr(scope, Some(time), &wait_stmt.timeout_clause, diagnostics)
            },
            SequentialStatement::Assert(assert_stmt) => {
                self.boolean_expr(scope, &assert_stmt.condition, diagnostics)?;
                let string = self.string();
                self.optional_expr(scope, Some(string), &assert_stmt.report, diagnostics)?;
                let severity_level = self.severity_level();
                self.optional_expr(scope, Some(severity_level), &assert_stmt.severity, diagnostics)
            },
            SequentialStatement::Report(report_stmt) => {
                let string = self.string();
                self.expr_with_ttyp(scope, string, &report_stmt.report, diagnostics)?;
                let severity_level = self.severity_level();
                self.optional_expr(scope, Some(severity_level), &report_stmt.severity, diagnostics)
            },
            SequentialStatement::Exit(exit_stmt) => self.analyze_exit(scope, exit_stmt, diagnostics),
            SequentialStatement::Next(next_stmt) => self.analyze_exit(scope, next_stmt, diagnostics),
            SequentialStatement::If(ifstmt) => self.analyze_if(scope, sroot, ifstmt, diagnostics),
            SequentialStatement::Case(case_stmt) => self.analyze_case(
                scope,
                sroot,
                case_stmt,
                diagnostics,
            ),
            SequentialStatement::Loop(loop_stmt) => self.analyze_loop(
                scope,
                sroot,
                loop_stmt,
                diagnostics,
            ),
            SequentialStatement::ProcedureCall(pcall) => self.analyze_procedure_call(
                scope,
                pcall,
                diagnostics,
            ),
            SequentialStatement::SignalAssignment(assign) => self.analyze_waveform_assignment(
                scope,
                &assign.target,
                AssignmentType::Signal,
                &assign.rhs,
                diagnostics,
            ),
            SequentialStatement::VariableAssignment(assign) => self.analyze_expr_assignment(
                scope,
                &assign.target,
                AssignmentType::Variable,
                &assign.rhs,
                diagnostics,
            ),
            SequentialStatement::SignalForceAssignment(assign) => self.analyze_expr_assignment(
                scope,
                &assign.target,
                AssignmentType::Signal,
                &assign.rhs,
                diagnostics,
            ),
            SequentialStatement::SignalReleaseAssignment(assign) => {
                self.resolve_target(scope, &assign.target, AssignmentType::Signal, diagnostics);
                Ok(())
            },
            SequentialStatement::Null => Ok(()),
        }
    }

    /// Analyzes a sequence of statements in order, as the body of the
    /// construct `sroot`. The analysis stops at the first part of a statement
    /// that holds a malformed association list: what the parts before it have
    /// produced stays, nothing of that part or of a later one is produced.
    #[verifier::loop_isolation(false)]
    pub fn analyze_sequential_part(
        &mut self,
        scope: &Scope,
        sroot: &SequentialRoot,
        statements: &Vec<LabeledSequentialStatement>,
        diagnostics: &mut Vec<Diagnostic>,
    ) -> (res: FatalResult<()>)
        ensures
            advanced(
                *old(self),
                *final(self),
                old(diagnostics)@,
                final(diagnostics)@,
                res is Ok,
                seq_part(
                    old(self).standard,
                    scope@,
                    *sroot,
                    statements@,
                    statements@.len(),
                    world_of(*old(self), old(diagnostics)@),
                ),
            ),
            res is Ok <==> seq_part_ok(*sroot, statements@, statements@.len()),
        decreases statements@,
    {
        let ghost std = self.standard;
        let ghost origin = world_of(*self, diagnostics@);
        let mut i: usize = 0;
        while i < statements.len()
            invariant
                i <= statements.len(),
                seq_part_ok(*sroot, statements@, i as nat),
                advanced(
                    *old(self),
                    *self,
                    old(diagnostics)@,
                    diagnostics@,
                    true,
                    seq_part(std, scope@, *sroot, statements@, i as nat, origin),
                ),
            decreases statements.len() - i,
        {
            proof {
                if seq_part_ok(*sroot, statements@, statements@.len()) {
                    lemma_seq_part_ok_prefix(
                        *sroot,
                        statements@,
                        (i + 1) as nat,
                        statements@.len(),
                    );
                }
            }
            match self.analyze_sequential_statement(scope, sroot, &statements[i], diagnostics) {
                Ok(()) => {},
                Err(fatal) => {
                    proof {
                        lemma_seq_part_stays(
                            std,
                            scope@,
                            *sroot,
                            statements@,
                            (i + 1) as nat,
                            statements@.len(),
                            origin,
                        );
                    }
                    return Err(fatal);
                },
            }
            i = i + 1;
        }
        Ok(())
    }
}

} // verus!
