//! Analysis of concurrent statements.
use vstd::prelude::*;
use crate::analyze::{
    AnalyzeContext, FatalError, FatalResult, Outcome, Standard, Unit, elaborated,
    lemma_performed_bind, lemma_performed_both, lemma_performed_bound, lemma_performed_facts,
    lemma_performed_gave_up, lemma_performed_report, lemma_performed_unbound, performed, unit_of,
};
use crate::ast::{
    AssociationElement, BlockStatement, CaseGenerateStatement, ConcurrentStatement,
    ForGenerateStatement, GenerateBody, GenerateConditional, IfGenerateStatement, InstantiatedUnit,
    InstantiationStatement, LabeledConcurrentStatement, Name, ProcessStatement, Reference,
    SensitivityList, assoc_ok, assoc_slots, drange_ok, drange_slots, expr_ok, expr_slots,
    names_slots, opt_ok, opt_slots, waveform_ok, waveform_slots,
};
use crate::data::{
    Designator, Diagnostic, Message, UnitKind, error_view, push_diagnostic, push_error,
};
use crate::declarative::{decls_ok, decls_unit, interface_ok, interface_unit};
use crate::expression::{assoc_typed, assoc_untyped};
use crate::labels::lemma_statement_declares_only_its_label;
use crate::formal_region::{FormalRegion, InterfaceEnt, formals_inserted, interface_of};
use crate::named_entity::{AnyEntKind, EntityId, NamedEntity, ObjectClass};
use crate::names::{drange_outcome, drange_type, names_outcome, opt_typed, optional_typed};
use crate::region::{NamedEntities, Scope, ScopeView, Visible};
use crate::search::assoc_is_ok;
use crate::semantic::TypeCheck;
use crate::sequential::{
    SequentialRoot, label_entity, labels_part, loop_parameter, seq_part, seq_part_ok,
};
use crate::target::{AssignmentType, call_ok, call_slots, procedure_call, waveform_assignment};

verus! {

broadcast use crate::analyze::lemma_performed_advanced;

/// The kind of design unit that an instantiation statement asks for, and
/// the name by which it asks.
pub open spec fn unit_kind(unit: InstantiatedUnit) -> UnitKind {
    match unit {
        InstantiatedUnit::Entity(_) => UnitKind::Entity,
        InstantiatedUnit::Component(_) => UnitKind::Component,
        InstantiatedUnit::Configuration(_) => UnitKind::Configuration,
    }
}

/// The name by which an instantiation statement asks for its unit.
pub open spec fn unit_name(unit: InstantiatedUnit) -> Name {
    match unit {
        InstantiatedUnit::Entity(name) => name,
        InstantiatedUnit::Component(name) => name,
        InstantiatedUnit::Configuration(name) => name,
    }
}

/// The interface declarations of a declaration that is a design unit of
/// the given kind.
pub open spec fn unit_region(arena: Seq<NamedEntity>, ent: EntityId, kind: UnitKind) -> Option<
    Seq<EntityId>,
> {
    if ent < arena.len() {
        match (kind, arena[ent as int].kind) {
            (UnitKind::Entity, AnyEntKind::Entity(region)) => Some(region.entities@),
            (UnitKind::Component, AnyEntKind::Component(region)) => Some(region.entities@),
            (UnitKind::Configuration, AnyEntKind::Configuration(region)) => Some(region.entities@),
            _ => None,
        }
    } else {
        None
    }
}

/// The interface element that a declaration is, if it is an interface
/// object of the given class.
pub open spec fn interface_of_class(
    arena: Seq<NamedEntity>,
    ent: EntityId,
    class: ObjectClass,
) -> Option<InterfaceEnt> {
    match interface_of(arena, ent) {
        Some(interface) => match arena[ent as int].kind {
            AnyEntKind::Object(object) => if object.class == class {
                Some(interface)
            } else {
                None
            },
            _ => None,
        },
        None => None,
    }
}

/// The interface objects of a class among the first `n` declarations of a
/// design unit, in the order of their declaration. A declaration that has the
/// designator of an earlier one of them is left out.
pub open spec fn formals_where(
    arena: Seq<NamedEntity>,
    ids: Seq<EntityId>,
    class: ObjectClass,
    n: nat,
) -> Seq<InterfaceEnt>
    decreases n,
{
    if n == 0 || n > ids.len() {
        Seq::empty()
    } else {
        let rest = formals_where(arena, ids, class, (n - 1) as nat);
        match interface_of_class(arena, ids[n - 1], class) {
            Some(interface) => formals_inserted(rest, interface),
            None => rest,
        }
    }
}

/// The generics of a design unit: its interface constants.
pub open spec fn generics_of(arena: Seq<NamedEntity>, ids: Seq<EntityId>) -> Seq<InterfaceEnt> {
    formals_where(arena, ids, ObjectClass::Constant, ids.len())
}

/// The ports of a design unit: its interface signals.
pub open spec fn ports_of(arena: Seq<NamedEntity>, ids: Seq<EntityId>) -> Seq<InterfaceEnt> {
    formals_where(arena, ids, ObjectClass::Signal, ids.len())
}

/// The design unit that the name of an instantiation statement stands
/// for: one declaration that is not overloaded and is of the kind asked for.
pub open spec fn resolved_unit(
    arena: Seq<NamedEntity>,
    scope: ScopeView,
    kind: UnitKind,
    name: Name,
) -> Option<EntityId> {
    match scope.visible(name.designator) {
        Some(Visible::Single(ent)) => if unit_region(arena, ent, kind) is Some {
            Some(ent)
        } else {
            None
        },
        _ => None,
    }
}

/// The name of an instantiated unit: it is bound where it stands for one
/// declaration, and reported where that is not a unit of the kind asked for.
pub open spec fn unit_name_outcome(
    arena: Seq<NamedEntity>,
    scope: ScopeView,
    kind: UnitKind,
    name: Name,
) -> Outcome {
    match scope.visible(name.designator) {
        None => Outcome::report(
            TypeCheck::Unknown,
            error_view(name.pos, Message::NoDeclaration(name.designator)),
        ).unbind(name.reference),
        Some(Visible::Single(ent)) => {
            if unit_region(arena, ent, kind) is Some {
                Outcome::nothing().bind(name.reference, ent)
            } else {
                Outcome::report(
                    TypeCheck::NotOk,
                    error_view(name.pos, Message::ExpectedUnit(kind, ent)),
                ).bind(name.reference, ent)
            }
        },
        Some(Visible::Overloaded(_)) => Outcome::report(
            TypeCheck::NotOk,
            error_view(name.pos, Message::ExpectedUnitGotOverloaded(kind, name.designator)),
        ).unbind(name.reference),
    }
}

/// The generic map and the port map of an instance against formal regions,
/// or on their own where there are none.
pub open spec fn maps_outcome(
    arena: Seq<NamedEntity>,
    scope: ScopeView,
    formals: Option<(Seq<InterfaceEnt>, Seq<InterfaceEnt>)>,
    name: Name,
    generic_map: Seq<AssociationElement>,
    port_map: Seq<AssociationElement>,
) -> Outcome {
    match formals {
        Some((generics, ports)) => assoc_typed(
            arena,
            scope,
            generics,
            name.pos,
            generic_map,
        ).followed_by(
            assoc_typed(arena, scope, ports, name.pos, port_map),
            assoc_slots(port_map, port_map.len()),
        ),
        None => assoc_untyped(arena, scope, generic_map, generic_map.len()).followed_by(
            assoc_untyped(arena, scope, port_map, port_map.len()),
            assoc_slots(port_map, port_map.len()),
        ),
    }
}

/// The formal regions of the unit that an instantiation statement stands
/// for.
pub open spec fn instance_formals(
    arena: Seq<NamedEntity>,
    scope: ScopeView,
    unit: InstantiatedUnit,
) -> Option<(Seq<InterfaceEnt>, Seq<InterfaceEnt>)> {
    match resolved_unit(arena, scope, unit_kind(unit), unit_name(unit)) {
        Some(ent) => {
            let ids = unit_region(arena, ent, unit_kind(unit))->Some_0;
            Some((generics_of(arena, ids), ports_of(arena, ids)))
        },
        None => None,
    }
}

/// An instantiation statement. The name of the unit must stand for one
/// declaration of the kind asked for. Where it does, the generic map and the
/// port map are analyzed against the generics and the ports of the unit;
/// where it does not, the two maps are analyzed on their own.
pub open spec fn instance_outcome(
    arena: Seq<NamedEntity>,
    scope: ScopeView,
    instance: InstantiationStatement,
) -> Outcome {
    unit_name_outcome(arena, scope, unit_kind(instance.unit), unit_name(instance.unit)).followed_by(
        maps_outcome(
            arena,
            scope,
            instance_formals(arena, scope, instance.unit),
            unit_name(instance.unit),
            instance.generic_map@,
            instance.port_map@,
        ),
        maps_slots(instance.generic_map@, instance.port_map@),
    )
}

/// The slots of the name nodes of the two maps of an instance.
pub open spec fn maps_slots(
    generic_map: Seq<AssociationElement>,
    port_map: Seq<AssociationElement>,
) -> Set<Reference> {
    assoc_slots(generic_map, generic_map.len()) + assoc_slots(port_map, port_map.len())
}

/// The slots of the name nodes of an instantiation statement.
pub open spec fn instance_slots(instance: InstantiationStatement) -> Set<Reference> {
    set![unit_name(instance.unit).reference] + maps_slots(
        instance.generic_map@,
        instance.port_map@,
    )
}

/// Whether the association lists of an instantiation statement are well
/// shaped.
pub open spec fn instance_ok(instance: InstantiationStatement) -> bool {
    assoc_ok(instance.generic_map@, instance.generic_map@.len()) && assoc_ok(
        instance.port_map@,
        instance.port_map@.len(),
    )
}

/// An association list that may be absent, on its own.
pub open spec fn optional_map(
    arena: Seq<NamedEntity>,
    scope: ScopeView,
    map: Option<Vec<AssociationElement>>,
) -> Outcome {
    match map {
        Some(elems) => assoc_untyped(arena, scope, elems@, elems@.len()),
        None => Outcome::nothing(),
    }
}

/// The slots of the name nodes of an association list that may be absent.
pub open spec fn optional_map_slots(map: Option<Vec<AssociationElement>>) -> Set<Reference> {
    match map {
        Some(elems) => assoc_slots(elems@, elems@.len()),
        None => Set::empty(),
    }
}

/// Whether an association list that may be absent is well shaped throughout.
pub open spec fn optional_map_ok(map: Option<Vec<AssociationElement>>) -> bool {
    match map {
        Some(elems) => assoc_ok(elems@, elems@.len()),
        None => true,
    }
}

/// The names of a sensitivity list, each on its own.
pub open spec fn sensitivity_outcome(scope: ScopeView, list: Option<SensitivityList>) -> Outcome {
    match list {
        Some(SensitivityList::Names(names)) => names_outcome(scope, names@, names@.len()),
        _ => Outcome::nothing(),
    }
}

/// The slots of the names of a sensitivity list.
pub open spec fn sensitivity_slots(list: Option<SensitivityList>) -> Set<Reference> {
    match list {
        Some(SensitivityList::Names(names)) => names_slots(names@, names@.len()),
        _ => Set::empty(),
    }
}

/// The unit after the label of a statement was declared, where it has one.
pub open spec fn labeled(label: Option<crate::ast::Ident>, u: Unit) -> Unit {
    match label {
        Some(label) => u.declare(label_entity(label)),
        None => u,
    }
}

/// The unit as it is seen from a region nested in its scope.
pub open spec fn enter(u: Unit) -> Unit {
    Unit { world: u.world, scope: u.scope.nested() }
}

/// A block statement. The guard condition is analyzed in the scope around
/// the block. The generic and port clauses, the declarations and the
/// statements of the block are analyzed in a scope of its own; the generic
/// map and the port map are analyzed in the scope around the block.
pub open spec fn block_unit(std: Standard, block: BlockStatement, u: Unit) -> Unit
    decreases block, 0nat,
{
    if u.world.fatal {
        u
    } else {
        let outer = u.scope;
        let guarded = u.step(
            opt_ok(block.guard_condition),
            optional_typed(u.world.arena, outer, None, block.guard_condition),
            opt_slots(block.guard_condition),
        );
        let inside = enter(guarded);
        let generics = match block.header.generic_clause {
            Some(list) => interface_unit(list@, list@.len(), inside),
            None => inside,
        };
        let generic_map = generics.step(
            optional_map_ok(block.header.generic_map),
            optional_map(generics.world.arena, outer, block.header.generic_map),
            optional_map_slots(block.header.generic_map),
        );
        let ports = match block.header.port_clause {
            Some(list) => interface_unit(list@, list@.len(), generic_map),
            None => generic_map,
        };
        let port_map = ports.step(
            optional_map_ok(block.header.port_map),
            optional_map(ports.world.arena, outer, block.header.port_map),
            optional_map_slots(block.header.port_map),
        );
        let declared = decls_unit(block.decl@, block.decl@.len(), port_map);
        let done = conc_part(std, block.statements@, block.statements@.len(), declared);
        Unit { world: done.world, scope: outer }
    }
}

/// A process statement. The sensitivity list is resolved in the scope
/// around the process. The declarations are analyzed in a scope of its own,
/// in which then the labels of the statements are declared and the statements
/// are analyzed as the body of a process.
pub open spec fn process_unit(std: Standard, process: ProcessStatement, u: Unit) -> Unit {
    let sensitive = u.step(
        true,
        sensitivity_outcome(u.scope, process.sensitivity_list),
        sensitivity_slots(process.sensitivity_list),
    );
    let declared = decls_unit(process.decl@, process.decl@.len(), enter(sensitive));
    let labels = labels_part(process.statements@, process.statements@.len(), declared);
    Unit {
        world: seq_part(
            std,
            labels.scope,
            SequentialRoot::Process,
            process.statements@,
            process.statements@.len(),
            labels.world,
        ),
        scope: u.scope,
    }
}

/// The body of a generate statement in the scope that was made for it: the
/// label of the alternative, the declarations, the statements.
pub open spec fn generate_body(std: Standard, body: GenerateBody, u: Unit) -> Unit
    decreases body, 0nat,
{
    if u.world.fatal {
        u
    } else {
        if u.world.fatal {
            u
        } else {
            let named = labeled(body.alternative_label, u);
            let declared = match body.decl {
                Some(decl) => decls_unit(decl@, decl@.len(), named),
                None => named,
            };
            conc_part(std, body.statements@, body.statements@.len(), declared)
        }
    }
}

/// The first `n` branches of an `if` generate statement: of each the
/// condition in the scope around the statement and the body in a scope of
/// its own.
pub open spec fn if_generate(std: Standard, conds: Seq<GenerateConditional>, n: nat, u: Unit) -> Unit
    decreases conds, n,
{
    if u.world.fatal {
        u
    } else {
        if n == 0 || n > conds.len() {
            u
        } else {
            let before = if_generate(std, conds, (n - 1) as nat, u);
            let checked = before.step(
                expr_ok(conds[n - 1].condition.item),
                opt_typed(before.world.arena, before.scope, None, conds[n - 1].condition),
                expr_slots(conds[n - 1].condition.item),
            );
            Unit { world: generate_body(std, conds[n - 1].item, enter(checked)).world, scope: u.scope }
        }
    }
}

/// The first `n` alternatives of a `case` generate statement, each in a
/// scope of its own.
pub open spec fn case_generate(std: Standard, alts: Seq<GenerateBody>, n: nat, u: Unit) -> Unit
    decreases alts, n,
{
    if u.world.fatal {
        u
    } else {
        if n == 0 || n > alts.len() {
            u
        } else {
            let before = case_generate(std, alts, (n - 1) as nat, u);
            Unit { world: generate_body(std, alts[n - 1], enter(before)).world, scope: u.scope }
        }
    }
}

/// A `for` generate statement. The range is analyzed in the scope around
/// the statement; the index is declared in a scope of its own, in which the
/// body is analyzed.
pub open spec fn for_generate_unit(std: Standard, gen: ForGenerateStatement, u: Unit) -> Unit
    decreases gen, 0nat,
{
    let ranged = u.step(
        drange_ok(gen.discrete_range),
        drange_outcome(u.world.arena, u.scope, gen.discrete_range),
        drange_slots(gen.discrete_range),
    );
    let index = loop_parameter(
        gen.index_name,
        drange_type(u.world.arena, u.scope, gen.discrete_range),
    );
    Unit { world: generate_body(std, gen.body, enter(ranged).declare(index)).world, scope: u.scope }
}

/// An `if` generate statement: the branches, then the `else` branch in a
/// scope of its own.
pub open spec fn if_generate_unit(std: Standard, gen: IfGenerateStatement, u: Unit) -> Unit
    decreases gen, 0nat,
{
    let conditionals = if_generate(std, gen.conditionals@, gen.conditionals@.len(), u);
    match gen.else_item {
        Some(else_item) => Unit {
            world: generate_body(std, else_item, enter(conditionals)).world,
            scope: u.scope,
        },
        None => conditionals,
    }
}

/// One concurrent statement. Its label is declared in the scope around it
/// before the statement itself is analyzed.
pub open spec fn conc_stmt(std: Standard, stmt: LabeledConcurrentStatement, u: Unit) -> Unit
    decreases stmt, 1nat,
{
    if u.world.fatal {
        u
    } else {
        let named = labeled(stmt.label, u);
        match stmt.statement {
            ConcurrentStatement::Block(block) => block_unit(std, block, named),
            ConcurrentStatement::Process(process) => process_unit(std, process, named),
            ConcurrentStatement::ForGenerate(gen) => for_generate_unit(std, gen, named),
            ConcurrentStatement::IfGenerate(gen) => if_generate_unit(std, gen, named),
            ConcurrentStatement::CaseGenerate(gen) => case_generate(
                std,
                gen.alternatives@,
                gen.alternatives@.len(),
                named,
            ),
            ConcurrentStatement::Instance(instance) => named.step(
                instance_ok(instance),
                instance_outcome(named.world.arena, named.scope, instance),
                instance_slots(instance),
            ),
            ConcurrentStatement::Assignment(assign) => named.step(
                waveform_ok(assign.rhs@, assign.rhs@.len()),
                waveform_assignment(
                    named.world.arena,
                    named.scope,
                    std.time,
                    assign.target,
                    AssignmentType::Signal,
                    assign.rhs@,
                ),
                set![assign.target.reference] + waveform_slots(assign.rhs@, assign.rhs@.len()),
            ),
            ConcurrentStatement::ProcedureCall(pcall) => named.step(
                call_ok(pcall.call),
                procedure_call(named.world.arena, named.scope, pcall.call),
                call_slots(pcall.call),
            ),
            ConcurrentStatement::Assert(assert_stmt) => named.step(
                expr_ok(assert_stmt.statement.condition.item),
                opt_typed(named.world.arena, named.scope, None, assert_stmt.statement.condition),
                expr_slots(assert_stmt.statement.condition.item),
            ).step(
                opt_ok(assert_stmt.statement.report),
                optional_typed(named.world.arena, named.scope, None, assert_stmt.statement.report),
                opt_slots(assert_stmt.statement.report),
            ).step(
                opt_ok(assert_stmt.statement.severity),
                optional_typed(named.world.arena, named.scope, None, assert_stmt.statement.severity),
                opt_slots(assert_stmt.statement.severity),
            ),
        }
    }
}

/// The first `n` statements of a sequence of concurrent statements, in
/// order.
pub open spec fn conc_part(std: Standard, stmts: Seq<LabeledConcurrentStatement>, n: nat, u: Unit) -> Unit
    decreases stmts, n,
{
    if u.world.fatal {
        u
    } else {
        if n == 0 || n > stmts.len() {
            u
        } else {
            conc_stmt(std, stmts[n - 1], conc_part(std, stmts, (n - 1) as nat, u))
        }
    }
}

/// Whether every association list that the analysis of a block comes to is
/// well shaped.
pub open spec fn block_ok(block: BlockStatement) -> bool
    decreases block, 0nat,
{
    &&& opt_ok(block.guard_condition)
    &&& match block.header.generic_clause {
        Some(list) => interface_ok(list@, list@.len()),
        None => true,
    }
    &&& optional_map_ok(block.header.generic_map)
    &&& match block.header.port_clause {
        Some(list) => interface_ok(list@, list@.len()),
        None => true,
    }
    &&& optional_map_ok(block.header.port_map)
    &&& decls_ok(block.decl@, block.decl@.len())
    &&& conc_part_ok(block.statements@, block.statements@.len())
}

/// Whether every association list that the analysis of a process comes to
/// is well shaped.
pub open spec fn process_ok(process: ProcessStatement) -> bool {
    decls_ok(process.decl@, process.decl@.len()) && seq_part_ok(
        SequentialRoot::Process,
        process.statements@,
        process.statements@.len(),
    )
}

/// Whether every association list that the analysis of a generate body
/// comes to is well shaped.
pub open spec fn generate_body_ok(body: GenerateBody) -> bool
    decreases body, 0nat,
{
    (match body.decl {
        Some(decl) => decls_ok(decl@, decl@.len()),
        None => true,
    }) && conc_part_ok(body.statements@, body.statements@.len())
}

/// The same of the first `n` branches of an `if` generate statement.
pub open spec fn if_generate_ok(conds: Seq<GenerateConditional>, n: nat) -> bool
    decreases conds, n,
{
    if n == 0 || n > conds.len() {
        true
    } else {
        if_generate_ok(conds, (n - 1) as nat) && expr_ok(conds[n - 1].condition.item)
            && generate_body_ok(conds[n - 1].item)
    }
}

/// The same of the first `n` alternatives of a `case` generate statement.
pub open spec fn case_generate_ok(alts: Seq<GenerateBody>, n: nat) -> bool
    decreases alts, n,
{
    if n == 0 || n > alts.len() {
        true
    } else {
        case_generate_ok(alts, (n - 1) as nat) && generate_body_ok(alts[n - 1])
    }
}

/// Whether every association list that the analysis of a concurrent
/// statement comes to is well shaped.
pub open spec fn conc_stmt_ok(stmt: LabeledConcurrentStatement) -> bool
    decreases stmt, 1nat,
{
    match stmt.statement {
        ConcurrentStatement::Block(block) => block_ok(block),
        ConcurrentStatement::Process(process) => process_ok(process),
        ConcurrentStatement::ForGenerate(gen) => drange_ok(gen.discrete_range)
            && generate_body_ok(gen.body),
        ConcurrentStatement::IfGenerate(gen) => if_generate_ok(
            gen.conditionals@,
            gen.conditionals@.len(),
        ) && match gen.else_item {
            Some(else_item) => generate_body_ok(else_item),
            None => true,
        },
        ConcurrentStatement::CaseGenerate(gen) => case_generate_ok(
            gen.alternatives@,
            gen.alternatives@.len(),
        ),
        ConcurrentStatement::Instance(instance) => instance_ok(instance),
        ConcurrentStatement::Assignment(assign) => waveform_ok(assign.rhs@, assign.rhs@.len()),
        ConcurrentStatement::ProcedureCall(pcall) => call_ok(pcall.call),
        ConcurrentStatement::Assert(assert_stmt) => expr_ok(assert_stmt.statement.condition.item)
            && opt_ok(assert_stmt.statement.report) && opt_ok(assert_stmt.statement.severity),
    }
}

/// The same of the first `n` statements of a sequence.
pub open spec fn conc_part_ok(stmts: Seq<LabeledConcurrentStatement>, n: nat) -> bool
    decreases stmts, n,
{
    if n == 0 || n > stmts.len() {
        true
    } else {
        conc_part_ok(stmts, (n - 1) as nat) && conc_stmt_ok(stmts[n - 1])
    }
}

/// Once the run over a sequence of concurrent statements is given up, the
/// statements that follow change nothing.
pub proof fn lemma_conc_part_stays(
    std: Standard,
    stmts: Seq<LabeledConcurrentStatement>,
    k: nat,
    n: nat,
    u: Unit,
)
    requires
        k <= n <= stmts.len(),
        conc_part(std, stmts, k, u).world.fatal,
    ensures
        conc_part(std, stmts, n, u) == conc_part(std, stmts, k, u),
    decreases n,
{
    reveal_with_fuel(conc_part, 2);
    if k < n {
        lemma_conc_part_stays(std, stmts, k, (n - 1) as nat, u);
    }
}

/// The branches of an `if` generate statement leave the scope around the
/// statement as it is, and once the run over them is given up, the branches
/// that follow change nothing.
pub proof fn lemma_if_generate_stays(
    std: Standard,
    conds: Seq<GenerateConditional>,
    k: nat,
    n: nat,
    u: Unit,
)
    requires
        k <= n <= conds.len(),
    ensures
        if_generate(std, conds, n, u).scope == u.scope,
        if_generate(std, conds, k, u).world.fatal ==> if_generate(std, conds, n, u)
            == if_generate(std, conds, k, u),
    decreases n,
{
    reveal_with_fuel(if_generate, 2);
    if k < n {
        lemma_if_generate_stays(std, conds, k, (n - 1) as nat, u);
    }
}

/// The alternatives of a `case` generate statement leave the scope around
/// the statement as it is, and once the run over them is given up, the
/// alternatives that follow change nothing.
pub proof fn lemma_case_generate_stays(
    std: Standard,
    alts: Seq<GenerateBody>,
    k: nat,
    n: nat,
    u: Unit,
)
    requires
        k <= n <= alts.len(),
    ensures
        case_generate(std, alts, n, u).scope == u.scope,
        case_generate(std, alts, k, u).world.fatal ==> case_generate(std, alts, n, u)
            == case_generate(std, alts, k, u),
    decreases n,
{
    reveal_with_fuel(case_generate, 2);
    if k < n {
        lemma_case_generate_stays(std, alts, k, (n - 1) as nat, u);
    }
}

/// Statements that are well formed up to one of them are well formed up to
/// every earlier one.
pub proof fn lemma_conc_part_ok_prefix(stmts: Seq<LabeledConcurrentStatement>, k: nat, n: nat)
    requires
        k <= n <= stmts.len(),
        conc_part_ok(stmts, n),
    ensures
        conc_part_ok(stmts, k),
    decreases n,
{
    if k < n {
        lemma_conc_part_ok_prefix(stmts, k, (n - 1) as nat);
    }
}

/// Branches that are well formed up to one of them are well formed up to
/// every earlier one.
pub proof fn lemma_if_generate_ok_prefix(conds: Seq<GenerateConditional>, k: nat, n: nat)
    requires
        k <= n <= conds.len(),
        if_generate_ok(conds, n),
    ensures
        if_generate_ok(conds, k),
    decreases n,
{
    if k < n {
        lemma_if_generate_ok_prefix(conds, k, (n - 1) as nat);
    }
}

/// Alternatives that are well formed up to one of them are well formed up
/// to every earlier one.
pub proof fn lemma_case_generate_ok_prefix(alts: Seq<GenerateBody>, k: nat, n: nat)
    requires
        k <= n <= alts.len(),
        case_generate_ok(alts, n),
    ensures
        case_generate_ok(alts, k),
    decreases n,
{
    if k < n {
        lemma_case_generate_ok_prefix(alts, k, (n - 1) as nat);
    }
}

impl AnalyzeContext {
    /// The interface element that a declaration is, if it is an interface
    /// object of the given class.
    pub fn interface_of_class(&self, ent: EntityId, class: ObjectClass) -> (res: Option<
        InterfaceEnt,
    >)
        ensures
            res == interface_of_class(self.arena@, ent, class),
    {
        match InterfaceEnt::from_any(&self.arena, ent) {
            Some(interface) => match self.arena.get(ent) {
                Some(r) => match &r.ent.kind {
                    AnyEntKind::Object(object) => if object.class == class {
                        Some(interface)
                    } else {
                        None
                    },
                    _ => None,
                },
                None => None,
            },
            None => None,
        }
    }

    /// The generics and the ports of a declaration that is a design unit
    /// of the given kind.
    pub fn to_entity_formal(&self, ent: EntityId, kind: UnitKind) -> (res: Option<
        (FormalRegion, FormalRegion),
    >)
        ensures
            match unit_region(self.arena@, ent, kind) {
                Some(ids) => res matches Some((generics, ports)) && generics@ == generics_of(
                    self.arena@,
                    ids,
                ) && ports@ == ports_of(self.arena@, ids),
                None => res is None,
            },
    {
        let region = match self.arena.get(ent) {
            Some(r) => match (kind, &r.ent.kind) {
                (UnitKind::Entity, AnyEntKind::Entity(region)) => Some(region),
                (UnitKind::Component, AnyEntKind::Component(region)) => Some(region),
                (UnitKind::Configuration, AnyEntKind::Configuration(region)) => Some(region),
                _ => None,
            },
            None => None,
        };
        match region {
            None => None,
            Some(region) => {
                let mut generics = FormalRegion::default();
                let mut ports = FormalRegion::default();
                let mut i: usize = 0;
                while i < region.entities.len()
                    invariant
                        i <= region.entities.len(),
                        generics@ == formals_where(
                            self.arena@,
                            region.entities@,
                            ObjectClass::Constant,
                            i as nat,
                        ),
                        ports@ == formals_where(
                            self.arena@,
                            region.entities@,
                            ObjectClass::Signal,
                            i as nat,
                        ),
                    decreases region.entities.len() - i,
                {
                    let id = region.entities[i];
                    if let Some(interface) = self.interface_of_class(id, ObjectClass::Constant) {
                        generics.insert(interface);
                    }
                    if let Some(interface) = self.interface_of_class(id, ObjectClass::Signal) {
                        ports.insert(interface);
                    }
                    i = i + 1;
                }
                Some((generics, ports))
            },
        }
    }

    /// Resolves the name of an instantiated unit to one declaration of the
    /// kind asked for.
    pub fn resolve_unit(
        &mut self,
        scope: &Scope,
        kind: UnitKind,
        name: &Name,
        diagnostics: &mut Vec<Diagnostic>,
    ) -> (res: Option<(FormalRegion, FormalRegion)>)
        ensures
            performed(
                *old(self),
                *final(self),
                old(diagnostics)@,
                final(diagnostics)@,
                true,
                unit_name_outcome(old(self).arena@, scope@, kind, *name),
                set![name.reference],
            ),
            match resolved_unit(old(self).arena@, scope@, kind, *name) {
                Some(ent) => res matches Some((generics, ports)) && generics@ == generics_of(
                    old(self).arena@,
                    unit_region(old(self).arena@, ent, kind)->Some_0,
                ) && ports@ == ports_of(
                    old(self).arena@,
                    unit_region(old(self).arena@, ent, kind)->Some_0,
                ),
                None => res is None,
            },
    {
        match scope.lookup(&name.pos, &name.designator) {
            Err(d) => {
                let ghost dv = d@;
                push_diagnostic(diagnostics, d);
                self.references.clear_reference(name.reference);
                proof {
                    lemma_performed_report(
                        *old(self),
                        old(diagnostics)@,
                        diagnostics@,
                        TypeCheck::Unknown,
                        dv,
                    );
                    lemma_performed_unbound(
                        *old(self),
                        *old(self),
                        *self,
                        old(diagnostics)@,
                        diagnostics@,
                        Outcome::report(TypeCheck::Unknown, dv),
                        Set::empty(),
                        name.reference,
                    );
                }
                None
            },
            Ok(NamedEntities::Single(ent)) => {
                let formals = self.to_entity_formal(ent, kind);
                if formals.is_some() {
                    self.references.set_unique_reference(name.reference, ent);
                    proof {
                        lemma_performed_bind(*old(self), *self, diagnostics@, name.reference, ent);
                    }
                } else {
                    push_error(diagnostics, name.pos, Message::ExpectedUnit(kind, ent));
                    self.references.set_unique_reference(name.reference, ent);
                    proof {
                        let dv = error_view(name.pos, Message::ExpectedUnit(kind, ent));
                        lemma_performed_report(
                            *old(self),
                            old(diagnostics)@,
                            diagnostics@,
                            TypeCheck::NotOk,
                            dv,
                        );
                        lemma_performed_bound(
                            *old(self),
                            *old(self),
                            *self,
                            old(diagnostics)@,
                            diagnostics@,
                            Outcome::report(TypeCheck::NotOk, dv),
                            Set::empty(),
                            name.reference,
                            ent,
                        );
                    }
                }
                formals
            },
            Ok(NamedEntities::Overloaded(_)) => {
                push_error(
                    diagnostics,
                    name.pos,
                    Message::ExpectedUnitGotOverloaded(kind, name.designator),
                );
                self.references.clear_reference(name.reference);
                proof {
                    let dv = error_view(
                        name.pos,
                        Message::ExpectedUnitGotOverloaded(kind, name.designator),
                    );
                    lemma_performed_report(
                        *old(self),
                        old(diagnostics)@,
                        diagnostics@,
                        TypeCheck::NotOk,
                        dv,
                    );
                    lemma_performed_unbound(
                        *old(self),
                        *old(self),
                        *self,
                        old(diagnostics)@,
                        diagnostics@,
                        Outcome::report(TypeCheck::NotOk, dv),
                        Set::empty(),
                        name.reference,
                    );
                }
                None
            },
        }
    }

    /// Analyzes one map of an instance against a formal region, or on its
    /// own where there is none.
    fn analyze_map(
        &mut self,
        scope: &Scope,
        formals: Option<&FormalRegion>,
        name: &Name,
        map: &Vec<AssociationElement>,
        diagnostics: &mut Vec<Diagnostic>,
    ) -> (res: FatalResult<()>)
        ensures
            performed(
                *old(self),
                *final(self),
                old(diagnostics)@,
                final(diagnostics)@,
                res is Ok,
                match formals {
                    Some(formals) => assoc_typed(
                        old(self).arena@,
                        scope@,
                        formals@,
                        name.pos,
                        map@,
                    ),
                    None => assoc_untyped(old(self).arena@, scope@, map@, map@.len()),
                },
                assoc_slots(map@, map@.len()),
            ),
            res is Ok <==> assoc_ok(map@, map@.len()),
    {
        match formals {
            Some(formals) => match self.analyze_assoc_elems_with_formal_region(
                &name.pos,
                formals,
                scope,
                map,
                diagnostics,
            ) {
                Ok(_) => Ok(()),
                Err(fatal) => Err(fatal),
            },
            None => self.analyze_assoc_elems(scope, map, diagnostics),
        }
    }

    /// Analyzes an instantiation statement.
    pub fn analyze_instance(
        &mut self,
        scope: &Scope,
        instance: &InstantiationStatement,
        diagnostics: &mut Vec<Diagnostic>,
    ) -> (res: FatalResult<()>)
        ensures
            performed(
                *old(self),
                *final(self),
                old(diagnostics)@,
                final(diagnostics)@,
                res is Ok,
                instance_outcome(old(self).arena@, scope@, *instance),
                instance_slots(*instance),
            ),
            res is Ok <==> instance_ok(*instance),
    {
        let ghost arena = self.arena@;
        let ghost out = instance_outcome(arena, scope@, *instance);
        let ghost all = instance_slots(*instance);
        let (kind, name) = match &instance.unit {
            InstantiatedUnit::Entity(name) => (UnitKind::Entity, name),
            InstantiatedUnit::Component(name) => (UnitKind::Component, name),
            InstantiatedUnit::Configuration(name) => (UnitKind::Configuration, name),
        };
        if !(assoc_is_ok(&instance.generic_map) && assoc_is_ok(&instance.port_map)) {
            proof {
                lemma_performed_gave_up(*self, *self, diagnostics@, out, all);
            }
            return Err(FatalError::MalformedAssociationList);
        }
        let ghost head = unit_name_outcome(arena, scope@, kind, *name);
        let formals = self.resolve_unit(scope, kind, name, diagnostics);
        let ghost spec_formals = instance_formals(arena, scope@, instance.unit);
        let ghost first = *self;
        let ghost sink_first = diagnostics@;
        proof {
            lemma_performed_facts(
                *old(self),
                first,
                old(diagnostics)@,
                sink_first,
                true,
                head,
                set![name.reference],
            );
        }
        let (generics, ports) = match &formals {
            Some((generics, ports)) => (Some(generics), Some(ports)),
            None => (None, None),
        };
        let ghost gm = match spec_formals {
            Some((g, _)) => assoc_typed(arena, scope@, g, name.pos, instance.generic_map@),
            None => assoc_untyped(arena, scope@, instance.generic_map@, instance.generic_map@.len()),
        };
        let ghost pm = match spec_formals {
            Some((_, p)) => assoc_typed(arena, scope@, p, name.pos, instance.port_map@),
            None => assoc_untyped(arena, scope@, instance.port_map@, instance.port_map@.len()),
        };
        let ghost gslots = assoc_slots(instance.generic_map@, instance.generic_map@.len());
        let ghost pslots = assoc_slots(instance.port_map@, instance.port_map@.len());
        let step = self.analyze_map(scope, generics, name, &instance.generic_map, diagnostics);
        match step {
            Ok(()) => {},
            Err(fatal) => {
                proof {
                    lemma_performed_both(
                        *old(self),
                        first,
                        *self,
                        old(diagnostics)@,
                        sink_first,
                        diagnostics@,
                        head,
                        set![name.reference],
                        gm,
                        gslots,
                        false,
                    );
                }
                return Err(fatal);
            },
        }
        let ghost second = *self;
        let ghost sink_second = diagnostics@;
        proof {
            lemma_performed_facts(first, second, sink_first, sink_second, true, gm, gslots);
        }
        let step = self.analyze_map(scope, ports, name, &instance.port_map, diagnostics);
        proof {
            lemma_performed_both(
                first,
                second,
                *self,
                sink_first,
                sink_second,
                diagnostics@,
                gm,
                gslots,
                pm,
                pslots,
                step is Ok,
            );
            lemma_performed_both(
                *old(self),
                first,
                *self,
                old(diagnostics)@,
                sink_first,
                diagnostics@,
                head,
                set![name.reference],
                gm.followed_by(pm, pslots),
                gslots + pslots,
                step is Ok,
            );
        }
        step
    }

    /// Analyzes an association list that may be absent, on its own.
    fn analyze_optional_map(
        &mut self,
        scope: &Scope,
        map: &Option<Vec<AssociationElement>>,
        diagnostics: &mut Vec<Diagnostic>,
    ) -> (res: FatalResult<()>)
        ensures
            performed(
                *old(self),
                *final(self),
                old(diagnostics)@,
                final(diagnostics)@,
                res is Ok,
                optional_map(old(self).arena@, scope@, *map),
                optional_map_slots(*map),
            ),
            res is Ok <==> optional_map_ok(*map),
    {
        match map {
            Some(list) => self.analyze_assoc_elems(scope, list, diagnostics),
            None => {
                proof {
                    crate::analyze::lemma_performed_nothing(*self, diagnostics@);
                }
                Ok(())
            },
        }
    }

    /// Resolves the names of the sensitivity list of a process.
    fn analyze_sensitivity_list(
        &mut self,
        scope: &Scope,
        list: &Option<SensitivityList>,
        diagnostics: &mut Vec<Diagnostic>,
    )
        ensures
            performed(
                *old(self),
                *final(self),
                old(diagnostics)@,
                final(diagnostics)@,
                true,
                sensitivity_outcome(scope@, *list),
                sensitivity_slots(*list),
            ),
    {
        match list {
            Some(SensitivityList::Names(names)) => {
                self.sensitivity_list_check(scope, names, diagnostics);
            },
            _ => {
                proof {
                    crate::analyze::lemma_performed_nothing(*self, diagnostics@);
                }
            },
        }
    }

    /// Declares the label of a statement in the scope around it.
    fn define_label(
        &mut self,
        scope: &mut Scope,
        label: &Option<crate::ast::Ident>,
        diagnostics: &mut Vec<Diagnostic>,
    )
        ensures
            final(self).references == old(self).references,
            elaborated(
                *old(self),
                *final(self),
                final(scope)@,
                old(diagnostics)@,
                final(diagnostics)@,
                true,
                labeled(*label, unit_of(*old(self), old(scope)@, old(diagnostics)@)),
            ),
    {
        if let Some(label) = label {
            self.declare(
                scope,
                Designator::Identifier(label.name),
                AnyEntKind::Label,
                Some(label.pos),
                diagnostics,
            );
        }
    }

    /// Analyzes a block statement in the scope around it.
    fn analyze_block(
        &mut self,
        scope: &Scope,
        block: &BlockStatement,
        diagnostics: &mut Vec<Diagnostic>,
    ) -> (res: FatalResult<()>)
        ensures
            elaborated(
                *old(self),
                *final(self),
                scope@,
                old(diagnostics)@,
                final(diagnostics)@,
                res is Ok,
                block_unit(
                    old(self).standard,
                    *block,
                    unit_of(*old(self), scope@, old(diagnostics)@),
                ),
            ),
            res is Ok <==> block_ok(*block),
        decreases *block, 0nat,
    {
        self.optional_expr(scope, None, &block.guard_condition, diagnostics)?;
        let mut nested = scope.nested();
        if let Some(list) = &block.header.generic_clause {
            self.analyze_interface_list(&mut nested, list, diagnostics)?;
        }
        self.analyze_optional_map(scope, &block.header.generic_map, diagnostics)?;
        if let Some(list) = &block.header.port_clause {
            self.analyze_interface_list(&mut nested, list, diagnostics)?;
        }
        self.analyze_optional_map(scope, &block.header.port_map, diagnostics)?;
        self.analyze_declarative_part(&mut nested, &block.decl, diagnostics)?;
        self.analyze_concurrent_part(&mut nested, &block.statements, diagnostics)
    }

    /// Analyzes a process statement in the scope around it.
    fn analyze_process(
        &mut self,
        scope: &Scope,
        process: &ProcessStatement,
        diagnostics: &mut Vec<Diagnostic>,
    ) -> (res: FatalResult<()>)
        ensures
            elaborated(
                *old(self),
                *final(self),
                scope@,
                old(diagnostics)@,
                final(diagnostics)@,
                res is Ok,
                process_unit(
                    old(self).standard,
                    *process,
                    unit_of(*old(self), scope@, old(diagnostics)@),
                ),
            ),
            res is Ok <==> process_ok(*process),
    {
        self.analyze_sensitivity_list(scope, &process.sensitivity_list, diagnostics);
        let mut nested = scope.nested();
        self.analyze_declarative_part(&mut nested, &process.decl, diagnostics)?;
        self.define_labels_for_sequential_part(&mut nested, &process.statements, diagnostics)?;
        self.analyze_sequential_part(
            &nested,
            &SequentialRoot::Process,
            &process.statements,
            diagnostics,
        )
    }

    /// Analyzes the body of a generate statement in the scope that was
    /// made for it.
    fn analyze_generate_body(
        &mut self,
        scope: &mut Scope,
        body: &GenerateBody,
        diagnostics: &mut Vec<Diagnostic>,
    ) -> (res: FatalResult<()>)
        ensures
            elaborated(
                *old(self),
                *final(self),
                final(scope)@,
                old(diagnostics)@,
                final(diagnostics)@,
                res is Ok,
                generate_body(
                    old(self).standard,
                    *body,
                    unit_of(*old(self), old(scope)@, old(diagnostics)@),
                ),
            ),
            res is Ok <==> generate_body_ok(*body),
        decreases *body, 0nat,
    {
        self.define_label(scope, &body.alternative_label, diagnostics);
        if let Some(decl) = &body.decl {
            self.analyze_declarative_part(scope, decl, diagnostics)?;
        }
        self.analyze_concurrent_part(scope, &body.statements, diagnostics)
    }

    /// Analyzes an `if` generate statement in the scope around it.
    #[verifier::loop_isolation(false)]
    fn analyze_if_generate(
        &mut self,
        scope: &Scope,
        gen: &IfGenerateStatement,
        diagnostics: &mut Vec<Diagnostic>,
    ) -> (res: FatalResult<()>)
        ensures
            elaborated(
                *old(self),
                *final(self),
                scope@,
                old(diagnostics)@,
                final(diagnostics)@,
                res is Ok,
                if_generate_unit(
                    old(self).standard,
                    *gen,
                    unit_of(*old(self), scope@, old(diagnostics)@),
                ),
            ),
            res is Ok <==> if_generate_ok(gen.conditionals@, gen.conditionals@.len())
                && match gen.else_item {
                Some(else_item) => generate_body_ok(else_item),
                None => true,
            },
        decreases *gen, 0nat,
    {
        reveal_with_fuel(if_generate, 2);
        reveal_with_fuel(if_generate_unit, 2);
        let ghost std = self.standard;
        let ghost origin = unit_of(*self, scope@, diagnostics@);
        let ghost conds = gen.conditionals@;
        let mut i: usize = 0;
        while i < gen.conditionals.len()
            invariant
                i <= gen.conditionals.len(),
                if_generate_ok(conds, i as nat),
                elaborated(
                    *old(self),
                    *self,
                    scope@,
                    old(diagnostics)@,
                    diagnostics@,
                    true,
                    if_generate(std, conds, i as nat, origin),
                ),
            decreases gen.conditionals.len() - i,
        {
            let conditional = &gen.conditionals[i];
            proof {
                if if_generate_ok(conds, conds.len()) {
                    lemma_if_generate_ok_prefix(conds, (i + 1) as nat, conds.len());
                }
            }
            proof {
                lemma_if_generate_stays(std, conds, i as nat, i as nat, origin);
                lemma_if_generate_stays(std, conds, (i + 1) as nat, conds.len(), origin);
            }
            match self.expr_unknown_ttyp(scope, &conditional.condition, diagnostics) {
                Ok(()) => {},
                Err(fatal) => {
                    return Err(fatal);
                },
            }
            let mut nested = scope.nested();
            match self.analyze_generate_body(&mut nested, &conditional.item, diagnostics) {
                Ok(()) => {},
                Err(fatal) => {
                    return Err(fatal);
                },
            }
            i = i + 1;
        }
        if let Some(else_item) = &gen.else_item {
            let mut nested = scope.nested();
            self.analyze_generate_body(&mut nested, else_item, diagnostics)?;
        }
        Ok(())
    }

    /// Analyzes a `case` generate statement in the scope around it.
    #[verifier::loop_isolation(false)]
    fn analyze_case_generate(
        &mut self,
        scope: &Scope,
        gen: &CaseGenerateStatement,
        diagnostics: &mut Vec<Diagnostic>,
    ) -> (res: FatalResult<()>)
        ensures
            elaborated(
                *old(self),
                *final(self),
                scope@,
                old(diagnostics)@,
                final(diagnostics)@,
                res is Ok,
                case_generate(
                    old(self).standard,
                    gen.alternatives@,
                    gen.alternatives@.len(),
                    unit_of(*old(self), scope@, old(diagnostics)@),
                ),
            ),
            res is Ok <==> case_generate_ok(gen.alternatives@, gen.alternatives@.len()),
        decreases *gen, 0nat,
    {
        let ghost std = self.standard;
        let ghost origin = unit_of(*self, scope@, diagnostics@);
        let ghost alts = gen.alternatives@;
        let mut i: usize = 0;
        while i < gen.alternatives.len()
            invariant
                i <= gen.alternatives.len(),
                case_generate_ok(alts, i as nat),
                elaborated(
                    *old(self),
                    *self,
                    scope@,
                    old(diagnostics)@,
                    diagnostics@,
                    true,
                    case_generate(std, alts, i as nat, origin),
                ),
            decreases gen.alternatives.len() - i,
        {
            proof {
                if case_generate_ok(alts, alts.len()) {
                    lemma_case_generate_ok_prefix(alts, (i + 1) as nat, alts.len());
                }
            }
            proof {
                lemma_case_generate_stays(std, alts, i as nat, i as nat, origin);
                lemma_case_generate_stays(std, alts, (i + 1) as nat, alts.len(), origin);
            }
            let mut nested = scope.nested();
            match self.analyze_generate_body(&mut nested, &gen.alternatives[i], diagnostics) {
                Ok(()) => {},
                Err(fatal) => {
                    return Err(fatal);
                },
            }
            i = i + 1;
        }
        Ok(())
    }

    /// Analyzes a `for` generate statement in the scope around it.
    fn analyze_for_generate(
        &mut self,
        scope: &Scope,
        gen: &ForGenerateStatement,
        diagnostics: &mut Vec<Diagnostic>,
    ) -> (res: FatalResult<()>)
        ensures
            elaborated(
                *old(self),
                *final(self),
                scope@,
                old(diagnostics)@,
                final(diagnostics)@,
                res is Ok,
                for_generate_unit(
                    old(self).standard,
                    *gen,
                    unit_of(*old(self), scope@, old(diagnostics)@),
                ),
            ),
            res is Ok <==> drange_ok(gen.discrete_range) && generate_body_ok(gen.body),
        decreases *gen, 0nat,
    {
        let typ = self.drange_type(scope, &gen.discrete_range, diagnostics)?;
        let mut nested = scope.nested();
        self.declare(
            &mut nested,
            Designator::Identifier(gen.index_name.name),
            AnyEntKind::LoopParameter(typ),
            Some(gen.index_name.pos),
            diagnostics,
        );
        self.analyze_generate_body(&mut nested, &gen.body, diagnostics)
    }

    /// Analyzes one concurrent statement. Its label is declared in the
    /// scope around it before the statement itself is analyzed, and the label
    /// is all that the scope gains: what the statement declares inside of
    /// itself is not visible from the scope around it.
    pub fn analyze_concurrent_statement(
        &mut self,
        scope: &mut Scope,
        statement: &LabeledConcurrentStatement,
        diagnostics: &mut Vec<Diagnostic>,
    ) -> (res: FatalResult<()>)
        ensures
            elaborated(
                *old(self),
                *final(self),
                final(scope)@,
                old(diagnostics)@,
                final(diagnostics)@,
                res is Ok,
                conc_stmt(
                    old(self).standard,
                    *statement,
                    unit_of(*old(self), old(scope)@, old(diagnostics)@),
                ),
            ),
            res is Ok <==> conc_stmt_ok(*statement),
            final(scope)@ == labeled(
                statement.label,
                unit_of(*old(self), old(scope)@, old(diagnostics)@),
            ).scope,
        decreases *statement, 1nat,
    {
        proof {
            lemma_statement_declares_only_its_label(
                self.standard,
                *statement,
                unit_of(*self, scope@, diagnostics@),
            );
        }
        self.define_label(scope, &statement.label, diagnostics);
        match &statement.statement {
            ConcurrentStatement::Block(block) => self.analyze_block(scope, block, diagnostics),
            ConcurrentStatement::Process(process) => self.analyze_process(
                scope,
                process,
                diagnostics,
            ),
            ConcurrentStatement::ForGenerate(gen) => self.analyze_for_generate(
                scope,
                gen,
                diagnostics,
            ),
            ConcurrentStatement::IfGenerate(gen) => self.analyze_if_generate(
                scope,
                gen,
                diagnostics,
            ),
            ConcurrentStatement::CaseGenerate(gen) => self.analyze_case_generate(
                scope,
                gen,
                diagnostics,
            ),
            ConcurrentStatement::Instance(instance) => self.analyze_instance(
                scope,
                instance,
                diagnostics,
            ),
            ConcurrentStatement::Assignment(assign) => self.analyze_waveform_assignment(
                scope,
                &assign.target,
                AssignmentType::Signal,
                &assign.rhs,
                diagnostics,
            ),
            ConcurrentStatement::ProcedureCall(pcall) => self.analyze_procedure_call(
                scope,
                &pcall.call,
                diagnostics,
            ),
            ConcurrentStatement::Assert(assert_stmt) => {
                self.expr_unknown_ttyp(scope, &assert_stmt.statement.condition, diagnostics)?;
                self.optional_expr(scope, None, &assert_stmt.statement.report, diagnostics)?;
                self.optional_expr(scope, None, &assert_stmt.statement.severity, diagnostics)
            },
        }
    }

    /// Analyzes a sequence of concurrent statements in order. The labels
    /// of the statements are declared in `scope`; what a statement declares
    /// inside of itself is not. The analysis stops at the first part of a
    /// statement that holds a malformed association list: what the parts before
    /// it have produced stays, the scope holds the labels of the statements up
    /// to and with that one, and nothing of that part or of a later one is
    /// produced.
    #[verifier::loop_isolation(false)]
    pub fn analyze_concurrent_part(
        &mut self,
        scope: &mut Scope,
        statements: &Vec<LabeledConcurrentStatement>,
        diagnostics: &mut Vec<Diagnostic>,
    ) -> (res: FatalResult<()>)
        ensures
            elaborated(
                *old(self),
                *final(self),
                final(scope)@,
                old(diagnostics)@,
                final(diagnostics)@,
                res is Ok,
                conc_part(
                    old(self).standard,
                    statements@,
                    statements@.len(),
                    unit_of(*old(self), old(scope)@, old(diagnostics)@),
                ),
            ),
            res is Ok <==> conc_part_ok(statements@, statements@.len()),
        decreases statements@, 0nat,
    {
        let ghost std = self.standard;
        let ghost origin = unit_of(*self, scope@, diagnostics@);
        let mut i: usize = 0;
        while i < statements.len()
            invariant
                i <= statements.len(),
                conc_part_ok(statements@, i as nat),
                elaborated(
                    *old(self),
                    *self,
                    scope@,
                    old(diagnostics)@,
                    diagnostics@,
                    true,
                    conc_part(std, statements@, i as nat, origin),
                ),
            decreases statements.len() - i,
        {
            proof {
                if conc_part_ok(statements@, statements@.len()) {
                    lemma_conc_part_ok_prefix(statements@, (i + 1) as nat, statements@.len());
                }
            }
            match self.analyze_concurrent_statement(scope, &statements[i], diagnostics) {
                Ok(()) => {},
                Err(fatal) => {
                    proof {
                        lemma_conc_part_stays(
                            std,
                            statements@,
                            (i + 1) as nat,
                            statements@.len(),
                            origin,
                        );
                    }
                    return Err(fatal);
                },
            }
            i = i + 1;
        }
        Ok(())
    }
}

} // verus!
