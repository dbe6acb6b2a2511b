//! Where the labels of statements are visible.
use vstd::prelude::*;
use crate::analyze::{Outcome, Standard, Unit};
use crate::ast::{
    Alternative, Conditional, ConcurrentStatement, Ident, LabeledConcurrentStatement,
    LabeledSequentialStatement, Name, SequentialStatement,
};
use crate::concurrent::{case_generate, conc_stmt, if_generate, labeled};
use crate::data::{Designator, Symbol};
use crate::region::{Visible, binding_of, lemma_added_single, lemma_scope_nesting};
use crate::sequential::{
    is_label, label_entity, label_outcome, labels_alternatives, labels_conditionals, labels_part,
    labels_stmt,
};

verus! {

/// Whether a statement or a statement nested in it has the label.
pub open spec fn stmt_has_label(stmt: LabeledSequentialStatement, name: Symbol) -> bool
    decreases stmt, 0nat,
{
    (match stmt.label {
        Some(label) => label.name == name,
        None => false,
    }) || match stmt.statement {
        SequentialStatement::If(ifstmt) => conds_have_label(
            ifstmt.conditionals@,
            ifstmt.conditionals@.len(),
            name,
        ) || match ifstmt.else_item {
            Some(else_item) => part_has_label(else_item@, else_item@.len(), name),
            None => false,
        },
        SequentialStatement::Case(case_stmt) => alts_have_label(
            case_stmt.alternatives@,
            case_stmt.alternatives@.len(),
            name,
        ),
        SequentialStatement::Loop(loop_stmt) => part_has_label(
            loop_stmt.statements@,
            loop_stmt.statements@.len(),
            name,
        ),
        _ => false,
    }
}

/// Whether one of the first `n` statements, or a statement nested in one of
/// them, has the label.
pub open spec fn part_has_label(stmts: Seq<LabeledSequentialStatement>, n: nat, name: Symbol) -> bool
    decreases stmts, n,
{
    if n == 0 || n > stmts.len() {
        false
    } else {
        part_has_label(stmts, (n - 1) as nat, name) || stmt_has_label(stmts[n - 1], name)
    }
}

/// Whether a statement in one of the first `n` branches has the label.
pub open spec fn conds_have_label(conds: Seq<Conditional>, n: nat, name: Symbol) -> bool
    decreases conds, n,
{
    if n == 0 || n > conds.len() {
        false
    } else {
        conds_have_label(conds, (n - 1) as nat, name) || part_has_label(
            conds[n - 1].item@,
            conds[n - 1].item@.len(),
            name,
        )
    }
}

/// Whether a statement in one of the first `n` alternatives has the label.
pub open spec fn alts_have_label(alts: Seq<Alternative>, n: nat, name: Symbol) -> bool
    decreases alts, n,
{
    if n == 0 || n > alts.len() {
        false
    } else {
        alts_have_label(alts, (n - 1) as nat, name) || part_has_label(
            alts[n - 1].item@,
            alts[n - 1].item@.len(),
            name,
        )
    }
}

/// The number of labels of a statement and of the statements nested in it.
pub open spec fn stmt_label_count(stmt: LabeledSequentialStatement) -> nat
    decreases stmt, 0nat,
{
    (match stmt.label {
        Some(_) => 1nat,
        None => 0nat,
    }) + match stmt.statement {
        SequentialStatement::If(ifstmt) => conds_label_count(
            ifstmt.conditionals@,
            ifstmt.conditionals@.len(),
        ) + match ifstmt.else_item {
            Some(else_item) => part_label_count(else_item@, else_item@.len()),
            None => 0nat,
        },
        SequentialStatement::Case(case_stmt) => alts_label_count(
            case_stmt.alternatives@,
            case_stmt.alternatives@.len(),
        ),
        SequentialStatement::Loop(loop_stmt) => part_label_count(
            loop_stmt.statements@,
            loop_stmt.statements@.len(),
        ),
        _ => 0nat,
    }
}

/// The number of labels of the first `n` statements and of the statements
/// nested in them.
pub open spec fn part_label_count(stmts: Seq<LabeledSequentialStatement>, n: nat) -> nat
    decreases stmts, n,
{
    if n == 0 || n > stmts.len() {
        0
    } else {
        part_label_count(stmts, (n - 1) as nat) + stmt_label_count(stmts[n - 1])
    }
}

/// The number of labels in the first `n` branches.
pub open spec fn conds_label_count(conds: Seq<Conditional>, n: nat) -> nat
    decreases conds, n,
{
    if n == 0 || n > conds.len() {
        0
    } else {
        conds_label_count(conds, (n - 1) as nat) + part_label_count(
            conds[n - 1].item@,
            conds[n - 1].item@.len(),
        )
    }
}

/// The number of labels in the first `n` alternatives.
pub open spec fn alts_label_count(alts: Seq<Alternative>, n: nat) -> nat
    decreases alts, n,
{
    if n == 0 || n > alts.len() {
        0
    } else {
        alts_label_count(alts, (n - 1) as nat) + part_label_count(
            alts[n - 1].item@,
            alts[n - 1].item@.len(),
        )
    }
}

/// Declaring the labels of a statement makes one declaration for every
/// label, also for a label that is in conflict with an earlier declaration.
pub proof fn lemma_labels_stmt_count(stmt: LabeledSequentialStatement, u: Unit)
    requires
        !u.world.fatal,
    ensures
        labels_stmt(stmt, u).world.arena.len() == u.world.arena.len() + stmt_label_count(stmt),
    decreases stmt, 0nat,
{
    let named = match stmt.label {
        Some(label) => u.declare(label_entity(label)),
        None => u,
    };
    match stmt.statement {
        SequentialStatement::If(ifstmt) => {
            lemma_labels_conds_grow(ifstmt.conditionals@, ifstmt.conditionals@.len(), named);
            lemma_labels_conds_count(ifstmt.conditionals@, ifstmt.conditionals@.len(), named);
            match ifstmt.else_item {
                Some(else_item) => {
                    lemma_labels_part_count(
                        else_item@,
                        else_item@.len(),
                        labels_conditionals(
                            ifstmt.conditionals@,
                            ifstmt.conditionals@.len(),
                            named,
                        ),
                    );
                },
                None => {},
            }
        },
        SequentialStatement::Case(case_stmt) => {
            lemma_labels_alts_count(case_stmt.alternatives@, case_stmt.alternatives@.len(), named);
        },
        SequentialStatement::Loop(loop_stmt) => {
            lemma_labels_part_count(loop_stmt.statements@, loop_stmt.statements@.len(), named);
        },
        _ => {},
    }
}

/// Declaring the labels of a sequence of statements makes one declaration
/// for every label in it.
pub proof fn lemma_labels_part_count(stmts: Seq<LabeledSequentialStatement>, n: nat, u: Unit)
    requires
        !u.world.fatal,
    ensures
        labels_part(stmts, n, u).world.arena.len() == u.world.arena.len() + part_label_count(
            stmts,
            n,
        ),
    decreases stmts, n,
{
    if n == 0 || n > stmts.len() {
    } else {
        lemma_labels_part_grow(stmts, (n - 1) as nat, u);
        lemma_labels_part_count(stmts, (n - 1) as nat, u);
        lemma_labels_stmt_count(stmts[n - 1], labels_part(stmts, (n - 1) as nat, u));
    }
}

proof fn lemma_labels_conds_count(conds: Seq<Conditional>, n: nat, u: Unit)
    requires
        !u.world.fatal,
    ensures
        labels_conditionals(conds, n, u).world.arena.len() == u.world.arena.len()
            + conds_label_count(conds, n),
    decreases conds, n,
{
    if n == 0 || n > conds.len() {
    } else {
        lemma_labels_conds_grow(conds, (n - 1) as nat, u);
        lemma_labels_conds_count(conds, (n - 1) as nat, u);
        lemma_labels_part_count(
            conds[n - 1].item@,
            conds[n - 1].item@.len(),
            labels_conditionals(conds, (n - 1) as nat, u),
        );
    }
}

proof fn lemma_labels_alts_count(alts: Seq<Alternative>, n: nat, u: Unit)
    requires
        !u.world.fatal,
    ensures
        labels_alternatives(alts, n, u).world.arena.len() == u.world.arena.len()
            + alts_label_count(alts, n),
    decreases alts, n,
{
    if n == 0 || n > alts.len() {
    } else {
        lemma_labels_alts_grow(alts, (n - 1) as nat, u);
        lemma_labels_alts_count(alts, (n - 1) as nat, u);
        lemma_labels_part_count(
            alts[n - 1].item@,
            alts[n - 1].item@.len(),
            labels_alternatives(alts, (n - 1) as nat, u),
        );
    }
}

/// Whether the name is declared in the innermost region of the scope and
/// stands for a label.
pub open spec fn label_visible(u: Unit, name: Symbol) -> bool {
    u.scope.declares(Designator::Identifier(name)) && match u.scope.visible(
        Designator::Identifier(name),
    ) {
        Some(Visible::Single(ent)) => is_label(u.world.arena, ent),
        _ => false,
    }
}

/// What the declaration of one label does to the visibility of a name.
proof fn lemma_declare_label(u: Unit, label: Ident, name: Symbol)
    requires
        u.scope.wf(),
        !u.world.fatal,
        u.world.arena.len() < usize::MAX,
    ensures
        u.declare(label_entity(label)).scope.wf(),
        label_visible(u, name) ==> label_visible(u.declare(label_entity(label)), name),
        !u.scope.declares(Designator::Identifier(name)) && label.name == name ==> label_visible(
            u.declare(label_entity(label)),
            name,
        ),
        !u.scope.declares(Designator::Identifier(name)) && label.name != name
            ==> !u.declare(label_entity(label)).scope.declares(Designator::Identifier(name)),
{
    let binding = binding_of(u.world.arena.len() as usize, label_entity(label));
    lemma_added_single(u.scope, binding, Designator::Identifier(name));
    let after = u.declare(label_entity(label));
    assert(after.world.arena[u.world.arena.len() as int] == label_entity(label));
    if label_visible(u, name) {
        let ent = u.scope.visible(Designator::Identifier(name))->Some_0->Single_0;
        assert(after.world.arena[ent as int] == u.world.arena[ent as int]);
    }
}

/// Declaring labels only ever appends declarations and keeps a scope well
/// formed.
proof fn lemma_labels_stmt_grow(stmt: LabeledSequentialStatement, u: Unit)
    ensures
        labels_stmt(stmt, u).world.fatal == u.world.fatal,
        u.world.arena.len() <= labels_stmt(stmt, u).world.arena.len(),
        u.scope.wf() ==> labels_stmt(stmt, u).scope.wf(),
    decreases stmt, 0nat,
{
    let named = match stmt.label {
        Some(label) => u.declare(label_entity(label)),
        None => u,
    };
    match stmt.statement {
        SequentialStatement::If(ifstmt) => {
            lemma_labels_conds_grow(ifstmt.conditionals@, ifstmt.conditionals@.len(), named);
            match ifstmt.else_item {
                Some(else_item) => {
                    lemma_labels_part_grow(
                        else_item@,
                        else_item@.len(),
                        labels_conditionals(
                            ifstmt.conditionals@,
                            ifstmt.conditionals@.len(),
                            named,
                        ),
                    );
                },
                None => {},
            }
        },
        SequentialStatement::Case(case_stmt) => {
            lemma_labels_alts_grow(case_stmt.alternatives@, case_stmt.alternatives@.len(), named);
        },
        SequentialStatement::Loop(loop_stmt) => {
            lemma_labels_part_grow(loop_stmt.statements@, loop_stmt.statements@.len(), named);
        },
        _ => {},
    }
}

proof fn lemma_labels_part_grow(stmts: Seq<LabeledSequentialStatement>, n: nat, u: Unit)
    ensures
        labels_part(stmts, n, u).world.fatal == u.world.fatal,
        u.world.arena.len() <= labels_part(stmts, n, u).world.arena.len(),
        u.scope.wf() ==> labels_part(stmts, n, u).scope.wf(),
    decreases stmts, n,
{
    if n == 0 || n > stmts.len() {
    } else {
        lemma_labels_part_grow(stmts, (n - 1) as nat, u);
        lemma_labels_stmt_grow(stmts[n - 1], labels_part(stmts, (n - 1) as nat, u));
    }
}

proof fn lemma_labels_conds_grow(conds: Seq<Conditional>, n: nat, u: Unit)
    ensures
        labels_conditionals(conds, n, u).world.fatal == u.world.fatal,
        u.world.arena.len() <= labels_conditionals(conds, n, u).world.arena.len(),
        u.scope.wf() ==> labels_conditionals(conds, n, u).scope.wf(),
    decreases conds, n,
{
    if n == 0 || n > conds.len() {
    } else {
        lemma_labels_conds_grow(conds, (n - 1) as nat, u);
        lemma_labels_part_grow(
            conds[n - 1].item@,
            conds[n - 1].item@.len(),
            labels_conditionals(conds, (n - 1) as nat, u),
        );
    }
}

proof fn lemma_labels_alts_grow(alts: Seq<Alternative>, n: nat, u: Unit)
    ensures
        labels_alternatives(alts, n, u).world.fatal == u.world.fatal,
        u.world.arena.len() <= labels_alternatives(alts, n, u).world.arena.len(),
        u.scope.wf() ==> labels_alternatives(alts, n, u).scope.wf(),
    decreases alts, n,
{
    if n == 0 || n > alts.len() {
    } else {
        lemma_labels_alts_grow(alts, (n - 1) as nat, u);
        lemma_labels_part_grow(
            alts[n - 1].item@,
            alts[n - 1].item@.len(),
            labels_alternatives(alts, (n - 1) as nat, u),
        );
    }
}

/// What declaring the labels of a statement does to the visibility of a
/// name: a visible label stays one, a name that one of the labels has becomes
/// one, and a name that none of them has stays undeclared.
pub open spec fn labels_settled(before: Unit, after: Unit, has_label: bool, name: Symbol) -> bool {
    &&& label_visible(before, name) ==> label_visible(after, name)
    &&& !before.scope.declares(Designator::Identifier(name)) && has_label ==> label_visible(
        after,
        name,
    )
    &&& !before.scope.declares(Designator::Identifier(name)) && !has_label
        ==> !after.scope.declares(Designator::Identifier(name))
}

proof fn lemma_labels_stmt_visible(stmt: LabeledSequentialStatement, u: Unit, name: Symbol)
    requires
        u.scope.wf(),
        !u.world.fatal,
        labels_stmt(stmt, u).world.arena.len() <= usize::MAX,
    ensures
        labels_settled(u, labels_stmt(stmt, u), stmt_has_label(stmt, name), name),
    decreases stmt, 0nat,
{
    lemma_labels_stmt_grow(stmt, u);
    let named = match stmt.label {
        Some(label) => u.declare(label_entity(label)),
        None => u,
    };
    match stmt.statement {
        SequentialStatement::If(ifstmt) => {
            let conds = labels_conditionals(
                ifstmt.conditionals@,
                ifstmt.conditionals@.len(),
                named,
            );
            lemma_labels_conds_grow(ifstmt.conditionals@, ifstmt.conditionals@.len(), named);
            match ifstmt.else_item {
                Some(else_item) => {
                    lemma_labels_part_grow(else_item@, else_item@.len(), conds);
                    lemma_labels_part_visible(else_item@, else_item@.len(), conds, name);
                },
                None => {},
            }
            lemma_labels_conds_visible(
                ifstmt.conditionals@,
                ifstmt.conditionals@.len(),
                named,
                name,
            );
        },
        SequentialStatement::Case(case_stmt) => {
            lemma_labels_alts_grow(case_stmt.alternatives@, case_stmt.alternatives@.len(), named);
            lemma_labels_alts_visible(
                case_stmt.alternatives@,
                case_stmt.alternatives@.len(),
                named,
                name,
            );
        },
        SequentialStatement::Loop(loop_stmt) => {
            lemma_labels_part_grow(loop_stmt.statements@, loop_stmt.statements@.len(), named);
            lemma_labels_part_visible(
                loop_stmt.statements@,
                loop_stmt.statements@.len(),
                named,
                name,
            );
        },
        _ => {},
    }
    match stmt.label {
        Some(label) => {
            lemma_declare_label(u, label, name);
        },
        None => {},
    }
}

proof fn lemma_labels_part_visible(
    stmts: Seq<LabeledSequentialStatement>,
    n: nat,
    u: Unit,
    name: Symbol,
)
    requires
        u.scope.wf(),
        !u.world.fatal,
        labels_part(stmts, n, u).world.arena.len() <= usize::MAX,
    ensures
        labels_settled(u, labels_part(stmts, n, u), part_has_label(stmts, n, name), name),
    decreases stmts, n,
{
    if n == 0 || n > stmts.len() {
    } else {
        let before = labels_part(stmts, (n - 1) as nat, u);
        lemma_labels_part_grow(stmts, (n - 1) as nat, u);
        lemma_labels_stmt_grow(stmts[n - 1], before);
        lemma_labels_part_visible(stmts, (n - 1) as nat, u, name);
        lemma_labels_stmt_visible(stmts[n - 1], before, name);
    }
}

proof fn lemma_labels_conds_visible(conds: Seq<Conditional>, n: nat, u: Unit, name: Symbol)
    requires
        u.scope.wf(),
        !u.world.fatal,
        labels_conditionals(conds, n, u).world.arena.len() <= usize::MAX,
    ensures
        labels_settled(u, labels_conditionals(conds, n, u), conds_have_label(conds, n, name), name),
    decreases conds, n,
{
    if n == 0 || n > conds.len() {
    } else {
        let before = labels_conditionals(conds, (n - 1) as nat, u);
        lemma_labels_conds_grow(conds, (n - 1) as nat, u);
        lemma_labels_part_grow(conds[n - 1].item@, conds[n - 1].item@.len(), before);
        lemma_labels_conds_visible(conds, (n - 1) as nat, u, name);
        lemma_labels_part_visible(conds[n - 1].item@, conds[n - 1].item@.len(), before, name);
    }
}

proof fn lemma_labels_alts_visible(alts: Seq<Alternative>, n: nat, u: Unit, name: Symbol)
    requires
        u.scope.wf(),
        !u.world.fatal,
        labels_alternatives(alts, n, u).world.arena.len() <= usize::MAX,
    ensures
        labels_settled(u, labels_alternatives(alts, n, u), alts_have_label(alts, n, name), name),
    decreases alts, n,
{
    if n == 0 || n > alts.len() {
    } else {
        let before = labels_alternatives(alts, (n - 1) as nat, u);
        lemma_labels_alts_grow(alts, (n - 1) as nat, u);
        lemma_labels_part_grow(alts[n - 1].item@, alts[n - 1].item@.len(), before);
        lemma_labels_alts_visible(alts, (n - 1) as nat, u, name);
        lemma_labels_part_visible(alts[n - 1].item@, alts[n - 1].item@.len(), before, name);
    }
}

/// A label is visible where its statement is. After the labels of a
/// sequence of statements are declared in a region that did not declare the
/// name before, the name of every label of one of the statements, or of a
/// statement nested in one of them at any depth, stands for a label. An
/// `exit` or a `next` statement anywhere in the sequence, also inside a loop
/// with a scope of its own, resolves such a name to that label and reports
/// nothing, unless a declaration of the loop hides the label.
pub proof fn lemma_label_visible_in_sequence(
    stmts: Seq<LabeledSequentialStatement>,
    u: Unit,
    label: Name,
    name: Symbol,
)
    requires
        u.scope.wf(),
        !u.world.fatal,
        labels_part(stmts, stmts.len(), u).world.arena.len() <= usize::MAX,
        part_has_label(stmts, stmts.len(), name),
        !u.scope.declares(Designator::Identifier(name)),
        label.designator == Designator::Identifier(name),
    ensures
        ({
            let after = labels_part(stmts, stmts.len(), u);
            &&& label_visible(after, name)
            &&& after.scope.visible(label.designator) matches Some(Visible::Single(ent))
                && is_label(after.world.arena, ent) && label_outcome(
                after.world.arena,
                after.scope,
                label,
            ) == Outcome::nothing().bind(label.reference, ent) && label_outcome(
                after.world.arena,
                after.scope.nested(),
                label,
            ) == Outcome::nothing().bind(label.reference, ent)
        }),
{
    lemma_labels_part_visible(stmts, stmts.len(), u, name);
    let after = labels_part(stmts, stmts.len(), u);
    lemma_scope_nesting(
        after.scope,
        binding_of(0, label_entity(Ident { name, pos: label.pos })),
        label.designator,
    );
}

/// A label is not visible outside of the construct that its statement is
/// written in. Whatever a concurrent statement declares inside of itself, the
/// scope around it only gains the label of the statement itself: the labels
/// of the statements of a process, of a block or of a generate body do not
/// reach it.
pub proof fn lemma_statement_declares_only_its_label(
    std: Standard,
    stmt: LabeledConcurrentStatement,
    u: Unit,
)
    ensures
        conc_stmt(std, stmt, u).scope == labeled(stmt.label, u).scope,
{
    let named = labeled(stmt.label, u);
    match stmt.statement {
        ConcurrentStatement::IfGenerate(gen) => {
            assert(if_generate(std, gen.conditionals@, gen.conditionals@.len(), named).scope
                == named.scope);
        },
        ConcurrentStatement::CaseGenerate(gen) => {
            assert(case_generate(std, gen.alternatives@, gen.alternatives@.len(), named).scope
                == named.scope);
        },
        _ => {},
    }
}

} // verus!
