//! What holds of every resolution of an overloaded name.
use vstd::prelude::*;
use crate::ast::{ActualPart, AssociationElement, Expression, Name, Reference, WithPos};
use crate::data::{Designator, Message, RelatedKind, SrcPos};
use crate::expression::{
    associated_with, check_with_missing, missing_upto, named_like, assoc_typed, assoc_typed_upto,
    elem_formal, expr_typed, expr_untyped, formal_outcome,
};
use crate::formal_region::{InterfaceEnt, formal_at};
use crate::named_entity::{EntityId, NamedEntity, TypeId};
use crate::overloaded::{
    Parameters, bad_candidates, candidate_check, candidates_with, considered, formals_of,
    good_candidates, operand_typed, params_typed, params_untyped, resolve_outcome, uncertain,
};
use crate::references::apply;
use crate::region::ScopeView;
use crate::semantic::TypeCheck;

verus! {

/// The candidate that a resolution selects: the one that matches, or else
/// the one that was rejected where it is the only one that was considered.
pub open spec fn selected(
    arena: Seq<NamedEntity>,
    scope: ScopeView,
    candidates: Seq<EntityId>,
    target_type: Option<TypeId>,
    pos: SrcPos,
    parameters: Parameters,
) -> Option<EntityId> {
    let good = good_candidates(arena, scope, candidates, target_type, pos, parameters);
    let bad = bad_candidates(arena, scope, candidates, target_type, pos, parameters);
    if good.len() > 1 || uncertain(arena, scope, candidates, target_type, pos, parameters) {
        None
    } else if good.len() == 1 {
        Some(good[0])
    } else if bad.len() == 1 {
        Some(bad[0])
    } else {
        None
    }
}

/// A candidate that is tried and rejected leaves no trace. Trying a
/// candidate on the parameters and clearing them afterwards leaves the table
/// of references as if the parameters had only been cleared: no name in the
/// parameters stays bound, and no slot outside of them has changed. After the
/// resolution, the call site is bound to the selected candidate or is
/// unresolved, and every name in the parameters is bound as the one last
/// analysis of the parameters binds it: against the formals of the selected
/// candidate, or on their own where no candidate is selected.
pub proof fn lemma_rejection_leaves_no_trace(
    arena: Seq<NamedEntity>,
    scope: ScopeView,
    candidates: Seq<EntityId>,
    target_type: Option<TypeId>,
    pos: SrcPos,
    designator: Designator,
    reference: Reference,
    parameters: Parameters,
    refs: Map<Reference, EntityId>,
    tried: EntityId,
)
    ensures
        ({
            let trial = apply(
                refs,
                parameters.slots(),
                params_typed(arena, scope, formals_of(arena, tried), pos, parameters).binds,
            ).remove_keys(parameters.slots());
            &&& trial == refs.remove_keys(parameters.slots())
            &&& forall|slot: Reference| parameters.slots().contains(slot) ==> !trial.contains_key(slot)
        }),
        ({
            let out = resolve_outcome(
                arena,
                scope,
                candidates,
                target_type,
                pos,
                designator,
                reference,
                parameters,
            );
            let after = apply(refs, parameters.slots().insert(reference), out.binds);
            let choice = selected(arena, scope, candidates, target_type, pos, parameters);
            let last = match choice {
                Some(candidate) => params_typed(
                    arena,
                    scope,
                    formals_of(arena, candidate),
                    pos,
                    parameters,
                ),
                None => params_untyped(arena, scope, parameters),
            };
            &&& match choice {
                Some(candidate) => after.contains_key(reference) && after[reference] == candidate,
                None => !after.contains_key(reference),
            }
            &&& forall|slot: Reference|
                parameters.slots().contains(slot) && slot != reference ==> (after.contains_key(slot)
                    <==> last.binds.contains_key(slot)) && (after.contains_key(slot)
                    ==> after[slot] == last.binds[slot])
            &&& forall|slot: Reference|
                !parameters.slots().contains(slot) && slot != reference ==> (after.contains_key(slot)
                    <==> refs.contains_key(slot)) && (after.contains_key(slot) ==> after[slot]
                    == refs[slot])
        }),
{
    reveal(resolve_outcome);
    reveal(params_typed);
    reveal(params_untyped);
    reveal(candidates_with);
    let trial = apply(
        refs,
        parameters.slots(),
        params_typed(arena, scope, formals_of(arena, tried), pos, parameters).binds,
    ).remove_keys(parameters.slots());
    assert(trial =~= refs.remove_keys(parameters.slots()));
    let bad = bad_candidates(arena, scope, candidates, target_type, pos, parameters);
    if parameters.is_empty() {
        assert(parameters.slots() =~= Set::<Reference>::empty());
    }
}

/// The candidates among the first `n` do not depend on what follows them.
proof fn lemma_candidates_prefix(
    arena: Seq<NamedEntity>,
    scope: ScopeView,
    candidates: Seq<EntityId>,
    more: EntityId,
    target_type: Option<TypeId>,
    pos: SrcPos,
    parameters: Parameters,
    check: TypeCheck,
    n: nat,
)
    requires
        n <= candidates.len(),
    ensures
        candidates_with(
            arena,
            scope,
            candidates.push(more),
            target_type,
            pos,
            parameters,
            check,
            n,
        ) == candidates_with(arena, scope, candidates, target_type, pos, parameters, check, n),
    decreases n,
{
    reveal(candidates_with);
    if n > 0 {
        lemma_candidates_prefix(
            arena,
            scope,
            candidates,
            more,
            target_type,
            pos,
            parameters,
            check,
            (n - 1) as nat,
        );
        assert(candidates.push(more)[n - 1] == candidates[n - 1]);
    }
}

/// A candidate that is not considered has no effect at all: with it or
/// without it among the candidates, the resolution comes to the same check,
/// the same diagnostics and the same bindings.
pub proof fn lemma_discarded_candidate_has_no_effect(
    arena: Seq<NamedEntity>,
    scope: ScopeView,
    candidates: Seq<EntityId>,
    discarded: EntityId,
    target_type: Option<TypeId>,
    pos: SrcPos,
    designator: Designator,
    reference: Reference,
    parameters: Parameters,
)
    requires
        !considered(arena, discarded, target_type, parameters),
    ensures
        resolve_outcome(
            arena,
            scope,
            candidates.push(discarded),
            target_type,
            pos,
            designator,
            reference,
            parameters,
        ) == resolve_outcome(
            arena,
            scope,
            candidates,
            target_type,
            pos,
            designator,
            reference,
            parameters,
        ),
{
    reveal(resolve_outcome);
    reveal(candidates_with);
    let longer = candidates.push(discarded);
    assert(longer[candidates.len() as int] == discarded);
    lemma_candidates_prefix(
        arena,
        scope,
        candidates,
        discarded,
        target_type,
        pos,
        parameters,
        TypeCheck::Okay,
        candidates.len(),
    );
    lemma_candidates_prefix(
        arena,
        scope,
        candidates,
        discarded,
        target_type,
        pos,
        parameters,
        TypeCheck::NotOk,
        candidates.len(),
    );
    lemma_candidates_prefix(
        arena,
        scope,
        candidates,
        discarded,
        target_type,
        pos,
        parameters,
        TypeCheck::Unknown,
        candidates.len(),
    );
}

/// A resolution binds the call site to exactly one declaration or to none.
/// Its result is `Okay` exactly when one candidate matches and none is
/// uncertain, and the call site is then bound to that candidate. Where more
/// than one candidate matches, the result is `Unknown`, the call site is
/// unresolved, and the first diagnostic says that the use is ambiguous and
/// lists the matching candidates, one entry each, in their order.
pub proof fn lemma_resolution_unique(
    arena: Seq<NamedEntity>,
    scope: ScopeView,
    candidates: Seq<EntityId>,
    target_type: Option<TypeId>,
    pos: SrcPos,
    designator: Designator,
    reference: Reference,
    parameters: Parameters,
    refs: Map<Reference, EntityId>,
)
    ensures
        ({
            let out = resolve_outcome(
                arena,
                scope,
                candidates,
                target_type,
                pos,
                designator,
                reference,
                parameters,
            );
            let good = good_candidates(arena, scope, candidates, target_type, pos, parameters);
            let after = apply(refs, parameters.slots().insert(reference), out.binds);
            &&& out.check == TypeCheck::Okay <==> good.len() == 1 && !uncertain(
                arena,
                scope,
                candidates,
                target_type,
                pos,
                parameters,
            )
            &&& out.check == TypeCheck::Okay ==> after.contains_key(reference) && after[reference]
                == good[0]
            &&& good.len() > 1 ==> {
                &&& out.check == TypeCheck::Unknown
                &&& !after.contains_key(reference)
                &&& out.diags.len() > 0
                &&& out.diags[0].pos == pos
                &&& out.diags[0].message == Message::AmbiguousUse(designator)
                &&& out.diags[0].related.len() == good.len()
                &&& forall|i: int|
                    0 <= i < good.len() ==> (#[trigger] out.diags[0].related[i]).ent == good[i]
                        && out.diags[0].related[i].kind == RelatedKind::MightBe
            }
        }),
{
    reveal(resolve_outcome);
    reveal(candidates_with);
}

/// Where at most one candidate matches and some candidate is uncertain,
/// the result is `Unknown`, the call site is unresolved, and nothing is
/// reported but what the analysis of the parameters on their own reports.
pub proof fn lemma_resolution_uncertain(
    arena: Seq<NamedEntity>,
    scope: ScopeView,
    candidates: Seq<EntityId>,
    target_type: Option<TypeId>,
    pos: SrcPos,
    designator: Designator,
    reference: Reference,
    parameters: Parameters,
)
    requires
        good_candidates(arena, scope, candidates, target_type, pos, parameters).len() <= 1,
        uncertain(arena, scope, candidates, target_type, pos, parameters),
    ensures
        ({
            let out = resolve_outcome(
                arena,
                scope,
                candidates,
                target_type,
                pos,
                designator,
                reference,
                parameters,
            );
            &&& out.check == TypeCheck::Unknown
            &&& out.diags == params_untyped(arena, scope, parameters).diags
            &&& !out.binds.contains_key(reference)
        }),
{
    reveal(resolve_outcome);
    reveal(params_untyped);
    reveal(candidates_with);
}

/// Whether the type of an expression cannot be determined: held against
/// any type, it neither matches nor fails to match.
pub open spec fn unknown_typed(
    arena: Seq<NamedEntity>,
    scope: ScopeView,
    actual: WithPos<Expression>,
) -> bool {
    forall|typ: TypeId| #[trigger]
        expr_typed(arena, scope, typ, actual.pos, actual.item).check == TypeCheck::Unknown
}

/// Whether the actual of an association element is an expression of
/// unknown type.
pub open spec fn elem_unknown(
    arena: Seq<NamedEntity>,
    scope: ScopeView,
    elem: AssociationElement,
) -> bool {
    match elem.actual {
        ActualPart::Expression(actual) => unknown_typed(arena, scope, actual),
        ActualPart::Open(_) => false,
    }
}

/// Whether one of the actual parameters is of unknown type.
pub open spec fn has_unknown_actual(
    arena: Seq<NamedEntity>,
    scope: ScopeView,
    parameters: Parameters,
) -> bool {
    match parameters {
        Parameters::AssociationList(elems) => exists|i: int|
            0 <= i < elems.len() && elem_unknown(arena, scope, #[trigger] elems[i]),
        Parameters::Binary(left, right) => unknown_typed(arena, scope, left) || unknown_typed(
            arena,
            scope,
            right,
        ),
        Parameters::Unary(operand) => unknown_typed(arena, scope, operand),
    }
}

/// A name without a visible declaration is of unknown type.
pub proof fn lemma_undeclared_name_unknown(
    arena: Seq<NamedEntity>,
    scope: ScopeView,
    name: Name,
    pos: SrcPos,
)
    requires
        scope.visible(name.designator) is None,
    ensures
        unknown_typed(arena, scope, WithPos { item: Expression::Name(name), pos }),
{
    reveal(expr_typed);
}

/// An association list with an actual of unknown type among its first `n`
/// elements does not match any formal region.
proof fn lemma_unknown_elem_not_okay(
    arena: Seq<NamedEntity>,
    scope: ScopeView,
    formals: Seq<InterfaceEnt>,
    elems: Seq<AssociationElement>,
    at: int,
    n: nat,
)
    requires
        0 <= at < n <= elems.len(),
        elem_unknown(arena, scope, elems[at]),
    ensures
        assoc_typed_upto(arena, scope, formals, elems, n).check != TypeCheck::Okay,
    decreases n,
{
    reveal(assoc_typed_upto);
    reveal(expr_typed);
    reveal(expr_untyped);
    if at < n - 1 {
        lemma_unknown_elem_not_okay(arena, scope, formals, elems, at, (n - 1) as nat);
    } else {
        match elem_formal(formals, elems, at) {
            Some(formal) => {
                let actual = elems[at].actual->Expression_0;
                assert(expr_typed(arena, scope, formal.type_mark, actual.pos, actual.item).check
                    == TypeCheck::Unknown);
            },
            None => {
                assert(formal_outcome(formals, elems, at).check == TypeCheck::NotOk);
            },
        }
    }
}

/// Parameters with an actual of unknown type do not match any formal
/// region.
proof fn lemma_unknown_actual_not_okay(
    arena: Seq<NamedEntity>,
    scope: ScopeView,
    formals: Seq<InterfaceEnt>,
    pos: SrcPos,
    parameters: Parameters,
)
    requires
        has_unknown_actual(arena, scope, parameters),
    ensures
        params_typed(arena, scope, formals, pos, parameters).check != TypeCheck::Okay,
{
    reveal(params_typed);
    reveal(assoc_typed);
    reveal(operand_typed);
    reveal(assoc_typed_upto);
    match parameters {
        Parameters::AssociationList(elems) => {
            let at = choose|i: int|
                0 <= i < elems.len() && elem_unknown(arena, scope, #[trigger] elems[i]);
            lemma_unknown_elem_not_okay(arena, scope, formals, elems, at, elems.len());
        },
        Parameters::Binary(left, right) => {
            if unknown_typed(arena, scope, left) {
                lemma_unknown_operand(arena, scope, formals, 0, left);
            } else {
                lemma_unknown_operand(arena, scope, formals, 1, right);
            }
        },
        Parameters::Unary(operand) => {
            lemma_unknown_operand(arena, scope, formals, 0, operand);
        },
    }
}

proof fn lemma_unknown_operand(
    arena: Seq<NamedEntity>,
    scope: ScopeView,
    formals: Seq<InterfaceEnt>,
    idx: int,
    operand: WithPos<Expression>,
)
    requires
        unknown_typed(arena, scope, operand),
    ensures
        operand_typed(arena, scope, formals, idx, operand).check != TypeCheck::Okay,
{
    reveal(operand_typed);
    reveal(expr_typed);
    reveal(expr_untyped);
    match formal_at(formals, idx) {
        Some(formal) => {
            assert(expr_typed(arena, scope, formal.type_mark, operand.pos, operand.item).check
                == TypeCheck::Unknown);
        },
        None => {},
    }
}

/// With an actual of unknown type, no candidate matches.
proof fn lemma_unknown_actual_rejects(
    arena: Seq<NamedEntity>,
    scope: ScopeView,
    candidate: EntityId,
    target_type: Option<TypeId>,
    pos: SrcPos,
    parameters: Parameters,
)
    requires
        has_unknown_actual(arena, scope, parameters),
    ensures
        candidate_check(arena, scope, candidate, target_type, pos, parameters) != TypeCheck::Okay,
{
    reveal(candidate_check);
    reveal(params_typed);
    lemma_unknown_actual_not_okay(arena, scope, formals_of(arena, candidate), pos, parameters);
}

/// With an actual of unknown type, none of the first `n` candidates
/// matches.
proof fn lemma_unknown_actual_no_good(
    arena: Seq<NamedEntity>,
    scope: ScopeView,
    candidates: Seq<EntityId>,
    target_type: Option<TypeId>,
    pos: SrcPos,
    parameters: Parameters,
    n: nat,
)
    requires
        has_unknown_actual(arena, scope, parameters),
    ensures
        candidates_with(
            arena,
            scope,
            candidates,
            target_type,
            pos,
            parameters,
            TypeCheck::Okay,
            n,
        ).len() == 0,
    decreases n,
{
    reveal(candidates_with);
    reveal(candidate_check);
    if n == 0 || n > candidates.len() {
    } else {
        lemma_unknown_actual_no_good(
            arena,
            scope,
            candidates,
            target_type,
            pos,
            parameters,
            (n - 1) as nat,
        );
        lemma_unknown_actual_rejects(
            arena,
            scope,
            candidates[n - 1],
            target_type,
            pos,
            parameters,
        );
    }
}

/// A considered candidate is among the candidates with its check.
proof fn lemma_candidate_counted(
    arena: Seq<NamedEntity>,
    scope: ScopeView,
    candidates: Seq<EntityId>,
    target_type: Option<TypeId>,
    pos: SrcPos,
    parameters: Parameters,
    check: TypeCheck,
    at: int,
    n: nat,
)
    requires
        0 <= at < n <= candidates.len(),
        considered(arena, candidates[at], target_type, parameters),
        candidate_check(arena, scope, candidates[at], target_type, pos, parameters) == check,
    ensures
        candidates_with(arena, scope, candidates, target_type, pos, parameters, check, n).len()
            > 0,
    decreases n,
{
    reveal(candidates_with);
    reveal(candidate_check);
    if at < n - 1 {
        lemma_candidate_counted(
            arena,
            scope,
            candidates,
            target_type,
            pos,
            parameters,
            check,
            at,
            (n - 1) as nat,
        );
    }
}

/// The formals that are left without a value do not depend on the actuals.
proof fn lemma_missing_same(
    formals: Seq<InterfaceEnt>,
    elems: Seq<AssociationElement>,
    at: int,
    replaced: AssociationElement,
    pos: SrcPos,
    n: nat,
)
    requires
        0 <= at < elems.len(),
        replaced.formal == elems[at].formal,
    ensures
        missing_upto(formals, elems.update(at, replaced), pos, n) == missing_upto(
            formals,
            elems,
            pos,
            n,
        ),
    decreases n,
{
    let changed = elems.update(at, replaced);
    if n == 0 || n > formals.len() {
    } else {
        lemma_missing_same(formals, elems, at, replaced, pos, (n - 1) as nat);
        let designator = formals[n - 1].designator;
        assert(associated_with(designator, changed, n - 1) == associated_with(
            designator,
            elems,
            n - 1,
        )) by {
            assert forall|k: int| 0 <= k < elems.len() implies named_like(
                #[trigger] changed[k],
                designator,
            ) == named_like(elems[k], designator) by {}
            if exists|k: int| 0 <= k < elems.len() && named_like(#[trigger] elems[k], designator) {
                let k = choose|k: int|
                    0 <= k < elems.len() && named_like(#[trigger] elems[k], designator);
                assert(named_like(changed[k], designator));
            }
            if exists|k: int|
                0 <= k < changed.len() && named_like(#[trigger] changed[k], designator) {
                let k = choose|k: int|
                    0 <= k < changed.len() && named_like(#[trigger] changed[k], designator);
                assert(named_like(elems[k], designator));
            }
        }
    }
}

/// Where the first `n` elements of an association list match a formal
/// region and one actual is replaced by an expression of unknown type, the
/// elements up to the replaced one still match, and from the replaced one on
/// it cannot be told whether they match.
proof fn lemma_replaced_upto(
    arena: Seq<NamedEntity>,
    scope: ScopeView,
    formals: Seq<InterfaceEnt>,
    elems: Seq<AssociationElement>,
    at: int,
    replaced: AssociationElement,
    n: nat,
)
    requires
        0 <= at < elems.len(),
        n <= elems.len(),
        replaced.formal == elems[at].formal,
        elem_unknown(arena, scope, replaced),
        assoc_typed_upto(arena, scope, formals, elems, n).check == TypeCheck::Okay,
    ensures
        assoc_typed_upto(arena, scope, formals, elems.update(at, replaced), n).check == (if n
            > at {
            TypeCheck::Unknown
        } else {
            TypeCheck::Okay
        }),
    decreases n,
{
    reveal(assoc_typed_upto);
    reveal(expr_typed);
    reveal(expr_untyped);
    let changed = elems.update(at, replaced);
    if n > 0 {
        assert(assoc_typed_upto(arena, scope, formals, elems, (n - 1) as nat).check
            == TypeCheck::Okay);
        lemma_replaced_upto(arena, scope, formals, elems, at, replaced, (n - 1) as nat);
        assert(formal_outcome(formals, changed, n - 1).check == formal_outcome(
            formals,
            elems,
            n - 1,
        ).check);
        assert(elem_formal(formals, changed, n - 1) == elem_formal(formals, elems, n - 1));
        if n - 1 == at {
            match elem_formal(formals, elems, at) {
                Some(formal) => {
                    let actual = replaced.actual->Expression_0;
                    assert(expr_typed(arena, scope, formal.type_mark, actual.pos, actual.item).check
                        == TypeCheck::Unknown);
                },
                None => {},
            }
        } else {
            assert(changed[n - 1] == elems[n - 1]);
        }
    }
}

/// One unknown actual turns a match into an open question. Where a
/// candidate is considered and matches a call, and one actual of the call is
/// replaced by an expression of unknown type, the candidate is still
/// considered and it cannot be told any more whether it matches.
pub proof fn lemma_unknown_actual_unsettles(
    arena: Seq<NamedEntity>,
    scope: ScopeView,
    candidate: EntityId,
    target_type: Option<TypeId>,
    pos: SrcPos,
    elems: Seq<AssociationElement>,
    at: int,
    replaced: AssociationElement,
)
    requires
        0 <= at < elems.len(),
        replaced.formal == elems[at].formal,
        elem_unknown(arena, scope, replaced),
        considered(arena, candidate, target_type, Parameters::AssociationList(elems)),
        candidate_check(
            arena,
            scope,
            candidate,
            target_type,
            pos,
            Parameters::AssociationList(elems),
        ) == TypeCheck::Okay,
    ensures
        has_unknown_actual(
            arena,
            scope,
            Parameters::AssociationList(elems.update(at, replaced)),
        ),
        considered(
            arena,
            candidate,
            target_type,
            Parameters::AssociationList(elems.update(at, replaced)),
        ),
        candidate_check(
            arena,
            scope,
            candidate,
            target_type,
            pos,
            Parameters::AssociationList(elems.update(at, replaced)),
        ) == TypeCheck::Unknown,
{
    reveal(candidate_check);
    reveal(params_typed);
    reveal(assoc_typed);
    reveal(assoc_typed_upto);
    let changed = elems.update(at, replaced);
    let formals = formals_of(arena, candidate);
    assert(changed[at] == replaced);
    assert(params_typed(arena, scope, formals, pos, Parameters::AssociationList(elems)).check
        == TypeCheck::Okay);
    assert(assoc_typed(arena, scope, formals, pos, elems).check == TypeCheck::Okay);
    let upto = assoc_typed_upto(arena, scope, formals, elems, elems.len());
    let missing = missing_upto(formals, elems, pos, formals.len());
    assert(check_with_missing(upto.check, missing) == TypeCheck::Okay);
    assert(upto.check == TypeCheck::Okay && missing.len() == 0);
    lemma_missing_same(formals, elems, at, replaced, pos, formals.len());
    lemma_replaced_upto(arena, scope, formals, elems, at, replaced, elems.len());
}

/// Whether the operands `changed` are the operands `original` with one of
/// them replaced by an expression of unknown type.
pub open spec fn replaces_operand(
    arena: Seq<NamedEntity>,
    scope: ScopeView,
    original: Parameters,
    changed: Parameters,
) -> bool {
    match (original, changed) {
        (Parameters::Binary(left, right), Parameters::Binary(new_left, new_right)) => {
            ||| new_right == right && unknown_typed(arena, scope, new_left)
            ||| new_left == left && unknown_typed(arena, scope, new_right)
        },
        (Parameters::Unary(_), Parameters::Unary(operand)) => unknown_typed(arena, scope, operand),
        _ => false,
    }
}

/// One unknown operand turns a match into an open question, as one unknown
/// actual of a call does.
pub proof fn lemma_unknown_operand_unsettles(
    arena: Seq<NamedEntity>,
    scope: ScopeView,
    candidate: EntityId,
    target_type: Option<TypeId>,
    pos: SrcPos,
    original: Parameters,
    changed: Parameters,
)
    requires
        replaces_operand(arena, scope, original, changed),
        considered(arena, candidate, target_type, original),
        candidate_check(arena, scope, candidate, target_type, pos, original) == TypeCheck::Okay,
    ensures
        has_unknown_actual(arena, scope, changed),
        considered(arena, candidate, target_type, changed),
        candidate_check(arena, scope, candidate, target_type, pos, changed) == TypeCheck::Unknown,
{
    reveal(candidate_check);
    reveal(params_typed);
    reveal(operand_typed);
    reveal(expr_typed);
    reveal(expr_untyped);
    let formals = formals_of(arena, candidate);
    match (original, changed) {
        (Parameters::Binary(left, right), Parameters::Binary(new_left, new_right)) => {
            assert(operand_typed(arena, scope, formals, 0, left).check == TypeCheck::Okay);
            assert(operand_typed(arena, scope, formals, 1, right).check == TypeCheck::Okay);
            if new_right == right && unknown_typed(arena, scope, new_left) {
                let formal = formal_at(formals, 0)->Some_0;
                assert(expr_typed(
                    arena,
                    scope,
                    formal.type_mark,
                    new_left.pos,
                    new_left.item,
                ).check == TypeCheck::Unknown);
            } else {
                let formal = formal_at(formals, 1)->Some_0;
                assert(expr_typed(
                    arena,
                    scope,
                    formal.type_mark,
                    new_right.pos,
                    new_right.item,
                ).check == TypeCheck::Unknown);
            }
        },
        (Parameters::Unary(old_operand), Parameters::Unary(operand)) => {
            assert(operand_typed(arena, scope, formals, 0, old_operand).check == TypeCheck::Okay);
            let formal = formal_at(formals, 0)->Some_0;
            assert(expr_typed(arena, scope, formal.type_mark, operand.pos, operand.item).check
                == TypeCheck::Unknown);
        },
        _ => {},
    }
}

/// An actual of unknown type in a call that a candidate would match gives
/// `Unknown`, not an ambiguity and not a mismatch. Where some candidate is
/// considered and matches a call, and one actual of the call is replaced by
/// an expression of unknown type, the resolution of the changed call finds no
/// matching candidate, reports nothing of its own, leaves the call site
/// unresolved, and its result is `Unknown`.
pub proof fn lemma_unknown_actual_gives_unknown(
    arena: Seq<NamedEntity>,
    scope: ScopeView,
    candidates: Seq<EntityId>,
    target_type: Option<TypeId>,
    pos: SrcPos,
    designator: Designator,
    reference: Reference,
    elems: Seq<AssociationElement>,
    at: int,
    replaced: AssociationElement,
    matching: int,
)
    requires
        0 <= at < elems.len(),
        replaced.formal == elems[at].formal,
        elem_unknown(arena, scope, replaced),
        0 <= matching < candidates.len(),
        considered(arena, candidates[matching], target_type, Parameters::AssociationList(elems)),
        candidate_check(
            arena,
            scope,
            candidates[matching],
            target_type,
            pos,
            Parameters::AssociationList(elems),
        ) == TypeCheck::Okay,
    ensures
        ({
            let changed = Parameters::AssociationList(elems.update(at, replaced));
            let out = resolve_outcome(
                arena,
                scope,
                candidates,
                target_type,
                pos,
                designator,
                reference,
                changed,
            );
            &&& good_candidates(arena, scope, candidates, target_type, pos, changed).len() == 0
            &&& out.check == TypeCheck::Unknown
            &&& out.diags == params_untyped(arena, scope, changed).diags
            &&& !out.binds.contains_key(reference)
        }),
{
    let changed = Parameters::AssociationList(elems.update(at, replaced));
    lemma_unknown_actual_unsettles(
        arena,
        scope,
        candidates[matching],
        target_type,
        pos,
        elems,
        at,
        replaced,
    );
    lemma_unknown_actual_never_ambiguous(
        arena,
        scope,
        candidates,
        target_type,
        pos,
        designator,
        reference,
        changed,
    );
}

/// An actual parameter of unknown type never makes a call ambiguous. No
/// candidate matches such a call, so the resolution does not report an
/// ambiguity and its result is not `Okay`. Where a candidate is considered of
/// which it cannot be told whether it matches, as is the case for a candidate
/// that the call would match but for the unknown actual, the result is
/// `Unknown`, the call site stays unresolved, and the resolution reports
/// nothing but what the analysis of the parameters reports.
pub proof fn lemma_unknown_actual_never_ambiguous(
    arena: Seq<NamedEntity>,
    scope: ScopeView,
    candidates: Seq<EntityId>,
    target_type: Option<TypeId>,
    pos: SrcPos,
    designator: Designator,
    reference: Reference,
    parameters: Parameters,
)
    requires
        has_unknown_actual(arena, scope, parameters),
    ensures
        good_candidates(arena, scope, candidates, target_type, pos, parameters).len() == 0,
        resolve_outcome(
            arena,
            scope,
            candidates,
            target_type,
            pos,
            designator,
            reference,
            parameters,
        ).check != TypeCheck::Okay,
        (exists|k: int|
            0 <= k < candidates.len() && considered(
                arena,
                #[trigger] candidates[k],
                target_type,
                parameters,
            ) && candidate_check(arena, scope, candidates[k], target_type, pos, parameters)
                == TypeCheck::Unknown) ==> {
            let out = resolve_outcome(
                arena,
                scope,
                candidates,
                target_type,
                pos,
                designator,
                reference,
                parameters,
            );
            &&& out.check == TypeCheck::Unknown
            &&& out.diags == params_untyped(arena, scope, parameters).diags
            &&& !out.binds.contains_key(reference)
        },
{
    reveal(candidates_with);
    lemma_unknown_actual_no_good(
        arena,
        scope,
        candidates,
        target_type,
        pos,
        parameters,
        candidates.len(),
    );
    lemma_resolution_unique(
        arena,
        scope,
        candidates,
        target_type,
        pos,
        designator,
        reference,
        parameters,
        Map::empty(),
    );
    if exists|k: int|
        0 <= k < candidates.len() && considered(
            arena,
            #[trigger] candidates[k],
            target_type,
            parameters,
        ) && candidate_check(arena, scope, candidates[k], target_type, pos, parameters)
            == TypeCheck::Unknown {
        let k = choose|k: int|
            0 <= k < candidates.len() && considered(
                arena,
                #[trigger] candidates[k],
                target_type,
                parameters,
            ) && candidate_check(arena, scope, candidates[k], target_type, pos, parameters)
                == TypeCheck::Unknown;
        lemma_candidate_counted(
            arena,
            scope,
            candidates,
            target_type,
            pos,
            parameters,
            TypeCheck::Unknown,
            k,
            candidates.len(),
        );
        lemma_resolution_uncertain(
            arena,
            scope,
            candidates,
            target_type,
            pos,
            designator,
            reference,
            parameters,
        );
    }
}

} // verus!
