//! Resolution of overloaded names.
use vstd::prelude::*;
use crate::analyze::{
    AnalyzeContext, FatalError, FatalResult, Outcome, lemma_cleared_after, lemma_performed_after,
    lemma_performed_both, lemma_performed_bound, lemma_performed_facts, lemma_performed_gave_up,
    lemma_performed_rebase, lemma_performed_report, lemma_performed_unbound,
    lemma_performed_with_check, performed,
};
use crate::ast::{
    AssociationElement, Expression, Reference, WithPos, assoc_ok, assoc_size, assoc_slots, expr_ok,
    expr_size, expr_slots,
};
use crate::data::{
    Designator, Diagnostic, DiagnosticView, Message, Related, RelatedKind, Severity, SrcPos,
    error_view, push_diagnostic,
};
use crate::expression::{assoc_typed, assoc_untyped, expr_typed, expr_untyped};
use crate::formal_region::{FormalRegion, InterfaceEnt, formal_at};
use crate::named_entity::{
    AnyEntKind, EntityId, NamedEntity, Signature, TypeId, return_type_matches,
};
use crate::references::{References};
use crate::region::{OverloadedName, Scope, ScopeView};
use crate::search::{assoc_is_ok, clear_assoc_references, clear_references, expr_is_ok};
use crate::semantic::TypeCheck;

verus! {

/// The actual parameters of a call: an association list for a subprogram
/// call, the operands for an operator.
pub enum Parameters {
    AssociationList(Seq<AssociationElement>),
    Binary(WithPos<Expression>, WithPos<Expression>),
    Unary(WithPos<Expression>),
}

impl Parameters {
    /// The number of nodes of the parameters.
    pub open spec fn size(self) -> nat {
        match self {
            Parameters::AssociationList(elems) => assoc_size(elems, elems.len()),
            Parameters::Binary(left, right) => 1 + expr_size(left.item) + expr_size(right.item),
            Parameters::Unary(operand) => 1 + expr_size(operand.item),
        }
    }

    /// The slots of the name nodes of the parameters.
    pub open spec fn slots(self) -> Set<Reference> {
        match self {
            Parameters::AssociationList(elems) => assoc_slots(elems, elems.len()),
            Parameters::Binary(left, right) => expr_slots(left.item) + expr_slots(right.item),
            Parameters::Unary(operand) => expr_slots(operand.item),
        }
    }

    /// Whether every association list in the parameters is well shaped.
    pub open spec fn ok(self) -> bool {
        match self {
            Parameters::AssociationList(elems) => assoc_ok(elems, elems.len()),
            Parameters::Binary(left, right) => expr_ok(left.item) && expr_ok(right.item),
            Parameters::Unary(operand) => expr_ok(operand.item),
        }
    }

    /// Whether the parameters are an empty association list.
    pub open spec fn is_empty(self) -> bool {
        self matches Parameters::AssociationList(elems) && elems.len() == 0
    }

    /// The number of operands, for an operator.
    pub open spec fn operator_len(self) -> Option<usize> {
        match self {
            Parameters::AssociationList(_) => None,
            Parameters::Unary(_) => Some(1),
            Parameters::Binary(_, _) => Some(2),
        }
    }
}

/// The signature of a declaration, if it is an overloaded one.
pub open spec fn signature_of(arena: Seq<NamedEntity>, ent: EntityId) -> Option<Signature> {
    if ent < arena.len() {
        match arena[ent as int].kind {
            AnyEntKind::Overloaded(signature) => Some(signature),
            _ => None,
        }
    } else {
        None
    }
}

/// The formals of a declaration: those of its signature, and none where it
/// has no signature.
pub open spec fn formals_of(arena: Seq<NamedEntity>, ent: EntityId) -> Seq<InterfaceEnt> {
    match signature_of(arena, ent) {
        Some(signature) => signature.formals@,
        None => Seq::empty(),
    }
}

/// Whether a candidate is considered at all. A function is considered only
/// where a value is expected and a procedure only where none is; for an
/// operator the number of formals is that of the operands.
pub open spec fn considered(
    arena: Seq<NamedEntity>,
    candidate: EntityId,
    target_type: Option<TypeId>,
    parameters: Parameters,
) -> bool {
    match signature_of(arena, candidate) {
        Some(signature) => {
            &&& signature.is_function() == (target_type is Some)
            &&& match parameters.operator_len() {
                Some(n) => signature.formals@.len() == n,
                None => true,
            }
        },
        None => false,
    }
}

/// One operand of an operator against the formal at a position. Without
/// such a formal the operand is analyzed on its own and does not match.
#[verifier::opaque]
pub open spec fn operand_typed(
    arena: Seq<NamedEntity>,
    scope: ScopeView,
    formals: Seq<InterfaceEnt>,
    idx: int,
    operand: WithPos<Expression>,
) -> Outcome
    decreases expr_size(operand.item), 9nat, 0nat,
{
    match formal_at(formals, idx) {
        Some(formal) => expr_typed(arena, scope, formal.type_mark, operand.pos, operand.item),
        None => expr_untyped(arena, scope, operand.item).with_check(TypeCheck::NotOk),
    }
}

/// The parameters against a formal region.
#[verifier::opaque]
pub open spec fn params_typed(
    arena: Seq<NamedEntity>,
    scope: ScopeView,
    formals: Seq<InterfaceEnt>,
    error_pos: SrcPos,
    parameters: Parameters,
) -> Outcome
    decreases parameters.size(), 2nat, 0nat,
{
    match parameters {
        Parameters::AssociationList(elems) => assoc_typed(arena, scope, formals, error_pos, elems),
        Parameters::Binary(left, right) => operand_typed(arena, scope, formals, 0, left).followed_by(
            operand_typed(arena, scope, formals, 1, right),
            expr_slots(right.item),
        ),
        Parameters::Unary(operand) => operand_typed(arena, scope, formals, 0, operand),
    }
}

/// The parameters on their own, without formals to hold them against.
#[verifier::opaque]
pub open spec fn params_untyped(
    arena: Seq<NamedEntity>,
    scope: ScopeView,
    parameters: Parameters,
) -> Outcome
    decreases parameters.size(), 2nat, 0nat,
{
    match parameters {
        Parameters::AssociationList(elems) => assoc_untyped(arena, scope, elems, elems.len()),
        Parameters::Binary(left, right) => expr_untyped(arena, scope, left.item).followed_by(
            expr_untyped(arena, scope, right.item),
            expr_slots(right.item),
        ),
        Parameters::Unary(operand) => expr_untyped(arena, scope, operand.item),
    }
}

/// How a considered candidate matches the call: its return type against
/// the expected type, and then the parameters against its formals.
#[verifier::opaque]
pub open spec fn candidate_check(
    arena: Seq<NamedEntity>,
    scope: ScopeView,
    candidate: EntityId,
    target_type: Option<TypeId>,
    pos: SrcPos,
    parameters: Parameters,
) -> TypeCheck
    decreases parameters.size(), 3nat, 0nat,
{
    match signature_of(arena, candidate) {
        Some(signature) => {
            if return_type_matches(arena, signature.return_type, target_type) {
                params_typed(arena, scope, signature.formals@, pos, parameters).check
            } else {
                TypeCheck::NotOk
            }
        },
        None => TypeCheck::NotOk,
    }
}

/// Those of the first `n` candidates that are considered and whose check
/// against the call is `check`, in their order.
#[verifier::opaque]
pub open spec fn candidates_with(
    arena: Seq<NamedEntity>,
    scope: ScopeView,
    candidates: Seq<EntityId>,
    target_type: Option<TypeId>,
    pos: SrcPos,
    parameters: Parameters,
    check: TypeCheck,
    n: nat,
) -> Seq<EntityId>
    decreases parameters.size(), 4nat, n,
{
    if n == 0 || n > candidates.len() {
        Seq::empty()
    } else {
        let rest = candidates_with(
            arena,
            scope,
            candidates,
            target_type,
            pos,
            parameters,
            check,
            (n - 1) as nat,
        );
        let candidate = candidates[n - 1];
        if considered(arena, candidate, target_type, parameters) && candidate_check(
            arena,
            scope,
            candidate,
            target_type,
            pos,
            parameters,
        ) == check {
            rest.push(candidate)
        } else {
            rest
        }
    }
}

/// A diagnostic that lists candidates.
pub open spec fn candidates_view(
    arena: Seq<NamedEntity>,
    pos: SrcPos,
    message: Message,
    kind: RelatedKind,
    candidates: Seq<EntityId>,
) -> DiagnosticView {
    DiagnosticView {
        pos,
        severity: Severity::Error,
        message,
        related: Seq::new(
            candidates.len(),
            |i: int|
                Related {
                    pos: if candidates[i] < arena.len() {
                        arena[candidates[i] as int].decl_pos
                    } else {
                        None
                    },
                    kind,
                    ent: candidates[i],
                },
        ),
    }
}

/// The candidates that match the call.
pub open spec fn good_candidates(
    arena: Seq<NamedEntity>,
    scope: ScopeView,
    candidates: Seq<EntityId>,
    target_type: Option<TypeId>,
    pos: SrcPos,
    parameters: Parameters,
) -> Seq<EntityId>
    decreases parameters.size(), 5nat, 0nat,
{
    candidates_with(
        arena,
        scope,
        candidates,
        target_type,
        pos,
        parameters,
        TypeCheck::Okay,
        candidates.len(),
    )
}

/// The candidates that were considered and do not match the call.
pub open spec fn bad_candidates(
    arena: Seq<NamedEntity>,
    scope: ScopeView,
    candidates: Seq<EntityId>,
    target_type: Option<TypeId>,
    pos: SrcPos,
    parameters: Parameters,
) -> Seq<EntityId>
    decreases parameters.size(), 5nat, 0nat,
{
    candidates_with(
        arena,
        scope,
        candidates,
        target_type,
        pos,
        parameters,
        TypeCheck::NotOk,
        candidates.len(),
    )
}

/// Whether for some considered candidate it cannot be told whether it
/// matches the call.
pub open spec fn uncertain(
    arena: Seq<NamedEntity>,
    scope: ScopeView,
    candidates: Seq<EntityId>,
    target_type: Option<TypeId>,
    pos: SrcPos,
    parameters: Parameters,
) -> bool
    decreases parameters.size(), 5nat, 0nat,
{
    candidates_with(
        arena,
        scope,
        candidates,
        target_type,
        pos,
        parameters,
        TypeCheck::Unknown,
        candidates.len(),
    ).len() > 0
}

/// The outcome of a resolution that leaves the call site unresolved: the
/// diagnostic of the resolution itself, where it has one, then what the
/// analysis of the parameters on their own comes to.
pub open spec fn unresolved_outcome(
    alone: Outcome,
    first: Option<DiagnosticView>,
    check: TypeCheck,
    reference: Reference,
) -> Outcome {
    (match first {
        Some(d) => alone.after(d),
        None => alone,
    }).with_check(check).unbind(reference)
}

/// The outcome of a resolution that binds the call site to a candidate,
/// after what the analysis of the parameters against its formals comes to.
pub open spec fn selected_outcome(
    against: Outcome,
    check: TypeCheck,
    reference: Reference,
    candidate: EntityId,
) -> Outcome {
    against.with_check(check).bind(reference, candidate)
}

/// The resolution of an overloaded name at a call site.
///
/// - More than one candidate matches: the use is ambiguous. A diagnostic
///   lists the matching candidates, the reference stays unresolved, the
///   parameters are analyzed on their own, and the result is `Unknown`.
/// - Otherwise, some candidate is uncertain: the reference stays
///   unresolved, the parameters are analyzed on their own, and the result is
///   `Unknown`.
/// - Otherwise, one candidate matches: the reference is bound to it, the
///   parameters are analyzed against its formals, and the result is `Okay`.
/// - Otherwise, exactly one candidate was rejected: the reference is bound
///   to it all the same and the result is `NotOk`. Where neither it nor the
///   call has parameters, one diagnostic says that the name does not match
///   the expected type; else the parameters are analyzed against its
///   formals, which reports what does not match.
/// - Otherwise a diagnostic lists the rejected candidates, the reference
///   stays unresolved, the parameters are analyzed on their own, and the
///   result is `NotOk`.
#[verifier::opaque]
pub open spec fn resolve_outcome(
    arena: Seq<NamedEntity>,
    scope: ScopeView,
    candidates: Seq<EntityId>,
    target_type: Option<TypeId>,
    pos: SrcPos,
    designator: Designator,
    reference: Reference,
    parameters: Parameters,
) -> Outcome
    decreases parameters.size(), 6nat, 0nat,
{
    let good = good_candidates(arena, scope, candidates, target_type, pos, parameters);
    let bad = bad_candidates(arena, scope, candidates, target_type, pos, parameters);
    let alone = params_untyped(arena, scope, parameters);
    if good.len() > 1 {
        unresolved_outcome(
            alone,
            Some(
                candidates_view(
                    arena,
                    pos,
                    Message::AmbiguousUse(designator),
                    RelatedKind::MightBe,
                    good,
                ),
            ),
            TypeCheck::Unknown,
            reference,
        )
    } else if uncertain(arena, scope, candidates, target_type, pos, parameters) {
        unresolved_outcome(alone, None, TypeCheck::Unknown, reference)
    } else if good.len() == 1 {
        selected_outcome(
            params_typed(arena, scope, formals_of(arena, good[0]), pos, parameters),
            TypeCheck::Okay,
            reference,
            good[0],
        )
    } else if bad.len() == 1 {
        if parameters.is_empty() && formals_of(arena, bad[0]).len() == 0 {
            Outcome::report(
                TypeCheck::NotOk,
                match target_type {
                    Some(typ) => error_view(pos, Message::DoesNotMatchType(designator, typ)),
                    None => candidates_view(
                        arena,
                        pos,
                        Message::CouldNotResolve(designator),
                        RelatedKind::DoesNotMatch,
                        bad,
                    ),
                },
            ).bind(reference, bad[0])
        } else {
            selected_outcome(
                params_typed(arena, scope, formals_of(arena, bad[0]), pos, parameters),
                TypeCheck::NotOk,
                reference,
                bad[0],
            )
        }
    } else {
        unresolved_outcome(
            alone,
            Some(
                candidates_view(
                    arena,
                    pos,
                    Message::CouldNotResolve(designator),
                    RelatedKind::DoesNotMatch,
                    bad,
                ),
            ),
            TypeCheck::NotOk,
            reference,
        )
    }
}

/// The actual parameters of a call, so that subprogram calls and operators
/// are handled alike.
#[derive(Debug)]
pub enum ParametersMut<'a> {
    AssociationList(&'a Vec<AssociationElement>),
    Binary(&'a WithPos<Expression>, &'a WithPos<Expression>),
    Unary(&'a WithPos<Expression>),
}

impl<'a> View for ParametersMut<'a> {
    type V = Parameters;

    open spec fn view(&self) -> Parameters {
        match self {
            ParametersMut::AssociationList(elems) => Parameters::AssociationList(elems@),
            ParametersMut::Binary(left, right) => Parameters::Binary(**left, **right),
            ParametersMut::Unary(operand) => Parameters::Unary(**operand),
        }
    }
}

impl ParametersMut<'_> {
    /// Makes every name node of the parameters unresolved.
    pub fn clear_references(&self, refs: &mut References)
        ensures
            final(refs)@ == old(refs)@.remove_keys(self@.slots()),
    {
        match self {
            ParametersMut::AssociationList(list) => {
                clear_assoc_references(list, refs);
            },
            ParametersMut::Binary(left, right) => {
                clear_references(&left.item, refs);
                clear_references(&right.item, refs);
                assert(refs@ =~= old(refs)@.remove_keys(self@.slots()));
            },
            ParametersMut::Unary(operand) => {
                clear_references(&operand.item, refs);
            },
        }
    }

    /// Whether every association list in the parameters is well shaped.
    pub fn ok(&self) -> (res: bool)
        ensures
            res == self@.ok(),
    {
        match self {
            ParametersMut::AssociationList(list) => assoc_is_ok(list),
            ParametersMut::Binary(left, right) => expr_is_ok(&left.item) && expr_is_ok(
                &right.item,
            ),
            ParametersMut::Unary(operand) => expr_is_ok(&operand.item),
        }
    }

    /// Whether the parameters are an empty association list.
    pub fn is_empty(&self) -> (res: bool)
        ensures
            res == self@.is_empty(),
    {
        match self {
            ParametersMut::AssociationList(list) => list.len() == 0,
            _ => false,
        }
    }

    /// The number of operands, for an operator.
    pub fn operator_len(&self) -> (res: Option<usize>)
        ensures
            res == self@.operator_len(),
    {
        match self {
            ParametersMut::AssociationList(..) => None,
            ParametersMut::Unary(..) => Some(1),
            ParametersMut::Binary(..) => Some(2),
        }
    }
}

impl AnalyzeContext {
    /// A copy of the formals of a declaration.
    pub fn formals_of(&self, ent: EntityId) -> (formals: FormalRegion)
        ensures
            formals@ == formals_of(self.arena@, ent),
    {
        match self.arena.get(ent) {
            Some(r) => match &r.ent.kind {
                AnyEntKind::Overloaded(signature) => signature.formals.duplicate(),
                _ => FormalRegion::default(),
            },
            None => FormalRegion::default(),
        }
    }

    /// An error that lists candidates, each with the position of its
    /// declaration.
    pub fn candidates_diagnostic(
        &self,
        pos: SrcPos,
        message: Message,
        kind: RelatedKind,
        candidates: &Vec<EntityId>,
    ) -> (d: Diagnostic)
        ensures
            d@ == candidates_view(self.arena@, pos, message, kind, candidates@),
    {
        let mut related: Vec<Related> = Vec::new();
        let mut i: usize = 0;
        while i < candidates.len()
            invariant
                i <= candidates.len(),
                related@ == candidates_view(self.arena@, pos, message, kind, candidates@).related.take(
                    i as int,
                ),
            decreases candidates.len() - i,
        {
            let ent = candidates[i];
            let decl_pos = match self.arena.get(ent) {
                Some(r) => r.ent.decl_pos,
                None => None,
            };
            related.push(Related { pos: decl_pos, kind, ent });
            proof {
                let all = candidates_view(self.arena@, pos, message, kind, candidates@).related;
                assert(all.take(i + 1) =~= all.take(i as int).push(all[i as int]));
            }
            i = i + 1;
        }
        proof {
            let all = candidates_view(self.arena@, pos, message, kind, candidates@).related;
            assert(all.take(candidates.len() as int) =~= all);
        }
        Diagnostic { pos, severity: Severity::Error, message, related }
    }

    /// Tries one candidate on the parameters: whether it is considered, and
    /// how it matches the call. The diagnostics of the trial are thrown away
    /// and what it has bound is cleared again.
    fn try_candidate(
        &mut self,
        scope: &Scope,
        candidate: EntityId,
        target_type: Option<TypeId>,
        pos: &SrcPos,
        parameters: &ParametersMut<'_>,
        Ghost(origin): Ghost<Map<Reference, EntityId>>,
    ) -> (res: FatalResult<Option<TypeCheck>>)
        requires
            parameters@.ok(),
            old(self).references@ == origin || old(self).references@ == origin.remove_keys(
                parameters@.slots(),
            ),
        ensures
            final(self).arena == old(self).arena,
            final(self).standard == old(self).standard,
            res is Ok ==> final(self).references@ == origin || final(self).references@
                == origin.remove_keys(parameters@.slots()),
            res is Err ==> !parameters@.ok(),
            res matches Ok(trial) ==> trial == (if considered(
                old(self).arena@,
                candidate,
                target_type,
                parameters@,
            ) {
                Some(
                    candidate_check(
                        old(self).arena@,
                        scope@,
                        candidate,
                        target_type,
                        *pos,
                        parameters@,
                    ),
                )
            } else {
                None
            }),
        decreases parameters@.size(), 3nat, 1nat,
    {
        reveal(candidate_check);
        reveal(params_typed);
        let ghost slots = parameters@.slots();
        let mut trial: Option<(FormalRegion, bool)> = None;
        match self.arena.get(candidate) {
            Some(r) => match &r.ent.kind {
                AnyEntKind::Overloaded(signature) => {
                    // Do not consider procedure vs. function, nor unary vs.
                    // binary operators
                    let arity = match parameters.operator_len() {
                        Some(operator_len) => signature.formals.len() == operator_len,
                        None => true,
                    };
                    if signature.is_function() == target_type.is_some() && arity {
                        trial = Some(
                            (
                                signature.formals.duplicate(),
                                signature.match_return_type(&self.arena, target_type),
                            ),
                        );
                    }
                },
                _ => {},
            },
            None => {},
        }
        match trial {
            None => Ok(None),
            Some((formals, return_matches)) => {
                let ghost before = *self;
                let is_correct = if return_matches {
                    let mut null: Vec<Diagnostic> = Vec::new();
                    let res = self.analyze_parameters_with_formal_region(
                        pos,
                        &formals,
                        scope,
                        parameters,
                        &mut null,
                    );
                    proof {
                        lemma_performed_facts(
                            before,
                            *self,
                            Seq::empty(),
                            null@,
                            res is Ok,
                            params_typed(before.arena@, scope@, formals@, *pos, parameters@),
                            slots,
                        );
                        lemma_cleared_after(
                            origin,
                            before.references@,
                            slots,
                            params_typed(before.arena@, scope@, formals@, *pos, parameters@).binds,
                        );
                    }
                    match res {
                        Ok(check) => check,
                        Err(fatal) => {
                            return Err(fatal);
                        },
                    }
                } else {
                    proof {
                        lemma_cleared_after(origin, before.references@, slots, Map::empty());
                    }
                    TypeCheck::NotOk
                };
                // Clear references that could have been incorrectly set
                parameters.clear_references(&mut self.references);
                Ok(Some(is_correct))
            },
        }
    }

    /// Ends a resolution that selects no candidate: reports the diagnostic
    /// of the resolution, where it has one, analyzes the parameters on their
    /// own and leaves the call site unresolved. The table of references is
    /// that of `origin`, but for the parameters, which may have been cleared.
    pub(crate) fn leave_unresolved(
        &mut self,
        scope: &Scope,
        first: Option<Diagnostic>,
        check: TypeCheck,
        reference: Reference,
        parameters: &ParametersMut<'_>,
        diagnostics: &mut Vec<Diagnostic>,
        Ghost(origin): Ghost<AnalyzeContext>,
    ) -> (res: FatalResult<TypeCheck>)
        requires
            parameters@.ok(),
            old(self).arena == origin.arena,
            old(self).standard == origin.standard,
            old(self).references@ == origin.references@ || old(self).references@
                == origin.references@.remove_keys(parameters@.slots()),
        ensures
            performed(
                origin,
                *final(self),
                old(diagnostics)@,
                final(diagnostics)@,
                res is Ok,
                unresolved_outcome(
                    params_untyped(origin.arena@, scope@, parameters@),
                    match first {
                        Some(d) => Some(d@),
                        None => None,
                    },
                    check,
                    reference,
                ),
                parameters@.slots().insert(reference),
            ),
            res is Ok <==> parameters@.ok(),
            res matches Ok(result) ==> result == check,
        decreases parameters@.size(), 3nat, 0nat,
    {
        let ghost slots = parameters@.slots();
        let ghost alone = params_untyped(origin.arena@, scope@, parameters@);
        let ghost middle = *self;
        let ghost said: Outcome;
        let res: FatalResult<()>;
        match first {
            Some(d) => {
                let ghost dv = d@;
                push_diagnostic(diagnostics, d);
                let ghost sink = diagnostics@;
                res = self.analyze_parameters(scope, parameters, diagnostics);
                proof {
                    said = alone.after(dv);
                    lemma_performed_rebase(
                        origin,
                        middle,
                        *self,
                        sink,
                        diagnostics@,
                        res is Ok,
                        alone,
                        slots,
                    );
                    lemma_performed_after(
                        origin,
                        *self,
                        old(diagnostics)@,
                        sink,
                        diagnostics@,
                        res is Ok,
                        alone,
                        slots,
                        dv,
                    );
                }
            },
            None => {
                res = self.analyze_parameters(scope, parameters, diagnostics);
                proof {
                    said = alone;
                    lemma_performed_rebase(
                        origin,
                        middle,
                        *self,
                        old(diagnostics)@,
                        diagnostics@,
                        res is Ok,
                        alone,
                        slots,
                    );
                }
            },
        }
        let ghost last = *self;
        proof {
            lemma_performed_with_check(
                origin,
                last,
                old(diagnostics)@,
                diagnostics@,
                res is Ok,
                said,
                slots,
                check,
            );
        }
        match res {
            Ok(()) => {},
            Err(fatal) => {
                return Err(fatal);
            },
        }
        self.references.clear_reference(reference);
        proof {
            lemma_performed_unbound(
                origin,
                last,
                *self,
                old(diagnostics)@,
                diagnostics@,
                said.with_check(check),
                slots,
                reference,
            );
        }
        Ok(check)
    }

    /// Ends a resolution that selects a declaration: analyzes the
    /// parameters, against the formals of the declaration or on their own, and
    /// binds the call site to it. The table of references is that of `origin`,
    /// but for the parameters, which may have been cleared.
    pub(crate) fn select(
        &mut self,
        scope: &Scope,
        candidate: EntityId,
        against_formals: bool,
        check: TypeCheck,
        pos: &SrcPos,
        reference: Reference,
        parameters: &ParametersMut<'_>,
        diagnostics: &mut Vec<Diagnostic>,
        Ghost(origin): Ghost<AnalyzeContext>,
    ) -> (res: FatalResult<TypeCheck>)
        requires
            parameters@.ok(),
            old(self).arena == origin.arena,
            old(self).standard == origin.standard,
            old(self).references@ == origin.references@ || old(self).references@
                == origin.references@.remove_keys(parameters@.slots()),
        ensures
            performed(
                origin,
                *final(self),
                old(diagnostics)@,
                final(diagnostics)@,
                res is Ok,
                selected_outcome(
                    if against_formals {
                        params_typed(
                            origin.arena@,
                            scope@,
                            formals_of(origin.arena@, candidate),
                            *pos,
                            parameters@,
                        )
                    } else {
                        params_untyped(origin.arena@, scope@, parameters@)
                    },
                    check,
                    reference,
                    candidate,
                ),
                parameters@.slots().insert(reference),
            ),
            res is Ok <==> parameters@.ok(),
            res matches Ok(result) ==> result == check,
        decreases parameters@.size(), 3nat, 0nat,
    {
        let ghost slots = parameters@.slots();
        let ghost middle = *self;
        let ghost against = if against_formals {
            params_typed(
                origin.arena@,
                scope@,
                formals_of(origin.arena@, candidate),
                *pos,
                parameters@,
            )
        } else {
            params_untyped(origin.arena@, scope@, parameters@)
        };
        let res: FatalResult<()> = if against_formals {
            let formals = self.formals_of(candidate);
            match self.analyze_parameters_with_formal_region(
                pos,
                &formals,
                scope,
                parameters,
                diagnostics,
            ) {
                Ok(_) => Ok(()),
                Err(fatal) => Err(fatal),
            }
        } else {
            self.analyze_parameters(scope, parameters, diagnostics)
        };
        let ghost last = *self;
        proof {
            lemma_performed_rebase(
                origin,
                middle,
                last,
                old(diagnostics)@,
                diagnostics@,
                res is Ok,
                against,
                slots,
            );
            lemma_performed_with_check(
                origin,
                last,
                old(diagnostics)@,
                diagnostics@,
                res is Ok,
                against,
                slots,
                check,
            );
        }
        match res {
            Ok(()) => {},
            Err(fatal) => {
                return Err(fatal);
            },
        }
        self.references.set_unique_reference(reference, candidate);
        proof {
            lemma_performed_bound(
                origin,
                last,
                *self,
                old(diagnostics)@,
                diagnostics@,
                against.with_check(check),
                slots,
                reference,
                candidate,
            );
        }
        Ok(check)
    }

    /// Resolves an overloaded name at a call site: binds `reference` to the
    /// candidate that the call stands for, where there is exactly one, and
    /// analyzes the parameters. Every candidate that is considered is first
    /// tried on the parameters, which leaves no trace. Where an association
    /// list in the parameters is malformed, nothing is tried, nothing is bound
    /// and nothing is reported.
    pub fn resolve_overloaded_with_target_type(
        &mut self,
        scope: &Scope,
        overloaded: OverloadedName,
        target_type: Option<TypeId>,
        pos: &SrcPos,
        designator: &Designator,
        reference: Reference,
        parameters: &ParametersMut<'_>,
        diagnostics: &mut Vec<Diagnostic>,
    ) -> (res: FatalResult<TypeCheck>)
        ensures
            performed(
                *old(self),
                *final(self),
                old(diagnostics)@,
                final(diagnostics)@,
                res is Ok,
                resolve_outcome(
                    old(self).arena@,
                    scope@,
                    overloaded@,
                    target_type,
                    *pos,
                    *designator,
                    reference,
                    parameters@,
                ),
                parameters@.slots().insert(reference),
            ),
            res is Ok <==> parameters@.ok(),
            res matches Ok(check) ==> check == resolve_outcome(
                old(self).arena@,
                scope@,
                overloaded@,
                target_type,
                *pos,
                *designator,
                reference,
                parameters@,
            ).check,
        decreases parameters@.size(), 6nat, 0nat,
    {
        reveal(resolve_outcome);
        reveal(candidates_with);
        reveal(candidate_check);
        reveal(params_untyped);
        reveal(params_typed);
        let ghost arena = self.arena@;
        let ghost r0 = self.references@;
        let ghost slots = parameters@.slots();
        let ghost all = slots.insert(reference);
        let ghost out = resolve_outcome(
            arena,
            scope@,
            overloaded@,
            target_type,
            *pos,
            *designator,
            reference,
            parameters@,
        );
        if !parameters.ok() {
            proof {
                lemma_performed_gave_up(*self, *self, diagnostics@, out, all);
            }
            return Err(FatalError::MalformedAssociationList);
        }
        let mut good: Vec<EntityId> = Vec::new();
        let mut bad: Vec<EntityId> = Vec::new();
        let mut uncertain: bool = false;
        let mut i: usize = 0;
        while i < overloaded.entities.len()
            invariant
                i <= overloaded.entities.len(),
                parameters@.ok(),
                arena == old(self).arena@,
                r0 == old(self).references@,
                slots == parameters@.slots(),
                all == slots.insert(reference),
                out == resolve_outcome(
                    arena,
                    scope@,
                    overloaded@,
                    target_type,
                    *pos,
                    *designator,
                    reference,
                    parameters@,
                ),
                self.arena == old(self).arena,
                self.standard == old(self).standard,
                diagnostics@ == old(diagnostics)@,
                self.references@ == r0 || self.references@ == r0.remove_keys(slots),
                good@ == candidates_with(
                    arena,
                    scope@,
                    overloaded@,
                    target_type,
                    *pos,
                    parameters@,
                    TypeCheck::Okay,
                    i as nat,
                ),
                bad@ == candidates_with(
                    arena,
                    scope@,
                    overloaded@,
                    target_type,
                    *pos,
                    parameters@,
                    TypeCheck::NotOk,
                    i as nat,
                ),
                uncertain == (candidates_with(
                    arena,
                    scope@,
                    overloaded@,
                    target_type,
                    *pos,
                    parameters@,
                    TypeCheck::Unknown,
                    i as nat,
                ).len() > 0),
            decreases overloaded.entities.len() - i,
        {
            reveal(candidates_with);
            reveal(candidate_check);
            let name = overloaded.entities[i];
            let trial = self.try_candidate(scope, name, target_type, pos, parameters, Ghost(r0));
            match trial {
                Err(fatal) => {
                    return Err(fatal);
                },
                Ok(Some(TypeCheck::Okay)) => {
                    good.push(name);
                },
                Ok(Some(TypeCheck::NotOk)) => {
                    bad.push(name);
                },
                Ok(Some(TypeCheck::Unknown)) => {
                    uncertain = true;
                },
                Ok(None) => {},
            }
            i = i + 1;
        }
        if good.len() > 1 {
            // Not unique
            let d = self.candidates_diagnostic(
                *pos,
                Message::AmbiguousUse(*designator),
                RelatedKind::MightBe,
                &good,
            );
            self.leave_unresolved(
                scope,
                Some(d),
                TypeCheck::Unknown,
                reference,
                parameters,
                diagnostics,
                Ghost(*old(self)),
            )
        } else if uncertain {
            self.leave_unresolved(
                scope,
                None,
                TypeCheck::Unknown,
                reference,
                parameters,
                diagnostics,
                Ghost(*old(self)),
            )
        } else if good.len() == 1 {
            // Unique correct match
            self.select(
                scope,
                good[0],
                true,
                TypeCheck::Okay,
                pos,
                reference,
                parameters,
                diagnostics,
                Ghost(*old(self)),
            )
        } else if bad.len() == 1 {
            // Unique incorrect match
            let ent = bad[0];
            let formals = self.formals_of(ent);
            if parameters.is_empty() && formals.is_empty() {
                // Typically enumeration literals such as character, boolean
                // We provide a better diagnostic for those
                let d = match target_type {
                    Some(typ) => Diagnostic::error(
                        *pos,
                        Message::DoesNotMatchType(*designator, typ),
                    ),
                    None => self.candidates_diagnostic(
                        *pos,
                        Message::CouldNotResolve(*designator),
                        RelatedKind::DoesNotMatch,
                        &bad,
                    ),
                };
                let ghost dv = d@;
                let ghost middle = *self;
                push_diagnostic(diagnostics, d);
                self.references.set_unique_reference(reference, ent);
                proof {
                    lemma_performed_report(
                        middle,
                        old(diagnostics)@,
                        diagnostics@,
                        TypeCheck::NotOk,
                        dv,
                    );
                    assert(slots == Set::<Reference>::empty());
                    lemma_performed_rebase(
                        *old(self),
                        middle,
                        middle,
                        old(diagnostics)@,
                        diagnostics@,
                        true,
                        Outcome::report(TypeCheck::NotOk, dv),
                        slots,
                    );
                    lemma_performed_bound(
                        *old(self),
                        middle,
                        *self,
                        old(diagnostics)@,
                        diagnostics@,
                        Outcome::report(TypeCheck::NotOk, dv),
                        slots,
                        reference,
                        ent,
                    );
                }
                Ok(TypeCheck::NotOk)
            } else {
                // The analysis below will produce the diagnostics for the bad option
                self.select(
                    scope,
                    ent,
                    true,
                    TypeCheck::NotOk,
                    pos,
                    reference,
                    parameters,
                    diagnostics,
                    Ghost(*old(self)),
                )
            }
        } else {
            let d = self.candidates_diagnostic(
                *pos,
                Message::CouldNotResolve(*designator),
                RelatedKind::DoesNotMatch,
                &bad,
            );
            self.leave_unresolved(
                scope,
                Some(d),
                TypeCheck::NotOk,
                reference,
                parameters,
                diagnostics,
                Ghost(*old(self)),
            )
        }
    }

    /// One operand of an operator against the formal at a position.
    fn analyze_operand(
        &mut self,
        scope: &Scope,
        formal_region: &FormalRegion,
        idx: usize,
        operand: &WithPos<Expression>,
        diagnostics: &mut Vec<Diagnostic>,
    ) -> (res: FatalResult<TypeCheck>)
        ensures
            performed(
                *old(self),
                *final(self),
                old(diagnostics)@,
                final(diagnostics)@,
                res is Ok,
                operand_typed(old(self).arena@, scope@, formal_region@, idx as int, *operand),
                expr_slots(operand.item),
            ),
            res is Ok <==> expr_ok(operand.item),
            res matches Ok(check) ==> check == operand_typed(
                old(self).arena@,
                scope@,
                formal_region@,
                idx as int,
                *operand,
            ).check,
        decreases expr_size(operand.item), 9nat, 0nat,
    {
        reveal(operand_typed);
        reveal(expr_typed);
        reveal(expr_untyped);
        match formal_region.nth(idx) {
            Some(formal) => self.analyze_expression_with_target_type(
                scope,
                formal.type_mark(),
                &operand.pos,
                &operand.item,
                diagnostics,
            ),
            None => {
                let res = self.analyze_expression_pos(
                    scope,
                    &operand.pos,
                    &operand.item,
                    diagnostics,
                );
                proof {
                    lemma_performed_with_check(
                        *old(self),
                        *self,
                        old(diagnostics)@,
                        diagnostics@,
                        res is Ok,
                        expr_untyped(old(self).arena@, scope@, operand.item),
                        expr_slots(operand.item),
                        TypeCheck::NotOk,
                    );
                }
                match res {
                    Ok(()) => Ok(TypeCheck::NotOk),
                    Err(fatal) => Err(fatal),
                }
            },
        }
    }

    /// Analyzes the parameters of a call against a formal region, or none
    /// of them where an association list in one of them is malformed.
    pub fn analyze_parameters_with_formal_region(
        &mut self,
        error_pos: &SrcPos,
        formal_region: &FormalRegion,
        scope: &Scope,
        parameters: &ParametersMut<'_>,
        diagnostics: &mut Vec<Diagnostic>,
    ) -> (res: FatalResult<TypeCheck>)
        ensures
            performed(
                *old(self),
                *final(self),
                old(diagnostics)@,
                final(diagnostics)@,
                res is Ok,
                params_typed(old(self).arena@, scope@, formal_region@, *error_pos, parameters@),
                parameters@.slots(),
            ),
            res is Ok <==> parameters@.ok(),
            res matches Ok(check) ==> check == params_typed(
                old(self).arena@,
                scope@,
                formal_region@,
                *error_pos,
                parameters@,
            ).check,
        decreases parameters@.size(), 2nat, 0nat,
    {
        reveal(params_typed);
        reveal(assoc_typed);
        reveal(operand_typed);
        let ghost arena = self.arena@;
        if !parameters.ok() {
            proof {
                lemma_performed_gave_up(
                    *self,
                    *self,
                    diagnostics@,
                    params_typed(arena, scope@, formal_region@, *error_pos, parameters@),
                    parameters@.slots(),
                );
            }
            return Err(FatalError::MalformedAssociationList);
        }
        match parameters {
            ParametersMut::AssociationList(elems) => self.analyze_assoc_elems_with_formal_region(
                error_pos,
                formal_region,
                scope,
                elems,
                diagnostics,
            ),
            ParametersMut::Binary(lexpr, rexpr) => {
                let mut check = TypeCheck::Okay;
                let ghost out = params_typed(arena, scope@, formal_region@, *error_pos, parameters@);
                match self.analyze_operand(scope, formal_region, 0, lexpr, diagnostics) {
                    Ok(left) => {
                        check.add(left);
                    },
                    Err(fatal) => {
                        return Err(fatal);
                    },
                }
                let ghost middle = *self;
                let ghost sink = diagnostics@;
                proof {
                    lemma_performed_facts(
                        *old(self),
                        middle,
                        old(diagnostics)@,
                        sink,
                        true,
                        operand_typed(arena, scope@, formal_region@, 0, **lexpr),
                        expr_slots(lexpr.item),
                    );
                }
                let res = self.analyze_operand(scope, formal_region, 1, rexpr, diagnostics);
                proof {
                    lemma_performed_both(
                        *old(self),
                        middle,
                        *self,
                        old(diagnostics)@,
                        sink,
                        diagnostics@,
                        operand_typed(arena, scope@, formal_region@, 0, **lexpr),
                        expr_slots(lexpr.item),
                        operand_typed(arena, scope@, formal_region@, 1, **rexpr),
                        expr_slots(rexpr.item),
                        res is Ok,
                    );
                }
                match res {
                    Ok(right) => {
                        check.add(right);
                        Ok(check)
                    },
                    Err(fatal) => Err(fatal),
                }
            },
            ParametersMut::Unary(expr) => self.analyze_operand(
                scope,
                formal_region,
                0,
                expr,
                diagnostics,
            ),
        }
    }

    /// Analyzes the parameters of a call on their own, or none of them
    /// where an association list in one of them is malformed.
    pub fn analyze_parameters(
        &mut self,
        scope: &Scope,
        parameters: &ParametersMut<'_>,
        diagnostics: &mut Vec<Diagnostic>,
    ) -> (res: FatalResult<()>)
        ensures
            performed(
                *old(self),
                *final(self),
                old(diagnostics)@,
                final(diagnostics)@,
                res is Ok,
                params_untyped(old(self).arena@, scope@, parameters@),
                parameters@.slots(),
            ),
            res is Ok <==> parameters@.ok(),
        decreases parameters@.size(), 2nat, 0nat,
    {
        reveal(params_untyped);
        reveal(assoc_untyped);
        reveal(expr_untyped);
        let ghost arena = self.arena@;
        if !parameters.ok() {
            proof {
                lemma_performed_gave_up(
                    *self,
                    *self,
                    diagnostics@,
                    params_untyped(arena, scope@, parameters@),
                    parameters@.slots(),
                );
            }
            return Err(FatalError::MalformedAssociationList);
        }
        match parameters {
            ParametersMut::AssociationList(elems) => self.analyze_assoc_elems(
                scope,
                elems,
                diagnostics,
            ),
            ParametersMut::Binary(lexpr, rexpr) => {
                match self.analyze_expression_pos(scope, &lexpr.pos, &lexpr.item, diagnostics) {
                    Ok(()) => {},
                    Err(fatal) => {
                        return Err(fatal);
                    },
                }
                let ghost middle = *self;
                let ghost sink = diagnostics@;
                proof {
                    lemma_performed_facts(
                        *old(self),
                        middle,
                        old(diagnostics)@,
                        sink,
                        true,
                        expr_untyped(arena, scope@, lexpr.item),
                        expr_slots(lexpr.item),
                    );
                }
                let res = self.analyze_expression_pos(scope, &rexpr.pos, &rexpr.item, diagnostics);
                proof {
                    lemma_performed_both(
                        *old(self),
                        middle,
                        *self,
                        old(diagnostics)@,
                        sink,
                        diagnostics@,
                        expr_untyped(arena, scope@, lexpr.item),
                        expr_slots(lexpr.item),
                        expr_untyped(arena, scope@, rexpr.item),
                        expr_slots(rexpr.item),
                        res is Ok,
                    );
                }
                res
            },
            ParametersMut::Unary(expr) => self.analyze_expression_pos(
                scope,
                &expr.pos,
                &expr.item,
                diagnostics,
            ),
        }
    }
}

} // verus!
