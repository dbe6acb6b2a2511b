//! Analysis of expressions and association lists.
use vstd::prelude::*;
use crate::analyze::{
    AnalyzeContext, FatalError, FatalResult, Outcome, lemma_performed_bind, lemma_performed_both,
    lemma_performed_bound, lemma_performed_facts, lemma_performed_gave_up, lemma_performed_more,
    lemma_performed_nothing, lemma_performed_report, lemma_performed_unbind,
    lemma_performed_unbound, lemma_performed_with_check, performed,
};
use crate::ast::{
    ActualPart, AssociationElement, Expression, Literal, Name, Reference, actual_slots, assoc_ok,
    assoc_shape_ok, assoc_size, assoc_slots, expr_ok, expr_size, expr_slots, formal_slots,
    lemma_assoc_ok_prefix,
};
use crate::data::{
    Designator, Diagnostic, DiagnosticView, Message, SrcPos, error_view, push_diagnostic,
    push_error, views,
};
use crate::formal_region::{FormalRegion, InterfaceEnt, formal_at, formal_named};
use crate::named_entity::{
    AnyEntKind, EntityId, NamedEntity, Type, TypeId, base_type_of, same_base_type,
};
use crate::overloaded::{
    Parameters, ParametersMut, formals_of, params_typed, params_untyped, resolve_outcome,
    selected_outcome, signature_of, unresolved_outcome,
};
use crate::region::{NamedEntities, Scope, ScopeView, Visible};
use crate::search::{assoc_is_ok, lemma_assoc_size_mono};
use crate::semantic::TypeCheck;

verus! {

/// Whether a literal can be of a type: an integer literal of an integer
/// type, a physical literal of a physical type, a string literal of an array
/// type.
pub open spec fn literal_matches(arena: Seq<NamedEntity>, literal: Literal, typ: TypeId) -> bool {
    let base = base_type_of(arena, typ);
    base < arena.len() && match (literal, arena[base as int].kind) {
        (Literal::Integer(_), AnyEntKind::Type(Type::Integer)) => true,
        (Literal::Physical(_, _), AnyEntKind::Type(Type::Physical)) => true,
        (Literal::String(_), AnyEntKind::Type(Type::Array)) => true,
        _ => false,
    }
}

/// The type of the value that a declaration denotes: `None` where it
/// denotes no value, `Some(None)` where the type of the value is not known.
pub open spec fn value_type(arena: Seq<NamedEntity>, ent: EntityId) -> Option<Option<TypeId>> {
    if ent < arena.len() {
        match arena[ent as int].kind {
            AnyEntKind::Object(object) => Some(Some(object.subtype.type_mark)),
            AnyEntKind::InterfaceFile(file_type) => Some(Some(file_type)),
            AnyEntKind::LoopParameter(typ) => Some(typ),
            _ => None,
        }
    } else {
        None
    }
}

/// A name that stands for one declaration, against an expected type.
pub open spec fn value_outcome(
    arena: Seq<NamedEntity>,
    target_type: TypeId,
    name: Name,
    ent: EntityId,
) -> Outcome {
    match value_type(arena, ent) {
        None => Outcome::report(TypeCheck::NotOk, error_view(name.pos, Message::NotAValue(ent))),
        Some(None) => Outcome::nothing().with_check(TypeCheck::Unknown),
        Some(Some(typ)) => {
            if same_base_type(arena, typ, target_type) {
                Outcome::nothing()
            } else {
                Outcome::report(
                    TypeCheck::NotOk,
                    error_view(name.pos, Message::DoesNotMatchType(name.designator, target_type)),
                )
            }
        },
    }.bind(name.reference, ent)
}

/// A call of `name` with parameters: a function call against the type that
/// is expected, or a procedure call where none is. A name without a
/// declaration and a name that does not stand for subprograms are reported,
/// and the parameters are then analyzed on their own.
#[verifier::opaque]
pub open spec fn call_typed(
    arena: Seq<NamedEntity>,
    scope: ScopeView,
    target_type: Option<TypeId>,
    name: Name,
    parameters: Parameters,
) -> Outcome
    decreases parameters.size(), 7nat, 0nat,
{
    match scope.visible(name.designator) {
        None => unresolved_outcome(
            params_untyped(arena, scope, parameters),
            Some(error_view(name.pos, Message::NoDeclaration(name.designator))),
            TypeCheck::Unknown,
            name.reference,
        ),
        Some(Visible::Single(ent)) => unresolved_outcome(
            params_untyped(arena, scope, parameters),
            Some(error_view(name.pos, Message::NotCallable(ent))),
            TypeCheck::NotOk,
            name.reference,
        ),
        Some(Visible::Overloaded(candidates)) => resolve_outcome(
            arena,
            scope,
            candidates,
            target_type,
            name.pos,
            name.designator,
            name.reference,
            parameters,
        ),
    }
}

/// A call of `name` with parameters where no type is expected. The name is
/// bound where it stands for one declaration or for a single overloaded one,
/// and the parameters are held against the formals of the latter.
#[verifier::opaque]
pub open spec fn call_untyped(
    arena: Seq<NamedEntity>,
    scope: ScopeView,
    name: Name,
    parameters: Parameters,
) -> Outcome
    decreases parameters.size(), 7nat, 0nat,
{
    match scope.visible(name.designator) {
        None => unresolved_outcome(
            params_untyped(arena, scope, parameters),
            Some(error_view(name.pos, Message::NoDeclaration(name.designator))),
            TypeCheck::Okay,
            name.reference,
        ),
        Some(Visible::Single(ent)) => selected_outcome(
            params_untyped(arena, scope, parameters),
            TypeCheck::Okay,
            name.reference,
            ent,
        ),
        Some(Visible::Overloaded(candidates)) => {
            if candidates.len() == 1 && signature_of(arena, candidates[0]) is Some {
                selected_outcome(
                    params_typed(
                        arena,
                        scope,
                        formals_of(arena, candidates[0]),
                        name.pos,
                        parameters,
                    ),
                    TypeCheck::Okay,
                    name.reference,
                    candidates[0],
                )
            } else {
                unresolved_outcome(
                    params_untyped(arena, scope, parameters),
                    None,
                    TypeCheck::Okay,
                    name.reference,
                )
            }
        },
    }
}

/// An expression against an expected type.
#[verifier::opaque]
pub open spec fn expr_typed(
    arena: Seq<NamedEntity>,
    scope: ScopeView,
    target_type: TypeId,
    pos: SrcPos,
    expr: Expression,
) -> Outcome
    decreases expr_size(expr), 0nat, 0nat,
{
    match expr {
        Expression::Literal(literal) => {
            if literal_matches(arena, literal, target_type) {
                Outcome::nothing()
            } else {
                Outcome::report(
                    TypeCheck::NotOk,
                    error_view(pos, Message::LiteralDoesNotMatchType(target_type)),
                )
            }
        },
        Expression::Name(name) => match scope.visible(name.designator) {
            None => Outcome::report(
                TypeCheck::Unknown,
                error_view(name.pos, Message::NoDeclaration(name.designator)),
            ).unbind(name.reference),
            Some(Visible::Single(ent)) => value_outcome(arena, target_type, name, ent),
            Some(Visible::Overloaded(candidates)) => resolve_outcome(
                arena,
                scope,
                candidates,
                Some(target_type),
                name.pos,
                name.designator,
                name.reference,
                Parameters::AssociationList(Seq::empty()),
            ),
        },
        Expression::Call(call) => call_typed(
            arena,
            scope,
            Some(target_type),
            call.name,
            Parameters::AssociationList(call.parameters@),
        ),
        Expression::Binary(op, left, right) => call_typed(
            arena,
            scope,
            Some(target_type),
            op,
            Parameters::Binary(*left, *right),
        ),
        Expression::Unary(op, operand) => call_typed(
            arena,
            scope,
            Some(target_type),
            op,
            Parameters::Unary(*operand),
        ),
    }
}

/// An expression where no type is expected.
#[verifier::opaque]
pub open spec fn expr_untyped(arena: Seq<NamedEntity>, scope: ScopeView, expr: Expression) -> Outcome
    decreases expr_size(expr), 0nat, 0nat,
{
    match expr {
        Expression::Literal(_) => Outcome::nothing(),
        Expression::Name(name) => call_untyped(
            arena,
            scope,
            name,
            Parameters::AssociationList(Seq::empty()),
        ),
        Expression::Call(call) => call_untyped(
            arena,
            scope,
            call.name,
            Parameters::AssociationList(call.parameters@),
        ),
        Expression::Binary(op, left, right) => call_untyped(
            arena,
            scope,
            op,
            Parameters::Binary(*left, *right),
        ),
        Expression::Unary(op, operand) => call_untyped(
            arena,
            scope,
            op,
            Parameters::Unary(*operand),
        ),
    }
}

/// The formal that an association element is bound to: the formal at the
/// element's position where it is positional, the formal of that name where
/// it is named.
pub open spec fn elem_formal(formals: Seq<InterfaceEnt>, elems: Seq<AssociationElement>, idx: int) -> Option<
    InterfaceEnt,
> {
    match elems[idx].formal {
        None => formal_at(formals, idx),
        Some(name) => formal_named(formals, name.designator),
    }
}

/// The position of the actual of an association element.
pub open spec fn actual_pos(actual: ActualPart) -> SrcPos {
    match actual {
        ActualPart::Expression(expr) => expr.pos,
        ActualPart::Open(pos) => pos,
    }
}

/// The resolution of the formal of an association element: a named formal
/// is bound to the interface element of that name; an element without a
/// formal to bind to is reported.
pub open spec fn formal_outcome(
    formals: Seq<InterfaceEnt>,
    elems: Seq<AssociationElement>,
    idx: int,
) -> Outcome {
    match elems[idx].formal {
        None => match formal_at(formals, idx) {
            Some(_) => Outcome::nothing(),
            None => Outcome::report(
                TypeCheck::NotOk,
                error_view(actual_pos(elems[idx].actual), Message::UnexpectedExtraArgument),
            ),
        },
        Some(name) => match formal_named(formals, name.designator) {
            Some(formal) => Outcome::nothing().bind(name.reference, formal.ent),
            None => Outcome::report(
                TypeCheck::NotOk,
                error_view(name.pos, Message::NoDeclaration(name.designator)),
            ).unbind(name.reference),
        },
    }
}

/// The first `n` elements of an association list against a formal region.
#[verifier::opaque]
pub open spec fn assoc_typed_upto(
    arena: Seq<NamedEntity>,
    scope: ScopeView,
    formals: Seq<InterfaceEnt>,
    elems: Seq<AssociationElement>,
    n: nat,
) -> Outcome
    decreases assoc_size(elems, n), 1nat, 0nat,
{
    if n == 0 || n > elems.len() {
        Outcome::nothing()
    } else {
        let elem = elems[n - 1];
        let formal = formal_outcome(formals, elems, n - 1);
        let actual = match elem.actual {
            ActualPart::Expression(expr) => match elem_formal(formals, elems, n - 1) {
                Some(formal) => expr_typed(arena, scope, formal.type_mark, expr.pos, expr.item),
                None => expr_untyped(arena, scope, expr.item),
            },
            ActualPart::Open(_) => Outcome::nothing(),
        };
        assoc_typed_upto(arena, scope, formals, elems, (n - 1) as nat).followed_by(
            formal,
            formal_slots(elem),
        ).followed_by(actual, actual_slots(elem))
    }
}

/// Whether an association element is named with the designator.
pub open spec fn named_like(elem: AssociationElement, designator: Designator) -> bool {
    match elem.formal {
        Some(name) => name.designator == designator,
        None => false,
    }
}

/// Whether an element of the list is bound to the formal with the given
/// designator at position `idx`: the positional element at that position, or
/// an element named like the formal.
pub open spec fn associated_with(
    designator: Designator,
    elems: Seq<AssociationElement>,
    idx: int,
) -> bool {
    ||| 0 <= idx < elems.len() && elems[idx].formal is None
    ||| exists|k: int| 0 <= k < elems.len() && named_like(#[trigger] elems[k], designator)
}

/// Whether an element of the list is bound to the formal at position `idx`.
pub open spec fn associated(formals: Seq<InterfaceEnt>, elems: Seq<AssociationElement>, idx: int) -> bool {
    associated_with(formals[idx].designator, elems, idx)
}

/// The formals among the first `n` that have no default and are bound to no
/// element of the list: each is reported at the position of the call.
pub open spec fn missing_upto(
    formals: Seq<InterfaceEnt>,
    elems: Seq<AssociationElement>,
    error_pos: SrcPos,
    n: nat,
) -> Seq<DiagnosticView>
    decreases n,
{
    if n == 0 || n > formals.len() {
        Seq::empty()
    } else {
        let rest = missing_upto(formals, elems, error_pos, (n - 1) as nat);
        if !formals[n - 1].has_default && !associated(formals, elems, n - 1) {
            rest.push(error_view(error_pos, Message::NoAssociation(formals[n - 1].ent)))
        } else {
            rest
        }
    }
}

/// The check of an association list of which the elements come to `check`
/// and the formals in `missing` are left without a value.
pub open spec fn check_with_missing(check: TypeCheck, missing: Seq<DiagnosticView>) -> TypeCheck {
    if missing.len() > 0 {
        check.combine(TypeCheck::NotOk)
    } else {
        check
    }
}

/// An association list against a formal region: every element against the
/// formal it is bound to, then the formals that are left without a value.
#[verifier::opaque]
pub open spec fn assoc_typed(
    arena: Seq<NamedEntity>,
    scope: ScopeView,
    formals: Seq<InterfaceEnt>,
    error_pos: SrcPos,
    elems: Seq<AssociationElement>,
) -> Outcome
    decreases assoc_size(elems, elems.len()), 1nat, 1nat,
{
    let upto = assoc_typed_upto(arena, scope, formals, elems, elems.len());
    let missing = missing_upto(formals, elems, error_pos, formals.len());
    upto.reporting(missing).with_check(check_with_missing(upto.check, missing))
}

/// The formal of an association element where there are no formals to
/// bind it to: it stays unresolved.
pub open spec fn formal_cleared(elem: AssociationElement) -> Outcome {
    match elem.formal {
        Some(name) => Outcome::nothing().unbind(name.reference),
        None => Outcome::nothing(),
    }
}

/// The first `n` elements of an association list without formals to hold
/// them against: the formals stay unresolved, the actuals are analyzed on
/// their own.
#[verifier::opaque]
pub open spec fn assoc_untyped(
    arena: Seq<NamedEntity>,
    scope: ScopeView,
    elems: Seq<AssociationElement>,
    n: nat,
) -> Outcome
    decreases assoc_size(elems, n), 1nat, 0nat,
{
    if n == 0 || n > elems.len() {
        Outcome::nothing()
    } else {
        let elem = elems[n - 1];
        let actual = match elem.actual {
            ActualPart::Expression(expr) => expr_untyped(arena, scope, expr.item),
            ActualPart::Open(_) => Outcome::nothing(),
        };
        assoc_untyped(arena, scope, elems, (n - 1) as nat).followed_by(
            formal_cleared(elem),
            formal_slots(elem),
        ).followed_by(actual, actual_slots(elem))
    }
}

/// The actual of an association element against the type of the formal it
/// is bound to, or on its own where it is bound to none.
pub open spec fn actual_outcome(
    arena: Seq<NamedEntity>,
    scope: ScopeView,
    formal: Option<InterfaceEnt>,
    actual: ActualPart,
) -> Outcome {
    match actual {
        ActualPart::Expression(expr) => match formal {
            Some(formal) => expr_typed(arena, scope, formal.type_mark, expr.pos, expr.item),
            None => expr_untyped(arena, scope, expr.item),
        },
        ActualPart::Open(_) => Outcome::nothing(),
    }
}

/// Whether an element of the list is bound to the formal with the given
/// designator at position `idx`.
pub fn is_associated(designator: Designator, elems: &Vec<AssociationElement>, idx: usize) -> (res:
    bool)
    ensures
        res == associated_with(designator, elems@, idx as int),
{
    if idx < elems.len() {
        if elems[idx].formal.is_none() {
            return true;
        }
    }
    let mut k: usize = 0;
    while k < elems.len()
        invariant
            k <= elems.len(),
            forall|j: int| 0 <= j < k ==> !named_like(#[trigger] elems@[j], designator),
        decreases elems.len() - k,
    {
        match &elems[k].formal {
            Some(name) => {
                if name.designator == designator {
                    assert(named_like(elems@[k as int], designator));
                    return true;
                }
            },
            None => {},
        }
        k = k + 1;
    }
    false
}

impl AnalyzeContext {
    /// Whether a literal can be of a type.
    pub fn literal_matches(&self, literal: &Literal, typ: TypeId) -> (res: bool)
        ensures
            res == literal_matches(self.arena@, *literal, typ),
    {
        let base = self.arena.base_type(typ);
        match self.arena.get(base) {
            Some(r) => match (literal, &r.ent.kind) {
                (Literal::Integer(_), AnyEntKind::Type(Type::Integer)) => true,
                (Literal::Physical(_, _), AnyEntKind::Type(Type::Physical)) => true,
                (Literal::String(_), AnyEntKind::Type(Type::Array)) => true,
                _ => false,
            },
            None => false,
        }
    }

    /// Whether a declaration is an overloaded one.
    pub fn is_overloaded(&self, ent: EntityId) -> (res: bool)
        ensures
            res == (signature_of(self.arena@, ent) is Some),
    {
        match self.arena.get(ent) {
            Some(r) => match &r.ent.kind {
                AnyEntKind::Overloaded(_) => true,
                _ => false,
            },
            None => false,
        }
    }

    /// The type of the value that a declaration denotes.
    pub fn value_type(&self, ent: EntityId) -> (res: Option<Option<TypeId>>)
        ensures
            res == value_type(self.arena@, ent),
    {
        match self.arena.get(ent) {
            Some(r) => match &r.ent.kind {
                AnyEntKind::Object(object) => Some(Some(object.subtype.type_mark)),
                AnyEntKind::InterfaceFile(file_type) => Some(Some(*file_type)),
                AnyEntKind::LoopParameter(typ) => Some(*typ),
                _ => None,
            },
            None => None,
        }
    }

    /// Binds a name to the one declaration it stands for and holds the
    /// value of that declaration against an expected type.
    pub fn analyze_value(
        &mut self,
        target_type: TypeId,
        name: &Name,
        ent: EntityId,
        diagnostics: &mut Vec<Diagnostic>,
    ) -> (check: TypeCheck)
        ensures
            performed(
                *old(self),
                *final(self),
                old(diagnostics)@,
                final(diagnostics)@,
                true,
                value_outcome(old(self).arena@, target_type, *name, ent),
                set![name.reference],
            ),
            check == value_outcome(old(self).arena@, target_type, *name, ent).check,
    {
        let ghost said: Outcome;
        let check = match self.value_type(ent) {
            None => {
                push_error(diagnostics, name.pos, Message::NotAValue(ent));
                proof {
                    said = Outcome::report(
                        TypeCheck::NotOk,
                        error_view(name.pos, Message::NotAValue(ent)),
                    );
                    lemma_performed_report(
                        *self,
                        old(diagnostics)@,
                        diagnostics@,
                        TypeCheck::NotOk,
                        error_view(name.pos, Message::NotAValue(ent)),
                    );
                }
                TypeCheck::NotOk
            },
            Some(None) => {
                proof {
                    said = Outcome::nothing().with_check(TypeCheck::Unknown);
                    lemma_performed_nothing(*self, diagnostics@);
                    lemma_performed_with_check(
                        *self,
                        *self,
                        diagnostics@,
                        diagnostics@,
                        true,
                        Outcome::nothing(),
                        Set::empty(),
                        TypeCheck::Unknown,
                    );
                }
                TypeCheck::Unknown
            },
            Some(Some(typ)) => {
                if self.arena.base_type(typ) == self.arena.base_type(target_type) {
                    proof {
                        said = Outcome::nothing();
                        lemma_performed_nothing(*self, diagnostics@);
                    }
                    TypeCheck::Okay
                } else {
                    push_error(
                        diagnostics,
                        name.pos,
                        Message::DoesNotMatchType(name.designator, target_type),
                    );
                    proof {
                        said = Outcome::report(
                            TypeCheck::NotOk,
                            error_view(
                                name.pos,
                                Message::DoesNotMatchType(name.designator, target_type),
                            ),
                        );
                        lemma_performed_report(
                            *self,
                            old(diagnostics)@,
                            diagnostics@,
                            TypeCheck::NotOk,
                            error_view(
                                name.pos,
                                Message::DoesNotMatchType(name.designator, target_type),
                            ),
                        );
                    }
                    TypeCheck::NotOk
                }
            },
        };
        self.references.set_unique_reference(name.reference, ent);
        proof {
            lemma_performed_bound(
                *old(self),
                *old(self),
                *self,
                old(diagnostics)@,
                diagnostics@,
                said,
                Set::empty(),
                name.reference,
                ent,
            );
        }
        check
    }

    /// Analyzes a call of `name` with parameters: a function call against
    /// the type that is expected, or a procedure call where none is.
    pub fn analyze_call_typed(
        &mut self,
        scope: &Scope,
        target_type: Option<TypeId>,
        name: &Name,
        parameters: &ParametersMut<'_>,
        diagnostics: &mut Vec<Diagnostic>,
    ) -> (res: FatalResult<TypeCheck>)
        ensures
            performed(
                *old(self),
                *final(self),
                old(diagnostics)@,
                final(diagnostics)@,
                res is Ok,
                call_typed(old(self).arena@, scope@, target_type, *name, parameters@),
                parameters@.slots().insert(name.reference),
            ),
            res is Ok <==> parameters@.ok(),
            res matches Ok(check) ==> check == call_typed(
                old(self).arena@,
                scope@,
                target_type,
                *name,
                parameters@,
            ).check,
        decreases parameters@.size(), 7nat, 0nat,
    {
        reveal(call_typed);
        reveal(resolve_outcome);
        if !parameters.ok() {
            proof {
                lemma_performed_gave_up(
                    *self,
                    *self,
                    diagnostics@,
                    call_typed(self.arena@, scope@, target_type, *name, parameters@),
                    parameters@.slots().insert(name.reference),
                );
            }
            return Err(FatalError::MalformedAssociationList);
        }
        match scope.lookup(&name.pos, &name.designator) {
            Err(d) => self.leave_unresolved(
                scope,
                Some(d),
                TypeCheck::Unknown,
                name.reference,
                parameters,
                diagnostics,
                Ghost(*old(self)),
            ),
            Ok(NamedEntities::Single(ent)) => self.leave_unresolved(
                scope,
                Some(Diagnostic::error(name.pos, Message::NotCallable(ent))),
                TypeCheck::NotOk,
                name.reference,
                parameters,
                diagnostics,
                Ghost(*old(self)),
            ),
            Ok(NamedEntities::Overloaded(overloaded)) => self.resolve_overloaded_with_target_type(
                scope,
                overloaded,
                target_type,
                &name.pos,
                &name.designator,
                name.reference,
                parameters,
                diagnostics,
            ),
        }
    }

    /// Analyzes a call of `name` with parameters where no type is expected.
    pub fn analyze_call_untyped(
        &mut self,
        scope: &Scope,
        name: &Name,
        parameters: &ParametersMut<'_>,
        diagnostics: &mut Vec<Diagnostic>,
    ) -> (res: FatalResult<()>)
        ensures
            performed(
                *old(self),
                *final(self),
                old(diagnostics)@,
                final(diagnostics)@,
                res is Ok,
                call_untyped(old(self).arena@, scope@, *name, parameters@),
                parameters@.slots().insert(name.reference),
            ),
            res is Ok <==> parameters@.ok(),
            call_untyped(old(self).arena@, scope@, *name, parameters@).check == TypeCheck::Okay,
        decreases parameters@.size(), 7nat, 0nat,
    {
        reveal(call_untyped);
        if !parameters.ok() {
            proof {
                lemma_performed_gave_up(
                    *self,
                    *self,
                    diagnostics@,
                    call_untyped(self.arena@, scope@, *name, parameters@),
                    parameters@.slots().insert(name.reference),
                );
            }
            return Err(FatalError::MalformedAssociationList);
        }
        let res = match scope.lookup(&name.pos, &name.designator) {
            Err(d) => self.leave_unresolved(
                scope,
                Some(d),
                TypeCheck::Okay,
                name.reference,
                parameters,
                diagnostics,
                Ghost(*old(self)),
            ),
            Ok(NamedEntities::Single(ent)) => self.select(
                scope,
                ent,
                false,
                TypeCheck::Okay,
                &name.pos,
                name.reference,
                parameters,
                diagnostics,
                Ghost(*old(self)),
            ),
            Ok(NamedEntities::Overloaded(overloaded)) => {
                let unique = if overloaded.len() == 1 {
                    self.is_overloaded(overloaded.entities[0])
                } else {
                    false
                };
                if unique {
                    self.select(
                        scope,
                        overloaded.entities[0],
                        true,
                        TypeCheck::Okay,
                        &name.pos,
                        name.reference,
                        parameters,
                        diagnostics,
                        Ghost(*old(self)),
                    )
                } else {
                    self.leave_unresolved(
                        scope,
                        None,
                        TypeCheck::Okay,
                        name.reference,
                        parameters,
                        diagnostics,
                        Ghost(*old(self)),
                    )
                }
            },
        };
        match res {
            Ok(_) => Ok(()),
            Err(fatal) => Err(fatal),
        }
    }

    /// Analyzes an expression against the type that its context expects.
    pub fn analyze_expression_with_target_type(
        &mut self,
        scope: &Scope,
        target_type: TypeId,
        pos: &SrcPos,
        expr: &Expression,
        diagnostics: &mut Vec<Diagnostic>,
    ) -> (res: FatalResult<TypeCheck>)
        ensures
            performed(
                *old(self),
                *final(self),
                old(diagnostics)@,
                final(diagnostics)@,
                res is Ok,
                expr_typed(old(self).arena@, scope@, target_type, *pos, *expr),
                expr_slots(*expr),
            ),
            res is Ok <==> expr_ok(*expr),
            res matches Ok(check) ==> check == expr_typed(
                old(self).arena@,
                scope@,
                target_type,
                *pos,
                *expr,
            ).check,
        decreases expr_size(*expr), 0nat, 0nat,
    {
        reveal(expr_typed);
        reveal(call_typed);
        reveal(resolve_outcome);
        match expr {
            Expression::Literal(literal) => {
                if self.literal_matches(literal, target_type) {
                    proof {
                        lemma_performed_nothing(*self, diagnostics@);
                    }
                    Ok(TypeCheck::Okay)
                } else {
                    push_error(diagnostics, *pos, Message::LiteralDoesNotMatchType(target_type));
                    proof {
                        lemma_performed_report(
                            *self,
                            old(diagnostics)@,
                            diagnostics@,
                            TypeCheck::NotOk,
                            error_view(*pos, Message::LiteralDoesNotMatchType(target_type)),
                        );
                    }
                    Ok(TypeCheck::NotOk)
                }
            },
            Expression::Name(name) => {
                match scope.lookup(&name.pos, &name.designator) {
                    Err(d) => {
                        let ghost dv = d@;
                        push_diagnostic(diagnostics, d);
                        self.references.clear_reference(name.reference);
                        proof {
                            lemma_performed_report(
                                *old(self),
                                old(diagnostics)@,
                                diagnostics@,
                                TypeCheck::Unknown,
                                dv,
                            );
                            lemma_performed_unbound(
                                *old(self),
                                *old(self),
                                *self,
                                old(diagnostics)@,
                                diagnostics@,
                                Outcome::report(TypeCheck::Unknown, dv),
                                Set::empty(),
                                name.reference,
                            );
                        }
                        Ok(TypeCheck::Unknown)
                    },
                    Ok(NamedEntities::Single(ent)) => {
                        let check = self.analyze_value(target_type, name, ent, diagnostics);
                        Ok(check)
                    },
                    Ok(NamedEntities::Overloaded(overloaded)) => {
                        let none: Vec<AssociationElement> = Vec::new();
                        let parameters = ParametersMut::AssociationList(&none);
                        assert(parameters@ == Parameters::AssociationList(
                            Seq::<AssociationElement>::empty(),
                        ));
                        assert(parameters@.slots() == Set::<Reference>::empty());
                        self.resolve_overloaded_with_target_type(
                            scope,
                            overloaded,
                            Some(target_type),
                            &name.pos,
                            &name.designator,
                            name.reference,
                            &parameters,
                            diagnostics,
                        )
                    },
                }
            },
            Expression::Call(call) => {
                let parameters = ParametersMut::AssociationList(&call.parameters);
                self.analyze_call_typed(scope, Some(target_type), &call.name, &parameters, diagnostics)
            },
            Expression::Binary(op, left, right) => {
                let parameters = ParametersMut::Binary(left, right);
                self.analyze_call_typed(scope, Some(target_type), op, &parameters, diagnostics)
            },
            Expression::Unary(op, operand) => {
                let parameters = ParametersMut::Unary(operand);
                self.analyze_call_typed(scope, Some(target_type), op, &parameters, diagnostics)
            },
        }
    }

    /// Analyzes an expression where no type is expected.
    pub fn analyze_expression_pos(
        &mut self,
        scope: &Scope,
        pos: &SrcPos,
        expr: &Expression,
        diagnostics: &mut Vec<Diagnostic>,
    ) -> (res: FatalResult<()>)
        ensures
            performed(
                *old(self),
                *final(self),
                old(diagnostics)@,
                final(diagnostics)@,
                res is Ok,
                expr_untyped(old(self).arena@, scope@, *expr),
                expr_slots(*expr),
            ),
            res is Ok <==> expr_ok(*expr),
            expr_untyped(old(self).arena@, scope@, *expr).check == TypeCheck::Okay,
        decreases expr_size(*expr), 0nat, 0nat,
    {
        reveal(expr_untyped);
        reveal(call_untyped);
        match expr {
            Expression::Literal(_) => {
                proof {
                    lemma_performed_nothing(*self, diagnostics@);
                }
                Ok(())
            },
            Expression::Name(name) => {
                let none: Vec<AssociationElement> = Vec::new();
                let parameters = ParametersMut::AssociationList(&none);
                assert(parameters@ == Parameters::AssociationList(
                    Seq::<AssociationElement>::empty(),
                ));
                assert(parameters@.slots() == Set::<Reference>::empty());
                self.analyze_call_untyped(scope, name, &parameters, diagnostics)
            },
            Expression::Call(call) => {
                let parameters = ParametersMut::AssociationList(&call.parameters);
                self.analyze_call_untyped(scope, &call.name, &parameters, diagnostics)
            },
            Expression::Binary(op, left, right) => {
                let parameters = ParametersMut::Binary(left, right);
                self.analyze_call_untyped(scope, op, &parameters, diagnostics)
            },
            Expression::Unary(op, operand) => {
                let parameters = ParametersMut::Unary(operand);
                self.analyze_call_untyped(scope, op, &parameters, diagnostics)
            },
        }
    }

    /// Resolves the formal of the association element at `idx`: binds a
    /// named formal to the interface element of that name and reports an
    /// element that has no formal to bind to.
    fn resolve_formal(
        &mut self,
        formal_region: &FormalRegion,
        elems: &Vec<AssociationElement>,
        idx: usize,
        diagnostics: &mut Vec<Diagnostic>,
    ) -> (formal: Option<InterfaceEnt>)
        requires
            idx < elems@.len(),
        ensures
            performed(
                *old(self),
                *final(self),
                old(diagnostics)@,
                final(diagnostics)@,
                true,
                formal_outcome(formal_region@, elems@, idx as int),
                formal_slots(elems@[idx as int]),
            ),
            formal == elem_formal(formal_region@, elems@, idx as int),
            formal is Some <==> formal_outcome(formal_region@, elems@, idx as int).check
                == TypeCheck::Okay,
            formal is None <==> formal_outcome(formal_region@, elems@, idx as int).check
                == TypeCheck::NotOk,
    {
        let elem = &elems[idx];
        match &elem.formal {
            None => match formal_region.nth(idx) {
                Some(formal) => {
                    proof {
                        lemma_performed_nothing(*self, diagnostics@);
                    }
                    Some(*formal)
                },
                None => {
                    let pos = match &elem.actual {
                        ActualPart::Expression(actual) => actual.pos,
                        ActualPart::Open(pos) => *pos,
                    };
                    push_error(diagnostics, pos, Message::UnexpectedExtraArgument);
                    proof {
                        lemma_performed_report(
                            *self,
                            old(diagnostics)@,
                            diagnostics@,
                            TypeCheck::NotOk,
                            error_view(pos, Message::UnexpectedExtraArgument),
                        );
                    }
                    None
                },
            },
            Some(name) => match formal_region.lookup(&name.pos, &name.designator) {
                Ok(formal) => {
                    self.references.set_unique_reference(name.reference, formal.inner());
                    proof {
                        lemma_performed_bind(
                            *old(self),
                            *self,
                            diagnostics@,
                            name.reference,
                            formal.ent,
                        );
                    }
                    Some(formal)
                },
                Err(d) => {
                    let ghost dv = d@;
                    push_diagnostic(diagnostics, d);
                    self.references.clear_reference(name.reference);
                    proof {
                        lemma_performed_report(
                            *old(self),
                            old(diagnostics)@,
                            diagnostics@,
                            TypeCheck::NotOk,
                            dv,
                        );
                        lemma_performed_unbound(
                            *old(self),
                            *old(self),
                            *self,
                            old(diagnostics)@,
                            diagnostics@,
                            Outcome::report(TypeCheck::NotOk, dv),
                            Set::empty(),
                            name.reference,
                        );
                    }
                    None
                },
            },
        }
    }

    /// Analyzes the actual of an association element against the type of
    /// the formal it is bound to, or on its own where it is bound to none.
    fn analyze_actual(
        &mut self,
        scope: &Scope,
        formal: Option<InterfaceEnt>,
        elem: &AssociationElement,
        diagnostics: &mut Vec<Diagnostic>,
    ) -> (res: FatalResult<TypeCheck>)
        ensures
            performed(
                *old(self),
                *final(self),
                old(diagnostics)@,
                final(diagnostics)@,
                res is Ok,
                actual_outcome(old(self).arena@, scope@, formal, elem.actual),
                actual_slots(*elem),
            ),
            res is Ok <==> crate::ast::elem_ok(*elem),
            res matches Ok(check) ==> check == actual_outcome(
                old(self).arena@,
                scope@,
                formal,
                elem.actual,
            ).check,
        decreases
                match elem.actual {
                    ActualPart::Expression(actual) => expr_size(actual.item),
                    ActualPart::Open(_) => 0,
                },
                1nat,
                0nat,
    {
        match &elem.actual {
            ActualPart::Expression(actual) => match formal {
                Some(formal) => self.analyze_expression_with_target_type(
                    scope,
                    formal.type_mark(),
                    &actual.pos,
                    &actual.item,
                    diagnostics,
                ),
                None => match self.analyze_expression_pos(
                    scope,
                    &actual.pos,
                    &actual.item,
                    diagnostics,
                ) {
                    Ok(()) => Ok(TypeCheck::Okay),
                    Err(fatal) => Err(fatal),
                },
            },
            ActualPart::Open(_) => {
                proof {
                    lemma_performed_nothing(*self, diagnostics@);
                }
                Ok(TypeCheck::Okay)
            },
        }
    }

    /// Analyzes an association list against a formal region: binds the
    /// named formals, holds every actual against the type of its formal, and
    /// reports the formals that are left without a value at `error_pos`.
    pub fn analyze_assoc_elems_with_formal_region(
        &mut self,
        error_pos: &SrcPos,
        formal_region: &FormalRegion,
        scope: &Scope,
        elems: &Vec<AssociationElement>,
        diagnostics: &mut Vec<Diagnostic>,
    ) -> (res: FatalResult<TypeCheck>)
        ensures
            performed(
                *old(self),
                *final(self),
                old(diagnostics)@,
                final(diagnostics)@,
                res is Ok,
                assoc_typed(old(self).arena@, scope@, formal_region@, *error_pos, elems@),
                assoc_slots(elems@, elems@.len()),
            ),
            res is Ok <==> assoc_ok(elems@, elems@.len()),
            res matches Ok(check) ==> check == assoc_typed(
                old(self).arena@,
                scope@,
                formal_region@,
                *error_pos,
                elems@,
            ).check,
        decreases assoc_size(elems@, elems@.len()), 1nat, 1nat,
    {
        reveal(assoc_typed);
        reveal(assoc_typed_upto);
        reveal(expr_typed);
        reveal(expr_untyped);
        let ghost arena = self.arena@;
        let ghost formals = formal_region@;
        let ghost out = assoc_typed(arena, scope@, formals, *error_pos, elems@);
        let ghost all = assoc_slots(elems@, elems@.len());
        proof {
            lemma_performed_nothing(*self, diagnostics@);
        }
        if !assoc_is_ok(elems) {
            proof {
                lemma_performed_gave_up(*self, *self, diagnostics@, out, all);
            }
            return Err(FatalError::MalformedAssociationList);
        }
        proof {
            lemma_assoc_ok_prefix(elems@, 0, elems@.len());
        }
        let mut check = TypeCheck::Okay;
        let mut i: usize = 0;
        while i < elems.len()
            invariant
                i <= elems.len(),
                arena == old(self).arena@,
                formals == formal_region@,
                out == assoc_typed(arena, scope@, formals, *error_pos, elems@),
                all == assoc_slots(elems@, elems@.len()),
                assoc_shape_ok(elems@),
                assoc_ok(elems@, elems@.len()),
                assoc_ok(elems@, i as nat),
                performed(
                    *old(self),
                    *self,
                    old(diagnostics)@,
                    diagnostics@,
                    true,
                    assoc_typed_upto(arena, scope@, formals, elems@, i as nat),
                    assoc_slots(elems@, i as nat),
                ),
                check == assoc_typed_upto(arena, scope@, formals, elems@, i as nat).check,
            decreases elems.len() - i,
        {
            reveal(assoc_typed_upto);
            reveal(expr_typed);
            reveal(expr_untyped);
            let ghost upto = assoc_typed_upto(arena, scope@, formals, elems@, i as nat);
            let ghost first = *self;
            let ghost sink_first = diagnostics@;
            proof {
                lemma_performed_facts(
                    *old(self),
                    first,
                    old(diagnostics)@,
                    sink_first,
                    true,
                    upto,
                    assoc_slots(elems@, i as nat),
                );
                lemma_assoc_size_mono(elems@, (i + 1) as nat, elems@.len());
            }
            let formal = self.resolve_formal(formal_region, elems, i, diagnostics);
            if formal.is_none() {
                check.add(TypeCheck::NotOk);
            }
            let ghost second = *self;
            let ghost sink_second = diagnostics@;
            let ghost formal_out = formal_outcome(formals, elems@, i as int);
            let ghost actual_out = actual_outcome(arena, scope@, formal, elems@[i as int].actual);
            proof {
                lemma_performed_both(
                    *old(self),
                    first,
                    second,
                    old(diagnostics)@,
                    sink_first,
                    sink_second,
                    upto,
                    assoc_slots(elems@, i as nat),
                    formal_out,
                    formal_slots(elems@[i as int]),
                    true,
                );
                lemma_performed_facts(
                    first,
                    second,
                    sink_first,
                    sink_second,
                    true,
                    formal_out,
                    formal_slots(elems@[i as int]),
                );
            }
            let step = self.analyze_actual(scope, formal, &elems[i], diagnostics);
            proof {
                lemma_performed_both(
                    *old(self),
                    second,
                    *self,
                    old(diagnostics)@,
                    sink_second,
                    diagnostics@,
                    upto.followed_by(formal_out, formal_slots(elems@[i as int])),
                    assoc_slots(elems@, i as nat) + formal_slots(elems@[i as int]),
                    actual_out,
                    actual_slots(elems@[i as int]),
                    step is Ok,
                );
            }
            match step {
                Ok(actual_check) => {
                    check.add(actual_check);
                },
                Err(fatal) => {
                    proof {
                        if assoc_ok(elems@, elems@.len()) {
                            lemma_assoc_ok_prefix(elems@, (i + 1) as nat, elems@.len());
                        }
                    }
                    return Err(fatal);
                },
            }
            i = i + 1;
        }
        let ghost upto = assoc_typed_upto(arena, scope@, formals, elems@, elems@.len());
        let ghost sink_middle = diagnostics@;
        let ghost middle = *self;
        let mut j: usize = 0;
        assert(views(diagnostics@) =~= views(sink_middle) + missing_upto(
            formals,
            elems@,
            *error_pos,
            0,
        ));
        while j < formal_region.len()
            invariant
                j <= formal_region@.len(),
                formals == formal_region@,
                *self == middle,
                views(diagnostics@) == views(sink_middle) + missing_upto(
                    formals,
                    elems@,
                    *error_pos,
                    j as nat,
                ),
                check == check_with_missing(
                    upto.check,
                    missing_upto(formals, elems@, *error_pos, j as nat),
                ),
            decreases formal_region@.len() - j,
        {
            if let Some(formal) = formal_region.nth(j) {
                if !formal.has_default() && !is_associated(formal.designator(), elems, j) {
                    push_error(diagnostics, *error_pos, Message::NoAssociation(formal.inner()));
                    check.add(TypeCheck::NotOk);
                }
            }
            proof {
                let after = missing_upto(formals, elems@, *error_pos, (j + 1) as nat);
                assert(views(diagnostics@) =~= views(sink_middle) + after);
            }
            j = j + 1;
        }
        proof {
            let missing = missing_upto(formals, elems@, *error_pos, formals.len());
            lemma_performed_more(
                *old(self),
                middle,
                old(diagnostics)@,
                sink_middle,
                diagnostics@,
                upto,
                all,
                missing,
            );
            lemma_performed_with_check(
                *old(self),
                middle,
                old(diagnostics)@,
                diagnostics@,
                true,
                upto.reporting(missing),
                all,
                check_with_missing(upto.check, missing),
            );
        }
        Ok(check)
    }

    /// Analyzes an association list without formals to hold it against: the
    /// named formals stay unresolved and the actuals are analyzed on their
    /// own.
    pub fn analyze_assoc_elems(
        &mut self,
        scope: &Scope,
        elems: &Vec<AssociationElement>,
        diagnostics: &mut Vec<Diagnostic>,
    ) -> (res: FatalResult<()>)
        ensures
            performed(
                *old(self),
                *final(self),
                old(diagnostics)@,
                final(diagnostics)@,
                res is Ok,
                assoc_untyped(old(self).arena@, scope@, elems@, elems@.len()),
                assoc_slots(elems@, elems@.len()),
            ),
            res is Ok <==> assoc_ok(elems@, elems@.len()),
        decreases assoc_size(elems@, elems@.len()), 1nat, 1nat,
    {
        reveal(assoc_untyped);
        reveal(expr_untyped);
        let ghost arena = self.arena@;
        let ghost out = assoc_untyped(arena, scope@, elems@, elems@.len());
        let ghost all = assoc_slots(elems@, elems@.len());
        proof {
            lemma_performed_nothing(*self, diagnostics@);
        }
        if !assoc_is_ok(elems) {
            proof {
                lemma_performed_gave_up(*self, *self, diagnostics@, out, all);
            }
            return Err(FatalError::MalformedAssociationList);
        }
        proof {
            lemma_assoc_ok_prefix(elems@, 0, elems@.len());
        }
        let mut i: usize = 0;
        while i < elems.len()
            invariant
                i <= elems.len(),
                arena == old(self).arena@,
                out == assoc_untyped(arena, scope@, elems@, elems@.len()),
                all == assoc_slots(elems@, elems@.len()),
                assoc_shape_ok(elems@),
                assoc_ok(elems@, elems@.len()),
                assoc_ok(elems@, i as nat),
                performed(
                    *old(self),
                    *self,
                    old(diagnostics)@,
                    diagnostics@,
                    true,
                    assoc_untyped(arena, scope@, elems@, i as nat),
                    assoc_slots(elems@, i as nat),
                ),
            decreases elems.len() - i,
        {
            reveal(assoc_untyped);
            reveal(expr_untyped);
            let elem = &elems[i];
            let ghost upto = assoc_untyped(arena, scope@, elems@, i as nat);
            let ghost first = *self;
            let ghost sink_first = diagnostics@;
            proof {
                lemma_performed_facts(
                    *old(self),
                    first,
                    old(diagnostics)@,
                    sink_first,
                    true,
                    upto,
                    assoc_slots(elems@, i as nat),
                );
                lemma_assoc_size_mono(elems@, (i + 1) as nat, elems@.len());
            }
            match &elem.formal {
                Some(name) => {
                    self.references.clear_reference(name.reference);
                    proof {
                        lemma_performed_unbind(first, *self, diagnostics@, name.reference);
                    }
                },
                None => {
                    proof {
                        lemma_performed_nothing(*self, diagnostics@);
                    }
                },
            }
            let ghost second = *self;
            let ghost actual_out = actual_outcome(arena, scope@, None, elems@[i as int].actual);
            proof {
                lemma_performed_both(
                    *old(self),
                    first,
                    second,
                    old(diagnostics)@,
                    sink_first,
                    sink_first,
                    upto,
                    assoc_slots(elems@, i as nat),
                    formal_cleared(*elem),
                    formal_slots(*elem),
                    true,
                );
            }
            let step = self.analyze_actual(scope, None, elem, diagnostics);
            proof {
                lemma_performed_both(
                    *old(self),
                    second,
                    *self,
                    old(diagnostics)@,
                    sink_first,
                    diagnostics@,
                    upto.followed_by(formal_cleared(*elem), formal_slots(*elem)),
                    assoc_slots(elems@, i as nat) + formal_slots(*elem),
                    actual_out,
                    actual_slots(*elem),
                    step is Ok,
                );
            }
            match step {
                Ok(_) => {},
                Err(fatal) => {
                    proof {
                        if assoc_ok(elems@, elems@.len()) {
                            lemma_assoc_ok_prefix(elems@, (i + 1) as nat, elems@.len());
                        }
                    }
                    return Err(fatal);
                },
            }
            i = i + 1;
        }
        Ok(())
    }
}

} // verus!
