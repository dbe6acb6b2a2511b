//! Targets of assignments, assignments, and procedure calls.
use vstd::prelude::*;
use crate::analyze::{
    AnalyzeContext, FatalError, FatalResult, Outcome, lemma_performed_bind, lemma_performed_both,
    lemma_performed_bound, lemma_performed_facts, lemma_performed_gave_up, lemma_performed_nothing,
    lemma_performed_report, lemma_performed_unbound, performed,
};
use crate::ast::{
    Expression, FunctionCall, Name, Reference, WaveformElement, WithPos, assoc_ok, assoc_slots,
    expr_ok, expr_slots, opt_slots, waveform_ok, waveform_slots,
};
use crate::data::{Diagnostic, Message, error_view, push_diagnostic, push_error};
use crate::expression::call_typed;
use crate::named_entity::{AnyEntKind, EntityId, NamedEntity, ObjectClass, TypeId};
use crate::names::{opt_typed, optional_typed};
use crate::overloaded::{Parameters, ParametersMut};
use crate::region::{NamedEntities, Scope, ScopeView, Visible};
use crate::search::{expr_is_ok, lemma_waveform_ok_prefix, waveform_is_ok};
use crate::semantic::TypeCheck;

verus! {

/// What an assignment statement assigns to.
#[derive(Clone, Copy, Debug, PartialEq, Eq, Structural)]
pub enum AssignmentType {
    Signal,
    Variable,
}

/// The type of a declaration as the target of an assignment: that of a
/// signal for a signal assignment, that of a variable for a variable
/// assignment, and none for every other declaration.
pub open spec fn assignable_type(
    arena: Seq<NamedEntity>,
    ent: EntityId,
    assignment_type: AssignmentType,
) -> Option<TypeId> {
    if ent < arena.len() {
        match arena[ent as int].kind {
            AnyEntKind::Object(object) => {
                let fits = match assignment_type {
                    AssignmentType::Signal => object.class == ObjectClass::Signal,
                    AssignmentType::Variable => object.class == ObjectClass::Variable
                        || object.class == ObjectClass::SharedVariable,
                };
                if fits {
                    Some(object.subtype.type_mark)
                } else {
                    None
                }
            },
            _ => None,
        }
    } else {
        None
    }
}

/// The type of the target of an assignment, where the target is valid.
pub open spec fn target_type(
    arena: Seq<NamedEntity>,
    scope: ScopeView,
    target: Name,
    assignment_type: AssignmentType,
) -> Option<TypeId> {
    match scope.visible(target.designator) {
        Some(Visible::Single(ent)) => assignable_type(arena, ent, assignment_type),
        _ => None,
    }
}

/// The target of an assignment: it is bound where it stands for one
/// declaration, and reported where that cannot be assigned to.
pub open spec fn target_outcome(
    arena: Seq<NamedEntity>,
    scope: ScopeView,
    target: Name,
    assignment_type: AssignmentType,
) -> Outcome {
    match scope.visible(target.designator) {
        None => Outcome::report(
            TypeCheck::Unknown,
            error_view(target.pos, Message::NoDeclaration(target.designator)),
        ).unbind(target.reference),
        Some(Visible::Single(ent)) => {
            if assignable_type(arena, ent, assignment_type) is Some {
                Outcome::nothing().bind(target.reference, ent)
            } else {
                Outcome::report(
                    TypeCheck::NotOk,
                    error_view(target.pos, Message::InvalidTarget(target.designator)),
                ).bind(target.reference, ent)
            }
        },
        Some(Visible::Overloaded(_)) => Outcome::report(
            TypeCheck::NotOk,
            error_view(target.pos, Message::InvalidTarget(target.designator)),
        ).unbind(target.reference),
    }
}

/// An assignment of an expression: the target, then the expression against
/// the type of the target.
pub open spec fn expr_assignment(
    arena: Seq<NamedEntity>,
    scope: ScopeView,
    target: Name,
    assignment_type: AssignmentType,
    rhs: WithPos<Expression>,
) -> Outcome {
    target_outcome(arena, scope, target, assignment_type).followed_by(
        opt_typed(arena, scope, target_type(arena, scope, target, assignment_type), rhs),
        expr_slots(rhs.item),
    )
}

/// The first `n` elements of a waveform: each value against the type of
/// the target and each delay against the predefined type `time`.
pub open spec fn waveform_outcome(
    arena: Seq<NamedEntity>,
    scope: ScopeView,
    time: TypeId,
    target_type: Option<TypeId>,
    elems: Seq<WaveformElement>,
    n: nat,
) -> Outcome
    decreases n,
{
    if n == 0 || n > elems.len() {
        Outcome::nothing()
    } else {
        waveform_outcome(arena, scope, time, target_type, elems, (n - 1) as nat).followed_by(
            opt_typed(arena, scope, target_type, elems[n - 1].value),
            expr_slots(elems[n - 1].value.item),
        ).followed_by(
            optional_typed(arena, scope, Some(time), elems[n - 1].after),
            opt_slots(elems[n - 1].after),
        )
    }
}

/// An assignment of a waveform: the target, then the waveform.
pub open spec fn waveform_assignment(
    arena: Seq<NamedEntity>,
    scope: ScopeView,
    time: TypeId,
    target: Name,
    assignment_type: AssignmentType,
    rhs: Seq<WaveformElement>,
) -> Outcome {
    target_outcome(arena, scope, target, assignment_type).followed_by(
        waveform_outcome(
            arena,
            scope,
            time,
            target_type(arena, scope, target, assignment_type),
            rhs,
            rhs.len(),
        ),
        waveform_slots(rhs, rhs.len()),
    )
}

/// A procedure call: a call where no value is expected.
pub open spec fn procedure_call(arena: Seq<NamedEntity>, scope: ScopeView, call: FunctionCall) -> Outcome {
    call_typed(arena, scope, None, call.name, Parameters::AssociationList(call.parameters@))
}

/// The slots of the name nodes of a call.
pub open spec fn call_slots(call: FunctionCall) -> Set<Reference> {
    assoc_slots(call.parameters@, call.parameters@.len()).insert(call.name.reference)
}

/// Whether every association list of a call is well shaped.
pub open spec fn call_ok(call: FunctionCall) -> bool {
    assoc_ok(call.parameters@, call.parameters@.len())
}

impl AnalyzeContext {
    /// The type of a declaration as the target of an assignment.
    pub fn assignable_type(&self, ent: EntityId, assignment_type: AssignmentType) -> (typ: Option<
        TypeId,
    >)
        ensures
            typ == assignable_type(self.arena@, ent, assignment_type),
    {
        match self.arena.get(ent) {
            Some(r) => match &r.ent.kind {
                AnyEntKind::Object(object) => {
                    let fits = match assignment_type {
                        AssignmentType::Signal => object.class == ObjectClass::Signal,
                        AssignmentType::Variable => object.class == ObjectClass::Variable
                            || object.class == ObjectClass::SharedVariable,
                    };
                    if fits {
                        Some(object.subtype.type_mark)
                    } else {
                        None
                    }
                },
                _ => None,
            },
            None => None,
        }
    }

    /// Resolves the target of an assignment and tells its type where it is
    /// valid.
    pub fn resolve_target(
        &mut self,
        scope: &Scope,
        target: &Name,
        assignment_type: AssignmentType,
        diagnostics: &mut Vec<Diagnostic>,
    ) -> (typ: Option<TypeId>)
        ensures
            performed(
                *old(self),
                *final(self),
                old(diagnostics)@,
                final(diagnostics)@,
                true,
                target_outcome(old(self).arena@, scope@, *target, assignment_type),
                set![target.reference],
            ),
            typ == target_type(old(self).arena@, scope@, *target, assignment_type),
    {
        match scope.lookup(&target.pos, &target.designator) {
            Err(d) => {
                let ghost dv = d@;
                push_diagnostic(diagnostics, d);
                self.references.clear_reference(target.reference);
                proof {
                    lemma_performed_report(
                        *old(self),
                        old(diagnostics)@,
                        diagnostics@,
                        TypeCheck::Unknown,
                        dv,
                    );
                    lemma_performed_unbound(
                        *old(self),
                        *old(self),
                        *self,
                        old(diagnostics)@,
                        diagnostics@,
                        Outcome::report(TypeCheck::Unknown, dv),
                        Set::empty(),
                        target.reference,
                    );
                }
                None
            },
            Ok(NamedEntities::Single(ent)) => {
                let typ = self.assignable_type(ent, assignment_type);
                if typ.is_some() {
                    self.references.set_unique_reference(target.reference, ent);
                    proof {
                        lemma_performed_bind(*old(self), *self, diagnostics@, target.reference, ent);
                    }
                } else {
                    push_error(diagnostics, target.pos, Message::InvalidTarget(target.designator));
                    self.references.set_unique_reference(target.reference, ent);
                    proof {
                        let dv = error_view(target.pos, Message::InvalidTarget(target.designator));
                        lemma_performed_report(
                            *old(self),
                            old(diagnostics)@,
                            diagnostics@,
                            TypeCheck::NotOk,
                            dv,
                        );
                        lemma_performed_bound(
                            *old(self),
                            *old(self),
                            *self,
                            old(diagnostics)@,
                            diagnostics@,
                            Outcome::report(TypeCheck::NotOk, dv),
                            Set::empty(),
                            target.reference,
                            ent,
                        );
                    }
                }
                typ
            },
            Ok(NamedEntities::Overloaded(_)) => {
                push_error(diagnostics, target.pos, Message::InvalidTarget(target.designator));
                self.references.clear_reference(target.reference);
                proof {
                    let dv = error_view(target.pos, Message::InvalidTarget(target.designator));
                    lemma_performed_report(
                        *old(self),
                        old(diagnostics)@,
                        diagnostics@,
                        TypeCheck::NotOk,
                        dv,
                    );
                    lemma_performed_unbound(
                        *old(self),
                        *old(self),
                        *self,
                        old(diagnostics)@,
                        diagnostics@,
                        Outcome::report(TypeCheck::NotOk, dv),
                        Set::empty(),
                        target.reference,
                    );
                }
                None
            },
        }
    }

    /// Analyzes an assignment of an expression to a target.
    pub fn analyze_expr_assignment(
        &mut self,
        scope: &Scope,
        target: &Name,
        assignment_type: AssignmentType,
        rhs: &WithPos<Expression>,
        diagnostics: &mut Vec<Diagnostic>,
    ) -> (res: FatalResult<()>)
        ensures
            performed(
                *old(self),
                *final(self),
                old(diagnostics)@,
                final(diagnostics)@,
                res is Ok,
                expr_assignment(old(self).arena@, scope@, *target, assignment_type, *rhs),
                set![target.reference] + expr_slots(rhs.item),
            ),
            res is Ok <==> expr_ok(rhs.item),
    {
        let ghost arena = self.arena@;
        if !expr_is_ok(&rhs.item) {
            proof {
                lemma_performed_gave_up(
                    *self,
                    *self,
                    diagnostics@,
                    expr_assignment(arena, scope@, *target, assignment_type, *rhs),
                    set![target.reference] + expr_slots(rhs.item),
                );
            }
            return Err(FatalError::MalformedAssociationList);
        }
        let ttyp = self.resolve_target(scope, target, assignment_type, diagnostics);
        let ghost middle = *self;
        let ghost sink = diagnostics@;
        proof {
            lemma_performed_facts(
                *old(self),
                middle,
                old(diagnostics)@,
                sink,
                true,
                target_outcome(arena, scope@, *target, assignment_type),
                set![target.reference],
            );
        }
        let res = self.expr_opt_ttyp(scope, ttyp, rhs, diagnostics);
        proof {
            lemma_performed_both(
                *old(self),
                middle,
                *self,
                old(diagnostics)@,
                sink,
                diagnostics@,
                target_outcome(arena, scope@, *target, assignment_type),
                set![target.reference],
                opt_typed(arena, scope@, ttyp, *rhs),
                expr_slots(rhs.item),
                res is Ok,
            );
        }
        res
    }

    /// Analyzes a waveform against the type of the target of the
    /// assignment.
    pub fn analyze_waveform(
        &mut self,
        scope: &Scope,
        target_type: Option<TypeId>,
        elems: &Vec<WaveformElement>,
        diagnostics: &mut Vec<Diagnostic>,
    ) -> (res: FatalResult<()>)
        ensures
            performed(
                *old(self),
                *final(self),
                old(diagnostics)@,
                final(diagnostics)@,
                res is Ok,
                waveform_outcome(
                    old(self).arena@,
                    scope@,
                    old(self).standard.time,
                    target_type,
                    elems@,
                    elems@.len(),
                ),
                waveform_slots(elems@, elems@.len()),
            ),
            res is Ok <==> waveform_ok(elems@, elems@.len()),
    {
        let ghost arena = self.arena@;
        let time = self.time();
        let ghost out = waveform_outcome(arena, scope@, time, target_type, elems@, elems@.len());
        let ghost all = waveform_slots(elems@, elems@.len());
        if !waveform_is_ok(elems) {
            proof {
                lemma_performed_gave_up(*self, *self, diagnostics@, out, all);
            }
            return Err(FatalError::MalformedAssociationList);
        }
        let mut i: usize = 0;
        proof {
            lemma_performed_nothing(*self, diagnostics@);
        }
        while i < elems.len()
            invariant
                i <= elems.len(),
                waveform_ok(elems@, elems@.len()),
                arena == old(self).arena@,
                time == old(self).standard.time,
                out == waveform_outcome(arena, scope@, time, target_type, elems@, elems@.len()),
                all == waveform_slots(elems@, elems@.len()),
                waveform_ok(elems@, i as nat),
                performed(
                    *old(self),
                    *self,
                    old(diagnostics)@,
                    diagnostics@,
                    true,
                    waveform_outcome(arena, scope@, time, target_type, elems@, i as nat),
                    waveform_slots(elems@, i as nat),
                ),
            decreases elems.len() - i,
        {
            let elem = &elems[i];
            let ghost upto = waveform_outcome(arena, scope@, time, target_type, elems@, i as nat);
            let ghost value = opt_typed(arena, scope@, target_type, elem.value);
            let ghost after = optional_typed(arena, scope@, Some(time), elem.after);
            let ghost first = *self;
            let ghost sink_first = diagnostics@;
            proof {
                lemma_performed_facts(
                    *old(self),
                    first,
                    old(diagnostics)@,
                    sink_first,
                    true,
                    upto,
                    waveform_slots(elems@, i as nat),
                );
            }
            let step = self.expr_opt_ttyp(scope, target_type, &elem.value, diagnostics);
            proof {
                lemma_performed_both(
                    *old(self),
                    first,
                    *self,
                    old(diagnostics)@,
                    sink_first,
                    diagnostics@,
                    upto,
                    waveform_slots(elems@, i as nat),
                    value,
                    expr_slots(elem.value.item),
                    step is Ok,
                );
            }
            match step {
                Ok(()) => {},
                Err(fatal) => {
                    proof {
                        if waveform_ok(elems@, elems@.len()) {
                            lemma_waveform_ok_prefix(elems@, (i + 1) as nat, elems@.len());
                        }
                    }
                    return Err(fatal);
                },
            }
            let ghost second = *self;
            let ghost sink_second = diagnostics@;
            proof {
                lemma_performed_facts(
                    *old(self),
                    second,
                    old(diagnostics)@,
                    sink_second,
                    true,
                    upto.followed_by(value, expr_slots(elem.value.item)),
                    waveform_slots(elems@, i as nat) + expr_slots(elem.value.item),
                );
            }
            let step = self.optional_expr(scope, Some(time), &elem.after, diagnostics);
            proof {
                lemma_performed_both(
                    *old(self),
                    second,
                    *self,
                    old(diagnostics)@,
                    sink_second,
                    diagnostics@,
                    upto.followed_by(value, expr_slots(elem.value.item)),
                    waveform_slots(elems@, i as nat) + expr_slots(elem.value.item),
                    after,
                    opt_slots(elem.after),
                    step is Ok,
                );
            }
            match step {
                Ok(()) => {},
                Err(fatal) => {
                    proof {
                        if waveform_ok(elems@, elems@.len()) {
                            lemma_waveform_ok_prefix(elems@, (i + 1) as nat, elems@.len());
                        }
                    }
                    return Err(fatal);
                },
            }
            i = i + 1;
        }
        Ok(())
    }

    /// Analyzes an assignment of a waveform to a target.
    pub fn analyze_waveform_assignment(
        &mut self,
        scope: &Scope,
        target: &Name,
        assignment_type: AssignmentType,
        rhs: &Vec<WaveformElement>,
        diagnostics: &mut Vec<Diagnostic>,
    ) -> (res: FatalResult<()>)
        ensures
            performed(
                *old(self),
                *final(self),
                old(diagnostics)@,
                final(diagnostics)@,
                res is Ok,
                waveform_assignment(
                    old(self).arena@,
                    scope@,
                    old(self).standard.time,
                    *target,
                    assignment_type,
                    rhs@,
                ),
                set![target.reference] + waveform_slots(rhs@, rhs@.len()),
            ),
            res is Ok <==> waveform_ok(rhs@, rhs@.len()),
    {
        let ghost arena = self.arena@;
        let ghost time = self.standard.time;
        if !waveform_is_ok(rhs) {
            proof {
                lemma_performed_gave_up(
                    *self,
                    *self,
                    diagnostics@,
                    waveform_assignment(arena, scope@, time, *target, assignment_type, rhs@),
                    set![target.reference] + waveform_slots(rhs@, rhs@.len()),
                );
            }
            return Err(FatalError::MalformedAssociationList);
        }
        let ttyp = self.resolve_target(scope, target, assignment_type, diagnostics);
        let ghost middle = *self;
        let ghost sink = diagnostics@;
        proof {
            lemma_performed_facts(
                *old(self),
                middle,
                old(diagnostics)@,
                sink,
                true,
                target_outcome(arena, scope@, *target, assignment_type),
                set![target.reference],
            );
        }
        let res = self.analyze_waveform(scope, ttyp, rhs, diagnostics);
        proof {
            lemma_performed_both(
                *old(self),
                middle,
                *self,
                old(diagnostics)@,
                sink,
                diagnostics@,
                target_outcome(arena, scope@, *target, assignment_type),
                set![target.reference],
                waveform_outcome(arena, scope@, time, ttyp, rhs@, rhs@.len()),
                waveform_slots(rhs@, rhs@.len()),
                res is Ok,
            );
        }
        res
    }

    /// Analyzes a procedure call.
    pub fn analyze_procedure_call(
        &mut self,
        scope: &Scope,
        call: &FunctionCall,
        diagnostics: &mut Vec<Diagnostic>,
    ) -> (res: FatalResult<()>)
        ensures
            performed(
                *old(self),
                *final(self),
                old(diagnostics)@,
                final(diagnostics)@,
                res is Ok,
                procedure_call(old(self).arena@, scope@, *call),
                call_slots(*call),
            ),
            res is Ok <==> call_ok(*call),
    {
        let parameters = ParametersMut::AssociationList(&call.parameters);
        match self.analyze_call_typed(scope, None, &call.name, &parameters, diagnostics) {
            Ok(_) => Ok(()),
            Err(fatal) => Err(fatal),
        }
    }
}

} // verus!
