//! Names, type marks, ranges and choices.
use vstd::prelude::*;
use crate::analyze::{
    AnalyzeContext, FatalError, FatalResult, Outcome, lemma_performed_bind, lemma_performed_both,
    lemma_performed_bound, lemma_performed_facts, lemma_performed_gave_up, lemma_performed_nothing,
    lemma_performed_report, lemma_performed_unbind, lemma_performed_unbound, performed,
};
use crate::ast::{
    Choice, DiscreteRange, Expression, Name, WithPos, choice_ok, choice_slots, choices_ok,
    choices_slots, drange_ok, drange_slots, expr_ok, expr_slots, names_slots, opt_ok, opt_slots,
};
use crate::data::{Diagnostic, Message, error_view, push_diagnostic, push_error};
use crate::expression::{expr_typed, expr_untyped, value_type};
use crate::named_entity::{AnyEntKind, EntityId, NamedEntity, TypeId, base_type_of, is_type};
use crate::region::{NamedEntities, Scope, ScopeView, Visible};
use crate::search::{choices_are_ok, expr_is_ok, lemma_choices_ok_prefix};
use crate::semantic::TypeCheck;

verus! {

/// A name on its own: it is bound where it stands for one declaration or
/// for a single overloaded one, and reported where it has no declaration.
pub open spec fn name_outcome(scope: ScopeView, name: Name) -> Outcome {
    match scope.visible(name.designator) {
        None => Outcome::report(
            TypeCheck::Unknown,
            error_view(name.pos, Message::NoDeclaration(name.designator)),
        ).unbind(name.reference),
        Some(Visible::Single(ent)) => Outcome::nothing().bind(name.reference, ent),
        Some(Visible::Overloaded(candidates)) => {
            if candidates.len() == 1 {
                Outcome::nothing().bind(name.reference, candidates[0])
            } else {
                Outcome::nothing().unbind(name.reference)
            }
        },
    }
}

/// The first `n` names of a list, each on its own.
pub open spec fn names_outcome(scope: ScopeView, names: Seq<Name>, n: nat) -> Outcome
    decreases n,
{
    if n == 0 || n > names.len() {
        Outcome::nothing()
    } else {
        names_outcome(scope, names, (n - 1) as nat).followed_by(
            name_outcome(scope, names[n - 1]),
            set![names[n - 1].reference],
        )
    }
}

/// The type that a name denotes as a type mark.
pub open spec fn type_mark_of(arena: Seq<NamedEntity>, scope: ScopeView, name: Name) -> Option<
    TypeId,
> {
    match scope.visible(name.designator) {
        Some(Visible::Single(ent)) => if is_type(arena, ent) {
            Some(ent)
        } else {
            None
        },
        _ => None,
    }
}

/// A name as a type mark: it is bound where it stands for one declaration,
/// and reported where that is not a type.
pub open spec fn type_mark_outcome(arena: Seq<NamedEntity>, scope: ScopeView, name: Name) -> Outcome {
    match scope.visible(name.designator) {
        None => Outcome::report(
            TypeCheck::Unknown,
            error_view(name.pos, Message::NoDeclaration(name.designator)),
        ).unbind(name.reference),
        Some(Visible::Single(ent)) => {
            if is_type(arena, ent) {
                Outcome::nothing().bind(name.reference, ent)
            } else {
                Outcome::report(
                    TypeCheck::NotOk,
                    error_view(name.pos, Message::ExpectedType(name.designator)),
                ).bind(name.reference, ent)
            }
        },
        Some(Visible::Overloaded(_)) => Outcome::report(
            TypeCheck::NotOk,
            error_view(name.pos, Message::ExpectedType(name.designator)),
        ).unbind(name.reference),
    }
}

/// An expression against the type that is expected, or on its own where
/// none is.
pub open spec fn opt_typed(
    arena: Seq<NamedEntity>,
    scope: ScopeView,
    target_type: Option<TypeId>,
    expr: WithPos<Expression>,
) -> Outcome {
    match target_type {
        Some(typ) => expr_typed(arena, scope, typ, expr.pos, expr.item),
        None => expr_untyped(arena, scope, expr.item),
    }
}

/// An expression that may be absent, against the type that is expected.
pub open spec fn optional_typed(
    arena: Seq<NamedEntity>,
    scope: ScopeView,
    target_type: Option<TypeId>,
    expr: Option<WithPos<Expression>>,
) -> Outcome {
    match expr {
        Some(expr) => opt_typed(arena, scope, target_type, expr),
        None => Outcome::nothing(),
    }
}

/// The type of an expression where it can be told without a context: the
/// base type of the object that a name denotes.
pub open spec fn unambiguous_type(arena: Seq<NamedEntity>, scope: ScopeView, expr: Expression) -> Option<
    TypeId,
> {
    match expr {
        Expression::Name(name) => match scope.visible(name.designator) {
            Some(Visible::Single(ent)) => match value_type(arena, ent) {
                Some(Some(typ)) => Some(base_type_of(arena, typ)),
                _ => None,
            },
            _ => None,
        },
        _ => None,
    }
}

/// The type of the values of a discrete range: the type that the type mark
/// denotes, or the type of the left bound.
pub open spec fn drange_type(arena: Seq<NamedEntity>, scope: ScopeView, drange: DiscreteRange) -> Option<
    TypeId,
> {
    match drange {
        DiscreteRange::Discrete(name) => type_mark_of(arena, scope, name),
        DiscreteRange::Range(left, _) => unambiguous_type(arena, scope, left.item),
    }
}

/// A discrete range on its own: the left bound is analyzed on its own and
/// the right bound against the type of the left one.
pub open spec fn drange_outcome(arena: Seq<NamedEntity>, scope: ScopeView, drange: DiscreteRange) -> Outcome {
    match drange {
        DiscreteRange::Discrete(name) => type_mark_outcome(arena, scope, name),
        DiscreteRange::Range(left, right) => expr_untyped(arena, scope, left.item).followed_by(
            opt_typed(arena, scope, unambiguous_type(arena, scope, left.item), right),
            expr_slots(right.item),
        ),
    }
}

/// A discrete range of which the type of the values is expected.
pub open spec fn drange_typed(
    arena: Seq<NamedEntity>,
    scope: ScopeView,
    target_type: Option<TypeId>,
    drange: DiscreteRange,
) -> Outcome {
    match drange {
        DiscreteRange::Discrete(name) => type_mark_outcome(arena, scope, name),
        DiscreteRange::Range(left, right) => opt_typed(arena, scope, target_type, left).followed_by(
            opt_typed(arena, scope, target_type, right),
            expr_slots(right.item),
        ),
    }
}

/// A choice against the type of the selector.
pub open spec fn choice_outcome(
    arena: Seq<NamedEntity>,
    scope: ScopeView,
    target_type: Option<TypeId>,
    choice: Choice,
) -> Outcome {
    match choice {
        Choice::Expression(expr) => opt_typed(arena, scope, target_type, expr),
        Choice::DiscreteRange(drange) => drange_typed(arena, scope, target_type, drange),
        Choice::Others => Outcome::nothing(),
    }
}

/// The first `n` choices against the type of the selector.
pub open spec fn choices_outcome(
    arena: Seq<NamedEntity>,
    scope: ScopeView,
    target_type: Option<TypeId>,
    choices: Seq<Choice>,
    n: nat,
) -> Outcome
    decreases n,
{
    if n == 0 || n > choices.len() {
        Outcome::nothing()
    } else {
        choices_outcome(arena, scope, target_type, choices, (n - 1) as nat).followed_by(
            choice_outcome(arena, scope, target_type, choices[n - 1]),
            choice_slots(choices[n - 1]),
        )
    }
}

impl AnalyzeContext {
    /// Whether a declaration is a type.
    pub fn is_type(&self, ent: EntityId) -> (res: bool)
        ensures
            res == is_type(self.arena@, ent),
    {
        match self.arena.get(ent) {
            Some(r) => match &r.ent.kind {
                AnyEntKind::Type(_) => true,
                _ => false,
            },
            None => false,
        }
    }

    /// Resolves a name on its own.
    pub fn resolve_name(&mut self, scope: &Scope, name: &Name, diagnostics: &mut Vec<Diagnostic>)
        ensures
            performed(
                *old(self),
                *final(self),
                old(diagnostics)@,
                final(diagnostics)@,
                true,
                name_outcome(scope@, *name),
                set![name.reference],
            ),
    {
        match scope.lookup(&name.pos, &name.designator) {
            Err(d) => {
                let ghost dv = d@;
                push_diagnostic(diagnostics, d);
                self.references.clear_reference(name.reference);
                proof {
                    lemma_performed_report(
                        *old(self),
                        old(diagnostics)@,
                        diagnostics@,
                        TypeCheck::Unknown,
                        dv,
                    );
                    lemma_performed_unbound(
                        *old(self),
                        *old(self),
                        *self,
                        old(diagnostics)@,
                        diagnostics@,
                        Outcome::report(TypeCheck::Unknown, dv),
                        Set::empty(),
                        name.reference,
                    );
                }
            },
            Ok(NamedEntities::Single(ent)) => {
                self.references.set_unique_reference(name.reference, ent);
                proof {
                    lemma_performed_bind(*old(self), *self, diagnostics@, name.reference, ent);
                }
            },
            Ok(NamedEntities::Overloaded(overloaded)) => {
                if overloaded.len() == 1 {
                    self.references.set_unique_reference(name.reference, overloaded.entities[0]);
                    proof {
                        lemma_performed_bind(
                            *old(self),
                            *self,
                            diagnostics@,
                            name.reference,
                            overloaded@[0],
                        );
                    }
                } else {
                    self.references.clear_reference(name.reference);
                    proof {
                        lemma_performed_unbind(*old(self), *self, diagnostics@, name.reference);
                    }
                }
            },
        }
    }

    /// Resolves the names of a sensitivity list, each on its own.
    pub fn sensitivity_list_check(
        &mut self,
        scope: &Scope,
        names: &Vec<Name>,
        diagnostics: &mut Vec<Diagnostic>,
    )
        ensures
            performed(
                *old(self),
                *final(self),
                old(diagnostics)@,
                final(diagnostics)@,
                true,
                names_outcome(scope@, names@, names@.len()),
                names_slots(names@, names@.len()),
            ),
    {
        let mut i: usize = 0;
        proof {
            lemma_performed_nothing(*self, diagnostics@);
        }
        while i < names.len()
            invariant
                i <= names.len(),
                performed(
                    *old(self),
                    *self,
                    old(diagnostics)@,
                    diagnostics@,
                    true,
                    names_outcome(scope@, names@, i as nat),
                    names_slots(names@, i as nat),
                ),
            decreases names.len() - i,
        {
            let ghost first = *self;
            let ghost sink = diagnostics@;
            self.resolve_name(scope, &names[i], diagnostics);
            proof {
                lemma_performed_both(
                    *old(self),
                    first,
                    *self,
                    old(diagnostics)@,
                    sink,
                    diagnostics@,
                    names_outcome(scope@, names@, i as nat),
                    names_slots(names@, i as nat),
                    name_outcome(scope@, names@[i as int]),
                    set![names@[i as int].reference],
                    true,
                );
            }
            i = i + 1;
        }
    }

    /// Resolves a name as a type mark.
    pub fn resolve_type_mark(
        &mut self,
        scope: &Scope,
        name: &Name,
        diagnostics: &mut Vec<Diagnostic>,
    ) -> (typ: Option<TypeId>)
        ensures
            performed(
                *old(self),
                *final(self),
                old(diagnostics)@,
                final(diagnostics)@,
                true,
                type_mark_outcome(old(self).arena@, scope@, *name),
                set![name.reference],
            ),
            typ == type_mark_of(old(self).arena@, scope@, *name),
    {
        match scope.lookup(&name.pos, &name.designator) {
            Err(d) => {
                let ghost dv = d@;
                push_diagnostic(diagnostics, d);
                self.references.clear_reference(name.reference);
                proof {
                    lemma_performed_report(
                        *old(self),
                        old(diagnostics)@,
                        diagnostics@,
                        TypeCheck::Unknown,
                        dv,
                    );
                    lemma_performed_unbound(
                        *old(self),
                        *old(self),
                        *self,
                        old(diagnostics)@,
                        diagnostics@,
                        Outcome::report(TypeCheck::Unknown, dv),
                        Set::empty(),
                        name.reference,
                    );
                }
                None
            },
            Ok(NamedEntities::Single(ent)) => {
                if self.is_type(ent) {
                    self.references.set_unique_reference(name.reference, ent);
                    proof {
                        lemma_performed_bind(*old(self), *self, diagnostics@, name.reference, ent);
                    }
                    Some(ent)
                } else {
                    push_error(diagnostics, name.pos, Message::ExpectedType(name.designator));
                    self.references.set_unique_reference(name.reference, ent);
                    proof {
                        let dv = error_view(name.pos, Message::ExpectedType(name.designator));
                        lemma_performed_report(
                            *old(self),
                            old(diagnostics)@,
                            diagnostics@,
                            TypeCheck::NotOk,
                            dv,
                        );
                        lemma_performed_bound(
                            *old(self),
                            *old(self),
                            *self,
                            old(diagnostics)@,
                            diagnostics@,
                            Outcome::report(TypeCheck::NotOk, dv),
                            Set::empty(),
                            name.reference,
                            ent,
                        );
                    }
                    None
                }
            },
            Ok(NamedEntities::Overloaded(_)) => {
                push_error(diagnostics, name.pos, Message::ExpectedType(name.designator));
                self.references.clear_reference(name.reference);
                proof {
                    let dv = error_view(name.pos, Message::ExpectedType(name.designator));
                    lemma_performed_report(
                        *old(self),
                        old(diagnostics)@,
                        diagnostics@,
                        TypeCheck::NotOk,
                        dv,
                    );
                    lemma_performed_unbound(
                        *old(self),
                        *old(self),
                        *self,
                        old(diagnostics)@,
                        diagnostics@,
                        Outcome::report(TypeCheck::NotOk, dv),
                        Set::empty(),
                        name.reference,
                    );
                }
                None
            },
        }
    }

    /// Analyzes an expression against the type that is expected, or on its
    /// own where none is.
    pub fn expr_opt_ttyp(
        &mut self,
        scope: &Scope,
        target_type: Option<TypeId>,
        expr: &WithPos<Expression>,
        diagnostics: &mut Vec<Diagnostic>,
    ) -> (res: FatalResult<()>)
        ensures
            performed(
                *old(self),
                *final(self),
                old(diagnostics)@,
                final(diagnostics)@,
                res is Ok,
                opt_typed(old(self).arena@, scope@, target_type, *expr),
                expr_slots(expr.item),
            ),
            res is Ok <==> expr_ok(expr.item),
    {
        match target_type {
            Some(typ) => match self.analyze_expression_with_target_type(
                scope,
                typ,
                &expr.pos,
                &expr.item,
                diagnostics,
            ) {
                Ok(_) => Ok(()),
                Err(fatal) => Err(fatal),
            },
            None => self.analyze_expression_pos(scope, &expr.pos, &expr.item, diagnostics),
        }
    }

    /// Analyzes an expression against the type that is expected.
    pub fn expr_with_ttyp(
        &mut self,
        scope: &Scope,
        target_type: TypeId,
        expr: &WithPos<Expression>,
        diagnostics: &mut Vec<Diagnostic>,
    ) -> (res: FatalResult<()>)
        ensures
            performed(
                *old(self),
                *final(self),
                old(diagnostics)@,
                final(diagnostics)@,
                res is Ok,
                opt_typed(old(self).arena@, scope@, Some(target_type), *expr),
                expr_slots(expr.item),
            ),
            res is Ok <==> expr_ok(expr.item),
    {
        self.expr_opt_ttyp(scope, Some(target_type), expr, diagnostics)
    }

    /// Analyzes an expression where no type is expected.
    pub fn expr_unknown_ttyp(
        &mut self,
        scope: &Scope,
        expr: &WithPos<Expression>,
        diagnostics: &mut Vec<Diagnostic>,
    ) -> (res: FatalResult<()>)
        ensures
            performed(
                *old(self),
                *final(self),
                old(diagnostics)@,
                final(diagnostics)@,
                res is Ok,
                opt_typed(old(self).arena@, scope@, None, *expr),
                expr_slots(expr.item),
            ),
            res is Ok <==> expr_ok(expr.item),
    {
        self.expr_opt_ttyp(scope, None, expr, diagnostics)
    }

    /// Analyzes an expression against the predefined type `boolean`.
    pub fn boolean_expr(
        &mut self,
        scope: &Scope,
        expr: &WithPos<Expression>,
        diagnostics: &mut Vec<Diagnostic>,
    ) -> (res: FatalResult<()>)
        ensures
            performed(
                *old(self),
                *final(self),
                old(diagnostics)@,
                final(diagnostics)@,
                res is Ok,
                opt_typed(old(self).arena@, scope@, Some(old(self).standard.boolean), *expr),
                expr_slots(expr.item),
            ),
            res is Ok <==> expr_ok(expr.item),
    {
        let boolean = self.boolean();
        self.expr_opt_ttyp(scope, Some(boolean), expr, diagnostics)
    }

    /// Analyzes an expression that may be absent.
    pub fn optional_expr(
        &mut self,
        scope: &Scope,
        target_type: Option<TypeId>,
        expr: &Option<WithPos<Expression>>,
        diagnostics: &mut Vec<Diagnostic>,
    ) -> (res: FatalResult<()>)
        ensures
            performed(
                *old(self),
                *final(self),
                old(diagnostics)@,
                final(diagnostics)@,
                res is Ok,
                optional_typed(old(self).arena@, scope@, target_type, *expr),
                opt_slots(*expr),
            ),
            res is Ok <==> opt_ok(*expr),
    {
        match expr {
            Some(expr) => self.expr_opt_ttyp(scope, target_type, expr, diagnostics),
            None => {
                proof {
                    lemma_performed_nothing(*self, diagnostics@);
                }
                Ok(())
            },
        }
    }

    /// The type of an expression where it can be told without a context.
    pub fn unambiguous_type(&self, scope: &Scope, expr: &WithPos<Expression>) -> (typ: Option<
        TypeId,
    >)
        ensures
            typ == unambiguous_type(self.arena@, scope@, expr.item),
    {
        match &expr.item {
            Expression::Name(name) => match scope.lookup(&name.pos, &name.designator) {
                Ok(NamedEntities::Single(ent)) => match self.value_type(ent) {
                    Some(Some(typ)) => Some(self.arena.base_type(typ)),
                    _ => None,
                },
                _ => None,
            },
            _ => None,
        }
    }

    /// Analyzes an expression on its own and tells its type where that can
    /// be told without a context.
    pub fn expr_unambiguous_type(
        &mut self,
        scope: &Scope,
        expr: &WithPos<Expression>,
        diagnostics: &mut Vec<Diagnostic>,
    ) -> (res: FatalResult<Option<TypeId>>)
        ensures
            performed(
                *old(self),
                *final(self),
                old(diagnostics)@,
                final(diagnostics)@,
                res is Ok,
                opt_typed(old(self).arena@, scope@, None, *expr),
                expr_slots(expr.item),
            ),
            res is Ok <==> expr_ok(expr.item),
            res matches Ok(typ) ==> typ == unambiguous_type(old(self).arena@, scope@, expr.item),
    {
        let typ = self.unambiguous_type(scope, expr);
        match self.analyze_expression_pos(scope, &expr.pos, &expr.item, diagnostics) {
            Ok(()) => Ok(typ),
            Err(fatal) => Err(fatal),
        }
    }

    /// Analyzes the two bounds of a range, the second after the first.
    fn analyze_bounds(
        &mut self,
        scope: &Scope,
        left_type: Option<TypeId>,
        left: &WithPos<Expression>,
        right_type: Option<TypeId>,
        right: &WithPos<Expression>,
        diagnostics: &mut Vec<Diagnostic>,
    ) -> (res: FatalResult<()>)
        ensures
            performed(
                *old(self),
                *final(self),
                old(diagnostics)@,
                final(diagnostics)@,
                res is Ok,
                opt_typed(old(self).arena@, scope@, left_type, *left).followed_by(
                    opt_typed(old(self).arena@, scope@, right_type, *right),
                    expr_slots(right.item),
                ),
                expr_slots(left.item) + expr_slots(right.item),
            ),
            res is Ok <==> expr_ok(left.item) && expr_ok(right.item),
    {
        let ghost arena = self.arena@;
        let ghost first = opt_typed(arena, scope@, left_type, *left);
        let ghost second = opt_typed(arena, scope@, right_type, *right);
        if !(expr_is_ok(&left.item) && expr_is_ok(&right.item)) {
            proof {
                lemma_performed_gave_up(
                    *self,
                    *self,
                    diagnostics@,
                    first.followed_by(second, expr_slots(right.item)),
                    expr_slots(left.item) + expr_slots(right.item),
                );
            }
            return Err(FatalError::MalformedAssociationList);
        }
        match self.expr_opt_ttyp(scope, left_type, left, diagnostics) {
            Ok(()) => {},
            Err(fatal) => {
                return Err(fatal);
            },
        }
        let ghost middle = *self;
        let ghost sink = diagnostics@;
        proof {
            lemma_performed_facts(
                *old(self),
                middle,
                old(diagnostics)@,
                sink,
                true,
                first,
                expr_slots(left.item),
            );
        }
        let res = self.expr_opt_ttyp(scope, right_type, right, diagnostics);
        proof {
            lemma_performed_both(
                *old(self),
                middle,
                *self,
                old(diagnostics)@,
                sink,
                diagnostics@,
                first,
                expr_slots(left.item),
                second,
                expr_slots(right.item),
                res is Ok,
            );
        }
        res
    }

    /// Analyzes a discrete range on its own and tells the type of its
    /// values where that can be told.
    pub fn drange_type(
        &mut self,
        scope: &Scope,
        drange: &DiscreteRange,
        diagnostics: &mut Vec<Diagnostic>,
    ) -> (res: FatalResult<Option<TypeId>>)
        ensures
            performed(
                *old(self),
                *final(self),
                old(diagnostics)@,
                final(diagnostics)@,
                res is Ok,
                drange_outcome(old(self).arena@, scope@, *drange),
                drange_slots(*drange),
            ),
            res is Ok <==> drange_ok(*drange),
            res matches Ok(typ) ==> typ == drange_type(old(self).arena@, scope@, *drange),
    {
        match drange {
            DiscreteRange::Discrete(name) => {
                let typ = self.resolve_type_mark(scope, name, diagnostics);
                Ok(typ)
            },
            DiscreteRange::Range(left, right) => {
                let typ = self.unambiguous_type(scope, left);
                match self.analyze_bounds(scope, None, left, typ, right, diagnostics) {
                    Ok(()) => Ok(typ),
                    Err(fatal) => Err(fatal),
                }
            },
        }
    }

    /// Analyzes a discrete range of which the type of the values is
    /// expected.
    pub fn drange_with_ttyp(
        &mut self,
        scope: &Scope,
        target_type: Option<TypeId>,
        drange: &DiscreteRange,
        diagnostics: &mut Vec<Diagnostic>,
    ) -> (res: FatalResult<()>)
        ensures
            performed(
                *old(self),
                *final(self),
                old(diagnostics)@,
                final(diagnostics)@,
                res is Ok,
                drange_typed(old(self).arena@, scope@, target_type, *drange),
                drange_slots(*drange),
            ),
            res is Ok <==> drange_ok(*drange),
    {
        match drange {
            DiscreteRange::Discrete(name) => {
                self.resolve_type_mark(scope, name, diagnostics);
                Ok(())
            },
            DiscreteRange::Range(left, right) => self.analyze_bounds(
                scope,
                target_type,
                left,
                target_type,
                right,
                diagnostics,
            ),
        }
    }

    /// Analyzes one choice against the type of the selector.
    fn analyze_choice(
        &mut self,
        scope: &Scope,
        target_type: Option<TypeId>,
        choice: &Choice,
        diagnostics: &mut Vec<Diagnostic>,
    ) -> (res: FatalResult<()>)
        ensures
            performed(
                *old(self),
                *final(self),
                old(diagnostics)@,
                final(diagnostics)@,
                res is Ok,
                choice_outcome(old(self).arena@, scope@, target_type, *choice),
                choice_slots(*choice),
            ),
            res is Ok <==> choice_ok(*choice),
    {
        match choice {
            Choice::Expression(expr) => self.expr_opt_ttyp(scope, target_type, expr, diagnostics),
            Choice::DiscreteRange(drange) => self.drange_with_ttyp(
                scope,
                target_type,
                drange,
                diagnostics,
            ),
            Choice::Others => {
                proof {
                    lemma_performed_nothing(*self, diagnostics@);
                }
                Ok(())
            },
        }
    }

    /// Analyzes the choices of an alternative against the type of the
    /// selector.
    pub fn choice_with_ttyp(
        &mut self,
        scope: &Scope,
        target_type: Option<TypeId>,
        choices: &Vec<Choice>,
        diagnostics: &mut Vec<Diagnostic>,
    ) -> (res: FatalResult<()>)
        ensures
            performed(
                *old(self),
                *final(self),
                old(diagnostics)@,
                final(diagnostics)@,
                res is Ok,
                choices_outcome(old(self).arena@, scope@, target_type, choices@, choices@.len()),
                choices_slots(choices@, choices@.len()),
            ),
            res is Ok <==> choices_ok(choices@, choices@.len()),
    {
        let ghost arena = self.arena@;
        let ghost out = choices_outcome(arena, scope@, target_type, choices@, choices@.len());
        let ghost all = choices_slots(choices@, choices@.len());
        if !choices_are_ok(choices) {
            proof {
                lemma_performed_gave_up(*self, *self, diagnostics@, out, all);
            }
            return Err(FatalError::MalformedAssociationList);
        }
        let mut i: usize = 0;
        proof {
            lemma_performed_nothing(*self, diagnostics@);
        }
        while i < choices.len()
            invariant
                i <= choices.len(),
                choices_ok(choices@, choices@.len()),
                arena == old(self).arena@,
                out == choices_outcome(arena, scope@, target_type, choices@, choices@.len()),
                all == choices_slots(choices@, choices@.len()),
                choices_ok(choices@, i as nat),
                performed(
                    *old(self),
                    *self,
                    old(diagnostics)@,
                    diagnostics@,
                    true,
                    choices_outcome(arena, scope@, target_type, choices@, i as nat),
                    choices_slots(choices@, i as nat),
                ),
            decreases choices.len() - i,
        {
            let ghost upto = choices_outcome(arena, scope@, target_type, choices@, i as nat);
            let ghost first = *self;
            let ghost sink = diagnostics@;
            proof {
                lemma_performed_facts(
                    *old(self),
                    first,
                    old(diagnostics)@,
                    sink,
                    true,
                    upto,
                    choices_slots(choices@, i as nat),
                );
            }
            let step = self.analyze_choice(scope, target_type, &choices[i], diagnostics);
            proof {
                lemma_performed_both(
                    *old(self),
                    first,
                    *self,
                    old(diagnostics)@,
                    sink,
                    diagnostics@,
                    upto,
                    choices_slots(choices@, i as nat),
                    choice_outcome(arena, scope@, target_type, choices@[i as int]),
                    choice_slots(choices@[i as int]),
                    step is Ok,
                );
            }
            match step {
                Ok(()) => {},
                Err(fatal) => {
                    proof {
                        if choices_ok(choices@, choices@.len()) {
                            lemma_choices_ok_prefix(choices@, (i + 1) as nat, choices@.len());
                        }
                    }
                    return Err(fatal);
                },
            }
            i = i + 1;
        }
        Ok(())
    }
}

} // verus!
