//! Analysis of declarations.
use vstd::prelude::*;
use crate::analyze::{AnalyzeContext, FatalResult, Unit, elaborated, unit_of};
use crate::ast::{
    Declaration, Expression, Ident, InterfaceDeclaration, Name, WithPos, opt_ok, opt_slots,
};
use crate::data::{Designator, Diagnostic};
use crate::named_entity::{AnyEntKind, Mode, NamedEntity, Object, ObjectClass, Subtype, TypeId};
use crate::names::{optional_typed, type_mark_of, type_mark_outcome};
use crate::region::Scope;

verus! {

broadcast use crate::analyze::lemma_performed_advanced;

/// The declaration of an object.
pub open spec fn object_entity(
    class: ObjectClass,
    mode: Option<Mode>,
    ident: Ident,
    typ: TypeId,
    has_default: bool,
) -> NamedEntity {
    NamedEntity {
        designator: Designator::Identifier(ident.name),
        kind: AnyEntKind::Object(
            Object { class, mode, subtype: Subtype { type_mark: typ }, has_default },
        ),
        decl_pos: Some(ident.pos),
    }
}

/// The declaration of an object in a scope. The type mark is resolved and
/// the initial value is held against the type, both before the object is
/// visible; the object is declared where the type mark denotes a type.
pub open spec fn object_unit(
    class: ObjectClass,
    mode: Option<Mode>,
    ident: Ident,
    subtype: Name,
    expression: Option<WithPos<Expression>>,
    u: Unit,
) -> Unit {
    let typ = type_mark_of(u.world.arena, u.scope, subtype);
    let analyzed = u.step(
        true,
        type_mark_outcome(u.world.arena, u.scope, subtype),
        set![subtype.reference],
    ).step(
        opt_ok(expression),
        optional_typed(u.world.arena, u.scope, typ, expression),
        opt_slots(expression),
    );
    match typ {
        Some(typ) => analyzed.declare(object_entity(class, mode, ident, typ, expression is Some)),
        None => analyzed,
    }
}

/// One declaration of a declarative part.
pub open spec fn decl_unit(decl: Declaration, u: Unit) -> Unit {
    match decl {
        Declaration::Object(object) => object_unit(
            object.class,
            None,
            object.ident,
            object.subtype,
            object.expression,
            u,
        ),
    }
}

/// Whether every association list in a declaration is well shaped.
pub open spec fn decl_ok(decl: Declaration) -> bool {
    match decl {
        Declaration::Object(object) => opt_ok(object.expression),
    }
}

/// The first `n` declarations of a declarative part, in order.
pub open spec fn decls_unit(decls: Seq<Declaration>, n: nat, u: Unit) -> Unit
    decreases n,
{
    if u.world.fatal {
        u
    } else {
        if n == 0 || n > decls.len() {
            u
        } else {
            decl_unit(decls[n - 1], decls_unit(decls, (n - 1) as nat, u))
        }
    }
}

/// Whether every association list in the first `n` declarations is well
/// shaped.
pub open spec fn decls_ok(decls: Seq<Declaration>, n: nat) -> bool
    decreases n,
{
    if n == 0 || n > decls.len() {
        true
    } else {
        decls_ok(decls, (n - 1) as nat) && decl_ok(decls[n - 1])
    }
}

/// The first `n` declarations of an interface list, in order.
pub open spec fn interface_unit(decls: Seq<InterfaceDeclaration>, n: nat, u: Unit) -> Unit
    decreases n,
{
    if u.world.fatal {
        u
    } else {
        if n == 0 || n > decls.len() {
            u
        } else {
            object_unit(
                decls[n - 1].class,
                Some(decls[n - 1].mode),
                decls[n - 1].ident,
                decls[n - 1].subtype,
                decls[n - 1].expression,
                interface_unit(decls, (n - 1) as nat, u),
            )
        }
    }
}

/// Whether every association list in the first `n` declarations of an
/// interface list is well shaped.
pub open spec fn interface_ok(decls: Seq<InterfaceDeclaration>, n: nat) -> bool
    decreases n,
{
    if n == 0 || n > decls.len() {
        true
    } else {
        interface_ok(decls, (n - 1) as nat) && opt_ok(decls[n - 1].expression)
    }
}

/// Once the run over a declarative part is given up, the declarations
/// that follow change nothing.
pub proof fn lemma_decls_stays(decls: Seq<Declaration>, k: nat, n: nat, u: Unit)
    requires
        k <= n <= decls.len(),
        decls_unit(decls, k, u).world.fatal,
    ensures
        decls_unit(decls, n, u) == decls_unit(decls, k, u),
    decreases n,
{
    if k < n {
        lemma_decls_stays(decls, k, (n - 1) as nat, u);
    }
}

/// Once the run over an interface list is given up, the declarations that
/// follow change nothing.
pub proof fn lemma_interface_stays(decls: Seq<InterfaceDeclaration>, k: nat, n: nat, u: Unit)
    requires
        k <= n <= decls.len(),
        interface_unit(decls, k, u).world.fatal,
    ensures
        interface_unit(decls, n, u) == interface_unit(decls, k, u),
    decreases n,
{
    if k < n {
        lemma_interface_stays(decls, k, (n - 1) as nat, u);
    }
}

/// Declarations that are well formed up to one of them are well formed up
/// to every earlier one.
pub proof fn lemma_decls_ok_prefix(decls: Seq<Declaration>, k: nat, n: nat)
    requires
        k <= n <= decls.len(),
        decls_ok(decls, n),
    ensures
        decls_ok(decls, k),
    decreases n,
{
    if k < n {
        lemma_decls_ok_prefix(decls, k, (n - 1) as nat);
    }
}

/// An interface list that is well formed up to a declaration is well formed
/// up to every earlier one.
pub proof fn lemma_interface_ok_prefix(decls: Seq<InterfaceDeclaration>, k: nat, n: nat)
    requires
        k <= n <= decls.len(),
        interface_ok(decls, n),
    ensures
        interface_ok(decls, k),
    decreases n,
{
    if k < n {
        lemma_interface_ok_prefix(decls, k, (n - 1) as nat);
    }
}

impl AnalyzeContext {
    /// Analyzes the declaration of an object and declares it in the
    /// innermost region of the scope.
    pub fn analyze_object(
        &mut self,
        scope: &mut Scope,
        class: ObjectClass,
        mode: Option<Mode>,
        ident: &Ident,
        subtype: &Name,
        expression: &Option<WithPos<Expression>>,
        diagnostics: &mut Vec<Diagnostic>,
    ) -> (res: FatalResult<()>)
        ensures
            elaborated(
                *old(self),
                *final(self),
                final(scope)@,
                old(diagnostics)@,
                final(diagnostics)@,
                res is Ok,
                object_unit(
                    class,
                    mode,
                    *ident,
                    *subtype,
                    *expression,
                    unit_of(*old(self), old(scope)@, old(diagnostics)@),
                ),
            ),
            res is Ok <==> opt_ok(*expression),
    {
        let typ = self.resolve_type_mark(scope, subtype, diagnostics);
        self.optional_expr(scope, typ, expression, diagnostics)?;
        if let Some(typ) = typ {
            self.declare(
                scope,
                Designator::Identifier(ident.name),
                AnyEntKind::Object(
                    Object {
                        class,
                        mode,
                        subtype: Subtype { type_mark: typ },
                        has_default: expression.is_some(),
                    },
                ),
                Some(ident.pos),
                diagnostics,
            );
        }
        Ok(())
    }

    /// Analyzes the declarations of a declarative part in order. Each
    /// declaration is visible to those that follow it.
    pub fn analyze_declarative_part(
        &mut self,
        scope: &mut Scope,
        decls: &Vec<Declaration>,
        diagnostics: &mut Vec<Diagnostic>,
    ) -> (res: FatalResult<()>)
        ensures
            elaborated(
                *old(self),
                *final(self),
                final(scope)@,
                old(diagnostics)@,
                final(diagnostics)@,
                res is Ok,
                decls_unit(
                    decls@,
                    decls@.len(),
                    unit_of(*old(self), old(scope)@, old(diagnostics)@),
                ),
            ),
            res is Ok <==> decls_ok(decls@, decls@.len()),
    {
        let ghost origin = unit_of(*self, scope@, diagnostics@);
        let mut i: usize = 0;
        while i < decls.len()
            invariant
                i <= decls.len(),
                origin == unit_of(*old(self), old(scope)@, old(diagnostics)@),
                decls_ok(decls@, i as nat),
                elaborated(
                    *old(self),
                    *self,
                    scope@,
                    old(diagnostics)@,
                    diagnostics@,
                    true,
                    decls_unit(decls@, i as nat, origin),
                ),
            decreases decls.len() - i,
        {
            proof {
                if decls_ok(decls@, decls@.len()) {
                    lemma_decls_ok_prefix(decls@, (i + 1) as nat, decls@.len());
                }
            }
            match &decls[i] {
                Declaration::Object(object) => {
                    match self.analyze_object(
                        scope,
                        object.class,
                        None,
                        &object.ident,
                        &object.subtype,
                        &object.expression,
                        diagnostics,
                    ) {
                        Ok(()) => {},
                        Err(fatal) => {
                            proof {
                                lemma_decls_stays(decls@, (i + 1) as nat, decls@.len(), origin);
                            }
                            return Err(fatal);
                        },
                    }
                },
            }
            i = i + 1;
        }
        Ok(())
    }

    /// Analyzes the declarations of an interface list in order.
    pub fn analyze_interface_list(
        &mut self,
        scope: &mut Scope,
        decls: &Vec<InterfaceDeclaration>,
        diagnostics: &mut Vec<Diagnostic>,
    ) -> (res: FatalResult<()>)
        ensures
            elaborated(
                *old(self),
                *final(self),
                final(scope)@,
                old(diagnostics)@,
                final(diagnostics)@,
                res is Ok,
                interface_unit(
                    decls@,
                    decls@.len(),
                    unit_of(*old(self), old(scope)@, old(diagnostics)@),
                ),
            ),
            res is Ok <==> interface_ok(decls@, decls@.len()),
    {
        let ghost origin = unit_of(*self, scope@, diagnostics@);
        let mut i: usize = 0;
        while i < decls.len()
            invariant
                i <= decls.len(),
                origin == unit_of(*old(self), old(scope)@, old(diagnostics)@),
                interface_ok(decls@, i as nat),
                elaborated(
                    *old(self),
                    *self,
                    scope@,
                    old(diagnostics)@,
                    diagnostics@,
                    true,
                    interface_unit(decls@, i as nat, origin),
                ),
            decreases decls.len() - i,
        {
            proof {
                if interface_ok(decls@, decls@.len()) {
                    lemma_interface_ok_prefix(decls@, (i + 1) as nat, decls@.len());
                }
            }
            let decl = &decls[i];
            match self.analyze_object(
                scope,
                decl.class,
                Some(decl.mode),
                &decl.ident,
                &decl.subtype,
                &decl.expression,
                diagnostics,
            ) {
                Ok(()) => {},
                Err(fatal) => {
                    proof {
                        lemma_interface_stays(decls@, (i + 1) as nat, decls@.len(), origin);
                    }
                    return Err(fatal);
                },
            }
            i = i + 1;
        }
        Ok(())
    }
}

} // verus!
