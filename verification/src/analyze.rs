//! The state of an analysis and the shape of what its steps promise.
use vstd::prelude::*;
use crate::ast::Reference;
use crate::data::{Designator, Diagnostic, DiagnosticView, SrcPos, views};
use crate::named_entity::{AnyEntKind, Arena, EntityId, NamedEntity, TypeId};
use crate::references::{References, apply};
use crate::region::{Scope, ScopeView, binding_of};
use crate::semantic::TypeCheck;

verus! {

/// Why the analysis of a design unit was given up.
///
/// The analysis never starts on a part that it cannot finish. Before an
/// expression, a call, an association list or an assignment is analyzed, all
/// of it is looked over; where it cannot be analyzed, the error is returned
/// and nothing has changed. A sequence of statements is analyzed statement by
/// statement up to the first part that cannot be analyzed: what was produced
/// until then stays, nothing of that part or of what follows it is produced.
#[derive(Clone, Copy, Debug, PartialEq, Eq, Structural)]
pub enum FatalError {
    /// An association list in which a positional element follows a named
    /// one: no formal can be told for its elements.
    MalformedAssociationList,
}

/// The result of an analysis that can be given up.
pub type FatalResult<T> = Result<T, FatalError>;

/// The predefined types that the rules for statements refer to.
#[derive(Clone, Copy, Debug, PartialEq, Eq, Structural)]
pub struct Standard {
    pub boolean: TypeId,
    pub time: TypeId,
    pub string: TypeId,
    pub severity_level: TypeId,
}

/// The arena of declarations, the table of references, and the predefined
/// types.
pub struct AnalyzeContext {
    pub arena: Arena,
    pub references: References,
    pub standard: Standard,
}

/// What the analysis of a part of the tree comes to: how the part matches
/// the expected type, the diagnostics in the order in which they are
/// reported, and the declarations that the name nodes of the part are bound
/// to.
pub struct Outcome {
    pub check: TypeCheck,
    pub diags: Seq<DiagnosticView>,
    pub binds: Map<Reference, EntityId>,
}

impl Outcome {
    /// Nothing to report, nothing bound.
    pub open spec fn nothing() -> Outcome {
        Outcome { check: TypeCheck::Okay, diags: Seq::empty(), binds: Map::empty() }
    }

    /// One diagnostic, nothing bound.
    pub open spec fn report(check: TypeCheck, d: DiagnosticView) -> Outcome {
        Outcome { check, diags: seq![d], binds: Map::empty() }
    }

    /// This outcome followed by that of a part with the slots `next_slots`.
    /// Where the two parts share a slot the later part decides.
    pub open spec fn followed_by(self, next: Outcome, next_slots: Set<Reference>) -> Outcome {
        Outcome {
            check: self.check.combine(next.check),
            diags: self.diags + next.diags,
            binds: self.binds.remove_keys(next_slots).union_prefer_right(
                next.binds.restrict(next_slots),
            ),
        }
    }

    /// This outcome with another check.
    pub open spec fn with_check(self, check: TypeCheck) -> Outcome {
        Outcome { check, ..self }
    }

    /// This outcome, after which the slot is bound to the declaration.
    pub open spec fn bind(self, reference: Reference, ent: EntityId) -> Outcome {
        Outcome { binds: self.binds.insert(reference, ent), ..self }
    }

    /// This outcome, after which the slot is unresolved.
    pub open spec fn unbind(self, reference: Reference) -> Outcome {
        Outcome { binds: self.binds.remove(reference), ..self }
    }

    /// This outcome with a diagnostic reported before all others.
    pub open spec fn after(self, d: DiagnosticView) -> Outcome {
        Outcome { diags: seq![d] + self.diags, ..self }
    }

    /// This outcome with more diagnostics reported after all others.
    pub open spec fn reporting(self, more: Seq<DiagnosticView>) -> Outcome {
        Outcome { diags: self.diags + more, ..self }
    }
}

/// Whether a sequence begins with another: nothing of the shorter one was
/// removed or moved.
pub open spec fn extends<T>(before: Seq<T>, after: Seq<T>) -> bool {
    before.len() <= after.len() && forall|i: int| 0 <= i < before.len() ==> before[i] == after[i]
}

/// Everything that an analysis has produced up to a point: the
/// declarations, the bindings of the name nodes, and the diagnostics. A world
/// is the description of a run. Where the run has come to a part that cannot
/// be analyzed, the world is marked as given up and holds what the run had
/// produced until then; nothing that the description goes on to say changes
/// it any more.
pub struct World {
    pub arena: Seq<NamedEntity>,
    pub refs: Map<Reference, EntityId>,
    pub diags: Seq<DiagnosticView>,
    pub fatal: bool,
}

impl World {
    /// The world after the analysis of a part of the tree with the slots
    /// `slots`. A part that is not well formed is not analyzed: the run is
    /// given up and nothing of the part is in the world. A well formed part
    /// is analyzed with the outcome `out`.
    pub open spec fn step(self, ok: bool, out: Outcome, slots: Set<Reference>) -> World {
        if self.fatal {
            self
        } else if !ok {
            World { fatal: true, ..self }
        } else {
            World {
                arena: self.arena,
                refs: apply(self.refs, slots, out.binds),
                diags: self.diags + out.diags,
                fatal: false,
            }
        }
    }

    /// The world after one more diagnostic.
    pub open spec fn report(self, d: DiagnosticView) -> World {
        if self.fatal {
            self
        } else {
            World { diags: self.diags.push(d), ..self }
        }
    }

    /// The world after more diagnostics.
    pub open spec fn reporting(self, more: Seq<DiagnosticView>) -> World {
        if self.fatal {
            self
        } else {
            World { diags: self.diags + more, ..self }
        }
    }

    /// The world after one more declaration.
    pub open spec fn define(self, ent: NamedEntity) -> World {
        if self.fatal {
            self
        } else {
            World { arena: self.arena.push(ent), ..self }
        }
    }

    /// What the world holds, whether the run was given up or not.
    pub open spec fn settled(self) -> World {
        World { fatal: false, ..self }
    }
}

/// A world together with the scope in which declarations are made.
pub struct Unit {
    pub world: World,
    pub scope: ScopeView,
}

impl Unit {
    /// The unit after the analysis of a part of the tree with the slots
    /// `slots`, as `World::step` describes it.
    pub open spec fn step(self, ok: bool, out: Outcome, slots: Set<Reference>) -> Unit {
        Unit { world: self.world.step(ok, out, slots), scope: self.scope }
    }

    /// The unit after a declaration was made: the declaration is in the
    /// arena, it is added to the scope unless it is in conflict with an
    /// earlier declaration of the innermost region, and a conflict is
    /// reported. Nothing is declared once the run is given up.
    pub open spec fn declare(self, ent: NamedEntity) -> Unit {
        let binding = binding_of(self.world.arena.len() as usize, ent);
        if self.world.fatal {
            self
        } else {
            Unit {
                world: self.world.define(ent).reporting(self.scope.add_diagnostics(binding)),
                scope: self.scope.added(binding),
            }
        }
    }

    /// What the unit holds, whether the run was given up or not.
    pub open spec fn settled(self) -> Unit {
        Unit { world: self.world.settled(), scope: self.scope }
    }
}

/// The unit that a context, a scope and a sink of diagnostics hold.
pub open spec fn unit_of(ctx: AnalyzeContext, scope: ScopeView, sink: Seq<Diagnostic>) -> Unit {
    Unit { world: world_of(ctx, sink), scope }
}

/// The world that a context and a sink of diagnostics hold.
pub open spec fn world_of(ctx: AnalyzeContext, sink: Seq<Diagnostic>) -> World {
    World { arena: ctx.arena@, refs: ctx.references@, diags: views(sink), fatal: false }
}

/// What every step of the analysis of statements promises. The predefined
/// types stay as they are, no declaration is removed or changed, and no
/// diagnostic that is in the sink is removed or moved. The step succeeds
/// exactly when the run that `reached` describes was not given up, and
/// whether it succeeds or not, the context and the sink hold what `reached`
/// holds: after a fatal error that is what the run had produced when it was
/// given up, and nothing of what follows.
pub open spec fn advanced(
    before: AnalyzeContext,
    after: AnalyzeContext,
    sink_before: Seq<Diagnostic>,
    sink_after: Seq<Diagnostic>,
    succeeded: bool,
    reached: World,
) -> bool {
    &&& after.standard == before.standard
    &&& extends(before.arena@, after.arena@)
    &&& extends(views(sink_before), views(sink_after))
    &&& succeeded == !reached.fatal
    &&& world_of(after, sink_after) == reached.settled()
}

/// What every step that can declare promises: the same as `advanced`, and
/// the scope is the one that `reached` holds, also after a fatal error.
pub open spec fn elaborated(
    before: AnalyzeContext,
    after: AnalyzeContext,
    scope_after: ScopeView,
    sink_before: Seq<Diagnostic>,
    sink_after: Seq<Diagnostic>,
    succeeded: bool,
    reached: Unit,
) -> bool {
    &&& after.standard == before.standard
    &&& extends(before.arena@, after.arena@)
    &&& extends(views(sink_before), views(sink_after))
    &&& succeeded == !reached.world.fatal
    &&& unit_of(after, scope_after, sink_after) == reached.settled()
}

/// What every step of the analysis of expressions promises. The arena and
/// the predefined types stay as they are. Where the step succeeds, the sink
/// has grown by the diagnostics of `out`, and the slots of the analyzed part
/// are bound as `out` says. Where the step is given up, nothing has changed:
/// the sink and the table of references are as they were, so that nothing of
/// the part that was given up, and nothing of what follows it, is in either.
#[verifier::opaque]
pub open spec fn performed(
    before: AnalyzeContext,
    after: AnalyzeContext,
    sink_before: Seq<Diagnostic>,
    sink_after: Seq<Diagnostic>,
    succeeded: bool,
    out: Outcome,
    slots: Set<Reference>,
) -> bool {
    &&& after.arena == before.arena
    &&& after.standard == before.standard
    &&& succeeded ==> {
        &&& views(sink_after) == views(sink_before) + out.diags
        &&& after.references@ == apply(before.references@, slots, out.binds)
    }
    &&& !succeeded ==> {
        &&& views(sink_after) == views(sink_before)
        &&& after.references@ == before.references@
    }
}

/// What a step that was performed says.
pub proof fn lemma_performed_facts(
    before: AnalyzeContext,
    after: AnalyzeContext,
    sink_before: Seq<Diagnostic>,
    sink_after: Seq<Diagnostic>,
    succeeded: bool,
    out: Outcome,
    slots: Set<Reference>,
)
    requires
        performed(before, after, sink_before, sink_after, succeeded, out, slots),
    ensures
        after.arena == before.arena,
        after.standard == before.standard,
        extends(views(sink_before), views(sink_after)),
        succeeded ==> views(sink_after) == views(sink_before) + out.diags,
        succeeded ==> after.references@ == apply(before.references@, slots, out.binds),
        !succeeded ==> views(sink_after) == views(sink_before),
        !succeeded ==> after.references@ == before.references@,
        advanced(
            before,
            after,
            sink_before,
            sink_after,
            succeeded,
            world_of(before, sink_before).step(succeeded, out, slots),
        ),
{
    reveal(performed);
}

/// A step of the analysis of expressions is a step of the analysis of
/// statements.
pub broadcast proof fn lemma_performed_advanced(
    before: AnalyzeContext,
    after: AnalyzeContext,
    sink_before: Seq<Diagnostic>,
    sink_after: Seq<Diagnostic>,
    succeeded: bool,
    out: Outcome,
    slots: Set<Reference>,
)
    requires
        #[trigger] performed(before, after, sink_before, sink_after, succeeded, out, slots),
    ensures
        advanced(
            before,
            after,
            sink_before,
            sink_after,
            succeeded,
            world_of(before, sink_before).step(succeeded, out, slots),
        ),
{
    reveal(performed);
}

/// A step that does nothing.
pub proof fn lemma_performed_nothing(ctx: AnalyzeContext, sink: Seq<Diagnostic>)
    ensures
        performed(ctx, ctx, sink, sink, true, Outcome::nothing(), Set::empty()),
{
    reveal(performed);
    assert(views(sink) + Outcome::nothing().diags =~= views(sink));
    assert(apply(ctx.references@, Set::empty(), Outcome::nothing().binds) =~= ctx.references@);
}

/// Two steps in a row are one step with the outcome of the first followed
/// by that of the second.
pub proof fn lemma_performed_both(
    first: AnalyzeContext,
    middle: AnalyzeContext,
    last: AnalyzeContext,
    sink_first: Seq<Diagnostic>,
    sink_middle: Seq<Diagnostic>,
    sink_last: Seq<Diagnostic>,
    a: Outcome,
    a_slots: Set<Reference>,
    b: Outcome,
    b_slots: Set<Reference>,
    succeeded: bool,
)
    requires
        performed(first, middle, sink_first, sink_middle, true, a, a_slots),
        performed(middle, last, sink_middle, sink_last, succeeded, b, b_slots),
    ensures
        succeeded ==> performed(
            first,
            last,
            sink_first,
            sink_last,
            true,
            a.followed_by(b, b_slots),
            a_slots + b_slots,
        ),
{
    reveal(performed);
    let v0 = views(sink_first);
    let v1 = views(sink_middle);
    let v2 = views(sink_last);
    if succeeded {
        assert(v2 =~= v0 + a.followed_by(b, b_slots).diags);
        assert(last.references@ =~= apply(
            first.references@,
            a_slots + b_slots,
            a.followed_by(b, b_slots).binds,
        ));
    }
}

/// A step that was given up has changed nothing.
pub proof fn lemma_performed_gave_up(
    before: AnalyzeContext,
    after: AnalyzeContext,
    sink: Seq<Diagnostic>,
    out: Outcome,
    slots: Set<Reference>,
)
    requires
        after.arena == before.arena,
        after.standard == before.standard,
        after.references@ == before.references@,
    ensures
        performed(before, after, sink, sink, false, out, slots),
{
    reveal(performed);
}

/// What a step says does not depend on the check of its outcome.
pub proof fn lemma_performed_with_check(
    before: AnalyzeContext,
    after: AnalyzeContext,
    sink_before: Seq<Diagnostic>,
    sink_after: Seq<Diagnostic>,
    succeeded: bool,
    out: Outcome,
    slots: Set<Reference>,
    check: TypeCheck,
)
    requires
        performed(before, after, sink_before, sink_after, succeeded, out, slots),
    ensures
        performed(before, after, sink_before, sink_after, succeeded, out.with_check(check), slots),
{
    reveal(performed);
}

/// A diagnostic reported before a step is the first of the diagnostics of
/// both.
pub proof fn lemma_performed_after(
    before: AnalyzeContext,
    after: AnalyzeContext,
    sink_before: Seq<Diagnostic>,
    sink_middle: Seq<Diagnostic>,
    sink_after: Seq<Diagnostic>,
    succeeded: bool,
    out: Outcome,
    slots: Set<Reference>,
    d: DiagnosticView,
)
    requires
        views(sink_middle) == views(sink_before).push(d),
        performed(before, after, sink_middle, sink_after, succeeded, out, slots),
    ensures
        succeeded ==> performed(before, after, sink_before, sink_after, true, out.after(d), slots),
{
    reveal(performed);
    if succeeded {
        assert(views(sink_after) =~= views(sink_before) + out.after(d).diags);
    }
}

/// Diagnostics reported after a step come after the diagnostics of the
/// step.
pub proof fn lemma_performed_more(
    before: AnalyzeContext,
    after: AnalyzeContext,
    sink_before: Seq<Diagnostic>,
    sink_middle: Seq<Diagnostic>,
    sink_after: Seq<Diagnostic>,
    out: Outcome,
    slots: Set<Reference>,
    more: Seq<DiagnosticView>,
)
    requires
        performed(before, after, sink_before, sink_middle, true, out, slots),
        views(sink_after) == views(sink_middle) + more,
    ensures
        performed(before, after, sink_before, sink_after, true, out.reporting(more), slots),
{
    reveal(performed);
    assert(views(sink_after) =~= views(sink_before) + out.reporting(more).diags);
}

/// A slot bound after a step is bound in the outcome of both.
pub proof fn lemma_performed_bound(
    before: AnalyzeContext,
    middle: AnalyzeContext,
    after: AnalyzeContext,
    sink_before: Seq<Diagnostic>,
    sink_after: Seq<Diagnostic>,
    out: Outcome,
    slots: Set<Reference>,
    reference: Reference,
    ent: EntityId,
)
    requires
        performed(before, middle, sink_before, sink_after, true, out, slots),
        after.arena == middle.arena,
        after.standard == middle.standard,
        after.references@ == middle.references@.insert(reference, ent),
    ensures
        performed(
            before,
            after,
            sink_before,
            sink_after,
            true,
            out.bind(reference, ent),
            slots.insert(reference),
        ),
{
    reveal(performed);
    assert(after.references@ =~= apply(
        before.references@,
        slots.insert(reference),
        out.bind(reference, ent).binds,
    ));
}

/// A slot cleared after a step is unresolved in the outcome of both.
pub proof fn lemma_performed_unbound(
    before: AnalyzeContext,
    middle: AnalyzeContext,
    after: AnalyzeContext,
    sink_before: Seq<Diagnostic>,
    sink_after: Seq<Diagnostic>,
    out: Outcome,
    slots: Set<Reference>,
    reference: Reference,
)
    requires
        performed(before, middle, sink_before, sink_after, true, out, slots),
        after.arena == middle.arena,
        after.standard == middle.standard,
        after.references@ == middle.references@.remove(reference),
    ensures
        performed(
            before,
            after,
            sink_before,
            sink_after,
            true,
            out.unbind(reference),
            slots.insert(reference),
        ),
{
    reveal(performed);
    assert(after.references@ =~= apply(
        before.references@,
        slots.insert(reference),
        out.unbind(reference).binds,
    ));
}

/// A step on the slots of a part does the same to a table in which those
/// slots were cleared first.
pub proof fn lemma_performed_rebase(
    origin: AnalyzeContext,
    before: AnalyzeContext,
    after: AnalyzeContext,
    sink_before: Seq<Diagnostic>,
    sink_after: Seq<Diagnostic>,
    succeeded: bool,
    out: Outcome,
    slots: Set<Reference>,
)
    requires
        performed(before, after, sink_before, sink_after, succeeded, out, slots),
        before.arena == origin.arena,
        before.standard == origin.standard,
        before.references@ == origin.references@ || before.references@
            == origin.references@.remove_keys(slots),
    ensures
        succeeded ==> performed(origin, after, sink_before, sink_after, true, out, slots),
{
    reveal(performed);
    if succeeded {
        assert(after.references@ =~= apply(origin.references@, slots, out.binds));
    }
}

/// Clearing the slots of a part after a step on them leaves the table as if
/// they had only been cleared.
pub proof fn lemma_cleared_after(
    origin: Map<Reference, EntityId>,
    before: Map<Reference, EntityId>,
    slots: Set<Reference>,
    binds: Map<Reference, EntityId>,
)
    requires
        before == origin || before == origin.remove_keys(slots),
    ensures
        apply(before, slots, binds).remove_keys(slots) == origin.remove_keys(slots),
        before.remove_keys(slots) == origin.remove_keys(slots),
{
    assert(apply(before, slots, binds).remove_keys(slots) =~= origin.remove_keys(slots));
    assert(before.remove_keys(slots) =~= origin.remove_keys(slots));
}

/// Reporting one diagnostic is a step.
pub proof fn lemma_performed_report(
    ctx: AnalyzeContext,
    sink_before: Seq<Diagnostic>,
    sink_after: Seq<Diagnostic>,
    check: TypeCheck,
    d: DiagnosticView,
)
    requires
        views(sink_after) == views(sink_before).push(d),
    ensures
        performed(ctx, ctx, sink_before, sink_after, true, Outcome::report(check, d), Set::empty()),
{
    reveal(performed);
    assert(views(sink_before).push(d) =~= views(sink_before) + seq![d]);
    assert(apply(ctx.references@, Set::empty(), Map::empty()) =~= ctx.references@);
}

/// Binding a slot is a step.
pub proof fn lemma_performed_bind(
    before: AnalyzeContext,
    after: AnalyzeContext,
    sink: Seq<Diagnostic>,
    reference: Reference,
    ent: EntityId,
)
    requires
        after.arena == before.arena,
        after.standard == before.standard,
        after.references@ == before.references@.insert(reference, ent),
    ensures
        performed(
            before,
            after,
            sink,
            sink,
            true,
            Outcome::nothing().bind(reference, ent),
            set![reference],
        ),
{
    lemma_performed_nothing(before, sink);
    lemma_performed_bound(
        before,
        before,
        after,
        sink,
        sink,
        Outcome::nothing(),
        Set::empty(),
        reference,
        ent,
    );
}

/// Clearing a slot is a step.
pub proof fn lemma_performed_unbind(
    before: AnalyzeContext,
    after: AnalyzeContext,
    sink: Seq<Diagnostic>,
    reference: Reference,
)
    requires
        after.arena == before.arena,
        after.standard == before.standard,
        after.references@ == before.references@.remove(reference),
    ensures
        performed(
            before,
            after,
            sink,
            sink,
            true,
            Outcome::nothing().unbind(reference),
            set![reference],
        ),
{
    lemma_performed_nothing(before, sink);
    lemma_performed_unbound(
        before,
        before,
        after,
        sink,
        sink,
        Outcome::nothing(),
        Set::empty(),
        reference,
    );
}

impl AnalyzeContext {
    /// Makes a declaration and adds it to the innermost region of the
    /// scope.
    pub fn declare(
        &mut self,
        scope: &mut Scope,
        designator: Designator,
        kind: AnyEntKind,
        decl_pos: Option<SrcPos>,
        diagnostics: &mut Vec<Diagnostic>,
    ) -> (id: EntityId)
        ensures
            id == old(self).arena@.len(),
            final(self).standard == old(self).standard,
            final(self).references == old(self).references,
            extends(old(self).arena@, final(self).arena@),
            extends(views(old(diagnostics)@), views(final(diagnostics)@)),
            unit_of(*final(self), final(scope)@, final(diagnostics)@) == unit_of(
                *old(self),
                old(scope)@,
                old(diagnostics)@,
            ).declare(NamedEntity { designator, kind, decl_pos }),
    {
        let id = self.arena.define(designator, kind, decl_pos);
        match self.arena.get(id) {
            Some(ent) => {
                scope.add(ent, diagnostics);
            },
            None => {},
        }
        id
    }

    /// A context in which every slot is unresolved.
    pub fn new(arena: Arena, standard: Standard) -> (ctx: AnalyzeContext)
        ensures
            ctx.arena == arena,
            ctx.standard == standard,
            ctx.references@ == Map::<Reference, EntityId>::empty(),
    {
        AnalyzeContext { arena, references: References::new(), standard }
    }

    pub fn boolean(&self) -> (typ: TypeId)
        ensures
            typ == self.standard.boolean,
    {
        self.standard.boolean
    }

    pub fn time(&self) -> (typ: TypeId)
        ensures
            typ == self.standard.time,
    {
        self.standard.time
    }

    pub fn string(&self) -> (typ: TypeId)
        ensures
            typ == self.standard.string,
    {
        self.standard.string
    }

    pub fn severity_level(&self) -> (typ: TypeId)
        ensures
            typ == self.standard.severity_level,
    {
        self.standard.severity_level
    }
}

} // verus!
