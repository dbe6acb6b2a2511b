//! Lexical scopes: which declaration a designator stands for at a place.
use vstd::prelude::*;
use crate::data::{
    Designator, Diagnostic, DiagnosticView, Message, Related, RelatedKind, Severity, SrcPos,
    error_view, push_diagnostic,
};
use crate::named_entity::{EntRef, EntityId, NamedEntity};

verus! {

/// One visible declaration: its designator, its index in the arena, whether
/// it can be overloaded, and where it was declared.
#[derive(Clone, Copy, Debug, PartialEq, Eq, Structural)]
pub struct Binding {
    pub designator: Designator,
    pub ent: EntityId,
    pub overloaded: bool,
    pub decl_pos: Option<SrcPos>,
}

/// The set of candidate declarations that share one designator.
#[derive(Debug)]
pub struct OverloadedName {
    pub entities: Vec<EntityId>,
}

impl View for OverloadedName {
    type V = Seq<EntityId>;

    open spec fn view(&self) -> Seq<EntityId> {
        self.entities@
    }
}

impl OverloadedName {
    pub fn len(&self) -> (n: usize)
        ensures
            n == self@.len(),
    {
        self.entities.len()
    }

    /// The candidates in the order of their declaration.
    pub fn entities(&self) -> (entities: &Vec<EntityId>)
        ensures
            entities@ == self@,
    {
        &self.entities
    }
}

/// What a designator stands for: one declaration, or a set of overloaded
/// ones.
#[derive(Debug)]
pub enum NamedEntities {
    Single(EntityId),
    Overloaded(OverloadedName),
}

/// The mathematical value of `NamedEntities`.
pub enum Visible {
    Single(EntityId),
    Overloaded(Seq<EntityId>),
}

impl View for NamedEntities {
    type V = Visible;

    open spec fn view(&self) -> Visible {
        match self {
            NamedEntities::Single(ent) => Visible::Single(*ent),
            NamedEntities::Overloaded(overloaded) => Visible::Overloaded(overloaded@),
        }
    }
}

/// A chain of declarative regions, seen from the innermost one. The
/// bindings of all regions are kept in the order of their declaration,
/// outermost region first; the innermost region begins at `local_start`.
/// A nested scope is a copy: nothing that is added to it reaches the scope
/// it was made from.
#[derive(Debug)]
pub struct Scope {
    pub bindings: Vec<Binding>,
    pub local_start: usize,
}

/// The mathematical value of a scope.
pub struct ScopeView {
    pub bindings: Seq<Binding>,
    pub local_start: nat,
}

impl View for Scope {
    type V = ScopeView;

    open spec fn view(&self) -> ScopeView {
        ScopeView { bindings: self.bindings@, local_start: self.local_start as nat }
    }
}

/// The binding that a declaration gets in a scope.
pub open spec fn binding_of(id: EntityId, ent: NamedEntity) -> Binding {
    Binding {
        designator: ent.designator,
        ent: id,
        overloaded: ent.kind is Overloaded,
        decl_pos: ent.decl_pos,
    }
}

/// The last of the first `n` bindings that has the designator.
pub open spec fn last_binding(bindings: Seq<Binding>, designator: Designator, n: int) -> Option<
    Binding,
>
    decreases n,
{
    if n <= 0 || n > bindings.len() {
        None
    } else if bindings[n - 1].designator == designator {
        Some(bindings[n - 1])
    } else {
        last_binding(bindings, designator, n - 1)
    }
}

/// The overloaded declarations among the first `n` bindings that have the
/// designator and are not hidden, in the order of their declaration. A
/// declaration of the designator that cannot be overloaded hides every
/// declaration of the designator before it.
pub open spec fn overloaded_upto(bindings: Seq<Binding>, designator: Designator, n: int) -> Seq<
    EntityId,
>
    decreases n,
{
    if n <= 0 || n > bindings.len() {
        Seq::empty()
    } else if bindings[n - 1].designator == designator {
        if bindings[n - 1].overloaded {
            overloaded_upto(bindings, designator, n - 1).push(bindings[n - 1].ent)
        } else {
            Seq::empty()
        }
    } else {
        overloaded_upto(bindings, designator, n - 1)
    }
}

/// The first binding from index `from` on that is in conflict with a new
/// binding: it has the same designator, and the two are not both overloaded.
pub open spec fn conflict_from(bindings: Seq<Binding>, binding: Binding, from: int) -> Option<
    Binding,
>
    decreases bindings.len() - from,
{
    if from < 0 || from >= bindings.len() {
        None
    } else if bindings[from].designator == binding.designator && !(bindings[from].overloaded
        && binding.overloaded) {
        Some(bindings[from])
    } else {
        conflict_from(bindings, binding, from + 1)
    }
}

/// The diagnostic for a declaration that is in conflict with an earlier one
/// of the same region.
pub open spec fn duplicate_view(pos: SrcPos, binding: Binding, previous: Binding) -> DiagnosticView {
    DiagnosticView {
        pos,
        severity: Severity::Error,
        message: Message::DuplicateDeclaration(binding.designator),
        related: seq![
            Related { pos: previous.decl_pos, kind: RelatedKind::PreviouslyDefined, ent: previous.ent },
        ],
    }
}

impl ScopeView {
    /// What a designator stands for. The innermost declaration decides: if
    /// it cannot be overloaded it hides all others; otherwise the candidates
    /// are the overloaded declarations of the designator from the innermost
    /// one outwards, up to the nearest declaration that cannot be overloaded,
    /// which hides what lies behind it.
    pub open spec fn visible(self, designator: Designator) -> Option<Visible> {
        match last_binding(self.bindings, designator, self.bindings.len() as int) {
            None => None,
            Some(binding) => {
                if binding.overloaded {
                    Some(
                        Visible::Overloaded(
                            overloaded_upto(self.bindings, designator, self.bindings.len() as int),
                        ),
                    )
                } else {
                    Some(Visible::Single(binding.ent))
                }
            },
        }
    }

    /// The scope of a region nested in this one, before anything is
    /// declared in it.
    pub open spec fn nested(self) -> ScopeView {
        ScopeView { bindings: self.bindings, local_start: self.bindings.len() }
    }

    /// The declaration of the innermost region that a new binding is in
    /// conflict with, if there is one.
    pub open spec fn conflict(self, binding: Binding) -> Option<Binding> {
        conflict_from(self.bindings, binding, self.local_start as int)
    }

    /// Whether the innermost region begins within the bindings. Every
    /// scope that is made by `Scope::new`, `nested` and `add` is well formed.
    pub open spec fn wf(self) -> bool {
        self.local_start <= self.bindings.len()
    }

    /// Whether the innermost region declares the designator.
    pub open spec fn declares(self, designator: Designator) -> bool {
        exists|i: int|
            self.local_start <= i < self.bindings.len() && (#[trigger] self.bindings[i]).designator
                == designator
    }

    /// The scope after an attempt to add a binding: a binding in conflict
    /// with the innermost region is not added.
    pub open spec fn added(self, binding: Binding) -> ScopeView {
        if self.conflict(binding) is Some {
            self
        } else {
            ScopeView { bindings: self.bindings.push(binding), local_start: self.local_start }
        }
    }

    /// The diagnostics of an attempt to add a binding: one for a conflict,
    /// where the new declaration has a position.
    pub open spec fn add_diagnostics(self, binding: Binding) -> Seq<DiagnosticView> {
        match (self.conflict(binding), binding.decl_pos) {
            (Some(previous), Some(pos)) => seq![duplicate_view(pos, binding, previous)],
            _ => Seq::empty(),
        }
    }
}

impl Scope {
    /// A scope of one empty region.
    pub fn new() -> (scope: Scope)
        ensures
            scope@ == (ScopeView { bindings: Seq::empty(), local_start: 0 }),
            scope@.wf(),
    {
        Scope { bindings: Vec::new(), local_start: 0 }
    }

    /// The scope of a region nested in this one.
    pub fn nested(&self) -> (scope: Scope)
        ensures
            scope@ == self@.nested(),
            scope@.wf(),
    {
        let mut bindings: Vec<Binding> = Vec::new();
        let mut i: usize = 0;
        while i < self.bindings.len()
            invariant
                i <= self.bindings.len(),
                bindings@ == self.bindings@.take(i as int),
            decreases self.bindings.len() - i,
        {
            bindings.push(self.bindings[i]);
            proof {
                assert(self.bindings@.take(i + 1) == self.bindings@.take(i as int).push(
                    self.bindings@[i as int],
                ));
            }
            i = i + 1;
        }
        proof {
            assert(self.bindings@.take(self.bindings.len() as int) == self.bindings@);
        }
        Scope { bindings, local_start: self.bindings.len() }
    }

    /// Declares an entity in the innermost region. An entity in conflict
    /// with an earlier declaration of that region is reported and not added.
    pub fn add(&mut self, ent: EntRef<'_>, diagnostics: &mut Vec<Diagnostic>)
        ensures
            old(self)@.wf() ==> final(self)@.wf(),
            final(self)@ == old(self)@.added(binding_of(ent.id, *ent.ent)),
            crate::data::views(final(diagnostics)@) == crate::data::views(old(diagnostics)@)
                + old(self)@.add_diagnostics(binding_of(ent.id, *ent.ent)),
    {
        let overloaded = match &ent.ent.kind {
            crate::named_entity::AnyEntKind::Overloaded(_) => true,
            _ => false,
        };
        let binding = Binding {
            designator: ent.ent.designator,
            ent: ent.id,
            overloaded,
            decl_pos: ent.ent.decl_pos,
        };
        self.add_binding(binding, diagnostics);
    }

    /// Adds a binding to the innermost region, as `add` does for the
    /// binding of an entity.
    pub fn add_binding(&mut self, binding: Binding, diagnostics: &mut Vec<Diagnostic>)
        ensures
            old(self)@.wf() ==> final(self)@.wf(),
            final(self)@ == old(self)@.added(binding),
            crate::data::views(final(diagnostics)@) == crate::data::views(old(diagnostics)@)
                + old(self)@.add_diagnostics(binding),
    {
        let mut i: usize = self.local_start;
        while i < self.bindings.len()
            invariant
                self.local_start <= i,
                self@ == old(self)@,
                diagnostics@ == old(diagnostics)@,
                self@.conflict(binding) == conflict_from(self.bindings@, binding, i as int),
            decreases self.bindings.len() - i,
        {
            let previous = self.bindings[i];
            if previous.designator == binding.designator && !(previous.overloaded
                && binding.overloaded) {
                if let Some(pos) = binding.decl_pos {
                    let mut d = Diagnostic::error(
                        pos,
                        Message::DuplicateDeclaration(binding.designator),
                    );
                    d.add_related(
                        Related {
                            pos: previous.decl_pos,
                            kind: RelatedKind::PreviouslyDefined,
                            ent: previous.ent,
                        },
                    );
                    proof {
                        assert(d@.related =~= seq![
                            Related {
                                pos: previous.decl_pos,
                                kind: RelatedKind::PreviouslyDefined,
                                ent: previous.ent,
                            },
                        ]);
                        assert(d@ == duplicate_view(pos, binding, previous));
                        assert(crate::data::views(diagnostics@).push(d@) =~= crate::data::views(
                            diagnostics@,
                        ) + seq![d@]);
                    }
                    push_diagnostic(diagnostics, d);
                } else {
                    proof {
                        assert(crate::data::views(diagnostics@) =~= crate::data::views(
                            diagnostics@,
                        ) + Seq::<DiagnosticView>::empty());
                    }
                }
                return ;
            }
            i = i + 1;
        }
        proof {
            assert(crate::data::views(diagnostics@) =~= crate::data::views(diagnostics@)
                + Seq::<DiagnosticView>::empty());
        }
        self.bindings.push(binding);
    }

    /// What the designator stands for, or a diagnostic at `pos` that says
    /// that it has no declaration.
    pub fn lookup(&self, pos: &SrcPos, designator: &Designator) -> (res: Result<
        NamedEntities,
        Diagnostic,
    >)
        ensures
            match self@.visible(*designator) {
                Some(visible) => res is Ok && res->Ok_0@ == visible,
                None => res is Err && res->Err_0@ == error_view(
                    *pos,
                    Message::NoDeclaration(*designator),
                ),
            },
    {
        let mut last: Option<Binding> = None;
        let mut entities: Vec<EntityId> = Vec::new();
        let mut i: usize = 0;
        while i < self.bindings.len()
            invariant
                i <= self.bindings.len(),
                last == last_binding(self.bindings@, *designator, i as int),
                entities@ == overloaded_upto(self.bindings@, *designator, i as int),
            decreases self.bindings.len() - i,
        {
            let binding = self.bindings[i];
            if binding.designator == *designator {
                last = Some(binding);
                if binding.overloaded {
                    entities.push(binding.ent);
                } else {
                    entities = Vec::new();
                }
            }
            i = i + 1;
        }
        match last {
            None => Err(Diagnostic::error(*pos, Message::NoDeclaration(*designator))),
            Some(binding) => {
                if binding.overloaded {
                    Ok(NamedEntities::Overloaded(OverloadedName { entities }))
                } else {
                    Ok(NamedEntities::Single(binding.ent))
                }
            },
        }
    }
}

/// Looking at more bindings never loses the binding found so far, unless a
/// later one has the designator.
proof fn lemma_last_binding_push(bindings: Seq<Binding>, binding: Binding, designator: Designator, n: int)
    requires
        0 <= n <= bindings.len(),
    ensures
        last_binding(bindings.push(binding), designator, n) == last_binding(bindings, designator, n),
        overloaded_upto(bindings.push(binding), designator, n) == overloaded_upto(
            bindings,
            designator,
            n,
        ),
    decreases n,
{
    if n > 0 {
        assert(bindings.push(binding)[n - 1] == bindings[n - 1]);
        lemma_last_binding_push(bindings, binding, designator, n - 1);
    }
}

/// A nested scope sees what the enclosing scope sees. A declaration added to
/// the nested scope is always accepted, leaves the bindings of the enclosing
/// regions as they were, and changes the meaning of its own designator only:
/// a declaration that cannot be overloaded hides every outer declaration of
/// that designator, an overloaded one joins the overloaded ones that are not
/// hidden. What a declaration that cannot be overloaded hides stays hidden in
/// every scope nested further in.
pub proof fn lemma_scope_nesting(parent: ScopeView, binding: Binding, designator: Designator)
    ensures
        parent.nested().visible(designator) == parent.visible(designator),
        parent.nested().conflict(binding) is None,
        parent.nested().added(binding).bindings.take(parent.bindings.len() as int)
            == parent.bindings,
        designator != binding.designator ==> parent.nested().added(binding).visible(designator)
            == parent.visible(designator),
        !binding.overloaded ==> parent.nested().added(binding).visible(binding.designator) == Some(
            Visible::Single(binding.ent),
        ),
        binding.overloaded ==> parent.nested().added(binding).visible(binding.designator) == Some(
            Visible::Overloaded(
                overloaded_upto(
                    parent.bindings,
                    binding.designator,
                    parent.bindings.len() as int,
                ).push(binding.ent),
            ),
        ),
{
    let child = parent.nested().added(binding);
    let n = parent.bindings.len() as int;
    assert(child.bindings == parent.bindings.push(binding));
    assert(child.bindings.take(n) =~= parent.bindings);
    lemma_last_binding_push(parent.bindings, binding, designator, n);
    lemma_last_binding_push(parent.bindings, binding, binding.designator, n);
    assert(child.bindings[n] == binding);
}

/// What is hidden stays hidden. Where a declaration that cannot be
/// overloaded is made in a nested region, and an overloaded declaration of
/// the same designator in a region nested in that, the innermost scope sees
/// the overloaded declaration alone: the overloaded declarations of the outer
/// scope are hidden by the one in the middle and do not come back.
pub proof fn lemma_hidden_stays_hidden(outer: ScopeView, middle: Binding, inner: Binding)
    requires
        !middle.overloaded,
        inner.overloaded,
        inner.designator == middle.designator,
    ensures
        outer.nested().added(middle).visible(middle.designator) == Some(
            Visible::Single(middle.ent),
        ),
        outer.nested().added(middle).nested().added(inner).visible(middle.designator) == Some(
            Visible::Overloaded(seq![inner.ent]),
        ),
{
    let mid = outer.nested().added(middle);
    lemma_scope_nesting(outer, middle, middle.designator);
    lemma_scope_nesting(mid, inner, middle.designator);
    assert(mid.bindings == outer.bindings.push(middle));
    assert(mid.bindings[outer.bindings.len() as int] == middle);
    assert(overloaded_upto(mid.bindings, middle.designator, mid.bindings.len() as int)
        =~= Seq::<EntityId>::empty());
    assert(Seq::<EntityId>::empty().push(inner.ent) =~= seq![inner.ent]);
}

/// A declaration added to a scope is found by its designator from that
/// scope and from every scope nested in it, unless it was in conflict with
/// an earlier declaration of the same region; every other designator keeps
/// its meaning.
pub proof fn lemma_added_visible(scope: ScopeView, binding: Binding, designator: Designator)
    ensures
        scope.added(binding).visible(binding.designator) is Some,
        scope.conflict(binding) is None && !binding.overloaded ==> scope.added(binding).visible(
            binding.designator,
        ) == Some(Visible::Single(binding.ent)),
        designator != binding.designator ==> scope.added(binding).visible(designator)
            == scope.visible(designator),
        scope.added(binding).nested().visible(designator) == scope.added(binding).visible(
            designator,
        ),
{
    let n = scope.bindings.len() as int;
    if scope.conflict(binding) is Some {
        lemma_conflict_visible(scope.bindings, binding, scope.local_start as int);
    } else {
        lemma_last_binding_push(scope.bindings, binding, designator, n);
        lemma_last_binding_push(scope.bindings, binding, binding.designator, n);
        assert(scope.bindings.push(binding)[n] == binding);
    }
}

/// A binding is in conflict exactly when a binding from index `from` on has
/// its designator and the two are not both overloaded.
pub proof fn lemma_conflict_iff(bindings: Seq<Binding>, binding: Binding, from: int)
    requires
        0 <= from,
    ensures
        conflict_from(bindings, binding, from) is Some <==> exists|i: int|
            from <= i < bindings.len() && (#[trigger] bindings[i]).designator == binding.designator
                && !(bindings[i].overloaded && binding.overloaded),
    decreases bindings.len() - from,
{
    if from < bindings.len() {
        if bindings[from].designator == binding.designator && !(bindings[from].overloaded
            && binding.overloaded) {
        } else {
            lemma_conflict_iff(bindings, binding, from + 1);
            if exists|i: int|
                from <= i < bindings.len() && (#[trigger] bindings[i]).designator
                    == binding.designator && !(bindings[i].overloaded && binding.overloaded) {
                let i = choose|i: int|
                    from <= i < bindings.len() && (#[trigger] bindings[i]).designator
                        == binding.designator && !(bindings[i].overloaded && binding.overloaded);
                assert(from + 1 <= i);
            }
        }
    }
}

/// What an attempt to add a declaration that cannot be overloaded does to a
/// scope. It is added exactly when the innermost region does not declare its
/// designator, and then it is what the designator stands for. The innermost
/// region afterwards declares the designators that it declared and that of
/// the declaration, and every other designator keeps its meaning.
pub proof fn lemma_added_single(scope: ScopeView, binding: Binding, designator: Designator)
    requires
        scope.wf(),
        !binding.overloaded,
    ensures
        scope.added(binding).wf(),
        scope.conflict(binding) is Some <==> scope.declares(binding.designator),
        scope.declares(binding.designator) ==> scope.added(binding) == scope,
        !scope.declares(binding.designator) ==> scope.added(binding).visible(binding.designator)
            == Some(Visible::Single(binding.ent)),
        scope.added(binding).declares(designator) <==> scope.declares(designator) || designator
            == binding.designator,
        designator != binding.designator ==> scope.added(binding).visible(designator)
            == scope.visible(designator),
{
    lemma_conflict_iff(scope.bindings, binding, scope.local_start as int);
    lemma_added_visible(scope, binding, designator);
    let after = scope.added(binding);
    if scope.declares(binding.designator) {
        let i = choose|i: int|
            scope.local_start <= i < scope.bindings.len() && (#[trigger] scope.bindings[i]).designator
                == binding.designator;
        assert(scope.bindings[i].designator == binding.designator);
    } else {
        let n = scope.bindings.len() as int;
        assert(after.bindings == scope.bindings.push(binding));
        assert(after.bindings[n] == binding);
        if scope.declares(designator) {
            let i = choose|i: int|
                scope.local_start <= i < scope.bindings.len() && (#[trigger] scope.bindings[i]).designator
                    == designator;
            assert(after.bindings[i] == scope.bindings[i]);
        }
        if after.declares(designator) {
            let i = choose|i: int|
                after.local_start <= i < after.bindings.len() && (#[trigger] after.bindings[i]).designator
                    == designator;
            if i < n {
                assert(after.bindings[i] == scope.bindings[i]);
            }
        }
    }
}

/// A binding that is in conflict with another has the designator of a
/// visible declaration.
proof fn lemma_conflict_visible(bindings: Seq<Binding>, binding: Binding, from: int)
    requires
        conflict_from(bindings, binding, from) is Some,
    ensures
        last_binding(bindings, binding.designator, bindings.len() as int) is Some,
    decreases bindings.len() - from,
{
    if bindings[from].designator == binding.designator && !(bindings[from].overloaded
        && binding.overloaded) {
        lemma_last_binding_found(bindings, binding.designator, from, bindings.len() as int);
    } else {
        lemma_conflict_visible(bindings, binding, from + 1);
    }
}

proof fn lemma_last_binding_found(bindings: Seq<Binding>, designator: Designator, at: int, n: int)
    requires
        0 <= at < n <= bindings.len(),
        bindings[at].designator == designator,
    ensures
        last_binding(bindings, designator, n) is Some,
    decreases n,
{
    if bindings[n - 1].designator != designator {
        lemma_last_binding_found(bindings, designator, at, n - 1);
    }
}

} // verus!
