//! The ordered list of interface elements of a subprogram, an entity or a
//! component.
use vstd::prelude::*;
use crate::data::{Designator, Diagnostic, Message, SrcPos, error_view};
use crate::named_entity::{
    AnyEntKind, Arena, EntityId, NamedEntity, TypeId, base_type_of, lemma_base_type_stable,
};

verus! {

/// An interface object or an interface file, with what the analysis reads
/// of it.
#[derive(Clone, Copy, Debug, PartialEq, Eq, Structural)]
pub struct InterfaceEnt {
    pub ent: EntityId,
    pub designator: Designator,
    pub type_mark: TypeId,
    pub base_type: TypeId,
    pub has_default: bool,
}

/// The interface element that a declaration is, if it is one: an object
/// with a mode, or an interface file.
pub open spec fn interface_of(arena: Seq<NamedEntity>, ent: EntityId) -> Option<InterfaceEnt> {
    if ent < arena.len() {
        match arena[ent as int].kind {
            AnyEntKind::Object(object) => {
                if object.mode is Some {
                    Some(
                        InterfaceEnt {
                            ent,
                            designator: arena[ent as int].designator,
                            type_mark: object.subtype.type_mark,
                            base_type: base_type_of(arena, object.subtype.type_mark),
                            has_default: object.has_default,
                        },
                    )
                } else {
                    None
                }
            },
            AnyEntKind::InterfaceFile(file_type) => Some(
                InterfaceEnt {
                    ent,
                    designator: arena[ent as int].designator,
                    type_mark: file_type,
                    base_type: base_type_of(arena, file_type),
                    has_default: false,
                },
            ),
            _ => None,
        }
    } else {
        None
    }
}

/// An interface element whose type was declared before it stays what it is
/// when declarations are appended to the arena: the values that it holds
/// were read once and stay true.
pub proof fn lemma_interface_stable(arena: Seq<NamedEntity>, more: Seq<NamedEntity>, ent: EntityId)
    requires
        ent < arena.len(),
        match interface_of(arena, ent) {
            Some(interface) => interface.type_mark < arena.len(),
            None => true,
        },
    ensures
        interface_of(arena + more, ent) == interface_of(arena, ent),
{
    assert((arena + more)[ent as int] == arena[ent as int]);
    match interface_of(arena, ent) {
        Some(interface) => {
            lemma_base_type_stable(arena, more, interface.type_mark);
        },
        None => {},
    }
}

impl InterfaceEnt {
    /// The index of the declaration.
    pub fn inner(&self) -> (ent: EntityId)
        ensures
            ent == self.ent,
    {
        self.ent
    }

    /// The interface element that a declaration is, if it is one.
    pub fn from_any(arena: &Arena, ent: EntityId) -> (res: Option<InterfaceEnt>)
        ensures
            res == interface_of(arena@, ent),
    {
        match arena.get(ent) {
            Some(r) => {
                match &r.ent.kind {
                    AnyEntKind::Object(object) => {
                        if object.mode.is_some() {
                            Some(
                                InterfaceEnt {
                                    ent,
                                    designator: r.ent.designator,
                                    type_mark: object.subtype.type_mark,
                                    base_type: arena.base_type(object.subtype.type_mark),
                                    has_default: object.has_default,
                                },
                            )
                        } else {
                            None
                        }
                    },
                    AnyEntKind::InterfaceFile(file_type) => Some(
                        InterfaceEnt {
                            ent,
                            designator: r.ent.designator,
                            type_mark: *file_type,
                            base_type: arena.base_type(*file_type),
                            has_default: false,
                        },
                    ),
                    _ => None,
                }
            },
            None => None,
        }
    }

    pub fn designator(&self) -> (d: Designator)
        ensures
            d == self.designator,
    {
        self.designator
    }

    pub fn has_default(&self) -> (res: bool)
        ensures
            res == self.has_default,
    {
        self.has_default
    }

    pub fn base_type(&self) -> (typ: TypeId)
        ensures
            typ == self.base_type,
    {
        self.base_type
    }

    pub fn type_mark(&self) -> (typ: TypeId)
        ensures
            typ == self.type_mark,
    {
        self.type_mark
    }
}

/// The formal region is an ordered list of interface elements such as ports,
/// generics and subprogram arguments. No two of its elements have the same
/// designator: every way to make or to change a region keeps it so, and an
/// element that would break it is refused.
#[derive(Debug)]
pub struct FormalRegion {
    entities: Vec<InterfaceEnt>,
}

impl View for FormalRegion {
    type V = Seq<InterfaceEnt>;

    closed spec fn view(&self) -> Seq<InterfaceEnt> {
        self.entities@
    }
}

/// The first element from index `from` on that has the designator.
pub open spec fn formal_from(formals: Seq<InterfaceEnt>, designator: Designator, from: int) -> Option<
    InterfaceEnt,
>
    decreases formals.len() - from,
{
    if from < 0 || from >= formals.len() {
        None
    } else if formals[from].designator == designator {
        Some(formals[from])
    } else {
        formal_from(formals, designator, from + 1)
    }
}

/// The first element that has the designator.
pub open spec fn formal_named(formals: Seq<InterfaceEnt>, designator: Designator) -> Option<
    InterfaceEnt,
> {
    formal_from(formals, designator, 0)
}

/// The element at a position.
pub open spec fn formal_at(formals: Seq<InterfaceEnt>, idx: int) -> Option<InterfaceEnt> {
    if 0 <= idx < formals.len() {
        Some(formals[idx])
    } else {
        None
    }
}

/// Whether no two elements of the list have the same designator. A region
/// is meant to be built so; a lookup in such a region finds the one element
/// that has the designator.
pub open spec fn distinct_designators(formals: Seq<InterfaceEnt>) -> bool {
    forall|i: int, j: int|
        0 <= i < j < formals.len() ==> (#[trigger] formals[i]).designator
            != (#[trigger] formals[j]).designator
}

/// Whether every element of the list is what `interface_of` says of its
/// declaration in the arena: an interface object or an interface file, with
/// the values of that declaration. A region that is built by `add` alone is
/// so.
pub open spec fn interfaces_of(formals: Seq<InterfaceEnt>, arena: Seq<NamedEntity>) -> bool {
    forall|i: int|
        0 <= i < formals.len() ==> interface_of(arena, (#[trigger] formals[i]).ent) == Some(
            formals[i],
        )
}

/// The list after an attempt to insert an element: longer by the element,
/// or unchanged where an element of the list has its designator already.
pub open spec fn formals_inserted(formals: Seq<InterfaceEnt>, ent: InterfaceEnt) -> Seq<
    InterfaceEnt,
> {
    if formal_named(formals, ent.designator) is None {
        formals.push(ent)
    } else {
        formals
    }
}

/// Whether a declaration can be added to the list: it is an interface
/// object or an interface file, and no element of the list has its
/// designator.
pub open spec fn can_add(formals: Seq<InterfaceEnt>, arena: Seq<NamedEntity>, param: EntityId) -> bool {
    match interface_of(arena, param) {
        Some(ent) => formal_named(formals, ent.designator) is None,
        None => false,
    }
}

/// The list after an attempt to add a declaration: longer by the interface
/// element that the declaration is where it can be added, and unchanged
/// where it cannot.
pub open spec fn formals_added(
    formals: Seq<InterfaceEnt>,
    arena: Seq<NamedEntity>,
    param: EntityId,
) -> Seq<InterfaceEnt> {
    match interface_of(arena, param) {
        Some(ent) => formals_inserted(formals, ent),
        None => formals,
    }
}

/// The first `n` of the given elements, without those that have the
/// designator of an earlier one.
pub open spec fn formals_collected(entities: Seq<InterfaceEnt>, n: nat) -> Seq<InterfaceEnt>
    decreases n,
{
    if n == 0 || n > entities.len() {
        Seq::empty()
    } else {
        formals_inserted(formals_collected(entities, (n - 1) as nat), entities[n - 1])
    }
}

/// Collecting elements without duplicate designators keeps them all.
pub proof fn lemma_collected_distinct(entities: Seq<InterfaceEnt>, n: nat)
    requires
        n <= entities.len(),
    ensures
        distinct_designators(formals_collected(entities, n)),
        distinct_designators(entities) ==> formals_collected(entities, n) == entities.take(
            n as int,
        ),
    decreases n,
{
    if n > 0 {
        let before = formals_collected(entities, (n - 1) as nat);
        let ent = entities[n - 1];
        lemma_collected_distinct(entities, (n - 1) as nat);
        lemma_formal_unique(before, ent.designator, ent);
        if distinct_designators(entities) {
            lemma_formal_named(before, ent.designator);
            assert(formal_named(before, ent.designator) is None) by {
                if formal_named(before, ent.designator) is Some {
                    let i = choose|i: int|
                        0 <= i < before.len() && (#[trigger] before[i]).designator
                            == ent.designator;
                    assert(before[i] == entities[i]);
                    assert(entities[i].designator != entities[n - 1].designator);
                }
            }
            assert(entities.take(n as int) =~= entities.take(n - 1).push(ent));
        }
    } else {
        assert(entities.take(0) =~= Seq::<InterfaceEnt>::empty());
    }
}

/// A lookup finds an element exactly when some element has the designator,
/// and what it finds has the designator and comes before every other such
/// element.
pub proof fn lemma_formal_named(formals: Seq<InterfaceEnt>, designator: Designator)
    ensures
        formal_named(formals, designator) is Some <==> exists|i: int|
            0 <= i < formals.len() && (#[trigger] formals[i]).designator == designator,
        formal_named(formals, designator) matches Some(found) ==> exists|i: int|
            0 <= i < formals.len() && #[trigger] formals[i] == found && found.designator
                == designator && forall|j: int|
                0 <= j < i ==> (#[trigger] formals[j]).designator != designator,
{
    lemma_formal_from(formals, designator, 0);
}

/// In a region without duplicate designators a lookup finds an element
/// exactly when the element is in the region and has the designator, and an
/// element that is added under a designator that the region does not have
/// keeps the region free of duplicates.
pub proof fn lemma_formal_unique(
    formals: Seq<InterfaceEnt>,
    designator: Designator,
    ent: InterfaceEnt,
)
    requires
        distinct_designators(formals),
    ensures
        formal_named(formals, designator) == Some(ent) <==> ent.designator == designator
            && formals.contains(ent),
        formal_named(formals, ent.designator) is None ==> distinct_designators(formals.push(ent)),
{
    lemma_formal_named(formals, designator);
    lemma_formal_named(formals, ent.designator);
    if ent.designator == designator && formals.contains(ent) {
        let k = choose|k: int| 0 <= k < formals.len() && formals[k] == ent;
        assert(formals[k].designator == designator);
        let found = formal_named(formals, designator)->Some_0;
        let i = choose|i: int|
            0 <= i < formals.len() && #[trigger] formals[i] == found && found.designator
                == designator && forall|j: int|
                0 <= j < i ==> (#[trigger] formals[j]).designator != designator;
        assert(formals[i] == found);
        if i < k {
            assert(formals[i].designator != formals[k].designator);
        } else if k < i {
            assert(formals[k].designator != formals[i].designator);
        }
    }
    if formal_named(formals, ent.designator) is None {
        let longer = formals.push(ent);
        assert forall|i: int, j: int| 0 <= i < j < longer.len() implies (#[trigger] longer[i]).designator
            != (#[trigger] longer[j]).designator by {
            if j < formals.len() {
                assert(longer[i] == formals[i] && longer[j] == formals[j]);
            } else {
                assert(longer[i] == formals[i]);
                assert(formals[i].designator != ent.designator);
            }
        }
    }
}

proof fn lemma_formal_from(formals: Seq<InterfaceEnt>, designator: Designator, from: int)
    requires
        0 <= from,
    ensures
        formal_from(formals, designator, from) is Some <==> exists|i: int|
            from <= i < formals.len() && (#[trigger] formals[i]).designator == designator,
        formal_from(formals, designator, from) matches Some(found) ==> exists|i: int|
            from <= i < formals.len() && #[trigger] formals[i] == found && found.designator
                == designator && forall|j: int|
                from <= j < i ==> (#[trigger] formals[j]).designator != designator,
    decreases formals.len() - from,
{
    if from >= formals.len() {
    } else if formals[from].designator == designator {
        assert(formals[from] == formals[from]);
    } else {
        lemma_formal_from(formals, designator, from + 1);
        match formal_from(formals, designator, from + 1) {
            Some(found) => {
                let i = choose|i: int|
                    from + 1 <= i < formals.len() && #[trigger] formals[i] == found
                        && found.designator == designator && forall|j: int|
                        from + 1 <= j < i ==> (#[trigger] formals[j]).designator != designator;
                assert(formals[i] == found);
                assert forall|j: int| from <= j < i implies (#[trigger] formals[j]).designator
                    != designator by {
                    if j > from {
                    }
                }
            },
            None => {},
        }
    }
}

impl FormalRegion {
    /// A region of the given elements in their order. An element that
    /// has the designator of an earlier one is left out, so that a list
    /// without duplicates is taken as it is.
    pub fn new(entities: Vec<InterfaceEnt>) -> (region: FormalRegion)
        ensures
            region@ == formals_collected(entities@, entities@.len()),
            distinct_designators(region@),
            distinct_designators(entities@) ==> region@ == entities@,
            forall|i: int| 0 <= i < region@.len() ==> entities@.contains(#[trigger] region@[i]),
    {
        let mut region = FormalRegion { entities: Vec::new() };
        let mut i: usize = 0;
        while i < entities.len()
            invariant
                i <= entities.len(),
                region@ == formals_collected(entities@, i as nat),
                forall|k: int| 0 <= k < region@.len() ==> entities@.contains(#[trigger] region@[k]),
            decreases entities.len() - i,
        {
            let ghost before = region@;
            region.insert(entities[i]);
            proof {
                assert(entities@.contains(entities@[i as int]));
                assert forall|k: int| 0 <= k < region@.len() implies entities@.contains(
                    #[trigger] region@[k],
                ) by {
                    if k < before.len() {
                        assert(region@[k] == before[k]);
                    }
                }
            }
            i = i + 1;
        }
        proof {
            lemma_collected_distinct(entities@, entities@.len());
            assert(entities@.take(entities@.len() as int) =~= entities@);
        }
        region
    }

    /// The element with the given designator, or a diagnostic at `pos` that
    /// says that there is none.
    pub fn lookup(&self, pos: &SrcPos, designator: &Designator) -> (res: Result<
        InterfaceEnt,
        Diagnostic,
    >)
        ensures
            match formal_named(self@, *designator) {
                Some(ent) => res == Ok::<InterfaceEnt, Diagnostic>(ent),
                None => res is Err && res->Err_0@ == error_view(
                    *pos,
                    Message::NoDeclaration(*designator),
                ),
            },
    {
        let mut i: usize = 0;
        while i < self.entities.len()
            invariant
                i <= self.entities.len(),
                formal_named(self@, *designator) == formal_from(self@, *designator, i as int),
            decreases self.entities.len() - i,
        {
            if self.entities[i].designator == *designator {
                return Ok(self.entities[i]);
            }
            i = i + 1;
        }
        Err(Diagnostic::error(*pos, Message::NoDeclaration(*designator)))
    }

    pub fn is_empty(&self) -> (res: bool)
        ensures
            res == (self@.len() == 0),
    {
        self.entities.len() == 0
    }

    pub fn len(&self) -> (n: usize)
        ensures
            n == self@.len(),
    {
        self.entities.len()
    }

    /// The elements in order.
    pub fn iter(&self) -> (entities: &Vec<InterfaceEnt>)
        ensures
            entities@ == self@,
    {
        &self.entities
    }

    /// Appends an element, unless an element of the region has its
    /// designator already, and tells whether it was appended.
    pub fn insert(&mut self, ent: InterfaceEnt) -> (added: bool)
        ensures
            added == (formal_named(old(self)@, ent.designator) is None),
            final(self)@ == formals_inserted(old(self)@, ent),
            distinct_designators(old(self)@) ==> distinct_designators(final(self)@),
    {
        proof {
            if distinct_designators(self@) {
                lemma_formal_unique(self@, ent.designator, ent);
            }
        }
        let mut i: usize = 0;
        while i < self.entities.len()
            invariant
                i <= self.entities.len(),
                self@ == old(self)@,
                formal_named(self@, ent.designator) == formal_from(
                    self@,
                    ent.designator,
                    i as int,
                ),
            decreases self.entities.len() - i,
        {
            if self.entities[i].designator == ent.designator {
                return false;
            }
            i = i + 1;
        }
        self.entities.push(ent);
        true
    }

    /// Adds a declaration to the region and tells whether it was added. A
    /// declaration that is no interface object or interface file, and one
    /// whose designator an element of the region has already, must not be
    /// given: the region refuses it, stays as it is and answers `false`.
    pub fn add(&mut self, arena: &Arena, param: EntityId) -> (added: bool)
        ensures
            added == can_add(old(self)@, arena@, param),
            final(self)@ == formals_added(old(self)@, arena@, param),
            added ==> final(self)@ == old(self)@.push(interface_of(arena@, param)->Some_0),
            !added ==> final(self)@ == old(self)@,
            distinct_designators(old(self)@) ==> distinct_designators(final(self)@),
            interfaces_of(old(self)@, arena@) ==> interfaces_of(final(self)@, arena@),
    {
        let ghost before = self@;
        match InterfaceEnt::from_any(arena, param) {
            Some(ent) => {
                let added = self.insert(ent);
                proof {
                    if interfaces_of(before, arena@) {
                        assert forall|i: int| 0 <= i < self@.len() implies interface_of(
                            arena@,
                            (#[trigger] self@[i]).ent,
                        ) == Some(self@[i]) by {
                            if i < before.len() {
                                assert(self@[i] == before[i]);
                            }
                        }
                    }
                }
                added
            },
            None => false,
        }
    }

    /// A copy of the region.
    pub fn duplicate(&self) -> (region: FormalRegion)
        ensures
            region@ == self@,
    {
        let mut entities: Vec<InterfaceEnt> = Vec::new();
        let mut i: usize = 0;
        while i < self.entities.len()
            invariant
                i <= self.entities.len(),
                entities@ == self.entities@.take(i as int),
            decreases self.entities.len() - i,
        {
            entities.push(self.entities[i]);
            proof {
                assert(self.entities@.take(i + 1) == self.entities@.take(i as int).push(
                    self.entities@[i as int],
                ));
            }
            i = i + 1;
        }
        proof {
            assert(self.entities@.take(self.entities.len() as int) == self.entities@);
        }
        FormalRegion { entities }
    }

    pub fn nth(&self, idx: usize) -> (res: Option<&InterfaceEnt>)
        ensures
            match formal_at(self@, idx as int) {
                Some(ent) => res == Some(&ent),
                None => res is None,
            },
    {
        if idx < self.entities.len() {
            Some(&self.entities[idx])
        } else {
            None
        }
    }
}

impl Default for FormalRegion {
    fn default() -> (region: FormalRegion)
        ensures
            region@ == Seq::<InterfaceEnt>::empty(),
    {
        FormalRegion { entities: Vec::new() }
    }
}

} // verus!
