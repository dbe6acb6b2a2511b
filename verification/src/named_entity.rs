//! Declarations and the arena that owns them.
use vstd::prelude::*;
use crate::data::{Designator, SrcPos};
use crate::formal_region::FormalRegion;

verus! {

/// The index of a declaration in the arena.
pub type EntityId = usize;

/// The index of a declaration that is expected to be a type.
pub type TypeId = usize;

#[derive(Clone, Copy, Debug, PartialEq, Eq, Structural)]
pub enum ObjectClass {
    Signal,
    Constant,
    Variable,
    SharedVariable,
}

#[derive(Clone, Copy, Debug, PartialEq, Eq, Structural)]
pub enum Mode {
    In,
    Out,
    InOut,
    Buffer,
    Linkage,
}

/// A type mark as it is written in a subtype indication.
#[derive(Clone, Copy, Debug, PartialEq, Eq, Structural)]
pub struct Subtype {
    pub type_mark: TypeId,
}

/// A typed value. Interface objects have a mode, other objects have none.
#[derive(Clone, Copy, Debug, PartialEq, Eq, Structural)]
pub struct Object {
    pub class: ObjectClass,
    pub mode: Option<Mode>,
    pub subtype: Subtype,
    pub has_default: bool,
}

/// The kinds of types that the analysis tells apart.
#[derive(Clone, Copy, Debug, PartialEq, Eq, Structural)]
pub enum Type {
    Integer,
    Physical,
    Enum,
    Array,
    File,
    Subtype(Subtype),
}

/// The formals and the return type of a subprogram or an enumeration
/// literal. A signature with a return type is a function, one without is a
/// procedure.
#[derive(Debug)]
pub struct Signature {
    pub formals: FormalRegion,
    pub return_type: Option<TypeId>,
}

/// The interface declarations of a design unit, generics and ports, in the
/// order of their declaration.
#[derive(Debug)]
pub struct UnitRegion {
    pub entities: Vec<EntityId>,
}

#[derive(Debug)]
pub enum AnyEntKind {
    Object(Object),
    InterfaceFile(TypeId),
    Type(Type),
    Label,
    Entity(UnitRegion),
    Component(UnitRegion),
    Configuration(UnitRegion),
    LoopParameter(Option<TypeId>),
    Overloaded(Signature),
}

/// An analyzed declaration. It does not change once it is in the arena.
#[derive(Debug)]
pub struct NamedEntity {
    pub designator: Designator,
    pub kind: AnyEntKind,
    pub decl_pos: Option<SrcPos>,
}

/// A declaration together with its index in the arena.
#[derive(Clone, Copy, Debug)]
pub struct EntRef<'a> {
    pub id: EntityId,
    pub ent: &'a NamedEntity,
}

/// The owner of all declarations. Declarations are only ever appended, so
/// an index stays valid and keeps its meaning.
#[derive(Debug)]
pub struct Arena {
    pub entities: Vec<NamedEntity>,
}

impl View for Arena {
    type V = Seq<NamedEntity>;

    open spec fn view(&self) -> Seq<NamedEntity> {
        self.entities@
    }
}

/// The type that a type mark stands for after all subtypes are unfolded. A
/// subtype can only refer to a declaration made before it; an index that
/// names no subtype is its own base.
pub open spec fn base_type_of(arena: Seq<NamedEntity>, typ: TypeId) -> TypeId
    decreases typ,
{
    if typ < arena.len() {
        match arena[typ as int].kind {
            AnyEntKind::Type(Type::Subtype(subtype)) => {
                if subtype.type_mark < typ {
                    base_type_of(arena, subtype.type_mark)
                } else {
                    typ
                }
            },
            _ => typ,
        }
    } else {
        typ
    }
}

/// Whether the index names a type declaration.
pub open spec fn is_type(arena: Seq<NamedEntity>, id: EntityId) -> bool {
    id < arena.len() && arena[id as int].kind is Type
}

/// Whether the index names an overloaded declaration.
pub open spec fn is_overloaded(arena: Seq<NamedEntity>, id: EntityId) -> bool {
    id < arena.len() && arena[id as int].kind is Overloaded
}

/// Whether two type marks have the same base type.
pub open spec fn same_base_type(arena: Seq<NamedEntity>, a: TypeId, b: TypeId) -> bool {
    base_type_of(arena, a) == base_type_of(arena, b)
}

/// Whether a signature's return type agrees with the type that the context
/// expects: both absent, or both present with the same base type.
pub open spec fn return_type_matches(
    arena: Seq<NamedEntity>,
    return_type: Option<TypeId>,
    target_type: Option<TypeId>,
) -> bool {
    match (return_type, target_type) {
        (Some(r), Some(t)) => same_base_type(arena, r, t),
        (None, None) => true,
        _ => false,
    }
}

/// Appending declarations changes the base type of no earlier type mark.
pub proof fn lemma_base_type_stable(arena: Seq<NamedEntity>, more: Seq<NamedEntity>, typ: TypeId)
    requires
        typ < arena.len(),
    ensures
        base_type_of(arena + more, typ) == base_type_of(arena, typ),
    decreases typ,
{
    assert((arena + more)[typ as int] == arena[typ as int]);
    match arena[typ as int].kind {
        AnyEntKind::Type(Type::Subtype(subtype)) => {
            if subtype.type_mark < typ {
                lemma_base_type_stable(arena, more, subtype.type_mark);
            }
        },
        _ => {},
    }
}

impl Signature {
    pub open spec fn spec_is_function(&self) -> bool {
        self.return_type is Some
    }

    /// Whether the subprogram produces a value.
    #[verifier::when_used_as_spec(spec_is_function)]
    pub fn is_function(&self) -> (res: bool)
        ensures
            res == self.spec_is_function(),
    {
        self.return_type.is_some()
    }

    /// Whether the return type agrees with the expected type.
    pub fn match_return_type(&self, arena: &Arena, target_type: Option<TypeId>) -> (res: bool)
        ensures
            res == return_type_matches(arena@, self.return_type, target_type),
    {
        match (self.return_type, target_type) {
            (Some(r), Some(t)) => arena.base_type(r) == arena.base_type(t),
            (None, None) => true,
            _ => false,
        }
    }
}

impl Arena {
    pub fn new() -> (arena: Arena)
        ensures
            arena@ == Seq::<NamedEntity>::empty(),
    {
        Arena { entities: Vec::new() }
    }

    pub fn len(&self) -> (n: usize)
        ensures
            n == self@.len(),
    {
        self.entities.len()
    }

    /// Appends a declaration and returns its index.
    pub fn define(&mut self, designator: Designator, kind: AnyEntKind, decl_pos: Option<SrcPos>) -> (id:
        EntityId)
        ensures
            id == old(self)@.len(),
            final(self)@ == old(self)@.push(NamedEntity { designator, kind, decl_pos }),
    {
        let id: usize = self.entities.len();
        self.entities.push(NamedEntity { designator, kind, decl_pos });
        id
    }

    /// The declaration at an index, if there is one.
    pub fn get(&self, id: EntityId) -> (res: Option<EntRef<'_>>)
        ensures
            res is Some <==> id < self@.len(),
            res matches Some(r) ==> r.id == id && *r.ent == self@[id as int],
    {
        if id < self.entities.len() {
            Some(EntRef { id, ent: &self.entities[id] })
        } else {
            None
        }
    }

    /// The base type of a type mark.
    pub fn base_type(&self, typ: TypeId) -> (res: TypeId)
        ensures
            res == base_type_of(self@, typ),
    {
        let mut current: usize = typ;
        loop
            invariant
                base_type_of(self@, current) == base_type_of(self@, typ),
            ensures
                current == base_type_of(self@, typ),
            decreases current,
        {
            if current >= self.entities.len() {
                break;
            }
            match &self.entities[current].kind {
                AnyEntKind::Type(Type::Subtype(subtype)) => {
                    if subtype.type_mark < current {
                        current = subtype.type_mark;
                    } else {
                        break;
                    }
                },
                _ => {
                    break;
                },
            }
        }
        current
    }
}

} // verus!
