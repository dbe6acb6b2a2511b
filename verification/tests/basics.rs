#![allow(dead_code, unused_imports)]
use vhdl_lang::analyze::{AnalyzeContext, FatalError, Standard};
use vhdl_lang::ast::{
    ActualPart, AssociationElement, Expression, FunctionCall, Literal, Name, WithPos,
};
use vhdl_lang::data::{
    Designator, Diagnostic, Message, Operator, Related, RelatedKind, Severity, SrcPos, Symbol,
    UnitKind,
};
use vhdl_lang::formal_region::{FormalRegion, InterfaceEnt};
use vhdl_lang::named_entity::{
    AnyEntKind, Arena, Mode, Object, ObjectClass, Signature, Subtype, Type, UnitRegion,
};
use vhdl_lang::region::{Binding, NamedEntities, OverloadedName, Scope};
use vhdl_lang::semantic::TypeCheck;
use vhdl_lang::references::References;

fn pos(n: u32) -> SrcPos {
    SrcPos { start: n, end: n + 1 }
}

fn ident(id: u32) -> Designator {
    Designator::Identifier(Symbol { id })
}

struct Fixture {
    ctx: AnalyzeContext,
    scope: Scope,
    diagnostics: Vec<Diagnostic>,
    integer: usize,
    boolean: usize,
    time: usize,
    string: usize,
    severity_level: usize,
}

impl Fixture {
    fn new() -> Fixture {
        let mut arena = Arena::new();
        let integer = arena.define(ident(900), AnyEntKind::Type(Type::Integer), None);
        let boolean = arena.define(ident(901), AnyEntKind::Type(Type::Enum), None);
        let time = arena.define(ident(902), AnyEntKind::Type(Type::Physical), None);
        let string = arena.define(ident(903), AnyEntKind::Type(Type::Array), None);
        let severity_level = arena.define(ident(904), AnyEntKind::Type(Type::Enum), None);
        let mut scope = Scope::new();
        let mut diagnostics = Vec::new();
        for id in [integer, boolean, time, string, severity_level] {
            scope.add(arena.get(id).unwrap(), &mut diagnostics);
        }
        let standard = Standard { boolean, time, string, severity_level };
        Fixture {
            ctx: AnalyzeContext::new(arena, standard),
            scope,
            diagnostics,
            integer,
            boolean,
            time,
            string,
            severity_level,
        }
    }

    fn declare(&mut self, designator: Designator, kind: AnyEntKind, at: u32) -> usize {
        let id = self.ctx.arena.define(designator, kind, Some(pos(at)));
        self.scope.add(self.ctx.arena.get(id).unwrap(), &mut self.diagnostics);
        id
    }

    fn object(&mut self, name: u32, class: ObjectClass, typ: usize, at: u32) -> usize {
        let kind = AnyEntKind::Object(Object {
            class,
            mode: None,
            subtype: Subtype { type_mark: typ },
            has_default: false,
        });
        self.declare(ident(name), kind, at)
    }

    fn formals(&mut self, types: &[usize]) -> FormalRegion {
        let mut region = FormalRegion::default();
        for (i, typ) in types.iter().enumerate() {
            let kind = AnyEntKind::Object(Object {
                class: ObjectClass::Constant,
                mode: Some(Mode::In),
                subtype: Subtype { type_mark: *typ },
                has_default: false,
            });
            let id = self.ctx.arena.define(ident(800 + i as u32), kind, None);
            region.add(&self.ctx.arena, id);
        }
        region
    }

    fn subprogram(
        &mut self,
        designator: Designator,
        types: &[usize],
        return_type: Option<usize>,
        at: u32,
    ) -> usize {
        let formals = self.formals(types);
        self.declare(designator, AnyEntKind::Overloaded(Signature { formals, return_type }), at)
    }
}

fn name(designator: Designator, at: u32, reference: usize) -> Name {
    Name { designator, pos: pos(at), reference }
}

fn lit(value: u64, at: u32) -> WithPos<Expression> {
    WithPos { item: Expression::Literal(Literal::Integer(value)), pos: pos(at) }
}

fn name_expr(designator: Designator, at: u32, reference: usize) -> WithPos<Expression> {
    WithPos { item: Expression::Name(name(designator, at, reference)), pos: pos(at) }
}

fn positional(actual: WithPos<Expression>) -> AssociationElement {
    AssociationElement { formal: None, actual: ActualPart::Expression(actual) }
}

fn named(formal: Name, actual: WithPos<Expression>) -> AssociationElement {
    AssociationElement { formal: Some(formal), actual: ActualPart::Expression(actual) }
}

fn call(designator: Designator, at: u32, reference: usize, parameters: Vec<AssociationElement>) -> FunctionCall {
    FunctionCall { name: name(designator, at, reference), parameters }
}

fn call_expr(
    designator: Designator,
    at: u32,
    reference: usize,
    parameters: Vec<AssociationElement>,
) -> WithPos<Expression> {
    WithPos { item: Expression::Call(call(designator, at, reference, parameters)), pos: pos(at) }
}

fn messages(diagnostics: &[Diagnostic]) -> Vec<Message> {
    diagnostics.iter().map(|d| d.message).collect()
}

#[test]
fn type_check_combines_with_mismatch_first() {
    let (okay, not_ok, unknown) = (TypeCheck::Okay, TypeCheck::NotOk, TypeCheck::Unknown);
    assert_eq!(okay.combine(okay), okay);
    assert_eq!(okay.combine(unknown), unknown);
    assert_eq!(unknown.combine(okay), unknown);
    assert_eq!(unknown.combine(unknown), unknown);
    assert_eq!(unknown.combine(not_ok), not_ok);
    assert_eq!(not_ok.combine(unknown), not_ok);
    assert_eq!(not_ok.combine(okay), not_ok);
    assert_eq!(okay.combine(not_ok), not_ok);
    let mut check = okay;
    check.add(unknown);
    assert_eq!(check, unknown);
    check.add(not_ok);
    assert_eq!(check, not_ok);
    check.add(okay);
    assert_eq!(check, not_ok);
    assert_eq!(TypeCheck::from_bool(true), okay);
    assert_eq!(TypeCheck::from_bool(false), not_ok);
}

#[test]
fn base_type_unfolds_subtypes() {
    let mut arena = Arena::new();
    let integer = arena.define(ident(1), AnyEntKind::Type(Type::Integer), None);
    let natural =
        arena.define(ident(2), AnyEntKind::Type(Type::Subtype(Subtype { type_mark: integer })), None);
    let positive =
        arena.define(ident(3), AnyEntKind::Type(Type::Subtype(Subtype { type_mark: natural })), None);
    let label = arena.define(ident(4), AnyEntKind::Label, None);
    assert_eq!(arena.len(), 4);
    assert_eq!(arena.base_type(integer), integer);
    assert_eq!(arena.base_type(natural), integer);
    assert_eq!(arena.base_type(positive), integer);
    assert_eq!(arena.base_type(label), label);
    assert_eq!(arena.base_type(17), 17);
    assert!(arena.get(4).is_none());
    let found = arena.get(positive).unwrap();
    assert_eq!(found.id, positive);
    assert_eq!(found.ent.designator, ident(3));
    // A subtype that names itself is its own base
    let odd = arena.define(ident(5), AnyEntKind::Type(Type::Subtype(Subtype { type_mark: 4 })), None);
    assert_eq!(arena.base_type(odd), odd);
}

#[test]
fn return_type_matches_by_base_type() {
    let mut arena = Arena::new();
    let integer = arena.define(ident(1), AnyEntKind::Type(Type::Integer), None);
    let natural =
        arena.define(ident(2), AnyEntKind::Type(Type::Subtype(Subtype { type_mark: integer })), None);
    let boolean = arena.define(ident(3), AnyEntKind::Type(Type::Enum), None);
    let function = Signature { formals: FormalRegion::default(), return_type: Some(natural) };
    let procedure = Signature { formals: FormalRegion::default(), return_type: None };
    assert!(function.is_function());
    assert!(!procedure.is_function());
    assert!(function.match_return_type(&arena, Some(integer)));
    assert!(function.match_return_type(&arena, Some(natural)));
    assert!(!function.match_return_type(&arena, Some(boolean)));
    assert!(!function.match_return_type(&arena, None));
    assert!(procedure.match_return_type(&arena, None));
    assert!(!procedure.match_return_type(&arena, Some(integer)));
}

fn interface_arena() -> (Arena, usize, usize, usize, usize, usize) {
    let mut arena = Arena::new();
    let integer = arena.define(ident(1), AnyEntKind::Type(Type::Integer), None);
    let natural =
        arena.define(ident(2), AnyEntKind::Type(Type::Subtype(Subtype { type_mark: integer })), None);
    let port = arena.define(
        ident(10),
        AnyEntKind::Object(Object {
            class: ObjectClass::Signal,
            mode: Some(Mode::In),
            subtype: Subtype { type_mark: natural },
            has_default: true,
        }),
        Some(pos(5)),
    );
    let file_type = arena.define(ident(3), AnyEntKind::Type(Type::File), None);
    let file = arena.define(ident(11), AnyEntKind::InterfaceFile(file_type), None);
    let local = arena.define(
        ident(12),
        AnyEntKind::Object(Object {
            class: ObjectClass::Signal,
            mode: None,
            subtype: Subtype { type_mark: integer },
            has_default: false,
        }),
        None,
    );
    (arena, integer, natural, port, file, local)
}

#[test]
fn interface_elements_are_objects_with_mode_and_files() {
    let (arena, integer, natural, port, file, local) = interface_arena();
    let ent = InterfaceEnt::from_any(&arena, port).unwrap();
    assert_eq!(ent.inner(), port);
    assert_eq!(ent.designator(), ident(10));
    assert!(ent.has_default());
    assert_eq!(ent.type_mark(), natural);
    assert_eq!(ent.base_type(), integer);
    let ent = InterfaceEnt::from_any(&arena, file).unwrap();
    assert_eq!(ent.inner(), file);
    assert!(!ent.has_default());
    assert_eq!(ent.type_mark(), 3);
    assert_eq!(ent.base_type(), 3);
    assert!(InterfaceEnt::from_any(&arena, local).is_none());
    assert!(InterfaceEnt::from_any(&arena, integer).is_none());
    assert!(InterfaceEnt::from_any(&arena, 99).is_none());
}

#[test]
fn formal_region_keeps_the_order_of_insertion() {
    let (arena, _integer, _natural, port, file, local) = interface_arena();
    let mut region = FormalRegion::default();
    assert!(region.is_empty());
    assert!(region.add(&arena, file));
    // What is no interface object or file is refused
    assert!(!region.add(&arena, local));
    assert!(!region.add(&arena, 99));
    assert!(region.add(&arena, port));
    assert_eq!(region.len(), 2);
    assert!(!region.is_empty());
    assert_eq!(region.nth(0).unwrap().inner(), file);
    assert_eq!(region.nth(1).unwrap().inner(), port);
    assert!(region.nth(2).is_none());
    let ids: Vec<usize> = region.iter().iter().map(|ent| ent.inner()).collect();
    assert_eq!(ids, vec![file, port]);
    let copy = region.duplicate();
    assert_eq!(copy.iter(), region.iter());
    let built = FormalRegion::new(vec![*region.nth(1).unwrap()]);
    assert_eq!(built.len(), 1);
    assert_eq!(built.nth(0).unwrap().inner(), port);
}

#[test]
fn formal_region_refuses_a_duplicate_designator() {
    let (mut arena, integer, _natural, port, file, _local) = interface_arena();
    let again = arena.define(
        ident(10),
        AnyEntKind::Object(Object {
            class: ObjectClass::Constant,
            mode: Some(Mode::In),
            subtype: Subtype { type_mark: integer },
            has_default: false,
        }),
        None,
    );
    let mut region = FormalRegion::default();
    assert!(region.add(&arena, port));
    assert!(!region.add(&arena, again));
    assert!(!region.add(&arena, port));
    assert_eq!(region.len(), 1);
    assert_eq!(region.lookup(&pos(0), &ident(10)).unwrap().inner(), port);
    let second = InterfaceEnt::from_any(&arena, again).unwrap();
    assert!(!region.insert(second));
    assert!(region.insert(InterfaceEnt::from_any(&arena, file).unwrap()));
    assert_eq!(region.len(), 2);
    // A list with a duplicate is taken without it
    let first = InterfaceEnt::from_any(&arena, port).unwrap();
    let built = FormalRegion::new(vec![first, second, first]);
    assert_eq!(built.len(), 1);
    assert_eq!(built.nth(0).unwrap().inner(), port);
}

#[test]
fn formal_region_lookup_is_by_exact_designator() {
    let (arena, _integer, _natural, port, file, _local) = interface_arena();
    let mut region = FormalRegion::default();
    region.add(&arena, port);
    region.add(&arena, file);
    let found = region.lookup(&pos(7), &ident(11)).unwrap();
    assert_eq!(found.inner(), file);
    let missing = region.lookup(&pos(7), &ident(12)).unwrap_err();
    assert_eq!(missing.pos, pos(7));
    assert_eq!(missing.severity, Severity::Error);
    assert_eq!(missing.message, Message::NoDeclaration(ident(12)));
    assert!(missing.related.is_empty());
}

#[test]
fn references_start_unresolved() {
    let mut refs = References::new();
    assert_eq!(refs.get(3), None);
    refs.set_unique_reference(3, 7);
    assert_eq!(refs.get(3), Some(7));
    refs.set_unique_reference(3, 8);
    assert_eq!(refs.get(3), Some(8));
    refs.clear_reference(3);
    assert_eq!(refs.get(3), None);
}

fn binding(name: u32, ent: usize, overloaded: bool) -> Binding {
    Binding { designator: ident(name), ent, overloaded, decl_pos: Some(pos(ent as u32)) }
}

fn single(scope: &Scope, name: u32) -> Option<usize> {
    match scope.lookup(&pos(0), &ident(name)) {
        Ok(NamedEntities::Single(ent)) => Some(ent),
        _ => None,
    }
}

fn overloaded(scope: &Scope, name: u32) -> Option<Vec<usize>> {
    match scope.lookup(&pos(0), &ident(name)) {
        Ok(NamedEntities::Overloaded(names)) => Some(names.entities().clone()),
        _ => None,
    }
}

#[test]
fn nested_scope_sees_ancestors_and_hides_nothing_from_them() {
    let mut diagnostics = Vec::new();
    let mut root = Scope::new();
    root.add_binding(binding(1, 10, false), &mut diagnostics);
    root.add_binding(binding(2, 11, false), &mut diagnostics);
    let mut child = root.nested();
    child.add_binding(binding(2, 12, false), &mut diagnostics);
    child.add_binding(binding(3, 13, false), &mut diagnostics);
    let mut grandchild = child.nested();
    grandchild.add_binding(binding(1, 14, false), &mut diagnostics);
    assert!(diagnostics.is_empty());
    // The root sees only its own declarations
    assert_eq!(single(&root, 1), Some(10));
    assert_eq!(single(&root, 2), Some(11));
    assert_eq!(single(&root, 3), None);
    // The nearest declaration wins
    assert_eq!(single(&child, 1), Some(10));
    assert_eq!(single(&child, 2), Some(12));
    assert_eq!(single(&child, 3), Some(13));
    assert_eq!(single(&grandchild, 1), Some(14));
    assert_eq!(single(&grandchild, 2), Some(12));
    assert_eq!(single(&grandchild, 3), Some(13));
    let missing = root.lookup(&pos(9), &ident(3)).unwrap_err();
    assert_eq!(missing.pos, pos(9));
    assert_eq!(missing.message, Message::NoDeclaration(ident(3)));
}

#[test]
fn duplicate_in_one_region_is_reported_and_not_added() {
    let mut diagnostics = Vec::new();
    let mut scope = Scope::new();
    scope.add_binding(binding(1, 10, false), &mut diagnostics);
    scope.add_binding(binding(1, 11, false), &mut diagnostics);
    assert_eq!(single(&scope, 1), Some(10));
    assert_eq!(diagnostics.len(), 1);
    assert_eq!(diagnostics[0].pos, pos(11));
    assert_eq!(diagnostics[0].message, Message::DuplicateDeclaration(ident(1)));
    assert_eq!(
        diagnostics[0].related,
        vec![Related { pos: Some(pos(10)), kind: RelatedKind::PreviouslyDefined, ent: 10 }]
    );
    // Without a position the duplicate is dropped in silence
    let silent = Binding { designator: ident(1), ent: 12, overloaded: false, decl_pos: None };
    scope.add_binding(silent, &mut diagnostics);
    assert_eq!(diagnostics.len(), 1);
    assert_eq!(single(&scope, 1), Some(10));
    // The same name in a nested region is no duplicate
    let mut child = scope.nested();
    child.add_binding(binding(1, 13, false), &mut diagnostics);
    assert_eq!(diagnostics.len(), 1);
    assert_eq!(single(&child, 1), Some(13));
}

#[test]
fn overloaded_names_are_gathered_across_regions() {
    let mut diagnostics = Vec::new();
    let mut root = Scope::new();
    root.add_binding(binding(1, 10, true), &mut diagnostics);
    root.add_binding(binding(1, 11, true), &mut diagnostics);
    let mut child = root.nested();
    child.add_binding(binding(1, 12, true), &mut diagnostics);
    assert!(diagnostics.is_empty());
    assert_eq!(overloaded(&root, 1), Some(vec![10, 11]));
    assert_eq!(overloaded(&child, 1), Some(vec![10, 11, 12]));
    // An object and a subprogram of one name cannot share a region
    root.add_binding(binding(1, 13, false), &mut diagnostics);
    assert_eq!(diagnostics.len(), 1);
    // In a nested region the object hides the subprograms
    let mut hiding = root.nested();
    hiding.add_binding(binding(1, 14, false), &mut diagnostics);
    assert_eq!(single(&hiding, 1), Some(14));
    assert_eq!(diagnostics.len(), 1);
    // What the object hides stays hidden further in
    let mut innermost = hiding.nested();
    innermost.add_binding(binding(1, 15, true), &mut diagnostics);
    assert_eq!(overloaded(&innermost, 1), Some(vec![15]));
    innermost.add_binding(binding(1, 16, true), &mut diagnostics);
    assert_eq!(overloaded(&innermost, 1), Some(vec![15, 16]));
    assert_eq!(single(&hiding, 1), Some(14));
    assert_eq!(diagnostics.len(), 1);
}

#[test]
fn scope_add_reads_the_declaration() {
    let mut arena = Arena::new();
    let label = arena.define(ident(1), AnyEntKind::Label, Some(pos(3)));
    let function = arena.define(
        ident(2),
        AnyEntKind::Overloaded(Signature { formals: FormalRegion::default(), return_type: None }),
        None,
    );
    let mut diagnostics = Vec::new();
    let mut scope = Scope::new();
    scope.add(arena.get(label).unwrap(), &mut diagnostics);
    scope.add(arena.get(function).unwrap(), &mut diagnostics);
    assert_eq!(single(&scope, 1), Some(label));
    assert_eq!(overloaded(&scope, 2), Some(vec![function]));
    assert_eq!(scope.bindings[0], Binding {
        designator: ident(1),
        ent: label,
        overloaded: false,
        decl_pos: Some(pos(3)),
    });
}

#[test]
fn diagnostics_are_appended_in_order() {
    let mut sink = Vec::new();
    vhdl_lang::data::push_error(&mut sink, pos(1), Message::ReturnFromProcess);
    let mut second = Diagnostic::error(pos(2), Message::ProcedureReturnsValue);
    second.add_related(Related { pos: None, kind: RelatedKind::MightBe, ent: 4 });
    vhdl_lang::data::push_diagnostic(&mut sink, second);
    assert_eq!(messages(&sink), vec![Message::ReturnFromProcess, Message::ProcedureReturnsValue]);
    assert_eq!(sink[1].related.len(), 1);
    assert_eq!(sink[0].severity, Severity::Error);
}
