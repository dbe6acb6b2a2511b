#![allow(dead_code, unused_imports)]
use vhdl_lang::analyze::{AnalyzeContext, FatalError, Standard};
use vhdl_lang::ast::{
    ActualPart, AssociationElement, Expression, FunctionCall, Literal, Name, WithPos,
};
use vhdl_lang::data::{
    Designator, Diagnostic, Message, Operator, Related, RelatedKind, Severity, SrcPos, Symbol,
    UnitKind,
};
use vhdl_lang::formal_region::{FormalRegion, InterfaceEnt};
use vhdl_lang::named_entity::{
    AnyEntKind, Arena, Mode, Object, ObjectClass, Signature, Subtype, Type, UnitRegion,
};
use vhdl_lang::region::{Binding, NamedEntities, OverloadedName, Scope};
use vhdl_lang::semantic::TypeCheck;
use vhdl_lang::ast::{
    AssertStatement, BlockHeader, BlockStatement, CaseGenerateStatement,
    ConcurrentAssertStatement, ConcurrentProcedureCall, ConcurrentSignalAssignment,
    ConcurrentStatement, Declaration, DiscreteRange, ExitStatement, ForGenerateStatement,
    GenerateBody, GenerateConditional, Ident, IfGenerateStatement, InstantiatedUnit,
    InstantiationStatement, InterfaceDeclaration, LabeledConcurrentStatement,
    LabeledSequentialStatement, LoopStatement, ObjectDeclaration, ProcessStatement,
    ReturnStatement, SensitivityList, SequentialStatement, WaveformElement,
};

fn pos(n: u32) -> SrcPos {
    SrcPos { start: n, end: n + 1 }
}

fn ident(id: u32) -> Designator {
    Designator::Identifier(Symbol { id })
}

struct Fixture {
    ctx: AnalyzeContext,
    scope: Scope,
    diagnostics: Vec<Diagnostic>,
    integer: usize,
    boolean: usize,
    time: usize,
    string: usize,
    severity_level: usize,
}

impl Fixture {
    fn new() -> Fixture {
        let mut arena = Arena::new();
        let integer = arena.define(ident(900), AnyEntKind::Type(Type::Integer), None);
        let boolean = arena.define(ident(901), AnyEntKind::Type(Type::Enum), None);
        let time = arena.define(ident(902), AnyEntKind::Type(Type::Physical), None);
        let string = arena.define(ident(903), AnyEntKind::Type(Type::Array), None);
        let severity_level = arena.define(ident(904), AnyEntKind::Type(Type::Enum), None);
        let mut scope = Scope::new();
        let mut diagnostics = Vec::new();
        for id in [integer, boolean, time, string, severity_level] {
            scope.add(arena.get(id).unwrap(), &mut diagnostics);
        }
        let standard = Standard { boolean, time, string, severity_level };
        Fixture {
            ctx: AnalyzeContext::new(arena, standard),
            scope,
            diagnostics,
            integer,
            boolean,
            time,
            string,
            severity_level,
        }
    }

    fn declare(&mut self, designator: Designator, kind: AnyEntKind, at: u32) -> usize {
        let id = self.ctx.arena.define(designator, kind, Some(pos(at)));
        self.scope.add(self.ctx.arena.get(id).unwrap(), &mut self.diagnostics);
        id
    }

    fn object(&mut self, name: u32, class: ObjectClass, typ: usize, at: u32) -> usize {
        let kind = AnyEntKind::Object(Object {
            class,
            mode: None,
            subtype: Subtype { type_mark: typ },
            has_default: false,
        });
        self.declare(ident(name), kind, at)
    }

    fn formals(&mut self, types: &[usize]) -> FormalRegion {
        let mut region = FormalRegion::default();
        for (i, typ) in types.iter().enumerate() {
            let kind = AnyEntKind::Object(Object {
                class: ObjectClass::Constant,
                mode: Some(Mode::In),
                subtype: Subtype { type_mark: *typ },
                has_default: false,
            });
            let id = self.ctx.arena.define(ident(800 + i as u32), kind, None);
            region.add(&self.ctx.arena, id);
        }
        region
    }

    fn subprogram(
        &mut self,
        designator: Designator,
        types: &[usize],
        return_type: Option<usize>,
        at: u32,
    ) -> usize {
        let formals = self.formals(types);
        self.declare(designator, AnyEntKind::Overloaded(Signature { formals, return_type }), at)
    }
}

fn name(designator: Designator, at: u32, reference: usize) -> Name {
    Name { designator, pos: pos(at), reference }
}

fn lit(value: u64, at: u32) -> WithPos<Expression> {
    WithPos { item: Expression::Literal(Literal::Integer(value)), pos: pos(at) }
}

fn name_expr(designator: Designator, at: u32, reference: usize) -> WithPos<Expression> {
    WithPos { item: Expression::Name(name(designator, at, reference)), pos: pos(at) }
}

fn positional(actual: WithPos<Expression>) -> AssociationElement {
    AssociationElement { formal: None, actual: ActualPart::Expression(actual) }
}

fn named(formal: Name, actual: WithPos<Expression>) -> AssociationElement {
    AssociationElement { formal: Some(formal), actual: ActualPart::Expression(actual) }
}

fn call(designator: Designator, at: u32, reference: usize, parameters: Vec<AssociationElement>) -> FunctionCall {
    FunctionCall { name: name(designator, at, reference), parameters }
}

fn call_expr(
    designator: Designator,
    at: u32,
    reference: usize,
    parameters: Vec<AssociationElement>,
) -> WithPos<Expression> {
    WithPos { item: Expression::Call(call(designator, at, reference, parameters)), pos: pos(at) }
}

fn messages(diagnostics: &[Diagnostic]) -> Vec<Message> {
    diagnostics.iter().map(|d| d.message).collect()
}

const X: u32 = 3;
const P: u32 = 4;
const S: u32 = 6;
const G: u32 = 7;
const Q: u32 = 8;
const E: u32 = 10;
const C: u32 = 11;
const L: u32 = 20;
const I: u32 = 21;

fn id(name: u32, at: u32) -> Ident {
    Ident { name: Symbol { id: name }, pos: pos(at) }
}

fn conc(label: Option<Ident>, statement: ConcurrentStatement) -> LabeledConcurrentStatement {
    LabeledConcurrentStatement { label, statement }
}

fn assignment(target: Name, value: WithPos<Expression>) -> ConcurrentStatement {
    ConcurrentStatement::Assignment(ConcurrentSignalAssignment {
        postponed: false,
        guarded: false,
        target,
        rhs: vec![WaveformElement { value, after: None }],
    })
}

fn signal_decl(name: u32, at: u32, typ: Name, expression: Option<WithPos<Expression>>) -> Declaration {
    Declaration::Object(ObjectDeclaration {
        class: ObjectClass::Signal,
        ident: id(name, at),
        subtype: typ,
        expression,
    })
}

fn body(statements: Vec<LabeledConcurrentStatement>) -> GenerateBody {
    GenerateBody { alternative_label: None, decl: None, statements }
}

fn process(
    sensitivity_list: Option<SensitivityList>,
    decl: Vec<Declaration>,
    statements: Vec<LabeledSequentialStatement>,
) -> ConcurrentStatement {
    ConcurrentStatement::Process(ProcessStatement {
        postponed: false,
        sensitivity_list,
        decl,
        statements,
    })
}

fn analyze(fx: &mut Fixture, statements: &Vec<LabeledConcurrentStatement>) -> Result<(), FatalError> {
    fx.ctx.analyze_concurrent_part(&mut fx.scope, statements, &mut fx.diagnostics)
}

fn visible(fx: &Fixture, name: u32) -> Option<usize> {
    match fx.scope.lookup(&pos(0), &ident(name)) {
        Ok(NamedEntities::Single(ent)) => Some(ent),
        _ => None,
    }
}

fn interface(fx: &mut Fixture, name: u32, class: ObjectClass, typ: usize, has_default: bool) -> usize {
    fx.ctx.arena.define(
        ident(name),
        AnyEntKind::Object(Object {
            class,
            mode: Some(Mode::In),
            subtype: Subtype { type_mark: typ },
            has_default,
        }),
        None,
    )
}

/// An entity with the generic `g: integer := ..` and the port `q: boolean`.
fn entity(fx: &mut Fixture, name: u32, component: bool) -> (usize, usize, usize) {
    let (integer, boolean) = (fx.integer, fx.boolean);
    let g = interface(fx, G, ObjectClass::Constant, integer, true);
    let q = interface(fx, Q, ObjectClass::Signal, boolean, false);
    let region = UnitRegion { entities: vec![q, g] };
    let kind = if component { AnyEntKind::Component(region) } else { AnyEntKind::Entity(region) };
    (fx.declare(ident(name), kind, 1), g, q)
}

#[test]
fn process_cannot_return_and_keeps_its_labels_to_itself() {
    let mut fx = Fixture::new();
    let boolean = fx.boolean;
    let s = fx.object(S, ObjectClass::Signal, boolean, 5);
    let inner = LabeledSequentialStatement {
        label: Some(id(L, 30)),
        statement: SequentialStatement::Loop(LoopStatement {
            iteration_scheme: None,
            statements: vec![LabeledSequentialStatement {
                label: None,
                statement: SequentialStatement::Exit(ExitStatement {
                    condition: None,
                    loop_label: Some(name(ident(L), 31, 3)),
                }),
            }],
        }),
    };
    let ret = LabeledSequentialStatement {
        label: None,
        statement: SequentialStatement::Return(ReturnStatement { pos: pos(40), expression: None }),
    };
    let statements = vec![
        conc(
            Some(id(P, 10)),
            process(
                Some(SensitivityList::Names(vec![name(ident(S), 11, 1), name(ident(X), 12, 2)])),
                vec![signal_decl(X, 20, name(ident(901), 21, 4), None)],
                vec![inner, ret],
            ),
        ),
        conc(None, process(Some(SensitivityList::All), vec![], vec![])),
        conc(None, process(None, vec![], vec![])),
    ];
    let before = fx.ctx.arena.len();
    assert_eq!(analyze(&mut fx, &statements), Ok(()));
    // The sensitivity list is resolved in the scope around the process,
    // which does not hold the signal that the process declares
    assert_eq!(
        messages(&fx.diagnostics),
        vec![Message::NoDeclaration(ident(X)), Message::ReturnFromProcess]
    );
    assert_eq!(fx.diagnostics[0].pos, pos(12));
    assert_eq!(fx.ctx.references.get(1), Some(s));
    // Declared: the label of the process, the signal, the label of the loop
    assert_eq!(fx.ctx.arena.len(), before + 3);
    assert_eq!(visible(&fx, P), Some(before));
    assert_eq!(fx.ctx.references.get(3), Some(before + 2));
    assert_eq!(fx.ctx.references.get(4), Some(boolean));
    assert_eq!(visible(&fx, X), None);
    assert_eq!(visible(&fx, L), None);
}

#[test]
fn labels_are_visible_to_the_statements_that_follow() {
    let mut fx = Fixture::new();
    let boolean = fx.boolean;
    fx.object(S, ObjectClass::Signal, boolean, 5);
    let statements = vec![
        conc(Some(id(L, 10)), assignment(name(ident(S), 11, 1), name_expr(ident(L), 12, 2))),
        conc(Some(id(L, 20)), assignment(name(ident(L), 21, 3), name_expr(ident(S), 22, 4))),
    ];
    let before = fx.ctx.arena.len();
    assert_eq!(analyze(&mut fx, &statements), Ok(()));
    assert_eq!(
        messages(&fx.diagnostics),
        vec![
            Message::NotAValue(before),
            Message::DuplicateDeclaration(ident(L)),
            Message::InvalidTarget(ident(L)),
        ]
    );
    assert_eq!(fx.ctx.references.get(2), Some(before));
    assert_eq!(fx.ctx.references.get(3), Some(before));
    assert_eq!(visible(&fx, L), Some(before));
}

#[test]
fn block_has_a_scope_of_its_own() {
    let mut fx = Fixture::new();
    let (integer, boolean) = (fx.integer, fx.boolean);
    let s = fx.object(S, ObjectClass::Signal, boolean, 5);
    let block = BlockStatement {
        guard_condition: Some(name_expr(ident(S), 11, 1)),
        header: BlockHeader {
            generic_clause: Some(vec![InterfaceDeclaration {
                class: ObjectClass::Constant,
                ident: id(G, 12),
                mode: Mode::In,
                subtype: name(ident(900), 13, 2),
                expression: Some(lit(1, 14)),
            }]),
            // g => g: the actual is looked up outside of the block
            generic_map: Some(vec![named(name(ident(G), 15, 3), name_expr(ident(G), 16, 4))]),
            port_clause: Some(vec![InterfaceDeclaration {
                class: ObjectClass::Signal,
                ident: id(Q, 17),
                mode: Mode::Out,
                subtype: name(ident(X), 18, 5),
                expression: None,
            }]),
            port_map: None,
        },
        decl: vec![signal_decl(X, 20, name(ident(901), 21, 6), Some(name_expr(ident(G), 22, 7)))],
        statements: vec![
            conc(Some(id(L, 30)), assignment(name(ident(X), 31, 8), name_expr(ident(S), 32, 9))),
            conc(None, assignment(name(ident(Q), 41, 10), name_expr(ident(S), 42, 11))),
        ],
    };
    let statements = vec![
        conc(Some(id(P, 10)), ConcurrentStatement::Block(block)),
        conc(None, assignment(name(ident(X), 51, 12), name_expr(ident(S), 52, 13))),
    ];
    let before = fx.ctx.arena.len();
    assert_eq!(analyze(&mut fx, &statements), Ok(()));
    let generic = before + 1;
    let local = before + 2;
    assert_eq!(
        messages(&fx.diagnostics),
        vec![
            Message::NoDeclaration(ident(G)),
            Message::NoDeclaration(ident(X)),
            Message::DoesNotMatchType(ident(G), boolean),
            Message::NoDeclaration(ident(Q)),
            Message::NoDeclaration(ident(X)),
        ]
    );
    assert_eq!(fx.ctx.references.get(1), Some(s));
    assert_eq!(fx.ctx.references.get(2), Some(integer));
    assert_eq!(fx.ctx.references.get(3), None);
    assert_eq!(fx.ctx.references.get(7), Some(generic));
    assert_eq!(fx.ctx.references.get(8), Some(local));
    assert_eq!(fx.ctx.references.get(12), None);
    // Declared: the label of the block, the generic, the signal, the
    // label inside of the block
    assert_eq!(fx.ctx.arena.len(), before + 4);
    assert!(matches!(
        fx.ctx.arena.get(generic).unwrap().ent.kind,
        AnyEntKind::Object(Object { class: ObjectClass::Constant, mode: Some(Mode::In), has_default: true, .. })
    ));
    assert_eq!(visible(&fx, P), Some(before));
    assert_eq!(visible(&fx, G), None);
    assert_eq!(visible(&fx, L), None);
}

#[test]
fn generate_statements_nest_their_bodies() {
    let mut fx = Fixture::new();
    let (integer, boolean) = (fx.integer, fx.boolean);
    fx.object(S, ObjectClass::Signal, integer, 5);
    let for_generate = ConcurrentStatement::ForGenerate(ForGenerateStatement {
        index_name: id(I, 10),
        discrete_range: DiscreteRange::Discrete(name(ident(900), 11, 1)),
        body: GenerateBody {
            alternative_label: Some(id(L, 12)),
            decl: Some(vec![signal_decl(X, 13, name(ident(900), 14, 2), None)]),
            statements: vec![conc(None, assignment(name(ident(X), 15, 3), name_expr(ident(I), 16, 4)))],
        },
    });
    let if_generate = ConcurrentStatement::IfGenerate(IfGenerateStatement {
        conditionals: vec![GenerateConditional {
            condition: name_expr(ident(I), 20, 5),
            item: body(vec![conc(
                Some(id(L, 21)),
                assignment(name(ident(S), 22, 6), lit(1, 23)),
            )]),
        }],
        else_item: Some(body(vec![conc(
            Some(id(L, 24)),
            assignment(name(ident(S), 25, 7), name_expr(ident(L), 26, 8)),
        )])),
    });
    let case_generate = ConcurrentStatement::CaseGenerate(CaseGenerateStatement {
        alternatives: vec![
            body(vec![conc(Some(id(L, 30)), assignment(name(ident(S), 31, 9), lit(1, 32)))]),
            body(vec![conc(Some(id(L, 33)), assignment(name(ident(S), 34, 10), lit(2, 35)))]),
        ],
    });
    let statements =
        vec![conc(None, for_generate), conc(None, if_generate), conc(None, case_generate)];
    let before = fx.ctx.arena.len();
    assert_eq!(analyze(&mut fx, &statements), Ok(()));
    let index = before;
    assert!(matches!(
        fx.ctx.arena.get(index).unwrap().ent.kind,
        AnyEntKind::LoopParameter(Some(t)) if t == integer
    ));
    assert_eq!(fx.ctx.references.get(3), Some(before + 2));
    assert_eq!(fx.ctx.references.get(4), Some(index));
    // The index is not visible after the for generate statement, and the
    // label in the else branch is not a value
    let else_label = before + 4;
    assert_eq!(
        messages(&fx.diagnostics),
        vec![Message::NoDeclaration(ident(I)), Message::NotAValue(else_label)]
    );
    assert_eq!(fx.diagnostics[0].pos, pos(20));
    // index, label, x; label; label; label; label
    assert_eq!(fx.ctx.arena.len(), before + 7);
    assert_eq!(visible(&fx, L), None);
    assert_eq!(visible(&fx, I), None);
    assert_eq!(visible(&fx, S), Some(boolean + 4));
}

#[test]
fn entity_formals_are_split_into_generics_and_ports() {
    let mut fx = Fixture::new();
    let (e, g, q) = entity(&mut fx, E, false);
    let (generics, ports) = fx.ctx.to_entity_formal(e, UnitKind::Entity).unwrap();
    assert_eq!(generics.len(), 1);
    assert_eq!(generics.nth(0).unwrap().inner(), g);
    assert_eq!(ports.len(), 1);
    assert_eq!(ports.nth(0).unwrap().inner(), q);
    assert!(fx.ctx.to_entity_formal(e, UnitKind::Component).is_none());
    assert!(fx.ctx.to_entity_formal(g, UnitKind::Entity).is_none());
    assert!(fx.ctx.to_entity_formal(999, UnitKind::Entity).is_none());
    assert_eq!(fx.ctx.interface_of_class(g, ObjectClass::Constant).unwrap().inner(), g);
    assert!(fx.ctx.interface_of_class(g, ObjectClass::Signal).is_none());
}

#[test]
fn instance_maps_are_held_against_the_formals_of_the_unit() {
    let mut fx = Fixture::new();
    let boolean = fx.boolean;
    let (e, g, q) = entity(&mut fx, E, false);
    let s = fx.object(S, ObjectClass::Signal, boolean, 5);
    let instance = InstantiationStatement {
        unit: InstantiatedUnit::Entity(name(ident(E), 10, 1)),
        generic_map: vec![named(name(ident(G), 11, 2), name_expr(ident(S), 12, 3))],
        port_map: vec![positional(name_expr(ident(S), 13, 4))],
    };
    assert_eq!(fx.ctx.analyze_instance(&fx.scope, &instance, &mut fx.diagnostics), Ok(()));
    assert_eq!(fx.ctx.references.get(1), Some(e));
    assert_eq!(fx.ctx.references.get(2), Some(g));
    assert_eq!(fx.ctx.references.get(3), Some(s));
    assert_eq!(fx.ctx.references.get(4), Some(s));
    assert_eq!(messages(&fx.diagnostics), vec![Message::DoesNotMatchType(ident(S), fx.integer)]);

    // The port has no default and must be associated
    let mut fx = Fixture::new();
    let (_e, _g, q2) = entity(&mut fx, E, false);
    let instance = InstantiationStatement {
        unit: InstantiatedUnit::Entity(name(ident(E), 10, 1)),
        generic_map: vec![],
        port_map: vec![],
    };
    assert_eq!(fx.ctx.analyze_instance(&fx.scope, &instance, &mut fx.diagnostics), Ok(()));
    assert_eq!(messages(&fx.diagnostics), vec![Message::NoAssociation(q2)]);
    assert_eq!(fx.diagnostics[0].pos, pos(10));
    assert_eq!(q2, q);
}

#[test]
fn instance_of_the_wrong_kind_is_reported_and_the_maps_are_still_analyzed() {
    let mut fx = Fixture::new();
    let integer = fx.integer;
    let (c, _g, _q) = entity(&mut fx, C, true);
    let s = fx.object(S, ObjectClass::Signal, integer, 5);
    fx.subprogram(ident(P), &[], None, 6);
    fx.subprogram(ident(P), &[], None, 7);
    let maps = |slot: usize| {
        (
            vec![named(name(ident(G), 11, slot), name_expr(ident(S), 12, slot + 1))],
            vec![positional(name_expr(ident(X), 13, slot + 2))],
        )
    };
    let cases = [
        (InstantiatedUnit::Entity(name(ident(C), 10, 1)), Message::ExpectedUnit(UnitKind::Entity, c), Some(c)),
        (
            InstantiatedUnit::Configuration(name(ident(S), 10, 1)),
            Message::ExpectedUnit(UnitKind::Configuration, s),
            Some(s),
        ),
        (
            InstantiatedUnit::Component(name(ident(P), 10, 1)),
            Message::ExpectedUnitGotOverloaded(UnitKind::Component, ident(P)),
            None,
        ),
        (
            InstantiatedUnit::Component(name(ident(E), 10, 1)),
            Message::NoDeclaration(ident(E)),
            None,
        ),
    ];
    for (unit, message, bound) in cases {
        fx.diagnostics.clear();
        let (generic_map, port_map) = maps(2);
        fx.ctx.references.set_unique_reference(2, c);
        let instance = InstantiationStatement { unit, generic_map, port_map };
        let statements = vec![conc(None, ConcurrentStatement::Instance(instance))];
        assert_eq!(analyze(&mut fx, &statements), Ok(()));
        assert_eq!(messages(&fx.diagnostics), vec![message, Message::NoDeclaration(ident(X))]);
        assert_eq!(fx.diagnostics[0].pos, pos(10));
        assert_eq!(fx.ctx.references.get(1), bound);
        // Without formals the name of a formal stays unresolved
        assert_eq!(fx.ctx.references.get(2), None);
        assert_eq!(fx.ctx.references.get(3), Some(s));
    }
    // A component is found where a component is asked for
    let instance = InstantiationStatement {
        unit: InstantiatedUnit::Component(name(ident(C), 10, 1)),
        generic_map: vec![],
        port_map: vec![positional(name_expr(ident(S), 13, 4))],
    };
    fx.diagnostics.clear();
    assert_eq!(fx.ctx.analyze_instance(&fx.scope, &instance, &mut fx.diagnostics), Ok(()));
    assert_eq!(messages(&fx.diagnostics), vec![Message::DoesNotMatchType(ident(S), fx.boolean)]);
}

#[test]
fn concurrent_call_and_assert_are_analyzed_in_the_scope_around() {
    let mut fx = Fixture::new();
    let integer = fx.integer;
    let p = fx.subprogram(ident(P), &[integer], None, 5);
    let s = fx.object(S, ObjectClass::Signal, integer, 6);
    let statements = vec![
        conc(
            None,
            ConcurrentStatement::ProcedureCall(ConcurrentProcedureCall {
                postponed: false,
                call: call(ident(P), 10, 1, vec![positional(name_expr(ident(S), 11, 2))]),
            }),
        ),
        conc(
            None,
            ConcurrentStatement::Assert(ConcurrentAssertStatement {
                postponed: true,
                statement: AssertStatement {
                    condition: name_expr(ident(S), 20, 3),
                    report: Some(name_expr(ident(X), 21, 4)),
                    severity: None,
                },
            }),
        ),
    ];
    assert_eq!(analyze(&mut fx, &statements), Ok(()));
    assert_eq!(fx.ctx.references.get(1), Some(p));
    assert_eq!(fx.ctx.references.get(2), Some(s));
    assert_eq!(fx.ctx.references.get(3), Some(s));
    assert_eq!(messages(&fx.diagnostics), vec![Message::NoDeclaration(ident(X))]);
}

#[test]
fn declarations_are_visible_to_those_that_follow() {
    let mut fx = Fixture::new();
    let (integer, boolean) = (fx.integer, fx.boolean);
    let decls = vec![
        // signal x : integer := x;
        signal_decl(X, 10, name(ident(900), 11, 1), Some(name_expr(ident(X), 12, 2))),
        // signal s : boolean := x;
        signal_decl(S, 20, name(ident(901), 21, 3), Some(name_expr(ident(X), 22, 4))),
        // signal g : x;
        signal_decl(G, 30, name(ident(X), 31, 5), None),
        // signal q : p;
        signal_decl(Q, 40, name(ident(P), 41, 6), Some(lit(1, 42))),
    ];
    let before = fx.ctx.arena.len();
    assert_eq!(
        fx.ctx.analyze_declarative_part(&mut fx.scope, &decls, &mut fx.diagnostics),
        Ok(())
    );
    assert_eq!(
        messages(&fx.diagnostics),
        vec![
            Message::NoDeclaration(ident(X)),
            Message::DoesNotMatchType(ident(X), boolean),
            Message::ExpectedType(ident(X)),
            Message::NoDeclaration(ident(P)),
        ]
    );
    assert_eq!(fx.ctx.arena.len(), before + 2);
    assert_eq!(visible(&fx, X), Some(before));
    assert_eq!(visible(&fx, S), Some(before + 1));
    assert_eq!(visible(&fx, G), None);
    assert_eq!(fx.ctx.references.get(1), Some(integer));
    assert_eq!(fx.ctx.references.get(4), Some(before));
    assert_eq!(fx.ctx.references.get(5), Some(before));
    assert!(fx.ctx.is_type(integer));
    assert!(!fx.ctx.is_type(before));
}

#[test]
fn fatal_error_inside_a_block_stops_the_analysis() {
    let mut fx = Fixture::new();
    let (e, _g, _q) = entity(&mut fx, E, false);
    let malformed = vec![named(name(ident(G), 21, 2), lit(1, 22)), positional(lit(2, 23))];
    let block = BlockStatement {
        guard_condition: None,
        header: BlockHeader {
            generic_clause: None,
            generic_map: None,
            port_clause: None,
            port_map: None,
        },
        decl: vec![],
        statements: vec![conc(
            None,
            ConcurrentStatement::Instance(InstantiationStatement {
                unit: InstantiatedUnit::Entity(name(ident(E), 20, 1)),
                generic_map: malformed,
                port_map: vec![],
            }),
        )],
    };
    let statements = vec![
        conc(None, assignment(name(ident(X), 10, 3), lit(1, 11))),
        conc(None, ConcurrentStatement::Block(block)),
        conc(None, assignment(name(ident(X), 30, 4), lit(1, 31))),
    ];
    assert_eq!(analyze(&mut fx, &statements), Err(FatalError::MalformedAssociationList));
    // The first statement was analyzed, the instance and what follows it
    // were not
    assert_eq!(messages(&fx.diagnostics), vec![Message::NoDeclaration(ident(X))]);
    assert_eq!(fx.diagnostics[0].pos, pos(10));
    assert_eq!(fx.ctx.references.get(1), None);
    assert!(fx.ctx.arena.get(e).is_some());
}

#[test]
fn fatal_error_keeps_what_the_earlier_statements_produced() {
    let mut fx = Fixture::new();
    let boolean = fx.boolean;
    let s = fx.object(S, ObjectClass::Signal, boolean, 5);
    let malformed = vec![named(name(ident(G), 21, 2), lit(1, 22)), positional(lit(2, 23))];
    let statements = vec![
        conc(Some(id(L, 10)), assignment(name(ident(S), 11, 1), name_expr(ident(X), 12, 3))),
        conc(
            Some(id(P, 20)),
            ConcurrentStatement::ProcedureCall(ConcurrentProcedureCall {
                postponed: false,
                call: call(ident(Q), 21, 4, malformed),
            }),
        ),
        conc(Some(id(E, 30)), assignment(name(ident(S), 31, 5), name_expr(ident(S), 32, 6))),
    ];
    let before = fx.ctx.arena.len();
    assert_eq!(analyze(&mut fx, &statements), Err(FatalError::MalformedAssociationList));
    assert_eq!(messages(&fx.diagnostics), vec![Message::NoDeclaration(ident(X))]);
    assert_eq!(fx.ctx.references.get(1), Some(s));
    assert_eq!(fx.ctx.references.get(4), None);
    assert_eq!(fx.ctx.references.get(5), None);
    assert_eq!(fx.ctx.references.get(6), None);
    // The labels of the first statement and of the one that was given up
    // are declared, that of the last one is not
    assert_eq!(fx.ctx.arena.len(), before + 2);
    assert_eq!(visible(&fx, L), Some(before));
    assert_eq!(visible(&fx, P), Some(before + 1));
    assert_eq!(visible(&fx, E), None);
}
