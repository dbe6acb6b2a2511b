#![allow(dead_code, unused_imports)]
use vhdl_lang::analyze::{AnalyzeContext, FatalError, Standard};
use vhdl_lang::ast::{
    ActualPart, AssociationElement, Expression, FunctionCall, Literal, Name, WithPos,
};
use vhdl_lang::data::{
    Designator, Diagnostic, Message, Operator, Related, RelatedKind, Severity, SrcPos, Symbol,
    UnitKind,
};
use vhdl_lang::formal_region::{FormalRegion, InterfaceEnt};
use vhdl_lang::named_entity::{
    AnyEntKind, Arena, Mode, Object, ObjectClass, Signature, Subtype, Type, UnitRegion,
};
use vhdl_lang::region::{Binding, NamedEntities, OverloadedName, Scope};
use vhdl_lang::semantic::TypeCheck;
use vhdl_lang::ast::{
    Alternative, AssertStatement, CaseStatement, Choice, Conditional, DiscreteRange,
    ExitStatement, ExpressionAssignment, Ident, IfStatement, IterationScheme,
    LabeledSequentialStatement, LoopStatement, ReportStatement, ReturnStatement,
    SequentialStatement, SignalAssignment, SignalReleaseAssignment, WaitStatement,
    WaveformElement,
};
use vhdl_lang::sequential::SequentialRoot;
use vhdl_lang::target::AssignmentType;

fn pos(n: u32) -> SrcPos {
    SrcPos { start: n, end: n + 1 }
}

fn ident(id: u32) -> Designator {
    Designator::Identifier(Symbol { id })
}

struct Fixture {
    ctx: AnalyzeContext,
    scope: Scope,
    diagnostics: Vec<Diagnostic>,
    integer: usize,
    boolean: usize,
    time: usize,
    string: usize,
    severity_level: usize,
}

impl Fixture {
    fn new() -> Fixture {
        let mut arena = Arena::new();
        let integer = arena.define(ident(900), AnyEntKind::Type(Type::Integer), None);
        let boolean = arena.define(ident(901), AnyEntKind::Type(Type::Enum), None);
        let time = arena.define(ident(902), AnyEntKind::Type(Type::Physical), None);
        let string = arena.define(ident(903), AnyEntKind::Type(Type::Array), None);
        let severity_level = arena.define(ident(904), AnyEntKind::Type(Type::Enum), None);
        let mut scope = Scope::new();
        let mut diagnostics = Vec::new();
        for id in [integer, boolean, time, string, severity_level] {
            scope.add(arena.get(id).unwrap(), &mut diagnostics);
        }
        let standard = Standard { boolean, time, string, severity_level };
        Fixture {
            ctx: AnalyzeContext::new(arena, standard),
            scope,
            diagnostics,
            integer,
            boolean,
            time,
            string,
            severity_level,
        }
    }

    fn declare(&mut self, designator: Designator, kind: AnyEntKind, at: u32) -> usize {
        let id = self.ctx.arena.define(designator, kind, Some(pos(at)));
        self.scope.add(self.ctx.arena.get(id).unwrap(), &mut self.diagnostics);
        id
    }

    fn object(&mut self, name: u32, class: ObjectClass, typ: usize, at: u32) -> usize {
        let kind = AnyEntKind::Object(Object {
            class,
            mode: None,
            subtype: Subtype { type_mark: typ },
            has_default: false,
        });
        self.declare(ident(name), kind, at)
    }

    fn formals(&mut self, types: &[usize]) -> FormalRegion {
        let mut region = FormalRegion::default();
        for (i, typ) in types.iter().enumerate() {
            let kind = AnyEntKind::Object(Object {
                class: ObjectClass::Constant,
                mode: Some(Mode::In),
                subtype: Subtype { type_mark: *typ },
                has_default: false,
            });
            let id = self.ctx.arena.define(ident(800 + i as u32), kind, None);
            region.add(&self.ctx.arena, id);
        }
        region
    }

    fn subprogram(
        &mut self,
        designator: Designator,
        types: &[usize],
        return_type: Option<usize>,
        at: u32,
    ) -> usize {
        let formals = self.formals(types);
        self.declare(designator, AnyEntKind::Overloaded(Signature { formals, return_type }), at)
    }
}

fn name(designator: Designator, at: u32, reference: usize) -> Name {
    Name { designator, pos: pos(at), reference }
}

fn lit(value: u64, at: u32) -> WithPos<Expression> {
    WithPos { item: Expression::Literal(Literal::Integer(value)), pos: pos(at) }
}

fn name_expr(designator: Designator, at: u32, reference: usize) -> WithPos<Expression> {
    WithPos { item: Expression::Name(name(designator, at, reference)), pos: pos(at) }
}

fn positional(actual: WithPos<Expression>) -> AssociationElement {
    AssociationElement { formal: None, actual: ActualPart::Expression(actual) }
}

fn named(formal: Name, actual: WithPos<Expression>) -> AssociationElement {
    AssociationElement { formal: Some(formal), actual: ActualPart::Expression(actual) }
}

fn call(designator: Designator, at: u32, reference: usize, parameters: Vec<AssociationElement>) -> FunctionCall {
    FunctionCall { name: name(designator, at, reference), parameters }
}

fn call_expr(
    designator: Designator,
    at: u32,
    reference: usize,
    parameters: Vec<AssociationElement>,
) -> WithPos<Expression> {
    WithPos { item: Expression::Call(call(designator, at, reference, parameters)), pos: pos(at) }
}

fn messages(diagnostics: &[Diagnostic]) -> Vec<Message> {
    diagnostics.iter().map(|d| d.message).collect()
}

const F: u32 = 1;
const X: u32 = 3;
const P: u32 = 4;
const V: u32 = 5;
const S: u32 = 6;
const L: u32 = 20;
const I: u32 = 21;

fn stmt(statement: SequentialStatement) -> LabeledSequentialStatement {
    LabeledSequentialStatement { label: None, statement }
}

fn labeled(label: u32, at: u32, statement: SequentialStatement) -> LabeledSequentialStatement {
    LabeledSequentialStatement {
        label: Some(Ident { name: Symbol { id: label }, pos: pos(at) }),
        statement,
    }
}

fn ret(at: u32, expression: Option<WithPos<Expression>>) -> LabeledSequentialStatement {
    stmt(SequentialStatement::Return(ReturnStatement { pos: pos(at), expression }))
}

fn exit(label: Option<Name>) -> LabeledSequentialStatement {
    stmt(SequentialStatement::Exit(ExitStatement { condition: None, loop_label: label }))
}

fn plain_loop(statements: Vec<LabeledSequentialStatement>) -> SequentialStatement {
    SequentialStatement::Loop(LoopStatement { iteration_scheme: None, statements })
}

fn assign(target: Name, rhs: WithPos<Expression>) -> LabeledSequentialStatement {
    stmt(SequentialStatement::VariableAssignment(ExpressionAssignment { target, rhs }))
}

fn analyze(
    fx: &mut Fixture,
    sroot: SequentialRoot,
    statements: &Vec<LabeledSequentialStatement>,
) -> Result<(), FatalError> {
    fx.ctx.analyze_sequential_part(&fx.scope, &sroot, statements, &mut fx.diagnostics)
}

#[test]
fn return_with_value_depends_on_the_construct() {
    // return 5;
    let mut fx = Fixture::new();
    let integer = fx.integer;
    let statements = vec![ret(10, Some(lit(5, 11)))];
    assert_eq!(analyze(&mut fx, SequentialRoot::Procedure, &statements), Ok(()));
    assert_eq!(messages(&fx.diagnostics), vec![Message::ProcedureReturnsValue]);
    assert_eq!(fx.diagnostics[0].pos, pos(10));

    let mut fx = Fixture::new();
    assert_eq!(analyze(&mut fx, SequentialRoot::Process, &statements), Ok(()));
    assert_eq!(messages(&fx.diagnostics), vec![Message::ReturnFromProcess]);
    assert_eq!(fx.diagnostics[0].pos, pos(10));

    let mut fx = Fixture::new();
    assert_eq!(analyze(&mut fx, SequentialRoot::Function(integer), &statements), Ok(()));
    assert!(fx.diagnostics.is_empty());

    let mut fx = Fixture::new();
    let boolean = fx.boolean;
    assert_eq!(analyze(&mut fx, SequentialRoot::Function(boolean), &statements), Ok(()));
    assert_eq!(messages(&fx.diagnostics), vec![Message::LiteralDoesNotMatchType(boolean)]);
}

#[test]
fn return_without_value_depends_on_the_construct() {
    let statements = vec![ret(10, None)];
    let mut fx = Fixture::new();
    let integer = fx.integer;
    assert_eq!(analyze(&mut fx, SequentialRoot::Function(integer), &statements), Ok(()));
    assert_eq!(messages(&fx.diagnostics), vec![Message::FunctionReturnWithoutValue]);
    let mut fx = Fixture::new();
    assert_eq!(analyze(&mut fx, SequentialRoot::Procedure, &statements), Ok(()));
    assert!(fx.diagnostics.is_empty());
    let mut fx = Fixture::new();
    assert_eq!(analyze(&mut fx, SequentialRoot::Process, &statements), Ok(()));
    assert_eq!(messages(&fx.diagnostics), vec![Message::ReturnFromProcess]);
    let mut fx = Fixture::new();
    assert_eq!(analyze(&mut fx, SequentialRoot::Unknown, &statements), Ok(()));
    assert!(fx.diagnostics.is_empty());
}

#[test]
fn return_in_unknown_construct_analyzes_the_value_on_its_own() {
    let mut fx = Fixture::new();
    let integer = fx.integer;
    let x = fx.object(X, ObjectClass::Variable, integer, 5);
    let statements = vec![ret(10, Some(name_expr(ident(X), 11, 1)))];
    assert_eq!(analyze(&mut fx, SequentialRoot::Unknown, &statements), Ok(()));
    assert!(fx.diagnostics.is_empty());
    assert_eq!(fx.ctx.references.get(1), Some(x));
}

#[test]
fn return_value_of_a_procedure_is_not_analyzed() {
    // The association list is malformed, but it is never looked at
    let mut fx = Fixture::new();
    let parameters = vec![named(name(ident(800), 31, 2), lit(1, 32)), positional(lit(2, 33))];
    let statements = vec![ret(10, Some(call_expr(ident(F), 30, 1, parameters)))];
    assert_eq!(analyze(&mut fx, SequentialRoot::Procedure, &statements), Ok(()));
    assert_eq!(messages(&fx.diagnostics), vec![Message::ProcedureReturnsValue]);
}

#[test]
fn exit_with_undefined_label_is_reported_and_analysis_goes_on() {
    let mut fx = Fixture::new();
    let integer = fx.integer;
    let v = fx.object(V, ObjectClass::Variable, integer, 5);
    let statements = vec![
        exit(Some(name(ident(L), 10, 1))),
        assign(name(ident(V), 20, 2), lit(1, 21)),
        ret(30, None),
    ];
    assert_eq!(analyze(&mut fx, SequentialRoot::Process, &statements), Ok(()));
    assert_eq!(
        messages(&fx.diagnostics),
        vec![Message::NoDeclaration(ident(L)), Message::ReturnFromProcess]
    );
    assert_eq!(fx.diagnostics[0].pos, pos(10));
    assert_eq!(fx.ctx.references.get(1), None);
    assert_eq!(fx.ctx.references.get(2), Some(v));
}

#[test]
fn exit_label_must_be_a_label() {
    let mut fx = Fixture::new();
    let integer = fx.integer;
    let v = fx.object(V, ObjectClass::Variable, integer, 5);
    fx.subprogram(ident(F), &[], Some(integer), 6);
    let label = fx.declare(ident(L), AnyEntKind::Label, 7);
    let statements = vec![
        exit(Some(name(ident(V), 10, 1))),
        exit(Some(name(ident(F), 11, 2))),
        stmt(SequentialStatement::Next(ExitStatement {
            condition: Some(lit(1, 13)),
            loop_label: Some(name(ident(L), 12, 3)),
        })),
        exit(None),
    ];
    assert_eq!(analyze(&mut fx, SequentialRoot::Process, &statements), Ok(()));
    assert_eq!(
        messages(&fx.diagnostics),
        vec![
            Message::ExpectedLoopLabel(v),
            Message::ExpectedLoopLabelGotOverloaded(ident(F)),
            Message::LiteralDoesNotMatchType(fx.boolean),
        ]
    );
    assert_eq!(fx.ctx.references.get(1), Some(v));
    assert_eq!(fx.ctx.references.get(2), None);
    assert_eq!(fx.ctx.references.get(3), Some(label));
    assert!(fx.ctx.is_label(label));
    assert!(!fx.ctx.is_label(v));
}

#[test]
fn check_loop_label_binds_the_label() {
    let mut fx = Fixture::new();
    let label = fx.declare(ident(L), AnyEntKind::Label, 7);
    fx.ctx.check_loop_label(&fx.scope, &name(ident(L), 10, 1), &mut fx.diagnostics);
    assert_eq!(fx.ctx.references.get(1), Some(label));
    assert!(fx.diagnostics.is_empty());
}

#[test]
fn labels_are_defined_before_the_statements_are_analyzed() {
    // The first loop exits a loop that is labeled further down, inside
    // an if statement
    let mut fx = Fixture::new();
    let inner = labeled(L, 50, plain_loop(vec![exit(Some(name(ident(L), 51, 2)))]));
    let branch = Conditional { condition: name_expr(ident(901), 40, 3), item: vec![inner] };
    let statements = vec![
        stmt(plain_loop(vec![exit(Some(name(ident(L), 10, 1)))])),
        labeled(
            L + 1,
            30,
            SequentialStatement::If(IfStatement { conditionals: vec![branch], else_item: None }),
        ),
    ];
    let mut scope = fx.scope.nested();
    let before = fx.ctx.arena.len();
    assert_eq!(
        fx.ctx.define_labels_for_sequential_part(&mut scope, &statements, &mut fx.diagnostics),
        Ok(())
    );
    assert_eq!(fx.ctx.arena.len(), before + 2);
    let outer_label = before;
    let inner_label = before + 1;
    assert_eq!(fx.ctx.arena.get(outer_label).unwrap().ent.designator, ident(L + 1));
    assert_eq!(fx.ctx.arena.get(inner_label).unwrap().ent.designator, ident(L));
    assert_eq!(fx.ctx.arena.get(inner_label).unwrap().ent.decl_pos, Some(pos(50)));
    let res = fx.ctx.analyze_sequential_part(
        &scope,
        &SequentialRoot::Process,
        &statements,
        &mut fx.diagnostics,
    );
    assert_eq!(res, Ok(()));
    assert_eq!(fx.ctx.references.get(1), Some(inner_label));
    assert_eq!(fx.ctx.references.get(2), Some(inner_label));
    // The condition names a type, which is not a value
    assert_eq!(messages(&fx.diagnostics), vec![Message::NotAValue(fx.boolean)]);
    // The scope around the sequence does not see the labels
    assert!(fx.scope.lookup(&pos(0), &ident(L)).is_err());
}

#[test]
fn duplicate_label_is_reported() {
    let mut fx = Fixture::new();
    let statements = vec![
        labeled(L, 10, SequentialStatement::Null),
        labeled(L, 20, SequentialStatement::Null),
    ];
    let mut scope = fx.scope.nested();
    assert_eq!(
        fx.ctx.define_labels_for_sequential_part(&mut scope, &statements, &mut fx.diagnostics),
        Ok(())
    );
    assert_eq!(messages(&fx.diagnostics), vec![Message::DuplicateDeclaration(ident(L))]);
    assert_eq!(fx.diagnostics[0].pos, pos(20));
    assert_eq!(fx.diagnostics[0].related[0].pos, Some(pos(10)));
}

#[test]
fn for_loop_declares_its_parameter_for_the_body_only() {
    // for i in integer loop v := i; end loop; v := i;
    let mut fx = Fixture::new();
    let integer = fx.integer;
    let v = fx.object(V, ObjectClass::Variable, integer, 5);
    let body = vec![assign(name(ident(V), 20, 2), name_expr(ident(I), 21, 3))];
    let statements = vec![
        stmt(SequentialStatement::Loop(LoopStatement {
            iteration_scheme: Some(IterationScheme::For(
                Ident { name: Symbol { id: I }, pos: pos(10) },
                DiscreteRange::Discrete(name(ident(900), 11, 1)),
            )),
            statements: body,
        })),
        assign(name(ident(V), 30, 4), name_expr(ident(I), 31, 5)),
    ];
    let before = fx.ctx.arena.len();
    assert_eq!(analyze(&mut fx, SequentialRoot::Process, &statements), Ok(()));
    let index = before;
    assert_eq!(fx.ctx.arena.len(), before + 1);
    assert_eq!(fx.ctx.arena.get(index).unwrap().ent.designator, ident(I));
    assert!(matches!(
        fx.ctx.arena.get(index).unwrap().ent.kind,
        AnyEntKind::LoopParameter(Some(t)) if t == integer
    ));
    assert_eq!(fx.ctx.references.get(1), Some(integer));
    assert_eq!(fx.ctx.references.get(2), Some(v));
    assert_eq!(fx.ctx.references.get(3), Some(index));
    assert_eq!(fx.ctx.references.get(5), None);
    assert_eq!(messages(&fx.diagnostics), vec![Message::NoDeclaration(ident(I))]);
    assert_eq!(fx.diagnostics[0].pos, pos(31));
}

#[test]
fn for_loop_over_a_range_takes_the_type_of_the_left_bound() {
    let mut fx = Fixture::new();
    let (integer, boolean) = (fx.integer, fx.boolean);
    fx.object(X, ObjectClass::Constant, integer, 5);
    fx.object(V, ObjectClass::Variable, boolean, 6);
    let statements = vec![stmt(SequentialStatement::Loop(LoopStatement {
        iteration_scheme: Some(IterationScheme::For(
            Ident { name: Symbol { id: I }, pos: pos(10) },
            DiscreteRange::Range(name_expr(ident(X), 11, 1), name_expr(ident(V), 12, 2)),
        )),
        statements: vec![assign(name(ident(V), 20, 3), name_expr(ident(I), 21, 4))],
    }))];
    assert_eq!(analyze(&mut fx, SequentialRoot::Process, &statements), Ok(()));
    assert_eq!(
        messages(&fx.diagnostics),
        vec![
            Message::DoesNotMatchType(ident(V), integer),
            Message::DoesNotMatchType(ident(I), boolean),
        ]
    );
}

#[test]
fn while_loop_and_if_conditions_are_boolean() {
    let mut fx = Fixture::new();
    let boolean = fx.boolean;
    let statements = vec![
        stmt(SequentialStatement::Loop(LoopStatement {
            iteration_scheme: Some(IterationScheme::While(lit(1, 10))),
            statements: vec![ret(11, None)],
        })),
        stmt(SequentialStatement::If(IfStatement {
            conditionals: vec![
                Conditional { condition: lit(2, 20), item: vec![ret(21, None)] },
                Conditional { condition: lit(3, 30), item: vec![] },
            ],
            else_item: Some(vec![ret(41, None)]),
        })),
    ];
    assert_eq!(analyze(&mut fx, SequentialRoot::Process, &statements), Ok(()));
    assert_eq!(
        messages(&fx.diagnostics),
        vec![
            Message::LiteralDoesNotMatchType(boolean),
            Message::ReturnFromProcess,
            Message::LiteralDoesNotMatchType(boolean),
            Message::ReturnFromProcess,
            Message::LiteralDoesNotMatchType(boolean),
            Message::ReturnFromProcess,
        ]
    );
    let at: Vec<SrcPos> = fx.diagnostics.iter().map(|d| d.pos).collect();
    assert_eq!(at, vec![pos(10), pos(11), pos(20), pos(21), pos(30), pos(41)]);
}

#[test]
fn case_choices_are_held_against_the_selector() {
    let mut fx = Fixture::new();
    let (integer, boolean) = (fx.integer, fx.boolean);
    fx.object(X, ObjectClass::Variable, integer, 5);
    fx.object(V, ObjectClass::Variable, boolean, 6);
    let statements = vec![stmt(SequentialStatement::Case(CaseStatement {
        expression: name_expr(ident(X), 10, 1),
        alternatives: vec![
            Alternative {
                choices: vec![
                    Choice::Expression(lit(1, 20)),
                    Choice::Expression(name_expr(ident(V), 21, 2)),
                    Choice::DiscreteRange(DiscreteRange::Range(
                        lit(2, 22),
                        name_expr(ident(V), 23, 3),
                    )),
                ],
                item: vec![ret(25, None)],
            },
            Alternative { choices: vec![Choice::Others], item: vec![] },
        ],
    }))];
    assert_eq!(analyze(&mut fx, SequentialRoot::Process, &statements), Ok(()));
    assert_eq!(
        messages(&fx.diagnostics),
        vec![
            Message::DoesNotMatchType(ident(V), integer),
            Message::DoesNotMatchType(ident(V), integer),
            Message::ReturnFromProcess,
        ]
    );
}

#[test]
fn assert_report_and_wait_expect_the_predefined_types() {
    let mut fx = Fixture::new();
    let (boolean, time, string, severity_level) =
        (fx.boolean, fx.time, fx.string, fx.severity_level);
    let s = fx.object(S, ObjectClass::Signal, boolean, 5);
    let statements = vec![
        stmt(SequentialStatement::Assert(AssertStatement {
            condition: lit(1, 10),
            report: Some(lit(2, 11)),
            severity: Some(lit(3, 12)),
        })),
        stmt(SequentialStatement::Report(ReportStatement {
            report: lit(4, 20),
            severity: Some(lit(5, 21)),
        })),
        stmt(SequentialStatement::Wait(WaitStatement {
            sensitivity_clause: vec![name(ident(S), 30, 1), name(ident(X), 31, 2)],
            condition_clause: Some(name_expr(ident(S), 32, 3)),
            timeout_clause: Some(lit(6, 33)),
        })),
    ];
    assert_eq!(analyze(&mut fx, SequentialRoot::Process, &statements), Ok(()));
    assert_eq!(
        messages(&fx.diagnostics),
        vec![
            Message::LiteralDoesNotMatchType(boolean),
            Message::LiteralDoesNotMatchType(string),
            Message::LiteralDoesNotMatchType(severity_level),
            Message::LiteralDoesNotMatchType(string),
            Message::LiteralDoesNotMatchType(severity_level),
            Message::NoDeclaration(ident(X)),
            Message::LiteralDoesNotMatchType(time),
        ]
    );
    assert_eq!(fx.ctx.references.get(1), Some(s));
    assert_eq!(fx.ctx.references.get(2), None);
    assert_eq!(fx.ctx.references.get(3), Some(s));
}

#[test]
fn assignments_check_the_target_and_the_value() {
    let mut fx = Fixture::new();
    let (integer, boolean, time) = (fx.integer, fx.boolean, fx.time);
    let v = fx.object(V, ObjectClass::Variable, integer, 5);
    let s = fx.object(S, ObjectClass::Signal, boolean, 6);
    assert_eq!(fx.ctx.assignable_type(v, AssignmentType::Variable), Some(integer));
    assert_eq!(fx.ctx.assignable_type(v, AssignmentType::Signal), None);
    assert_eq!(fx.ctx.assignable_type(s, AssignmentType::Signal), Some(boolean));
    assert_eq!(fx.ctx.assignable_type(integer, AssignmentType::Signal), None);
    let statements = vec![
        // v := s;
        assign(name(ident(V), 10, 1), name_expr(ident(S), 11, 2)),
        // s := 1;
        assign(name(ident(S), 20, 3), lit(1, 21)),
        // s <= 1 after 2;
        stmt(SequentialStatement::SignalAssignment(SignalAssignment {
            target: name(ident(S), 30, 4),
            rhs: vec![WaveformElement { value: lit(1, 31), after: Some(lit(2, 32)) }],
        })),
        // s <= force v;
        stmt(SequentialStatement::SignalForceAssignment(ExpressionAssignment {
            target: name(ident(S), 40, 5),
            rhs: name_expr(ident(V), 41, 6),
        })),
        // v <= release;
        stmt(SequentialStatement::SignalReleaseAssignment(SignalReleaseAssignment {
            target: name(ident(V), 50, 7),
        })),
        // x := 1;
        assign(name(ident(X), 60, 8), lit(1, 61)),
        stmt(SequentialStatement::Null),
    ];
    assert_eq!(analyze(&mut fx, SequentialRoot::Process, &statements), Ok(()));
    assert_eq!(
        messages(&fx.diagnostics),
        vec![
            Message::DoesNotMatchType(ident(S), integer),
            Message::InvalidTarget(ident(S)),
            Message::LiteralDoesNotMatchType(boolean),
            Message::LiteralDoesNotMatchType(time),
            Message::DoesNotMatchType(ident(V), boolean),
            Message::InvalidTarget(ident(V)),
            Message::NoDeclaration(ident(X)),
        ]
    );
    assert_eq!(fx.ctx.references.get(1), Some(v));
    assert_eq!(fx.ctx.references.get(3), Some(s));
    assert_eq!(fx.ctx.references.get(7), Some(v));
    assert_eq!(fx.ctx.references.get(8), None);
}

#[test]
fn procedure_call_statement_resolves_a_procedure() {
    let mut fx = Fixture::new();
    let integer = fx.integer;
    let p = fx.subprogram(ident(P), &[integer], None, 5);
    fx.subprogram(ident(P), &[integer], Some(integer), 6);
    let statements = vec![
        stmt(SequentialStatement::ProcedureCall(call(ident(P), 10, 1, vec![positional(lit(1, 11))]))),
        stmt(SequentialStatement::ProcedureCall(call(ident(X), 20, 2, vec![]))),
    ];
    assert_eq!(analyze(&mut fx, SequentialRoot::Procedure, &statements), Ok(()));
    assert_eq!(fx.ctx.references.get(1), Some(p));
    assert_eq!(messages(&fx.diagnostics), vec![Message::NoDeclaration(ident(X))]);
}

#[test]
fn fatal_error_stops_the_sequence_and_keeps_the_diagnostics() {
    let mut fx = Fixture::new();
    let integer = fx.integer;
    fx.subprogram(ident(P), &[integer, integer], None, 5);
    let malformed = vec![named(name(ident(800), 21, 2), lit(1, 22)), positional(lit(2, 23))];
    let statements = vec![
        ret(10, None),
        stmt(plain_loop(vec![stmt(SequentialStatement::ProcedureCall(call(
            ident(P),
            20,
            1,
            malformed,
        )))])),
        ret(30, None),
    ];
    assert_eq!(
        analyze(&mut fx, SequentialRoot::Process, &statements),
        Err(FatalError::MalformedAssociationList)
    );
    assert_eq!(messages(&fx.diagnostics), vec![Message::ReturnFromProcess]);
    assert_eq!(fx.diagnostics[0].pos, pos(10));
    assert_eq!(fx.ctx.references.get(1), None);
}

#[test]
fn fatal_error_in_a_branch_keeps_the_branches_before_it() {
    // if 1 then return; elsif <malformed> then return; else return; end if;
    let mut fx = Fixture::new();
    let boolean = fx.boolean;
    let malformed = vec![named(name(ident(800), 21, 2), lit(1, 22)), positional(lit(2, 23))];
    let statements = vec![stmt(SequentialStatement::If(IfStatement {
        conditionals: vec![
            Conditional { condition: lit(1, 10), item: vec![ret(11, None)] },
            Conditional { condition: call_expr(ident(F), 20, 1, malformed), item: vec![ret(24, None)] },
        ],
        else_item: Some(vec![ret(30, None)]),
    }))];
    assert_eq!(
        analyze(&mut fx, SequentialRoot::Process, &statements),
        Err(FatalError::MalformedAssociationList)
    );
    assert_eq!(
        messages(&fx.diagnostics),
        vec![Message::LiteralDoesNotMatchType(boolean), Message::ReturnFromProcess]
    );
    let at: Vec<SrcPos> = fx.diagnostics.iter().map(|d| d.pos).collect();
    assert_eq!(at, vec![pos(10), pos(11)]);
    assert_eq!(fx.ctx.references.get(1), None);
}

#[test]
fn loop_parameter_of_unknown_type_matches_nothing_and_fails_nothing() {
    // for i in x loop v := i; end loop; where x has no declaration
    let mut fx = Fixture::new();
    let integer = fx.integer;
    fx.object(V, ObjectClass::Variable, integer, 5);
    let statements = vec![stmt(SequentialStatement::Loop(LoopStatement {
        iteration_scheme: Some(IterationScheme::For(
            Ident { name: Symbol { id: I }, pos: pos(10) },
            DiscreteRange::Discrete(name(ident(X), 11, 1)),
        )),
        statements: vec![assign(name(ident(V), 20, 2), name_expr(ident(I), 21, 3))],
    }))];
    let before = fx.ctx.arena.len();
    assert_eq!(analyze(&mut fx, SequentialRoot::Process, &statements), Ok(()));
    assert_eq!(messages(&fx.diagnostics), vec![Message::NoDeclaration(ident(X))]);
    assert!(matches!(
        fx.ctx.arena.get(before).unwrap().ent.kind,
        AnyEntKind::LoopParameter(None)
    ));
    assert_eq!(fx.ctx.references.get(3), Some(before));
    let index = name_expr(ident(I), 30, 4);
    let mut nested = fx.scope.nested();
    nested.add(fx.ctx.arena.get(before).unwrap(), &mut fx.diagnostics);
    let res = fx.ctx.analyze_expression_with_target_type(
        &nested,
        integer,
        &index.pos,
        &index.item,
        &mut fx.diagnostics,
    );
    assert_eq!(res, Ok(TypeCheck::Unknown));
    assert_eq!(fx.diagnostics.len(), 1);
}
