#![allow(dead_code, unused_imports)]
use vhdl_lang::analyze::{AnalyzeContext, FatalError, Standard};
use vhdl_lang::ast::{
    ActualPart, AssociationElement, Expression, FunctionCall, Literal, Name, WithPos,
};
use vhdl_lang::data::{
    Designator, Diagnostic, Message, Operator, Related, RelatedKind, Severity, SrcPos, Symbol,
    UnitKind,
};
use vhdl_lang::formal_region::{FormalRegion, InterfaceEnt};
use vhdl_lang::named_entity::{
    AnyEntKind, Arena, Mode, Object, ObjectClass, Signature, Subtype, Type, UnitRegion,
};
use vhdl_lang::region::{Binding, NamedEntities, OverloadedName, Scope};
use vhdl_lang::semantic::TypeCheck;
use vhdl_lang::overloaded::ParametersMut;

fn pos(n: u32) -> SrcPos {
    SrcPos { start: n, end: n + 1 }
}

fn ident(id: u32) -> Designator {
    Designator::Identifier(Symbol { id })
}

struct Fixture {
    ctx: AnalyzeContext,
    scope: Scope,
    diagnostics: Vec<Diagnostic>,
    integer: usize,
    boolean: usize,
    time: usize,
    string: usize,
    severity_level: usize,
}

impl Fixture {
    fn new() -> Fixture {
        let mut arena = Arena::new();
        let integer = arena.define(ident(900), AnyEntKind::Type(Type::Integer), None);
        let boolean = arena.define(ident(901), AnyEntKind::Type(Type::Enum), None);
        let time = arena.define(ident(902), AnyEntKind::Type(Type::Physical), None);
        let string = arena.define(ident(903), AnyEntKind::Type(Type::Array), None);
        let severity_level = arena.define(ident(904), AnyEntKind::Type(Type::Enum), None);
        let mut scope = Scope::new();
        let mut diagnostics = Vec::new();
        for id in [integer, boolean, time, string, severity_level] {
            scope.add(arena.get(id).unwrap(), &mut diagnostics);
        }
        let standard = Standard { boolean, time, string, severity_level };
        Fixture {
            ctx: AnalyzeContext::new(arena, standard),
            scope,
            diagnostics,
            integer,
            boolean,
            time,
            string,
            severity_level,
        }
    }

    fn declare(&mut self, designator: Designator, kind: AnyEntKind, at: u32) -> usize {
        let id = self.ctx.arena.define(designator, kind, Some(pos(at)));
        self.scope.add(self.ctx.arena.get(id).unwrap(), &mut self.diagnostics);
        id
    }

    fn object(&mut self, name: u32, class: ObjectClass, typ: usize, at: u32) -> usize {
        let kind = AnyEntKind::Object(Object {
            class,
            mode: None,
            subtype: Subtype { type_mark: typ },
            has_default: false,
        });
        self.declare(ident(name), kind, at)
    }

    fn formals(&mut self, types: &[usize]) -> FormalRegion {
        let mut region = FormalRegion::default();
        for (i, typ) in types.iter().enumerate() {
            let kind = AnyEntKind::Object(Object {
                class: ObjectClass::Constant,
                mode: Some(Mode::In),
                subtype: Subtype { type_mark: *typ },
                has_default: false,
            });
            let id = self.ctx.arena.define(ident(800 + i as u32), kind, None);
            region.add(&self.ctx.arena, id);
        }
        region
    }

    fn subprogram(
        &mut self,
        designator: Designator,
        types: &[usize],
        return_type: Option<usize>,
        at: u32,
    ) -> usize {
        let formals = self.formals(types);
        self.declare(designator, AnyEntKind::Overloaded(Signature { formals, return_type }), at)
    }
}

fn name(designator: Designator, at: u32, reference: usize) -> Name {
    Name { designator, pos: pos(at), reference }
}

fn lit(value: u64, at: u32) -> WithPos<Expression> {
    WithPos { item: Expression::Literal(Literal::Integer(value)), pos: pos(at) }
}

fn name_expr(designator: Designator, at: u32, reference: usize) -> WithPos<Expression> {
    WithPos { item: Expression::Name(name(designator, at, reference)), pos: pos(at) }
}

fn positional(actual: WithPos<Expression>) -> AssociationElement {
    AssociationElement { formal: None, actual: ActualPart::Expression(actual) }
}

fn named(formal: Name, actual: WithPos<Expression>) -> AssociationElement {
    AssociationElement { formal: Some(formal), actual: ActualPart::Expression(actual) }
}

fn call(designator: Designator, at: u32, reference: usize, parameters: Vec<AssociationElement>) -> FunctionCall {
    FunctionCall { name: name(designator, at, reference), parameters }
}

fn call_expr(
    designator: Designator,
    at: u32,
    reference: usize,
    parameters: Vec<AssociationElement>,
) -> WithPos<Expression> {
    WithPos { item: Expression::Call(call(designator, at, reference, parameters)), pos: pos(at) }
}

fn messages(diagnostics: &[Diagnostic]) -> Vec<Message> {
    diagnostics.iter().map(|d| d.message).collect()
}

const F: u32 = 1;
const G: u32 = 2;
const X: u32 = 3;
const P: u32 = 4;

#[test]
fn resolves_call_by_return_type() {
    // f(1, 2) with f(integer, integer) return boolean and
    // f(integer, integer) return integer, where a boolean is expected
    let mut fx = Fixture::new();
    let (integer, boolean) = (fx.integer, fx.boolean);
    let first = fx.subprogram(ident(F), &[integer, integer], Some(boolean), 10);
    let _second = fx.subprogram(ident(F), &[integer, integer], Some(integer), 20);
    let expr = call_expr(ident(F), 30, 1, vec![positional(lit(1, 31)), positional(lit(2, 32))]);
    let res = fx.ctx.analyze_expression_with_target_type(
        &fx.scope,
        boolean,
        &expr.pos,
        &expr.item,
        &mut fx.diagnostics,
    );
    assert_eq!(res, Ok(TypeCheck::Okay));
    assert_eq!(fx.ctx.references.get(1), Some(first));
    assert!(fx.diagnostics.is_empty());
}

#[test]
fn two_mismatched_nullary_candidates_are_listed() {
    // g with two candidates without parameters, neither of type time
    let mut fx = Fixture::new();
    let (integer, boolean, time) = (fx.integer, fx.boolean, fx.time);
    let first = fx.subprogram(ident(G), &[], Some(integer), 10);
    let second = fx.subprogram(ident(G), &[], Some(boolean), 20);
    let expr = name_expr(ident(G), 30, 1);
    let res = fx.ctx.analyze_expression_with_target_type(
        &fx.scope,
        time,
        &expr.pos,
        &expr.item,
        &mut fx.diagnostics,
    );
    assert_eq!(res, Ok(TypeCheck::NotOk));
    assert_eq!(fx.ctx.references.get(1), None);
    assert_eq!(fx.diagnostics.len(), 1);
    let d = &fx.diagnostics[0];
    assert_eq!(d.pos, pos(30));
    assert_eq!(d.severity, Severity::Error);
    assert_eq!(d.message, Message::CouldNotResolve(ident(G)));
    assert_eq!(
        d.related,
        vec![
            Related { pos: Some(pos(10)), kind: RelatedKind::DoesNotMatch, ent: first },
            Related { pos: Some(pos(20)), kind: RelatedKind::DoesNotMatch, ent: second },
        ]
    );
}

#[test]
fn ambiguous_call_lists_every_match_and_binds_nothing() {
    let mut fx = Fixture::new();
    let integer = fx.integer;
    let first = fx.subprogram(ident(F), &[integer], Some(integer), 10);
    let second = fx.subprogram(ident(F), &[integer], Some(integer), 20);
    fx.object(X, ObjectClass::Constant, integer, 5);
    let expr = call_expr(ident(F), 30, 1, vec![positional(name_expr(ident(X), 31, 2))]);
    let res = fx.ctx.analyze_expression_with_target_type(
        &fx.scope,
        integer,
        &expr.pos,
        &expr.item,
        &mut fx.diagnostics,
    );
    assert_eq!(res, Ok(TypeCheck::Unknown));
    assert_eq!(fx.ctx.references.get(1), None);
    assert_eq!(fx.diagnostics.len(), 1);
    assert_eq!(fx.diagnostics[0].message, Message::AmbiguousUse(ident(F)));
    assert_eq!(
        fx.diagnostics[0].related,
        vec![
            Related { pos: Some(pos(10)), kind: RelatedKind::MightBe, ent: first },
            Related { pos: Some(pos(20)), kind: RelatedKind::MightBe, ent: second },
        ]
    );
    // The parameters were analyzed once more on their own
    assert!(fx.ctx.references.get(2).is_some());
}

#[test]
fn unknown_argument_gives_unknown_without_ambiguity() {
    // f(x) where x has no declaration and two candidates would match
    let mut fx = Fixture::new();
    let integer = fx.integer;
    fx.subprogram(ident(F), &[integer], Some(integer), 10);
    fx.subprogram(ident(F), &[integer], Some(integer), 20);
    let expr = call_expr(ident(F), 30, 1, vec![positional(name_expr(ident(X), 31, 2))]);
    let res = fx.ctx.analyze_expression_with_target_type(
        &fx.scope,
        integer,
        &expr.pos,
        &expr.item,
        &mut fx.diagnostics,
    );
    assert_eq!(res, Ok(TypeCheck::Unknown));
    assert_eq!(messages(&fx.diagnostics), vec![Message::NoDeclaration(ident(X))]);
    assert_eq!(fx.diagnostics[0].pos, pos(31));
    assert_eq!(fx.ctx.references.get(1), None);
    assert_eq!(fx.ctx.references.get(2), None);
}

#[test]
fn single_mismatched_literal_is_bound_and_reported_directly() {
    let mut fx = Fixture::new();
    let (integer, time) = (fx.integer, fx.time);
    let only = fx.subprogram(ident(G), &[], Some(integer), 10);
    let expr = name_expr(ident(G), 30, 1);
    let res = fx.ctx.analyze_expression_with_target_type(
        &fx.scope,
        time,
        &expr.pos,
        &expr.item,
        &mut fx.diagnostics,
    );
    assert_eq!(res, Ok(TypeCheck::NotOk));
    assert_eq!(fx.ctx.references.get(1), Some(only));
    assert_eq!(messages(&fx.diagnostics), vec![Message::DoesNotMatchType(ident(G), time)]);
    assert!(fx.diagnostics[0].related.is_empty());
}

#[test]
fn single_mismatched_candidate_reports_its_parameters() {
    // f(x) with x a boolean and f(integer) the only candidate
    let mut fx = Fixture::new();
    let (integer, boolean) = (fx.integer, fx.boolean);
    let only = fx.subprogram(ident(F), &[integer], Some(integer), 10);
    let x = fx.object(X, ObjectClass::Constant, boolean, 5);
    let expr = call_expr(ident(F), 30, 1, vec![positional(name_expr(ident(X), 31, 2))]);
    let res = fx.ctx.analyze_expression_with_target_type(
        &fx.scope,
        integer,
        &expr.pos,
        &expr.item,
        &mut fx.diagnostics,
    );
    assert_eq!(res, Ok(TypeCheck::NotOk));
    assert_eq!(fx.ctx.references.get(1), Some(only));
    assert_eq!(fx.ctx.references.get(2), Some(x));
    assert_eq!(messages(&fx.diagnostics), vec![Message::DoesNotMatchType(ident(X), integer)]);
}

#[test]
fn no_candidate_considered_is_unresolved() {
    // Only procedures are declared where a value is expected
    let mut fx = Fixture::new();
    let integer = fx.integer;
    fx.subprogram(ident(P), &[integer], None, 10);
    let expr = call_expr(ident(P), 30, 1, vec![positional(lit(1, 31))]);
    let res = fx.ctx.analyze_expression_with_target_type(
        &fx.scope,
        integer,
        &expr.pos,
        &expr.item,
        &mut fx.diagnostics,
    );
    assert_eq!(res, Ok(TypeCheck::NotOk));
    assert_eq!(fx.ctx.references.get(1), None);
    assert_eq!(messages(&fx.diagnostics), vec![Message::CouldNotResolve(ident(P))]);
    assert!(fx.diagnostics[0].related.is_empty());
}

#[test]
fn operators_are_told_apart_by_the_number_of_operands() {
    let mut fx = Fixture::new();
    let integer = fx.integer;
    let minus = Designator::OperatorSymbol(Operator::Minus);
    let unary = fx.subprogram(minus, &[integer], Some(integer), 10);
    let binary = fx.subprogram(minus, &[integer, integer], Some(integer), 20);
    let both = Expression::Binary(name(minus, 30, 1), Box::new(lit(1, 29)), Box::new(lit(2, 31)));
    let res = fx.ctx.analyze_expression_with_target_type(
        &fx.scope,
        integer,
        &pos(30),
        &both,
        &mut fx.diagnostics,
    );
    assert_eq!(res, Ok(TypeCheck::Okay));
    assert_eq!(fx.ctx.references.get(1), Some(binary));
    let one = Expression::Unary(name(minus, 40, 2), Box::new(lit(1, 41)));
    let res = fx.ctx.analyze_expression_with_target_type(
        &fx.scope,
        integer,
        &pos(40),
        &one,
        &mut fx.diagnostics,
    );
    assert_eq!(res, Ok(TypeCheck::Okay));
    assert_eq!(fx.ctx.references.get(2), Some(unary));
    assert!(fx.diagnostics.is_empty());
}

#[test]
fn resolve_binds_the_reference_of_the_call_site() {
    let mut fx = Fixture::new();
    let integer = fx.integer;
    let p = fx.subprogram(ident(P), &[integer], None, 10);
    let f = fx.subprogram(ident(P), &[integer], Some(integer), 20);
    let parameters = vec![positional(lit(1, 31))];
    // Without an expected type only the procedure is considered
    let res = fx.ctx.resolve_overloaded_with_target_type(
        &fx.scope,
        OverloadedName { entities: vec![p, f] },
        None,
        &pos(30),
        &ident(P),
        7,
        &ParametersMut::AssociationList(&parameters),
        &mut fx.diagnostics,
    );
    assert_eq!(res, Ok(TypeCheck::Okay));
    assert_eq!(fx.ctx.references.get(7), Some(p));
    // With an expected type only the function is considered
    let res = fx.ctx.resolve_overloaded_with_target_type(
        &fx.scope,
        OverloadedName { entities: vec![p, f] },
        Some(integer),
        &pos(30),
        &ident(P),
        7,
        &ParametersMut::AssociationList(&parameters),
        &mut fx.diagnostics,
    );
    assert_eq!(res, Ok(TypeCheck::Okay));
    assert_eq!(fx.ctx.references.get(7), Some(f));
    assert!(fx.diagnostics.is_empty());
}

#[test]
fn rejected_candidate_leaves_no_binding() {
    // f(a => 1) is tried on f(a: boolean), which binds the formal `a`,
    // and on f(b: integer). Both are rejected.
    let mut fx = Fixture::new();
    let (integer, boolean) = (fx.integer, fx.boolean);
    let formal_a = {
        let kind = AnyEntKind::Object(Object {
            class: ObjectClass::Constant,
            mode: Some(Mode::In),
            subtype: Subtype { type_mark: boolean },
            has_default: false,
        });
        fx.ctx.arena.define(ident(50), kind, None)
    };
    let mut formals = FormalRegion::default();
    formals.add(&fx.ctx.arena, formal_a);
    fx.declare(
        ident(F),
        AnyEntKind::Overloaded(Signature { formals, return_type: Some(integer) }),
        10,
    );
    fx.subprogram(ident(F), &[integer], Some(integer), 20);
    let parameters = vec![named(name(ident(50), 31, 2), lit(1, 32))];
    let expr = call_expr(ident(F), 30, 1, parameters);
    let res = fx.ctx.analyze_expression_with_target_type(
        &fx.scope,
        integer,
        &expr.pos,
        &expr.item,
        &mut fx.diagnostics,
    );
    assert_eq!(res, Ok(TypeCheck::NotOk));
    assert_eq!(fx.ctx.references.get(1), None);
    assert_eq!(fx.ctx.references.get(2), None);
    assert_eq!(messages(&fx.diagnostics), vec![Message::CouldNotResolve(ident(F))]);
    assert_eq!(fx.diagnostics[0].related.len(), 2);
}

#[test]
fn clear_references_unbinds_every_name_of_the_parameters() {
    let mut fx = Fixture::new();
    let integer = fx.integer;
    let x = fx.object(X, ObjectClass::Constant, integer, 5);
    let left = name_expr(ident(X), 31, 2);
    let right = call_expr(ident(F), 32, 3, vec![positional(name_expr(ident(X), 33, 4))]);
    for slot in [2, 3, 4, 9] {
        fx.ctx.references.set_unique_reference(slot, x);
    }
    let parameters = ParametersMut::Binary(&left, &right);
    assert_eq!(parameters.operator_len(), Some(2));
    assert!(!parameters.is_empty());
    parameters.clear_references(&mut fx.ctx.references);
    assert_eq!(fx.ctx.references.get(2), None);
    assert_eq!(fx.ctx.references.get(3), None);
    assert_eq!(fx.ctx.references.get(4), None);
    assert_eq!(fx.ctx.references.get(9), Some(x));
}

#[test]
fn parameters_know_their_shape() {
    let none: Vec<AssociationElement> = Vec::new();
    let some = vec![positional(lit(1, 1))];
    let operand = lit(1, 2);
    assert!(ParametersMut::AssociationList(&none).is_empty());
    assert!(!ParametersMut::AssociationList(&some).is_empty());
    assert!(!ParametersMut::Unary(&operand).is_empty());
    assert_eq!(ParametersMut::AssociationList(&some).operator_len(), None);
    assert_eq!(ParametersMut::Unary(&operand).operator_len(), Some(1));
}

#[test]
fn named_association_binds_the_formals() {
    let mut fx = Fixture::new();
    let (integer, boolean) = (fx.integer, fx.boolean);
    let f = fx.subprogram(ident(F), &[integer, boolean], Some(integer), 10);
    let formals = fx.ctx.formals_of(f);
    let (a, b) = (formals.nth(0).unwrap().inner(), formals.nth(1).unwrap().inner());
    fx.object(X, ObjectClass::Constant, boolean, 5);
    // f(b => x, a => 1): the formals are named 800 and 801
    let parameters = vec![
        named(name(ident(801), 31, 2), name_expr(ident(X), 32, 3)),
        named(name(ident(800), 33, 4), lit(1, 34)),
    ];
    let expr = call_expr(ident(F), 30, 1, parameters);
    let res = fx.ctx.analyze_expression_with_target_type(
        &fx.scope,
        integer,
        &expr.pos,
        &expr.item,
        &mut fx.diagnostics,
    );
    assert_eq!(res, Ok(TypeCheck::Okay));
    assert_eq!(fx.ctx.references.get(1), Some(f));
    assert_eq!(fx.ctx.references.get(2), Some(b));
    assert_eq!(fx.ctx.references.get(4), Some(a));
    assert!(fx.diagnostics.is_empty());
}

#[test]
fn missing_and_extra_arguments_are_reported() {
    let mut fx = Fixture::new();
    let integer = fx.integer;
    let f = fx.subprogram(ident(F), &[integer, integer], Some(integer), 10);
    let second = fx.ctx.formals_of(f).nth(1).unwrap().inner();
    let expr = call_expr(ident(F), 30, 1, vec![positional(lit(1, 31))]);
    let res = fx.ctx.analyze_expression_with_target_type(
        &fx.scope,
        integer,
        &expr.pos,
        &expr.item,
        &mut fx.diagnostics,
    );
    assert_eq!(res, Ok(TypeCheck::NotOk));
    assert_eq!(messages(&fx.diagnostics), vec![Message::NoAssociation(second)]);
    assert_eq!(fx.diagnostics[0].pos, pos(30));

    let mut fx = Fixture::new();
    let integer = fx.integer;
    fx.subprogram(ident(F), &[integer], Some(integer), 10);
    let parameters = vec![positional(lit(1, 31)), positional(lit(2, 32))];
    let expr = call_expr(ident(F), 30, 1, parameters);
    let res = fx.ctx.analyze_expression_with_target_type(
        &fx.scope,
        integer,
        &expr.pos,
        &expr.item,
        &mut fx.diagnostics,
    );
    assert_eq!(res, Ok(TypeCheck::NotOk));
    assert_eq!(messages(&fx.diagnostics), vec![Message::UnexpectedExtraArgument]);
    assert_eq!(fx.diagnostics[0].pos, pos(32));
}

#[test]
fn positional_after_named_is_fatal() {
    let mut fx = Fixture::new();
    let integer = fx.integer;
    fx.subprogram(ident(F), &[integer, integer], Some(integer), 10);
    let parameters = vec![named(name(ident(800), 31, 2), lit(1, 32)), positional(lit(2, 33))];
    let expr = call_expr(ident(F), 30, 1, parameters);
    let before = fx.diagnostics.len();
    let res = fx.ctx.analyze_expression_with_target_type(
        &fx.scope,
        integer,
        &expr.pos,
        &expr.item,
        &mut fx.diagnostics,
    );
    assert_eq!(res, Err(FatalError::MalformedAssociationList));
    assert_eq!(fx.diagnostics.len(), before);
}

#[test]
fn literals_match_the_kind_of_the_type() {
    let mut fx = Fixture::new();
    let (integer, time, string) = (fx.integer, fx.time, fx.string);
    let subtype = fx.declare(ident(60), AnyEntKind::Type(Type::Subtype(Subtype { type_mark: integer })), 1);
    assert!(fx.ctx.literal_matches(&Literal::Integer(3), integer));
    assert!(fx.ctx.literal_matches(&Literal::Integer(3), subtype));
    assert!(!fx.ctx.literal_matches(&Literal::Integer(3), time));
    assert!(fx.ctx.literal_matches(&Literal::Physical(3, Symbol { id: 70 }), time));
    assert!(fx.ctx.literal_matches(&Literal::String(vec![b'a']), string));
    assert!(!fx.ctx.literal_matches(&Literal::String(vec![b'a']), integer));
    let res = fx.ctx.analyze_expression_with_target_type(
        &fx.scope,
        time,
        &pos(9),
        &Expression::Literal(Literal::Integer(3)),
        &mut fx.diagnostics,
    );
    assert_eq!(res, Ok(TypeCheck::NotOk));
    assert_eq!(messages(&fx.diagnostics), vec![Message::LiteralDoesNotMatchType(time)]);
}

#[test]
fn names_of_objects_are_held_against_the_expected_type() {
    let mut fx = Fixture::new();
    let (integer, boolean) = (fx.integer, fx.boolean);
    let x = fx.object(X, ObjectClass::Signal, integer, 5);
    let expr = name_expr(ident(X), 30, 1);
    let res = fx.ctx.analyze_expression_with_target_type(
        &fx.scope,
        integer,
        &expr.pos,
        &expr.item,
        &mut fx.diagnostics,
    );
    assert_eq!(res, Ok(TypeCheck::Okay));
    assert_eq!(fx.ctx.references.get(1), Some(x));
    let res = fx.ctx.analyze_expression_with_target_type(
        &fx.scope,
        boolean,
        &expr.pos,
        &expr.item,
        &mut fx.diagnostics,
    );
    assert_eq!(res, Ok(TypeCheck::NotOk));
    assert_eq!(messages(&fx.diagnostics), vec![Message::DoesNotMatchType(ident(X), boolean)]);
    // A type is not a value, and an object cannot be called
    let typ = name_expr(ident(900), 40, 2);
    let res = fx.ctx.analyze_expression_with_target_type(
        &fx.scope,
        integer,
        &typ.pos,
        &typ.item,
        &mut fx.diagnostics,
    );
    assert_eq!(res, Ok(TypeCheck::NotOk));
    assert_eq!(fx.diagnostics[1].message, Message::NotAValue(integer));
    let called = call_expr(ident(X), 50, 3, vec![positional(lit(1, 51))]);
    let res = fx.ctx.analyze_expression_with_target_type(
        &fx.scope,
        integer,
        &called.pos,
        &called.item,
        &mut fx.diagnostics,
    );
    assert_eq!(res, Ok(TypeCheck::NotOk));
    assert_eq!(fx.diagnostics[2].message, Message::NotCallable(x));
}

#[test]
fn analysis_without_expected_type_binds_what_is_unique() {
    let mut fx = Fixture::new();
    let integer = fx.integer;
    let x = fx.object(X, ObjectClass::Signal, integer, 5);
    let f = fx.subprogram(ident(F), &[integer], Some(integer), 10);
    fx.subprogram(ident(G), &[], Some(integer), 20);
    fx.subprogram(ident(G), &[], Some(integer), 21);
    let expr = call_expr(ident(F), 30, 1, vec![positional(name_expr(ident(X), 31, 2))]);
    assert_eq!(
        fx.ctx.analyze_expression_pos(&fx.scope, &expr.pos, &expr.item, &mut fx.diagnostics),
        Ok(())
    );
    assert_eq!(fx.ctx.references.get(1), Some(f));
    assert_eq!(fx.ctx.references.get(2), Some(x));
    let g = name_expr(ident(G), 40, 3);
    fx.ctx.references.set_unique_reference(3, x);
    assert_eq!(
        fx.ctx.analyze_expression_pos(&fx.scope, &g.pos, &g.item, &mut fx.diagnostics),
        Ok(())
    );
    assert_eq!(fx.ctx.references.get(3), None);
    assert!(fx.diagnostics.is_empty());
}

#[test]
fn operands_are_held_against_the_formals_by_position() {
    let mut fx = Fixture::new();
    let (integer, boolean) = (fx.integer, fx.boolean);
    let x = fx.object(X, ObjectClass::Constant, boolean, 5);
    let formals = fx.formals(&[integer, boolean]);
    let left = lit(1, 10);
    let right = name_expr(ident(X), 11, 1);
    let res = fx.ctx.analyze_parameters_with_formal_region(
        &pos(9),
        &formals,
        &fx.scope,
        &ParametersMut::Binary(&left, &right),
        &mut fx.diagnostics,
    );
    assert_eq!(res, Ok(TypeCheck::Okay));
    assert_eq!(fx.ctx.references.get(1), Some(x));
    // Swapped, neither operand matches its formal
    let res = fx.ctx.analyze_parameters_with_formal_region(
        &pos(9),
        &formals,
        &fx.scope,
        &ParametersMut::Binary(&right, &left),
        &mut fx.diagnostics,
    );
    assert_eq!(res, Ok(TypeCheck::NotOk));
    assert_eq!(
        messages(&fx.diagnostics),
        vec![
            Message::DoesNotMatchType(ident(X), integer),
            Message::LiteralDoesNotMatchType(boolean),
        ]
    );
    // An operand without a formal does not match and is analyzed on its own
    fx.diagnostics.clear();
    fx.ctx.references.clear_reference(1);
    let one = fx.formals(&[integer]);
    let res = fx.ctx.analyze_parameters_with_formal_region(
        &pos(9),
        &one,
        &fx.scope,
        &ParametersMut::Binary(&left, &right),
        &mut fx.diagnostics,
    );
    assert_eq!(res, Ok(TypeCheck::NotOk));
    assert!(fx.diagnostics.is_empty());
    assert_eq!(fx.ctx.references.get(1), Some(x));
    let res = fx.ctx.analyze_parameters_with_formal_region(
        &pos(9),
        &one,
        &fx.scope,
        &ParametersMut::Unary(&left),
        &mut fx.diagnostics,
    );
    assert_eq!(res, Ok(TypeCheck::Okay));
}

#[test]
fn parameters_on_their_own_are_only_resolved() {
    let mut fx = Fixture::new();
    let boolean = fx.boolean;
    let x = fx.object(X, ObjectClass::Constant, boolean, 5);
    let operand = name_expr(ident(X), 11, 1);
    let missing = name_expr(ident(G), 12, 2);
    let res = fx.ctx.analyze_parameters(
        &fx.scope,
        &ParametersMut::Binary(&operand, &missing),
        &mut fx.diagnostics,
    );
    assert_eq!(res, Ok(()));
    assert_eq!(fx.ctx.references.get(1), Some(x));
    assert_eq!(fx.ctx.references.get(2), None);
    assert_eq!(messages(&fx.diagnostics), vec![Message::NoDeclaration(ident(G))]);
    let list = vec![
        named(name(ident(800), 20, 3), name_expr(ident(X), 21, 4)),
        AssociationElement { formal: None, actual: ActualPart::Open(pos(22)) },
    ];
    fx.ctx.references.set_unique_reference(3, x);
    let res = fx.ctx.analyze_parameters(
        &fx.scope,
        &ParametersMut::AssociationList(&list),
        &mut fx.diagnostics,
    );
    assert_eq!(res, Err(FatalError::MalformedAssociationList));
    let list = vec![named(name(ident(800), 20, 3), name_expr(ident(X), 21, 4))];
    let res = fx.ctx.analyze_parameters(
        &fx.scope,
        &ParametersMut::AssociationList(&list),
        &mut fx.diagnostics,
    );
    assert_eq!(res, Ok(()));
    assert_eq!(fx.ctx.references.get(3), None);
    assert_eq!(fx.ctx.references.get(4), Some(x));
}

#[test]
fn open_actual_leaves_a_formal_with_default_alone() {
    let mut fx = Fixture::new();
    let integer = fx.integer;
    let with_default = fx.ctx.arena.define(
        ident(50),
        AnyEntKind::Object(Object {
            class: ObjectClass::Constant,
            mode: Some(Mode::In),
            subtype: Subtype { type_mark: integer },
            has_default: true,
        }),
        None,
    );
    let mut formals = fx.formals(&[integer]);
    formals.add(&fx.ctx.arena, with_default);
    // Only the first formal is given a value: the second has a default
    let list = vec![positional(lit(1, 10))];
    let res = fx.ctx.analyze_assoc_elems_with_formal_region(
        &pos(9),
        &formals,
        &fx.scope,
        &list,
        &mut fx.diagnostics,
    );
    assert_eq!(res, Ok(TypeCheck::Okay));
    let list = vec![AssociationElement { formal: None, actual: ActualPart::Open(pos(10)) }];
    let res = fx.ctx.analyze_assoc_elems_with_formal_region(
        &pos(9),
        &formals,
        &fx.scope,
        &list,
        &mut fx.diagnostics,
    );
    assert_eq!(res, Ok(TypeCheck::Okay));
    assert!(fx.diagnostics.is_empty());
}

#[test]
fn fatal_error_leaves_everything_as_it_was() {
    // f(x, g(a => 1, 2)): the inner list is malformed
    let mut fx = Fixture::new();
    let integer = fx.integer;
    let x = fx.object(X, ObjectClass::Constant, integer, 5);
    let f = fx.subprogram(ident(F), &[integer, integer], Some(integer), 10);
    let inner = vec![named(name(ident(800), 41, 4), lit(1, 42)), positional(lit(2, 43))];
    let parameters = vec![
        positional(name_expr(ident(X), 31, 2)),
        positional(call_expr(ident(G), 40, 3, inner)),
    ];
    fx.ctx.references.set_unique_reference(3, x);
    let res = fx.ctx.resolve_overloaded_with_target_type(
        &fx.scope,
        OverloadedName { entities: vec![f] },
        Some(integer),
        &pos(30),
        &ident(F),
        1,
        &ParametersMut::AssociationList(&parameters),
        &mut fx.diagnostics,
    );
    assert_eq!(res, Err(FatalError::MalformedAssociationList));
    assert!(fx.diagnostics.is_empty());
    assert_eq!(fx.ctx.references.get(1), None);
    assert_eq!(fx.ctx.references.get(2), None);
    assert_eq!(fx.ctx.references.get(3), Some(x));
    assert_eq!(fx.ctx.references.get(4), None);
    // The left operand is fine, the right one is not: neither is analyzed
    let left = name_expr(ident(X), 50, 5);
    let right = &parameters[1].actual;
    let right = match right {
        ActualPart::Expression(expr) => expr,
        ActualPart::Open(_) => unreachable!(),
    };
    let both = ParametersMut::Binary(&left, right);
    assert!(!both.ok());
    assert!(ParametersMut::Unary(&left).ok());
    assert_eq!(
        fx.ctx.analyze_parameters(&fx.scope, &both, &mut fx.diagnostics),
        Err(FatalError::MalformedAssociationList)
    );
    let formals = fx.formals(&[integer, integer]);
    assert_eq!(
        fx.ctx.analyze_parameters_with_formal_region(
            &pos(9),
            &formals,
            &fx.scope,
            &both,
            &mut fx.diagnostics
        ),
        Err(FatalError::MalformedAssociationList)
    );
    assert!(fx.diagnostics.is_empty());
    assert_eq!(fx.ctx.references.get(5), None);
    assert_eq!(fx.ctx.references.get(3), Some(x));
}
