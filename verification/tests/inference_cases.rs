//! Checks of whole programs, written as trees: the types recorded for their nodes and the errors reported.
use std::sync::atomic::{AtomicU32, Ordering as AtomicOrdering};

use inference_type_checker::ast::{
    Argument, ArgumentType, ArrayIndexAccessExpression, ArrayLiteral, AssertStatement, AssignStatement,
    BinaryExpression, BoolLiteral, ConstantDefinition, Definition, Directive, EnumDefinition, Expression,
    ExternalFunctionDefinition, FunctionCallExpression, FunctionDefinition, GenericType, Identifier,
    IfStatement, IgnoreArgument, Literal, Location, LoopStatement, MemberAccessExpression, ModuleDefinition,
    NumberLiteral, OperatorKind, ParenthesizedExpression, PrefixUnaryExpression, ReturnStatement,
    SelfReference, SimpleTypeKind, SourceFile, SpecDefinition, Statement, StringLiteral, StructDefinition,
    StructExpression, StructField, Type, TypeArray, TypeDefinition, TypeDefinitionStatement,
    TypeMemberAccessExpression, UnaryOperatorKind, UnitLiteral, UseDirective, UzumakiExpression,
    VariableDefinitionStatement, Visibility,
};
use inference_type_checker::type_checker::TypeChecker;
use inference_type_checker::type_info::{NumberType, TypeInfo, TypeInfoKind};
use inference_type_checker::typed_context::TypedContext;

static NEXT_ID: AtomicU32 = AtomicU32::new(1);

fn id() -> u32 {
    NEXT_ID.fetch_add(1, AtomicOrdering::SeqCst)
}

fn loc() -> Location {
    Location { offset_start: 0, offset_end: 1, start_line: 1, start_column: 1, end_line: 1, end_column: 2 }
}

fn ident(name: &str) -> Identifier {
    Identifier { id: id(), name: name.to_string(), location: loc() }
}

fn simple(kind: SimpleTypeKind) -> Type {
    Type::Simple(id(), kind)
}

/// A type as the parser writes it: builtin names as simple types, any other name as a named type.
fn ty(name: &str) -> Type {
    match name {
        "()" => simple(SimpleTypeKind::Unit),
        "bool" => simple(SimpleTypeKind::Bool),
        "i8" => simple(SimpleTypeKind::I8),
        "i16" => simple(SimpleTypeKind::I16),
        "i32" => simple(SimpleTypeKind::I32),
        "i64" => simple(SimpleTypeKind::I64),
        "u8" => simple(SimpleTypeKind::U8),
        "u16" => simple(SimpleTypeKind::U16),
        "u32" => simple(SimpleTypeKind::U32),
        "u64" => simple(SimpleTypeKind::U64),
        other => Type::Custom(ident(other)),
    }
}

fn array_t(element: Type, size: &str) -> Type {
    Type::Array(Box::new(TypeArray { id: id(), element_type: element, size: num(size) }))
}

fn generic_t(base: &str, params: &[&str]) -> Type {
    Type::Generic(GenericType { id: id(), base: ident(base), parameters: params.iter().map(|p| ident(p)).collect() })
}

fn num(value: &str) -> Expression {
    Expression::Literal(Literal::Number(NumberLiteral { id: id(), location: loc(), value: value.to_string() }))
}

fn boolean(value: bool) -> Expression {
    Expression::Literal(Literal::Bool(BoolLiteral { id: id(), location: loc(), value }))
}

fn string_lit(value: &str) -> Expression {
    Expression::Literal(Literal::String(StringLiteral { id: id(), location: loc(), value: value.to_string() }))
}

fn unit_lit() -> Expression {
    Expression::Literal(Literal::Unit(UnitLiteral { id: id(), location: loc() }))
}

fn var(name: &str) -> Expression {
    Expression::Identifier(ident(name))
}

fn uzumaki() -> Expression {
    Expression::Uzumaki(UzumakiExpression { id: id(), location: loc() })
}

fn bin(op: OperatorKind, left: Expression, right: Expression) -> Expression {
    Expression::Binary(Box::new(BinaryExpression { id: id(), location: loc(), operator: op, left, right }))
}

fn unary(op: UnaryOperatorKind, e: Expression) -> Expression {
    Expression::PrefixUnary(Box::new(PrefixUnaryExpression { id: id(), location: loc(), operator: op, expression: e }))
}

fn neg(e: Expression) -> Expression {
    unary(UnaryOperatorKind::Neg, e)
}

fn not(e: Expression) -> Expression {
    unary(UnaryOperatorKind::Not, e)
}

fn bitnot(e: Expression) -> Expression {
    unary(UnaryOperatorKind::BitNot, e)
}

fn paren(e: Expression) -> Expression {
    Expression::Parenthesized(Box::new(ParenthesizedExpression { id: id(), location: loc(), expression: e }))
}

fn call_with(function: Expression, type_parameters: Option<Vec<Identifier>>, args: Vec<Expression>) -> Expression {
    Expression::FunctionCall(Box::new(FunctionCallExpression {
        id: id(),
        location: loc(),
        function,
        type_parameters,
        arguments: Some(args.into_iter().map(|a| (None, a)).collect()),
    }))
}

fn call(name: &str, args: Vec<Expression>) -> Expression {
    call_with(var(name), None, args)
}

fn generic_call(name: &str, type_args: &[&str], args: Vec<Expression>) -> Expression {
    call_with(var(name), Some(type_args.iter().map(|t| ident(t)).collect()), args)
}

fn member(e: Expression, name: &str) -> Expression {
    Expression::MemberAccess(Box::new(MemberAccessExpression { id: id(), location: loc(), expression: e, name: ident(name) }))
}

fn method_call(receiver: Expression, name: &str, args: Vec<Expression>) -> Expression {
    call_with(member(receiver, name), None, args)
}

fn type_member(owner: &str, name: &str) -> Expression {
    Expression::TypeMemberAccess(Box::new(TypeMemberAccessExpression {
        id: id(),
        location: loc(),
        expression: Expression::Type(ty(owner)),
        name: ident(name),
    }))
}

fn associated_call(owner: &str, name: &str, args: Vec<Expression>) -> Expression {
    call_with(type_member(owner, name), None, args)
}

fn index(array: Expression, i: Expression) -> Expression {
    Expression::ArrayIndexAccess(Box::new(ArrayIndexAccessExpression { id: id(), location: loc(), array, index: i }))
}

fn array_lit(elements: Vec<Expression>) -> Expression {
    Expression::Literal(Literal::Array(ArrayLiteral { id: id(), location: loc(), elements: Some(elements) }))
}

fn struct_value(name: &str) -> Expression {
    Expression::Struct(StructExpression { id: id(), location: loc(), name: ident(name) })
}

fn ret(e: Expression) -> Statement {
    Statement::Return(ReturnStatement { location: loc(), expression: e })
}

fn let_(name: &str, t: Type, value: Expression) -> Statement {
    Statement::VariableDefinition(VariableDefinitionStatement { id: id(), location: loc(), name: ident(name), ty: t, value: Some(value) })
}

fn decl(name: &str, t: Type) -> Statement {
    Statement::VariableDefinition(VariableDefinitionStatement { id: id(), location: loc(), name: ident(name), ty: t, value: None })
}

fn assign(left: Expression, right: Expression) -> Statement {
    Statement::Assign(AssignStatement { location: loc(), left, right })
}

fn expr_stmt(e: Expression) -> Statement {
    Statement::Expression(e)
}

fn if_(condition: Expression, if_arm: Vec<Statement>, else_arm: Option<Vec<Statement>>) -> Statement {
    Statement::If(IfStatement { location: loc(), condition, if_arm, else_arm })
}

fn loop_(body: Vec<Statement>) -> Statement {
    Statement::Loop(LoopStatement { location: loc(), condition: None, body })
}

fn while_(condition: Expression, body: Vec<Statement>) -> Statement {
    Statement::Loop(LoopStatement { location: loc(), condition: Some(condition), body })
}

fn brk() -> Statement {
    Statement::Break(loc())
}

fn assert_(e: Expression) -> Statement {
    Statement::Assert(AssertStatement { location: loc(), expression: e })
}

fn const_stmt(name: &str, t: Type, value: Literal) -> Statement {
    Statement::ConstantDefinition(ConstantDefinition { id: id(), location: loc(), name: ident(name), ty: t, value })
}

fn type_stmt(name: &str, t: Type) -> Statement {
    Statement::TypeDefinition(TypeDefinitionStatement { location: loc(), name: ident(name), ty: t })
}

fn number_literal(value: &str) -> Literal {
    Literal::Number(NumberLiteral { id: id(), location: loc(), value: value.to_string() })
}

fn arg(name: &str, t: Type) -> ArgumentType {
    ArgumentType::Argument(Argument { id: id(), location: loc(), name: ident(name), ty: t })
}

fn ignored(t: Type) -> ArgumentType {
    ArgumentType::IgnoreArgument(IgnoreArgument { id: id(), location: loc(), ty: t })
}

fn self_arg() -> ArgumentType {
    ArgumentType::SelfReference(SelfReference { id: id(), location: loc() })
}

fn function(name: &str, args: Vec<ArgumentType>, returns: Option<Type>, body: Vec<Statement>) -> FunctionDefinition {
    FunctionDefinition {
        location: loc(),
        name: ident(name),
        visibility: Visibility::Public,
        type_parameters: None,
        arguments: if args.is_empty() { None } else { Some(args) },
        returns,
        body,
    }
}

fn private(mut f: FunctionDefinition) -> FunctionDefinition {
    f.visibility = Visibility::Private;
    f
}

fn generic(mut f: FunctionDefinition, params: &[&str]) -> FunctionDefinition {
    f.type_parameters = Some(params.iter().map(|p| ident(p)).collect());
    f
}

fn fn_def(name: &str, args: Vec<ArgumentType>, returns: Option<Type>, body: Vec<Statement>) -> Definition {
    Definition::Function(function(name, args, returns, body))
}

fn struct_def(name: &str, fields: Vec<(&str, Type)>, methods: Vec<FunctionDefinition>) -> Definition {
    Definition::Struct(StructDefinition {
        location: loc(),
        name: ident(name),
        visibility: Visibility::Public,
        fields: fields.into_iter().map(|(n, t)| StructField { name: ident(n), type_: t }).collect(),
        methods,
    })
}

fn enum_def(name: &str, variants: &[&str]) -> Definition {
    Definition::Enum(EnumDefinition {
        location: loc(),
        name: ident(name),
        visibility: Visibility::Public,
        variants: variants.iter().map(|v| ident(v)).collect(),
    })
}

fn type_def(name: &str, t: Type) -> Definition {
    Definition::Type(TypeDefinition { location: loc(), name: ident(name), ty: t })
}

fn const_def(name: &str, t: Type, value: Literal) -> Definition {
    Definition::Constant(ConstantDefinition { id: id(), location: loc(), name: ident(name), ty: t, value })
}

fn spec_def(name: &str) -> Definition {
    Definition::Spec(SpecDefinition { location: loc(), name: ident(name) })
}

fn external_fn(name: &str, args: Vec<ArgumentType>, returns: Option<Type>) -> Definition {
    Definition::ExternalFunction(ExternalFunctionDefinition {
        location: loc(),
        name: ident(name),
        arguments: if args.is_empty() { None } else { Some(args) },
        returns,
    })
}

fn module_def(name: &str, visibility: Visibility, body: Vec<Definition>) -> Definition {
    Definition::Module(ModuleDefinition { location: loc(), name: ident(name), visibility, body: Some(body) })
}

fn use_directive(path: &[&str], items: &[&str]) -> Directive {
    Directive::Use(UseDirective {
        location: loc(),
        segments: Some(path.iter().map(|s| ident(s)).collect()),
        imported_types: if items.is_empty() { None } else { Some(items.iter().map(|s| ident(s)).collect()) },
    })
}

fn file(definitions: Vec<Definition>) -> SourceFile {
    SourceFile { directives: Vec::new(), definitions }
}

/// Runs the checker over one file; the context on success, the joined messages on failure.
fn try_type_check(definitions: Vec<Definition>) -> Result<TypedContext, String> {
    try_type_check_file(file(definitions))
}

fn try_type_check_file(f: SourceFile) -> Result<TypedContext, String> {
    let mut ctx = TypedContext::new(vec![f]);
    let mut checker = TypeChecker::new();
    match checker.infer_types(&mut ctx) {
        Ok(_) => Ok(ctx),
        Err(e) => Err(e.to_string()),
    }
}

fn kind_of(ctx: &TypedContext, node: u32) -> Option<TypeInfoKind> {
    ctx.get_node_typeinfo(node).map(|t| t.kind)
}

fn same_kind(a: &TypeInfoKind, b: &TypeInfoKind) -> bool {
    format!("{:?}", a) == format!("{:?}", b)
}

/// The top-level functions of the checked files.
fn functions(ctx: &TypedContext) -> Vec<&FunctionDefinition> {
    let mut r = Vec::new();
    for f in &ctx.source_files {
        for d in &f.definitions {
            if let Definition::Function(fd) = d {
                r.push(fd);
            }
        }
    }
    r
}

fn walk_expression<'a>(e: &'a Expression, out: &mut Vec<&'a Expression>) {
    out.push(e);
    match e {
        Expression::ArrayIndexAccess(a) => {
            walk_expression(&a.array, out);
            walk_expression(&a.index, out);
        }
        Expression::MemberAccess(m) => walk_expression(&m.expression, out),
        Expression::TypeMemberAccess(t) => walk_expression(&t.expression, out),
        Expression::FunctionCall(f) => {
            walk_expression(&f.function, out);
            if let Some(args) = &f.arguments {
                for (_, a) in args {
                    walk_expression(a, out);
                }
            }
        }
        Expression::PrefixUnary(p) => walk_expression(&p.expression, out),
        Expression::Parenthesized(p) => walk_expression(&p.expression, out),
        Expression::Binary(b) => {
            walk_expression(&b.left, out);
            walk_expression(&b.right, out);
        }
        Expression::Literal(Literal::Array(a)) => {
            if let Some(els) = &a.elements {
                for x in els {
                    walk_expression(x, out);
                }
            }
        }
        _ => {}
    }
}

fn walk_statement<'a>(s: &'a Statement, stmts: &mut Vec<&'a Statement>, exprs: &mut Vec<&'a Expression>) {
    stmts.push(s);
    match s {
        Statement::Assign(a) => {
            walk_expression(&a.left, exprs);
            walk_expression(&a.right, exprs);
        }
        Statement::Block(b) => walk_statements(b, stmts, exprs),
        Statement::Expression(e) => walk_expression(e, exprs),
        Statement::Return(r) => walk_expression(&r.expression, exprs),
        Statement::Loop(l) => {
            if let Some(c) = &l.condition {
                walk_expression(c, exprs);
            }
            walk_statements(&l.body, stmts, exprs);
        }
        Statement::If(i) => {
            walk_expression(&i.condition, exprs);
            walk_statements(&i.if_arm, stmts, exprs);
            if let Some(e) = &i.else_arm {
                walk_statements(e, stmts, exprs);
            }
        }
        Statement::VariableDefinition(v) => {
            if let Some(e) = &v.value {
                walk_expression(e, exprs);
            }
        }
        Statement::Assert(a) => walk_expression(&a.expression, exprs),
        _ => {}
    }
}

fn walk_statements<'a>(ss: &'a [Statement], stmts: &mut Vec<&'a Statement>, exprs: &mut Vec<&'a Expression>) {
    for s in ss {
        walk_statement(s, stmts, exprs);
    }
}

fn walk_definitions<'a>(ds: &'a [Definition], stmts: &mut Vec<&'a Statement>, exprs: &mut Vec<&'a Expression>) {
    for d in ds {
        match d {
            Definition::Function(f) => walk_statements(&f.body, stmts, exprs),
            Definition::Struct(s) => {
                for m in &s.methods {
                    walk_statements(&m.body, stmts, exprs);
                }
            }
            Definition::Module(m) => {
                if let Some(b) = &m.body {
                    walk_definitions(b, stmts, exprs);
                }
            }
            _ => {}
        }
    }
}

/// Every expression of the checked files, outermost first.
fn expressions(ctx: &TypedContext) -> Vec<&Expression> {
    let mut stmts = Vec::new();
    let mut exprs = Vec::new();
    for f in &ctx.source_files {
        walk_definitions(&f.definitions, &mut stmts, &mut exprs);
    }
    exprs
}

/// Every statement of the checked files, outermost first.
fn statements(ctx: &TypedContext) -> Vec<&Statement> {
    let mut stmts = Vec::new();
    let mut exprs = Vec::new();
    for f in &ctx.source_files {
        walk_definitions(&f.definitions, &mut stmts, &mut exprs);
    }
    stmts
}

fn binaries(ctx: &TypedContext) -> Vec<&BinaryExpression> {
    expressions(ctx).into_iter().filter_map(|e| if let Expression::Binary(b) = e { Some(&**b) } else { None }).collect()
}

fn calls(ctx: &TypedContext) -> Vec<&FunctionCallExpression> {
    expressions(ctx).into_iter().filter_map(|e| if let Expression::FunctionCall(c) = e { Some(&**c) } else { None }).collect()
}

fn member_accesses(ctx: &TypedContext) -> Vec<&MemberAccessExpression> {
    expressions(ctx).into_iter().filter_map(|e| if let Expression::MemberAccess(m) = e { Some(&**m) } else { None }).collect()
}

fn identifiers(ctx: &TypedContext) -> Vec<&Identifier> {
    expressions(ctx).into_iter().filter_map(|e| if let Expression::Identifier(i) = e { Some(i) } else { None }).collect()
}

fn number_literals(ctx: &TypedContext) -> Vec<&NumberLiteral> {
    expressions(ctx)
        .into_iter()
        .filter_map(|e| if let Expression::Literal(Literal::Number(n)) = e { Some(n) } else { None })
        .collect()
}

fn variable_definitions(ctx: &TypedContext) -> Vec<&VariableDefinitionStatement> {
    statements(ctx)
        .into_iter()
        .filter_map(|s| if let Statement::VariableDefinition(v) = s { Some(v) } else { None })
        .collect()
}

const ALL_NUMBER_TYPES: [(NumberType, &str); 8] = [
    (NumberType::I8, "i8"),
    (NumberType::I16, "i16"),
    (NumberType::I32, "i32"),
    (NumberType::I64, "i64"),
    (NumberType::U8, "u8"),
    (NumberType::U16, "u16"),
    (NumberType::U32, "u32"),
    (NumberType::U64, "u64"),
];

// ---- primitives ----

#[test]
fn test_numeric_literal_type_inference() {
    // fn test() -> i32 { return 42; }
    let ctx = try_type_check(vec![fn_def("test", vec![], Some(ty("i32")), vec![ret(num("42"))])])
        .expect("Type checking should succeed");
    let literals = number_literals(&ctx);
    assert_eq!(literals.len(), 1, "Expected 1 number literal");
    assert_eq!(ctx.source_files.len(), 1);
    let literal_type = ctx.get_node_typeinfo(literals[0].id);
    assert!(literal_type.is_some(), "Number literal should have type info");
    assert!(matches!(literal_type.unwrap().kind, TypeInfoKind::Number(NumberType::I32)), "Number literal should have type i32");
}

#[test]
fn test_bool_literal_type_inference() {
    // fn test() -> bool { return true; }
    let ctx = try_type_check(vec![fn_def("test", vec![], Some(ty("bool")), vec![ret(boolean(true))])])
        .expect("Type checking should succeed");
    let bools: Vec<&BoolLiteral> = expressions(&ctx)
        .into_iter()
        .filter_map(|e| if let Expression::Literal(Literal::Bool(b)) = e { Some(b) } else { None })
        .collect();
    assert_eq!(bools.len(), 1, "Expected 1 bool literal");
    let type_info = ctx.get_node_typeinfo(bools[0].id);
    assert!(type_info.is_some(), "Bool literal should have type info");
    assert!(matches!(type_info.unwrap().kind, TypeInfoKind::Bool), "Bool literal should have Bool type");
}

#[test]
fn test_string_type_inference() {
    // fn test(x: String) -> String { return x; }
    let ctx = try_type_check(vec![fn_def("test", vec![arg("x", ty("String"))], Some(ty("String")), vec![ret(var("x"))])])
        .expect("Type checking should succeed");
    assert_eq!(ctx.source_files.len(), 1);
    let fs = functions(&ctx);
    assert_eq!(fs.len(), 1, "Expected 1 function definition");
    let func = fs[0];
    assert!(func.returns.is_some(), "Function should have return type");
    let return_type = ctx.get_node_typeinfo(func.returns.as_ref().unwrap().node_id());
    assert!(return_type.is_some(), "Function return type should have type info");
    assert!(matches!(return_type.unwrap().kind, TypeInfoKind::String), "Function return type should be String");
    let arguments = func.arguments.as_ref().expect("Function should have arguments");
    assert!(!arguments.is_empty(), "Function should have arguments");
    let ArgumentType::Argument(a) = &arguments[0] else { panic!("Expected Argument") };
    let param_type = ctx.get_node_typeinfo(a.id);
    assert!(param_type.is_some(), "Function parameter should have type info");
    assert!(matches!(param_type.unwrap().kind, TypeInfoKind::String), "Function parameter should have String type");
}

#[test]
fn test_variable_type_inference() {
    // fn test() {let x: i32 = 10;let y: bool = true;}
    let ctx = try_type_check(vec![fn_def(
        "test",
        vec![],
        None,
        vec![let_("x", ty("i32"), num("10")), let_("y", ty("bool"), boolean(true))],
    )])
    .expect("Type checking should succeed");
    assert_eq!(ctx.source_files.len(), 1);
    let defs = variable_definitions(&ctx);
    assert_eq!(defs.len(), 2, "Expected 2 variable definitions");
    for d in defs {
        let type_info = ctx.get_node_typeinfo(d.id);
        assert!(type_info.is_some(), "Variable '{}' should have type info", d.name.name);
        match d.name.name.as_str() {
            "x" => assert!(matches!(type_info.unwrap().kind, TypeInfoKind::Number(NumberType::I32)), "Variable x should have i32 type"),
            "y" => assert!(matches!(type_info.unwrap().kind, TypeInfoKind::Bool), "Variable y should have bool type"),
            other => panic!("Unexpected variable name: {}", other),
        }
    }
}

#[test]
fn test_all_numeric_types_type_check() {
    for (expected_type, tname) in ALL_NUMBER_TYPES {
        // fn test(x: T) -> T { return x; }
        let ctx = try_type_check(vec![fn_def("test", vec![arg("x", ty(tname))], Some(ty(tname)), vec![ret(var("x"))])])
            .expect("Type checking should succeed for numeric types");
        assert_eq!(ctx.source_files.len(), 1, "Type checking should succeed for {} type", tname);
        let fs = functions(&ctx);
        assert_eq!(fs.len(), 1, "Expected 1 function for {}", tname);
        let func = fs[0];
        assert!(func.returns.is_some(), "Function should have return type for {}", tname);
        let return_type = ctx.get_node_typeinfo(func.returns.as_ref().unwrap().node_id());
        assert!(return_type.is_some(), "Return type should have type info for {}", tname);
        assert!(matches!(return_type.unwrap().kind, TypeInfoKind::Number(n) if n == expected_type), "Return type should be {}", tname);
        let arguments = func.arguments.as_ref().expect("Function should have arguments");
        assert_eq!(arguments.len(), 1, "Expected 1 argument for {}", tname);
        let ArgumentType::Argument(a) = &arguments[0] else { panic!("Expected Argument for {}", tname) };
        let arg_type = ctx.get_node_typeinfo(a.id);
        assert!(arg_type.is_some(), "Argument should have type info for {}", tname);
        assert!(matches!(arg_type.unwrap().kind, TypeInfoKind::Number(n) if n == expected_type), "Argument should have {} type", tname);
    }
}

// ---- function parameters ----

#[test]
fn test_single_parameter_type_info() {
    // fn test(x: i32) -> i32 { return x; }
    let ctx = try_type_check(vec![fn_def("test", vec![arg("x", ty("i32"))], Some(ty("i32")), vec![ret(var("x"))])])
        .expect("Type checking should succeed");
    let fs = functions(&ctx);
    assert_eq!(fs.len(), 1, "Expected 1 function");
    let arguments = fs[0].arguments.as_ref().expect("Expected arguments");
    assert_eq!(arguments.len(), 1, "Expected 1 argument");
    let ArgumentType::Argument(a) = &arguments[0] else { panic!("Expected Argument") };
    let arg_type = ctx.get_node_typeinfo(a.id);
    assert!(arg_type.is_some(), "Argument node should have type info");
    assert!(matches!(arg_type.unwrap().kind, TypeInfoKind::Number(NumberType::I32)), "Argument should have i32 type");
    let name_type = ctx.get_node_typeinfo(a.name.id);
    assert!(name_type.is_some(), "Argument name should have type info");
    assert!(matches!(name_type.unwrap().kind, TypeInfoKind::Number(NumberType::I32)), "Argument name should have i32 type");
}

#[test]
fn test_multiple_parameters_type_info() {
    // fn test(a: i32, b: bool, c: String) -> i32 { return a; }
    let ctx = try_type_check(vec![fn_def(
        "test",
        vec![arg("a", ty("i32")), arg("b", ty("bool")), arg("c", ty("String"))],
        Some(ty("i32")),
        vec![ret(var("a"))],
    )])
    .expect("Type checking should succeed");
    let fs = functions(&ctx);
    assert_eq!(fs.len(), 1, "Expected 1 function");
    let arguments = fs[0].arguments.as_ref().expect("Expected arguments");
    assert_eq!(arguments.len(), 3, "Expected 3 arguments");
    let expected_types = [TypeInfoKind::Number(NumberType::I32), TypeInfoKind::Bool, TypeInfoKind::String];
    for (i, a) in arguments.iter().enumerate() {
        let ArgumentType::Argument(a) = a else { panic!("Expected Argument at position {}", i) };
        let t = ctx.get_node_typeinfo(a.id);
        assert!(t.is_some(), "Argument {} should have type info", i);
        assert!(same_kind(&t.unwrap().kind, &expected_types[i]), "Argument {} should have correct type", i);
        let n = ctx.get_node_typeinfo(a.name.id);
        assert!(n.is_some(), "Argument name {} should have type info", i);
        assert!(same_kind(&n.unwrap().kind, &expected_types[i]), "Argument name {} should have correct type", i);
    }
}

#[test]
fn test_ignore_argument_type_info() {
    // fn test(_: i32) -> i32 { return 42; }
    let ctx = try_type_check(vec![fn_def("test", vec![ignored(ty("i32"))], Some(ty("i32")), vec![ret(num("42"))])])
        .expect("Type checking should succeed");
    let fs = functions(&ctx);
    assert_eq!(fs.len(), 1, "Expected 1 function");
    let arguments = fs[0].arguments.as_ref().expect("Expected arguments");
    assert_eq!(arguments.len(), 1, "Expected 1 argument");
    let ArgumentType::IgnoreArgument(ig) = &arguments[0] else { panic!("Expected IgnoreArgument") };
    let t = ctx.get_node_typeinfo(ig.id);
    assert!(t.is_some(), "IgnoreArgument node should have type info");
    assert!(matches!(t.unwrap().kind, TypeInfoKind::Number(NumberType::I32)), "IgnoreArgument should have i32 type");
}

#[test]
fn test_ignore_argument_with_different_types() {
    for (expected_type, name) in ALL_NUMBER_TYPES {
        // fn test(_: T) -> i32 { return 1; }
        let ctx = try_type_check(vec![fn_def("test", vec![ignored(ty(name))], Some(ty("i32")), vec![ret(num("1"))])])
            .expect("Type checking should succeed");
        let fs = functions(&ctx);
        assert_eq!(fs.len(), 1, "Expected 1 function");
        let arguments = fs[0].arguments.as_ref().expect("Expected arguments");
        assert_eq!(arguments.len(), 1, "Expected 1 argument");
        let ArgumentType::IgnoreArgument(ig) = &arguments[0] else { panic!("Expected IgnoreArgument for {:?}", expected_type) };
        let t = ctx.get_node_typeinfo(ig.id);
        assert!(t.is_some(), "IgnoreArgument should have type info for {:?}", expected_type);
        assert!(matches!(t.unwrap().kind, TypeInfoKind::Number(n) if n == expected_type), "IgnoreArgument should have {:?} type", expected_type);
    }
}

#[test]
fn test_mixed_ignore_and_named_arguments() {
    // fn test(a: i32, _: bool, b: String) -> i32 { return a; }
    let ctx = try_type_check(vec![fn_def(
        "test",
        vec![arg("a", ty("i32")), ignored(ty("bool")), arg("b", ty("String"))],
        Some(ty("i32")),
        vec![ret(var("a"))],
    )])
    .expect("Type checking should succeed");
    let fs = functions(&ctx);
    assert_eq!(fs.len(), 1, "Expected 1 function");
    let arguments = fs[0].arguments.as_ref().expect("Expected arguments");
    assert_eq!(arguments.len(), 3, "Expected 3 arguments");
    let ArgumentType::Argument(a0) = &arguments[0] else { panic!("Expected Argument at position 0") };
    assert!(matches!(kind_of(&ctx, a0.id), Some(TypeInfoKind::Number(NumberType::I32))), "First argument should be i32");
    let ArgumentType::IgnoreArgument(a1) = &arguments[1] else { panic!("Expected IgnoreArgument at position 1") };
    assert!(matches!(kind_of(&ctx, a1.id), Some(TypeInfoKind::Bool)), "Second argument should be bool");
    let ArgumentType::Argument(a2) = &arguments[2] else { panic!("Expected Argument at position 2") };
    assert!(matches!(kind_of(&ctx, a2.id), Some(TypeInfoKind::String)), "Third argument should be String");
}

#[test]
fn test_ignore_argument_with_string_type() {
    // fn test(_: String) -> i32 { return 1; }
    let ctx = try_type_check(vec![fn_def("test", vec![ignored(ty("String"))], Some(ty("i32")), vec![ret(num("1"))])])
        .expect("Type checking should succeed");
    let fs = functions(&ctx);
    assert_eq!(fs.len(), 1, "Expected 1 function");
    let arguments = fs[0].arguments.as_ref().expect("Expected arguments");
    assert_eq!(arguments.len(), 1, "Expected 1 argument");
    let ArgumentType::IgnoreArgument(ig) = &arguments[0] else { panic!("Expected IgnoreArgument") };
    let t = ctx.get_node_typeinfo(ig.id);
    assert!(t.is_some(), "IgnoreArgument with String should have type info");
    assert!(matches!(t.unwrap().kind, TypeInfoKind::String), "IgnoreArgument should have String type");
}

#[test]
fn test_ignore_argument_with_bool_type() {
    // fn test(_: bool) -> i32 { return 1; }
    let ctx = try_type_check(vec![fn_def("test", vec![ignored(ty("bool"))], Some(ty("i32")), vec![ret(num("1"))])])
        .expect("Type checking should succeed");
    let fs = functions(&ctx);
    assert_eq!(fs.len(), 1, "Expected 1 function");
    let arguments = fs[0].arguments.as_ref().expect("Expected arguments");
    assert_eq!(arguments.len(), 1, "Expected 1 argument");
    let ArgumentType::IgnoreArgument(ig) = &arguments[0] else { panic!("Expected IgnoreArgument") };
    let t = ctx.get_node_typeinfo(ig.id);
    assert!(t.is_some(), "IgnoreArgument with bool should have type info");
    assert!(matches!(t.unwrap().kind, TypeInfoKind::Bool), "IgnoreArgument should have bool type");
}

#[test]
fn test_array_parameter_type_info() {
    // fn test(arr: [i32; 5]) -> i32 { return arr[0]; }
    let ctx = try_type_check(vec![fn_def(
        "test",
        vec![arg("arr", array_t(ty("i32"), "5"))],
        Some(ty("i32")),
        vec![ret(index(var("arr"), num("0")))],
    )])
    .expect("Type checking should succeed");
    let fs = functions(&ctx);
    assert_eq!(fs.len(), 1, "Expected 1 function");
    let arguments = fs[0].arguments.as_ref().expect("Expected arguments");
    assert_eq!(arguments.len(), 1, "Expected 1 argument");
    let ArgumentType::Argument(a) = &arguments[0] else { panic!("Expected Argument") };
    let t = ctx.get_node_typeinfo(a.id).expect("Array parameter should have type info");
    let TypeInfoKind::Array(element_type, size) = &t.kind else { panic!("Expected Array type") };
    assert!(matches!(element_type.kind, TypeInfoKind::Number(NumberType::I32)), "Array element should be i32");
    assert_eq!(*size, 5, "Array size should be 5");
}

// ---- expressions ----

#[test]
fn test_binary_add_expression_type() {
    // fn test() -> i32 { return 10 + 20; }
    let ctx = try_type_check(vec![fn_def("test", vec![], Some(ty("i32")), vec![ret(bin(OperatorKind::Add, num("10"), num("20")))])])
        .expect("Type checking should succeed");
    let bs = binaries(&ctx);
    assert_eq!(bs.len(), 1, "Expected 1 binary expression");
    let t = ctx.get_node_typeinfo(bs[0].id);
    assert!(t.is_some(), "Binary add expression should have type info");
    assert!(matches!(t.unwrap().kind, TypeInfoKind::Number(NumberType::I32)), "Binary add of i32 literals should return i32");
}

#[test]
fn test_comparison_expression_returns_bool() {
    // fn test(x: i32, y: i32) -> bool { return x > y; }
    let ctx = try_type_check(vec![fn_def(
        "test",
        vec![arg("x", ty("i32")), arg("y", ty("i32"))],
        Some(ty("bool")),
        vec![ret(bin(OperatorKind::Gt, var("x"), var("y")))],
    )])
    .expect("Type checking should succeed");
    let bs = binaries(&ctx);
    assert_eq!(bs.len(), 1, "Expected 1 binary expression");
    let t = ctx.get_node_typeinfo(bs[0].id);
    assert!(t.is_some(), "Comparison should have type info");
    assert!(t.unwrap().is_bool(), "Comparison expression should return bool");
}

#[test]
fn test_logical_and_expression_type() {
    // fn test(a: bool, b: bool) -> bool { return a && b; }
    let ctx = try_type_check(vec![fn_def(
        "test",
        vec![arg("a", ty("bool")), arg("b", ty("bool"))],
        Some(ty("bool")),
        vec![ret(bin(OperatorKind::And, var("a"), var("b")))],
    )])
    .expect("Type checking should succeed");
    let bs = binaries(&ctx);
    assert_eq!(bs.len(), 1, "Expected 1 binary expression");
    let t = ctx.get_node_typeinfo(bs[0].id);
    assert!(t.is_some(), "Logical AND expression should have type info");
    assert!(matches!(t.unwrap().kind, TypeInfoKind::Bool), "Logical AND should return Bool");
}

#[test]
fn test_nested_binary_expression_type() {
    // fn test() -> i32 { return (10 + 20) * 30; }
    let ctx = try_type_check(vec![fn_def(
        "test",
        vec![],
        Some(ty("i32")),
        vec![ret(bin(OperatorKind::Mul, paren(bin(OperatorKind::Add, num("10"), num("20"))), num("30")))],
    )])
    .expect("Type checking should succeed");
    let bs = binaries(&ctx);
    assert_eq!(bs.len(), 2, "Expected 2 binary expressions");
    for b in bs {
        let t = ctx.get_node_typeinfo(b.id);
        assert!(t.is_some(), "Nested binary expression should have type info");
        assert!(matches!(t.unwrap().kind, TypeInfoKind::Number(NumberType::I32)), "Nested arithmetic expression should return i32");
    }
}

#[test]
fn test_binary_expressions_with_div() {
    // fn test() -> i32 { return (10 + 20) * (30 - 5) / 2; }
    // The tree of this program is accepted; division checks like the other arithmetic operators.
    let body = bin(
        OperatorKind::Div,
        bin(
            OperatorKind::Mul,
            paren(bin(OperatorKind::Add, num("10"), num("20"))),
            paren(bin(OperatorKind::Sub, num("30"), num("5"))),
        ),
        num("2"),
    );
    let ctx = try_type_check(vec![fn_def("test", vec![], Some(ty("i32")), vec![ret(body)])]).expect("Type checking should succeed");
    assert_eq!(ctx.source_files.len(), 1);
}

// ---- function calls ----

#[test]
fn test_function_call_return_type() {
    // fn helper() -> i32 { return 42; }  fn test() -> i32 { return helper(); }
    let ctx = try_type_check(vec![
        fn_def("helper", vec![], Some(ty("i32")), vec![ret(num("42"))]),
        fn_def("test", vec![], Some(ty("i32")), vec![ret(call("helper", vec![]))]),
    ])
    .expect("Type checking should succeed");
    let cs = calls(&ctx);
    assert_eq!(cs.len(), 1, "Expected 1 function call");
    assert!(cs[0].name() == "helper", "Function call should be to 'helper'");
    let t = ctx.get_node_typeinfo(cs[0].id);
    assert!(t.is_some(), "Function call should have return type info");
    assert!(matches!(t.unwrap().kind, TypeInfoKind::Number(NumberType::I32)), "helper() should return i32");
}

#[test]
fn test_function_call_with_args() {
    // fn add(a: i32, b: i32) -> i32 { return a + b; }  fn test() -> i32 { return add(10, 20); }
    let ctx = try_type_check(vec![
        fn_def("add", vec![arg("a", ty("i32")), arg("b", ty("i32"))], Some(ty("i32")), vec![ret(bin(OperatorKind::Add, var("a"), var("b")))]),
        fn_def("test", vec![], Some(ty("i32")), vec![ret(call("add", vec![num("10"), num("20")]))]),
    ])
    .expect("Type checking should succeed");
    let cs = calls(&ctx);
    assert_eq!(cs.len(), 1, "Expected 1 function call");
    assert!(cs[0].name() == "add", "Function call should be to 'add'");
    let t = ctx.get_node_typeinfo(cs[0].id);
    assert!(t.is_some(), "Function call with args should have return type info");
    assert!(matches!(t.unwrap().kind, TypeInfoKind::Number(NumberType::I32)), "add() should return i32");
}

#[test]
fn test_chained_function_calls() {
    // fn double(x: i32) -> i32 { return x + x; }  fn test() -> i32 { return double(double(5)); }
    let ctx = try_type_check(vec![
        fn_def("double", vec![arg("x", ty("i32"))], Some(ty("i32")), vec![ret(bin(OperatorKind::Add, var("x"), var("x")))]),
        fn_def("test", vec![], Some(ty("i32")), vec![ret(call("double", vec![call("double", vec![num("5")])]))]),
    ])
    .expect("Type checking should succeed");
    let cs = calls(&ctx);
    assert_eq!(cs.len(), 2, "Expected 2 function calls");
    for c in cs {
        let t = ctx.get_node_typeinfo(c.id);
        assert!(t.is_some(), "Chained function call should have return type info");
        assert!(matches!(t.unwrap().kind, TypeInfoKind::Number(NumberType::I32)), "double() should return i32");
    }
}

// ---- statements ----

#[test]
fn test_if_statement_with_comparison_condition() {
    // fn test(x: i32) -> i32 { if x > 0 { return 1; } else { return 0; } }
    let ctx = try_type_check(vec![fn_def(
        "test",
        vec![arg("x", ty("i32"))],
        Some(ty("i32")),
        vec![if_(bin(OperatorKind::Gt, var("x"), num("0")), vec![ret(num("1"))], Some(vec![ret(num("0"))]))],
    )])
    .expect("Type checking should succeed");
    assert_eq!(ctx.source_files.len(), 1);
    let ifs: Vec<&IfStatement> = statements(&ctx).into_iter().filter_map(|s| if let Statement::If(i) = s { Some(i) } else { None }).collect();
    assert_eq!(ifs.len(), 1, "Expected 1 if statement");
    let Expression::Binary(b) = &ifs[0].condition else { panic!("Expected Binary expression as condition") };
    let t = ctx.get_node_typeinfo(b.id);
    assert!(t.is_some(), "If condition (comparison) should have type info");
    assert!(matches!(t.unwrap().kind, TypeInfoKind::Bool), "Comparison expression should have bool type");
}

#[test]
fn test_if_statement_with_bool_condition() {
    // fn test(flag: bool) -> i32 { if flag { return 1; } else { return 0; } }
    let ctx = try_type_check(vec![fn_def(
        "test",
        vec![arg("flag", ty("bool"))],
        Some(ty("i32")),
        vec![if_(var("flag"), vec![ret(num("1"))], Some(vec![ret(num("0"))]))],
    )])
    .expect("Type checking should succeed");
    assert_eq!(ctx.source_files.len(), 1);
    let ifs: Vec<&IfStatement> = statements(&ctx).into_iter().filter_map(|s| if let Statement::If(i) = s { Some(i) } else { None }).collect();
    assert_eq!(ifs.len(), 1, "Expected 1 if statement");
    let Expression::Identifier(idn) = &ifs[0].condition else { panic!("Expected Identifier expression as condition") };
    assert_eq!(idn.name, "flag", "Condition should be the 'flag' identifier");
    let t = ctx.get_node_typeinfo(idn.id);
    assert!(t.is_some(), "If condition (identifier) should have type info");
    assert!(matches!(t.unwrap().kind, TypeInfoKind::Bool), "Identifier 'flag' should have bool type");
    let fs = functions(&ctx);
    assert_eq!(fs.len(), 1, "Expected 1 function");
    let arguments = fs[0].arguments.as_ref().unwrap();
    assert_eq!(arguments.len(), 1, "Expected 1 argument");
    if let ArgumentType::Argument(a) = &arguments[0] {
        let t = ctx.get_node_typeinfo(a.id);
        assert!(t.is_some(), "Parameter 'flag' should have type info");
        assert!(matches!(t.unwrap().kind, TypeInfoKind::Bool), "Parameter 'flag' should have bool type");
    }
}

#[test]
fn test_loop_with_break() {
    // fn test() { loop { break; } }
    let ctx = try_type_check(vec![fn_def("test", vec![], None, vec![loop_(vec![brk()])])]).expect("Type checking should succeed");
    assert_eq!(ctx.source_files.len(), 1);
    let loops = statements(&ctx).into_iter().filter(|s| matches!(s, Statement::Loop(_))).count();
    assert_eq!(loops, 1, "Expected 1 loop statement");
    let breaks = statements(&ctx).into_iter().filter(|s| matches!(s, Statement::Break(_))).count();
    assert_eq!(breaks, 1, "Expected 1 break statement");
    let fs = functions(&ctx);
    assert_eq!(fs.len(), 1, "Expected 1 function");
    assert!(fs[0].returns.is_none(), "Function with loop should have no explicit return type");
}

#[test]
fn test_assignment_type_check() {
    // fn test() { let x: i32 = 10; x = 20; }
    let ctx = try_type_check(vec![fn_def("test", vec![], None, vec![let_("x", ty("i32"), num("10")), assign(var("x"), num("20"))])])
        .expect("Type checking should succeed");
    assert_eq!(ctx.source_files.len(), 1);
    let assigns: Vec<&AssignStatement> =
        statements(&ctx).into_iter().filter_map(|s| if let Statement::Assign(a) = s { Some(a) } else { None }).collect();
    assert_eq!(assigns.len(), 1, "Expected 1 assignment statement");
    let Expression::Literal(Literal::Number(n)) = &assigns[0].right else { panic!("Expected number literal as RHS") };
    let rhs = ctx.get_node_typeinfo(n.id);
    assert!(rhs.is_some(), "RHS of assignment should have type info");
    assert!(matches!(rhs.unwrap().kind, TypeInfoKind::Number(NumberType::I32)), "RHS should be i32 to match variable type");
    let Expression::Identifier(l) = &assigns[0].left else { panic!("Expected identifier as LHS") };
    let lhs = ctx.get_node_typeinfo(l.id);
    assert!(lhs.is_some(), "LHS of assignment should have type info");
    assert!(matches!(lhs.unwrap().kind, TypeInfoKind::Number(NumberType::I32)), "LHS should be i32 to match variable type");
    let defs = variable_definitions(&ctx);
    assert_eq!(defs.len(), 1, "Expected 1 variable definition");
    let t = ctx.get_node_typeinfo(defs[0].id);
    assert!(t.is_some(), "Variable 'x' should have type info");
    assert!(matches!(t.unwrap().kind, TypeInfoKind::Number(NumberType::I32)), "Variable 'x' should have i32 type");
}

// ---- arrays ----

#[test]
fn test_array_type() {
    // fn get_first(arr: [i32; 1]) -> i32 { return arr[0]; }
    let ctx = try_type_check(vec![fn_def(
        "get_first",
        vec![arg("arr", array_t(ty("i32"), "1"))],
        Some(ty("i32")),
        vec![ret(index(var("arr"), num("0")))],
    )])
    .expect("Type checking should succeed");
    assert_eq!(ctx.source_files.len(), 1);
}

#[test]
fn test_nested_arrays() {
    // fn test(matrix: [[bool; 2]; 1]) { assert(true); }
    let ctx = try_type_check(vec![fn_def(
        "test",
        vec![arg("matrix", array_t(array_t(ty("bool"), "2"), "1"))],
        None,
        vec![assert_(boolean(true))],
    )])
    .expect("Type checking should succeed");
    assert_eq!(ctx.source_files.len(), 1);
    let fs = functions(&ctx);
    assert_eq!(fs.len(), 1, "Expected 1 function");
    let arguments = fs[0].arguments.as_ref().expect("Function should have arguments");
    assert_eq!(arguments.len(), 1, "Expected 1 argument");
    let ArgumentType::Argument(a) = &arguments[0] else { panic!("Expected Argument") };
    let t = ctx.get_node_typeinfo(a.id).expect("Nested array parameter should have type info");
    let TypeInfoKind::Array(outer_elem, outer_size) = &t.kind else { panic!("Expected outer array type") };
    assert_eq!(*outer_size, 1, "Outer array size should be 1");
    let TypeInfoKind::Array(inner_elem, inner_size) = &outer_elem.kind else { panic!("Expected inner array type") };
    assert_eq!(*inner_size, 2, "Inner array size should be 2");
    assert!(matches!(inner_elem.kind, TypeInfoKind::Bool), "Inner array element should be bool");
}

// ---- uzumaki ----

#[test]
fn test_uzumaki_numeric_type_inference() {
    // fn foo() { let a: i8 = @; let b: i16 = @; let c: i32 = @; let d: i64 = @;
    //            let e: u8; e = @; let f: u16 = @; let g: u32 = @; let h: u64 = @; }
    let zs: Vec<Expression> = (0..8).map(|_| uzumaki()).collect();
    let ids: Vec<u32> = zs.iter().map(|z| z.node_id()).collect();
    let mut zs = zs.into_iter();
    let body = vec![
        let_("a", ty("i8"), zs.next().unwrap()),
        let_("b", ty("i16"), zs.next().unwrap()),
        let_("c", ty("i32"), zs.next().unwrap()),
        let_("d", ty("i64"), zs.next().unwrap()),
        decl("e", ty("u8")),
        assign(var("e"), zs.next().unwrap()),
        let_("f", ty("u16"), zs.next().unwrap()),
        let_("g", ty("u32"), zs.next().unwrap()),
        let_("h", ty("u64"), zs.next().unwrap()),
    ];
    let ctx = try_type_check(vec![fn_def("foo", vec![], None, body)]).unwrap();
    let uz = expressions(&ctx).into_iter().filter(|e| matches!(e, Expression::Uzumaki(_))).count();
    assert!(uz == 8, "Expected 8 UzumakiExpression nodes, found {}", uz);
    for (i, node) in ids.iter().enumerate() {
        let kind = ctx.get_node_typeinfo(*node).unwrap().kind;
        assert!(same_kind(&kind, &TypeInfoKind::Number(ALL_NUMBER_TYPES[i].0)), "Expected type {:?} for UzumakiExpression, found {:?}", ALL_NUMBER_TYPES[i].0, kind);
    }
    for (i, c) in "abcdefgh".chars().enumerate() {
        for identifier in identifiers(&ctx).into_iter().filter(|id| id.name == c.to_string()) {
            let type_info = ctx.get_node_typeinfo(identifier.id);
            assert!(type_info.is_some(), "Identifier '{}' should have type info", c);
            let expected_type = TypeInfoKind::Number(ALL_NUMBER_TYPES[i].0);
            assert!(same_kind(&type_info.unwrap().kind, &expected_type), "Identifier '{}' should have type {:?}", c, expected_type);
        }
    }
}

#[test]
fn test_uzumaki_in_return_statement() {
    // fn test() -> i32 { return @; }
    let z = uzumaki();
    let zid = z.node_id();
    let ctx = try_type_check(vec![fn_def("test", vec![], Some(ty("i32")), vec![ret(z)])]).unwrap();
    let uz = expressions(&ctx).into_iter().filter(|e| matches!(e, Expression::Uzumaki(_))).count();
    assert_eq!(uz, 1, "Expected 1 uzumaki expression");
    let t = ctx.get_node_typeinfo(zid);
    assert!(t.is_some(), "Uzumaki in return should have type info");
    assert!(matches!(t.unwrap().kind, TypeInfoKind::Number(NumberType::I32)), "Uzumaki should infer return type i32");
}

// ---- identifiers ----

#[test]
fn test_parameter_identifier_type() {
    // fn test(x: i32, y: i32) -> bool { return x > y; }
    let ctx = try_type_check(vec![fn_def(
        "test",
        vec![arg("x", ty("i32")), arg("y", ty("i32"))],
        Some(ty("bool")),
        vec![ret(bin(OperatorKind::Gt, var("x"), var("y")))],
    )])
    .expect("Type checking should succeed");
    let ids = identifiers(&ctx);
    assert!(!ids.is_empty(), "Expected identifier expressions");
    let mut found_identifier = false;
    for i in &ids {
        if i.name == "x" || i.name == "y" {
            found_identifier = true;
            assert!(matches!(kind_of(&ctx, i.id), Some(TypeInfoKind::Number(NumberType::I32))));
        }
    }
    assert!(found_identifier, "Should have found identifiers x or y");
    let fs = functions(&ctx);
    assert_eq!(fs.len(), 1, "Expected 1 function");
    let arguments = fs[0].arguments.as_ref().unwrap();
    assert_eq!(arguments.len(), 2, "Expected 2 arguments");
    for (i, a) in arguments.iter().enumerate() {
        if let ArgumentType::Argument(a) = a {
            let t = ctx.get_node_typeinfo(a.id);
            assert!(t.is_some(), "Argument {} should have type info", i);
            assert!(matches!(t.unwrap().kind, TypeInfoKind::Number(NumberType::I32)), "Argument {} should have i32 type", i);
        }
    }
    let bs = binaries(&ctx);
    assert_eq!(bs.len(), 1, "Expected 1 binary comparison");
    let t = ctx.get_node_typeinfo(bs[0].id);
    assert!(t.is_some(), "Comparison should have type info");
    assert!(matches!(t.unwrap().kind, TypeInfoKind::Bool), "Comparison should return bool");
}

#[test]
fn test_local_variable_identifier_type() {
    // fn test() -> bool { let flag: bool = true; return flag; }
    let ctx = try_type_check(vec![fn_def("test", vec![], Some(ty("bool")), vec![let_("flag", ty("bool"), boolean(true)), ret(var("flag"))])])
        .expect("Type checking should succeed");
    let mut found_flag = false;
    for i in identifiers(&ctx) {
        if i.name == "flag" {
            found_flag = true;
            assert!(matches!(kind_of(&ctx, i.id), Some(TypeInfoKind::Bool)));
        }
    }
    assert!(found_flag, "Should have found identifier 'flag'");
    let defs = variable_definitions(&ctx);
    assert_eq!(defs.len(), 1, "Expected 1 variable definition");
    let t = ctx.get_node_typeinfo(defs[0].id);
    assert!(t.is_some(), "Variable 'flag' should have type info");
    assert!(matches!(t.unwrap().kind, TypeInfoKind::Bool), "Variable 'flag' should have bool type");
    assert_eq!(defs[0].name.name, "flag", "Variable name should be 'flag'");
    let bools: Vec<&BoolLiteral> = expressions(&ctx)
        .into_iter()
        .filter_map(|e| if let Expression::Literal(Literal::Bool(b)) = e { Some(b) } else { None })
        .collect();
    assert_eq!(bools.len(), 1, "Expected 1 bool literal");
    let t = ctx.get_node_typeinfo(bools[0].id);
    assert!(t.is_some(), "Bool literal should have type info");
    assert!(matches!(t.unwrap().kind, TypeInfoKind::Bool), "Bool literal should have Bool type");
}

// ---- struct fields ----

#[test]
fn test_struct_field_type_inference_single_field() {
    // struct Point { x: i32; }  fn test(p: Point) -> i32 { return p.x; }
    let ctx = try_type_check(vec![
        struct_def("Point", vec![("x", ty("i32"))], vec![]),
        fn_def("test", vec![arg("p", ty("Point"))], Some(ty("i32")), vec![ret(member(var("p"), "x"))]),
    ])
    .expect("Type checking should succeed");
    let ms = member_accesses(&ctx);
    assert_eq!(ms.len(), 1, "Expected 1 member access expression");
    let t = ctx.get_node_typeinfo(ms[0].id);
    assert!(t.is_some(), "Field access should have type info");
    assert!(matches!(t.unwrap().kind, TypeInfoKind::Number(NumberType::I32)), "Field x should have type i32");
}

#[test]
fn test_struct_field_type_inference_multiple_fields() {
    // struct Person { age: i32; height: u64; active: bool; } and three getters
    let ctx = try_type_check(vec![
        struct_def("Person", vec![("age", ty("i32")), ("height", ty("u64")), ("active", ty("bool"))], vec![]),
        fn_def("get_age", vec![arg("p", ty("Person"))], Some(ty("i32")), vec![ret(member(var("p"), "age"))]),
        fn_def("get_height", vec![arg("p", ty("Person"))], Some(ty("u64")), vec![ret(member(var("p"), "height"))]),
        fn_def("get_active", vec![arg("p", ty("Person"))], Some(ty("bool")), vec![ret(member(var("p"), "active"))]),
    ])
    .expect("Type checking should succeed");
    let ms = member_accesses(&ctx);
    assert_eq!(ms.len(), 3, "Expected 3 member access expressions");
    for ma in ms {
        let t = ctx.get_node_typeinfo(ma.id);
        assert!(t.is_some(), "Field access should have type info for field {}", ma.name.name);
        let expected_kind = match ma.name.name.as_str() {
            "age" => TypeInfoKind::Number(NumberType::I32),
            "height" => TypeInfoKind::Number(NumberType::U64),
            "active" => TypeInfoKind::Bool,
            other => panic!("Unexpected field name: {}", other),
        };
        assert!(same_kind(&t.unwrap().kind, &expected_kind), "Field {} should have correct type", ma.name.name);
    }
}

#[test]
fn test_nested_struct_field_access() {
    // struct Inner { value: i32; } struct Outer { inner: Inner; }
    // fn test(o: Outer) -> i32 { let temp: Inner = o.inner; return temp.value; }
    let ctx = try_type_check(vec![
        struct_def("Inner", vec![("value", ty("i32"))], vec![]),
        struct_def("Outer", vec![("inner", ty("Inner"))], vec![]),
        fn_def(
            "test",
            vec![arg("o", ty("Outer"))],
            Some(ty("i32")),
            vec![let_("temp", ty("Inner"), member(var("o"), "inner")), ret(member(var("temp"), "value"))],
        ),
    ])
    .expect("Type checking should succeed");
    let ms = member_accesses(&ctx);
    assert_eq!(ms.len(), 2, "Expected 2 member access expressions");
    for ma in ms {
        let t = ctx.get_node_typeinfo(ma.id);
        assert!(t.is_some(), "Field access should have type info for field {}", ma.name.name);
        if ma.name.name == "inner" {
            assert!(same_kind(&t.unwrap().kind, &TypeInfoKind::Custom("Inner".to_string())), "Field inner should have type Inner");
        } else if ma.name.name == "value" {
            assert!(same_kind(&t.unwrap().kind, &TypeInfoKind::Number(NumberType::I32)), "Field value should have type i32");
        }
    }
}

#[test]
fn test_invalid_field_access_nonexistent_field() {
    // struct Point { x: i32; }  fn test(p: Point) -> i32 { return p.y; }
    let result = try_type_check(vec![
        struct_def("Point", vec![("x", ty("i32"))], vec![]),
        fn_def("test", vec![arg("p", ty("Point"))], Some(ty("i32")), vec![ret(member(var("p"), "y"))]),
    ]);
    assert!(result.is_err(), "Type checker should detect access to non-existent field");
    if let Err(error_msg) = result {
        assert!(error_msg.contains("field `y` not found on struct `Point`"), "Error message should mention the missing field, got: {}", error_msg);
    }
}

#[test]
fn test_invalid_field_access_on_non_struct() {
    // fn test(x: i32) -> i32 { return x.field; }
    let result = try_type_check(vec![fn_def("test", vec![arg("x", ty("i32"))], Some(ty("i32")), vec![ret(member(var("x"), "field"))])]);
    assert!(result.is_err(), "Type checker should detect member access on non-struct type");
    if let Err(error_msg) = result {
        assert!(error_msg.contains("member access requires a struct type"), "Error message should mention struct requirement, got: {}", error_msg);
    }
}

#[test]
fn test_struct_field_in_expression() {
    // struct Counter { count: i32; }  fn increment(c: Counter) -> i32 { return c.count + 1; }
    let ctx = try_type_check(vec![
        struct_def("Counter", vec![("count", ty("i32"))], vec![]),
        fn_def("increment", vec![arg("c", ty("Counter"))], Some(ty("i32")), vec![ret(bin(OperatorKind::Add, member(var("c"), "count"), num("1")))]),
    ])
    .expect("Type checking should succeed");
    let ms = member_accesses(&ctx);
    assert_eq!(ms.len(), 1, "Expected 1 member access expression");
    let t = ctx.get_node_typeinfo(ms[0].id);
    assert!(t.is_some(), "Field access in expression should have type info");
    assert!(matches!(t.unwrap().kind, TypeInfoKind::Number(NumberType::I32)), "Field count should have type i32");
}

#[test]
fn test_struct_with_different_numeric_types() {
    // struct Numbers { a: i8; ... h: u64; } and one getter per field
    let names = ["a", "b", "c", "d", "e", "f", "g", "h"];
    let mut defs = vec![struct_def(
        "Numbers",
        names.iter().zip(ALL_NUMBER_TYPES.iter()).map(|(n, (_, t))| (*n, ty(t))).collect(),
        vec![],
    )];
    for (n, (_, t)) in names.iter().zip(ALL_NUMBER_TYPES.iter()) {
        defs.push(fn_def(&format!("get_{}", t), vec![arg("n", ty("Numbers"))], Some(ty(t)), vec![ret(member(var("n"), n))]));
    }
    let ctx = try_type_check(defs).expect("Type checking should succeed");
    let ms = member_accesses(&ctx);
    assert_eq!(ms.len(), 8, "Expected 8 member access expressions");
    for ma in ms {
        let t = ctx.get_node_typeinfo(ma.id);
        assert!(t.is_some(), "Field {} should have type info", ma.name.name);
        let k = names.iter().position(|n| *n == ma.name.name).unwrap_or_else(|| panic!("Unexpected field name: {}", ma.name.name));
        let expected_kind = TypeInfoKind::Number(ALL_NUMBER_TYPES[k].0);
        assert!(same_kind(&t.unwrap().kind, &expected_kind), "Field {} should have correct numeric type", ma.name.name);
    }
}

#[test]
fn test_deeply_nested_struct_access() {
    // struct Level3 { value: i32; } struct Level2 { level3: Level3; } struct Level1 { level2: Level2; }
    // fn test(l1: Level1) -> i32 { let l2: Level2 = l1.level2; let l3: Level3 = l2.level3; return l3.value; }
    let ctx = try_type_check(vec![
        struct_def("Level3", vec![("value", ty("i32"))], vec![]),
        struct_def("Level2", vec![("level3", ty("Level3"))], vec![]),
        struct_def("Level1", vec![("level2", ty("Level2"))], vec![]),
        fn_def(
            "test",
            vec![arg("l1", ty("Level1"))],
            Some(ty("i32")),
            vec![
                let_("l2", ty("Level2"), member(var("l1"), "level2")),
                let_("l3", ty("Level3"), member(var("l2"), "level3")),
                ret(member(var("l3"), "value")),
            ],
        ),
    ])
    .expect("Type checking should succeed");
    let ms = member_accesses(&ctx);
    assert_eq!(ms.len(), 3, "Expected 3 member access expressions");
    let (mut found_level2, mut found_level3, mut found_value) = (false, false, false);
    for ma in ms {
        let t = ctx.get_node_typeinfo(ma.id);
        assert!(t.is_some(), "Field {} should have type info", ma.name.name);
        let kind = t.unwrap().kind;
        match ma.name.name.as_str() {
            "level2" => {
                assert!(same_kind(&kind, &TypeInfoKind::Custom("Level2".to_string())), "Field level2 should have type Level2");
                found_level2 = true;
            }
            "level3" => {
                assert!(same_kind(&kind, &TypeInfoKind::Custom("Level3".to_string())), "Field level3 should have type Level3");
                found_level3 = true;
            }
            "value" => {
                assert!(same_kind(&kind, &TypeInfoKind::Number(NumberType::I32)), "Field value should have type i32");
                found_value = true;
            }
            other => panic!("Unexpected field name: {}", other),
        }
    }
    assert!(found_level2, "Should find level2 field access");
    assert!(found_level3, "Should find level3 field access");
    assert!(found_value, "Should find value field access");
}

#[test]
fn test_struct_field_in_variable_definition() {
    // struct Data { value: i32; }  fn test(d: Data) { let x: i32 = d.value; }
    let ctx = try_type_check(vec![
        struct_def("Data", vec![("value", ty("i32"))], vec![]),
        fn_def("test", vec![arg("d", ty("Data"))], None, vec![let_("x", ty("i32"), member(var("d"), "value"))]),
    ])
    .expect("Type checking should succeed");
    let ms = member_accesses(&ctx);
    assert_eq!(ms.len(), 1, "Expected 1 member access expression");
    let t = ctx.get_node_typeinfo(ms[0].id);
    assert!(t.is_some(), "Field access in variable definition should have type info");
    assert!(matches!(t.unwrap().kind, TypeInfoKind::Number(NumberType::I32)), "Field value should have type i32");
}

// ---- methods ----

fn method(name: &str, params: Vec<ArgumentType>, returns: Option<Type>, body: Vec<Statement>) -> FunctionDefinition {
    let mut args = vec![self_arg()];
    args.extend(params);
    function(name, args, returns, body)
}

fn call_types(ctx: &TypedContext) -> Vec<Option<TypeInfoKind>> {
    calls(ctx).into_iter().map(|c| kind_of(ctx, c.id)).collect()
}

#[test]
fn test_method_call_return_type() {
    // struct Counter { value: i32; fn get(self) -> i32 { return 42; } }  fn test(c: Counter) -> i32 { return c.get(); }
    let ctx = try_type_check(vec![
        struct_def("Counter", vec![("value", ty("i32"))], vec![method("get", vec![], Some(ty("i32")), vec![ret(num("42"))])]),
        fn_def("test", vec![arg("c", ty("Counter"))], Some(ty("i32")), vec![ret(method_call(var("c"), "get", vec![]))]),
    ])
    .expect("Type checking should succeed");
    let ts = call_types(&ctx);
    assert_eq!(ts.len(), 1, "Expected 1 function call expression");
    assert!(ts[0].is_some(), "Method call should have return type info");
    assert!(matches!(ts[0], Some(TypeInfoKind::Number(NumberType::I32))), "Method get() should return i32");
}

#[test]
fn test_method_with_parameter() {
    // struct Calculator { value: i32; fn add(self, x: i32) -> i32 { return x; } }  fn test(c: Calculator) -> i32 { return c.add(10); }
    let ctx = try_type_check(vec![
        struct_def("Calculator", vec![("value", ty("i32"))], vec![method("add", vec![arg("x", ty("i32"))], Some(ty("i32")), vec![ret(var("x"))])]),
        fn_def("test", vec![arg("c", ty("Calculator"))], Some(ty("i32")), vec![ret(method_call(var("c"), "add", vec![num("10")]))]),
    ])
    .expect("Type checking should succeed");
    let ts = call_types(&ctx);
    assert_eq!(ts.len(), 1, "Expected 1 function call expression");
    assert!(ts[0].is_some(), "Method call with parameter should have return type info");
    assert!(matches!(ts[0], Some(TypeInfoKind::Number(NumberType::I32))), "Method add() should return i32");
}

#[test]
fn test_method_returning_bool() {
    // struct Checker { valid: bool; fn is_valid(self) -> bool { return true; } }  fn test(c: Checker) -> bool { return c.is_valid(); }
    let ctx = try_type_check(vec![
        struct_def("Checker", vec![("valid", ty("bool"))], vec![method("is_valid", vec![], Some(ty("bool")), vec![ret(boolean(true))])]),
        fn_def("test", vec![arg("c", ty("Checker"))], Some(ty("bool")), vec![ret(method_call(var("c"), "is_valid", vec![]))]),
    ])
    .expect("Type checking should succeed");
    let ts = call_types(&ctx);
    assert_eq!(ts.len(), 1, "Expected 1 function call expression");
    assert!(ts[0].is_some(), "Method call should have return type info");
    assert!(matches!(ts[0], Some(TypeInfoKind::Bool)), "Method is_valid() should return bool");
}

#[test]
fn test_multiple_methods_on_struct() {
    // struct Data { x: i32; y: i32; fn get_x(self) -> i32 { return 1; } fn get_y(self) -> i32 { return 2; } }
    // fn test_x(d: Data) -> i32 { return d.get_x(); }  fn test_y(d: Data) -> i32 { return d.get_y(); }
    let ctx = try_type_check(vec![
        struct_def(
            "Data",
            vec![("x", ty("i32")), ("y", ty("i32"))],
            vec![
                method("get_x", vec![], Some(ty("i32")), vec![ret(num("1"))]),
                method("get_y", vec![], Some(ty("i32")), vec![ret(num("2"))]),
            ],
        ),
        fn_def("test_x", vec![arg("d", ty("Data"))], Some(ty("i32")), vec![ret(method_call(var("d"), "get_x", vec![]))]),
        fn_def("test_y", vec![arg("d", ty("Data"))], Some(ty("i32")), vec![ret(method_call(var("d"), "get_y", vec![]))]),
    ])
    .expect("Type checking should succeed");
    let ts = call_types(&ctx);
    assert_eq!(ts.len(), 2, "Expected 2 function call expressions");
    for t in ts {
        assert!(t.is_some(), "Method call should have return type info");
        assert!(matches!(t, Some(TypeInfoKind::Number(NumberType::I32))), "Method should return i32");
    }
}

#[test]
fn test_method_call_error_nonexistent_method() {
    // struct Empty {}  fn test(e: Empty) -> i32 { return e.nonexistent(); }
    let result = try_type_check(vec![
        struct_def("Empty", vec![], vec![]),
        fn_def("test", vec![arg("e", ty("Empty"))], Some(ty("i32")), vec![ret(method_call(var("e"), "nonexistent", vec![]))]),
    ]);
    assert!(result.is_err(), "Type checker should report error for nonexistent method");
}

#[test]
fn test_method_with_multiple_parameters() {
    // struct Math { base: i32; fn compute(self, a: i32, b: i32) -> i32 { return a; } }  fn test(m: Math) -> i32 { return m.compute(1, 2); }
    let ctx = try_type_check(vec![
        struct_def(
            "Math",
            vec![("base", ty("i32"))],
            vec![method("compute", vec![arg("a", ty("i32")), arg("b", ty("i32"))], Some(ty("i32")), vec![ret(var("a"))])],
        ),
        fn_def("test", vec![arg("m", ty("Math"))], Some(ty("i32")), vec![ret(method_call(var("m"), "compute", vec![num("1"), num("2")]))]),
    ])
    .expect("Type checking should succeed");
    let ts = call_types(&ctx);
    assert_eq!(ts.len(), 1, "Expected 1 function call expression");
    assert!(ts[0].is_some(), "Method call with multiple parameters should have return type info");
}

#[test]
fn test_method_with_self_parameter() {
    // struct Container { data: i32; fn process(self) -> i32 { return 42; } }  fn test(c: Container) -> i32 { return c.process(); }
    let ctx = try_type_check(vec![
        struct_def("Container", vec![("data", ty("i32"))], vec![method("process", vec![], Some(ty("i32")), vec![ret(num("42"))])]),
        fn_def("test", vec![arg("c", ty("Container"))], Some(ty("i32")), vec![ret(method_call(var("c"), "process", vec![]))]),
    ])
    .expect("Type checking should succeed");
    let ts = call_types(&ctx);
    assert_eq!(ts.len(), 1, "Expected 1 function call expression");
    assert!(ts[0].is_some(), "Method call with self should have return type info");
    assert!(matches!(ts[0], Some(TypeInfoKind::Number(NumberType::I32))), "Method process() should return i32");
}

#[test]
fn test_method_wrong_argument_count_error() {
    // struct Test { value: i32; fn needs_one(x: i32) -> i32 { return x; } }  fn test(t: Test) -> i32 { return t.needs_one(); }
    let result = try_type_check(vec![
        struct_def("Test", vec![("value", ty("i32"))], vec![function("needs_one", vec![arg("x", ty("i32"))], Some(ty("i32")), vec![ret(var("x"))])]),
        fn_def("test", vec![arg("t", ty("Test"))], Some(ty("i32")), vec![ret(method_call(var("t"), "needs_one", vec![]))]),
    ]);
    assert!(result.is_err(), "Type checker should report error for wrong argument count");
}

#[test]
fn test_method_call_on_non_struct_type_error() {
    // fn test(x: i32) -> i32 { return x.method(); }
    let result = try_type_check(vec![fn_def("test", vec![arg("x", ty("i32"))], Some(ty("i32")), vec![ret(method_call(var("x"), "method", vec![]))])]);
    assert!(result.is_err(), "Type checker should report error for method call on non-struct type");
}

#[test]
fn test_self_access_in_method_body() {
    // struct Container { data: i32; fn process(self) -> i32 { let x: i32 = self.data; return x; } }
    // fn test(c: Container) -> i32 { return c.process(); }
    let ctx = try_type_check(vec![
        struct_def(
            "Container",
            vec![("data", ty("i32"))],
            vec![method("process", vec![], Some(ty("i32")), vec![let_("x", ty("i32"), member(var("self"), "data")), ret(var("x"))])],
        ),
        fn_def("test", vec![arg("c", ty("Container"))], Some(ty("i32")), vec![ret(method_call(var("c"), "process", vec![]))]),
    ])
    .expect("Type checking should succeed");
    let ms = member_accesses(&ctx);
    assert!(!ms.is_empty(), "Expected at least 1 member access expression for self.data");
    let mut found_data_field = false;
    for ma in ms {
        if ma.name.name == "data" {
            let t = ctx.get_node_typeinfo(ma.id);
            assert!(t.is_some(), "Field access should have type info");
            assert!(matches!(t.unwrap().kind, TypeInfoKind::Number(NumberType::I32)), "Field data should have type i32");
            found_data_field = true;
        }
    }
    assert!(found_data_field, "Should have found self.data access");
}

#[test]
fn test_multiple_self_usages_in_method() {
    // struct Point { x: i32; y: i32; fn sum(self) -> i32 { return self.x + self.y; } }  fn test(p: Point) -> i32 { return p.sum(); }
    let ctx = try_type_check(vec![
        struct_def(
            "Point",
            vec![("x", ty("i32")), ("y", ty("i32"))],
            vec![method("sum", vec![], Some(ty("i32")), vec![ret(bin(OperatorKind::Add, member(var("self"), "x"), member(var("self"), "y")))])],
        ),
        fn_def("test", vec![arg("p", ty("Point"))], Some(ty("i32")), vec![ret(method_call(var("p"), "sum", vec![]))]),
    ])
    .expect("Type checking should succeed");
    let ms = member_accesses(&ctx);
    assert!(ms.len() >= 2, "Expected at least 2 member access expressions for self.x and self.y");
    let (mut found_x, mut found_y) = (false, false);
    for ma in ms {
        match ma.name.name.as_str() {
            "x" => {
                assert!(matches!(kind_of(&ctx, ma.id), Some(TypeInfoKind::Number(NumberType::I32))), "Field x should have type i32");
                found_x = true;
            }
            "y" => {
                assert!(matches!(kind_of(&ctx, ma.id), Some(TypeInfoKind::Number(NumberType::I32))), "Field y should have type i32");
                found_y = true;
            }
            _ => {}
        }
    }
    assert!(found_x, "Should have found self.x access");
    assert!(found_y, "Should have found self.y access");
    let bs = binaries(&ctx);
    assert_eq!(bs.len(), 1, "Expected 1 binary expression (x + y)");
    assert!(matches!(kind_of(&ctx, bs[0].id), Some(TypeInfoKind::Number(NumberType::I32))), "Binary expression should have type i32");
}

#[test]
fn test_self_method_call() {
    // struct Counter { value: i32; fn get_value(self) -> i32 { return self.value; }
    //                  fn doubled(self) -> i32 { return self.get_value() + self.get_value(); } }
    // fn test(c: Counter) -> i32 { return c.doubled(); }
    let ctx = try_type_check(vec![
        struct_def(
            "Counter",
            vec![("value", ty("i32"))],
            vec![
                method("get_value", vec![], Some(ty("i32")), vec![ret(member(var("self"), "value"))]),
                method(
                    "doubled",
                    vec![],
                    Some(ty("i32")),
                    vec![ret(bin(
                        OperatorKind::Add,
                        method_call(var("self"), "get_value", vec![]),
                        method_call(var("self"), "get_value", vec![]),
                    ))],
                ),
            ],
        ),
        fn_def("test", vec![arg("c", ty("Counter"))], Some(ty("i32")), vec![ret(method_call(var("c"), "doubled", vec![]))]),
    ])
    .expect("Type checking should succeed");
    let ts = call_types(&ctx);
    assert_eq!(ts.len(), 3, "Expected 3 function call expressions");
    for t in ts {
        assert!(t.is_some(), "Method call should have return type info");
        assert!(matches!(t, Some(TypeInfoKind::Number(NumberType::I32))), "All methods should return i32");
    }
    let bs = binaries(&ctx);
    assert_eq!(bs.len(), 1, "Expected 1 binary expression (get_value() + get_value())");
    assert!(matches!(kind_of(&ctx, bs[0].id), Some(TypeInfoKind::Number(NumberType::I32))), "Binary expression should have type i32");
}

#[test]
fn test_self_in_standalone_function_error() {
    // fn method(self, x: i32) -> i32 { return x; }
    let result = try_type_check(vec![fn_def("method", vec![self_arg(), arg("x", ty("i32"))], Some(ty("i32")), vec![ret(var("x"))])]);
    assert!(result.is_err(), "Expected error for self in standalone function");
    let err_msg = result.err().unwrap();
    assert!(err_msg.contains("self reference not allowed in standalone function"), "Expected SelfReferenceInFunction error, got: {err_msg}");
}

// ---- negation ----

#[test]
fn test_negate_i8_succeeds() {
    let result = try_type_check(vec![fn_def("test", vec![arg("x", ty("i8"))], Some(ty("i8")), vec![ret(neg(paren(var("x"))))])]);
    assert!(result.is_ok(), "Negation of i8 should succeed, got: {:?}", result.err());
}

#[test]
fn test_negate_i16_succeeds() {
    let result = try_type_check(vec![fn_def("test", vec![arg("x", ty("i16"))], Some(ty("i16")), vec![ret(neg(paren(var("x"))))])]);
    assert!(result.is_ok(), "Negation of i16 should succeed, got: {:?}", result.err());
}

#[test]
fn test_negate_i32_succeeds() {
    let result = try_type_check(vec![fn_def("test", vec![arg("x", ty("i32"))], Some(ty("i32")), vec![ret(neg(paren(var("x"))))])]);
    assert!(result.is_ok(), "Negation of i32 should succeed, got: {:?}", result.err());
}

#[test]
fn test_negate_i64_succeeds() {
    let result = try_type_check(vec![fn_def("test", vec![arg("x", ty("i64"))], Some(ty("i64")), vec![ret(neg(paren(var("x"))))])]);
    assert!(result.is_ok(), "Negation of i64 should succeed, got: {:?}", result.err());
}

#[test]
fn test_negate_u8_produces_error() {
    let result = try_type_check(vec![fn_def("test", vec![arg("x", ty("u8"))], Some(ty("u8")), vec![ret(neg(paren(var("x"))))])]);
    assert!(result.is_err(), "Negation of u8 should produce error");
    let err_msg = result.err().unwrap();
    assert!(err_msg.contains("Neg") && err_msg.contains("signed integers"), "Error should mention Neg operator and signed integers, got: {}", err_msg);
}

#[test]
fn test_negate_u16_produces_error() {
    let result = try_type_check(vec![fn_def("test", vec![arg("x", ty("u16"))], Some(ty("u16")), vec![ret(neg(paren(var("x"))))])]);
    assert!(result.is_err(), "Negation of u16 should produce error");
    let err_msg = result.err().unwrap();
    assert!(err_msg.contains("Neg") && err_msg.contains("signed integers"), "Error should mention Neg operator and signed integers, got: {}", err_msg);
}

#[test]
fn test_negate_u32_produces_error() {
    let result = try_type_check(vec![fn_def("test", vec![arg("x", ty("u32"))], Some(ty("u32")), vec![ret(neg(paren(var("x"))))])]);
    assert!(result.is_err(), "Negation of u32 should produce error");
    let err_msg = result.err().unwrap();
    assert!(err_msg.contains("Neg") && err_msg.contains("signed integers"), "Error should mention Neg operator and signed integers, got: {}", err_msg);
}

#[test]
fn test_negate_u64_produces_error() {
    let result = try_type_check(vec![fn_def("test", vec![arg("x", ty("u64"))], Some(ty("u64")), vec![ret(neg(paren(var("x"))))])]);
    assert!(result.is_err(), "Negation of u64 should produce error");
    let err_msg = result.err().unwrap();
    assert!(err_msg.contains("Neg") && err_msg.contains("signed integers"), "Error should mention Neg operator and signed integers, got: {}", err_msg);
}

#[test]
fn test_negate_bool_produces_error() {
    let result = try_type_check(vec![fn_def("test", vec![arg("x", ty("bool"))], Some(ty("bool")), vec![ret(neg(paren(var("x"))))])]);
    assert!(result.is_err(), "Negation of bool should produce error");
    let err_msg = result.err().unwrap();
    assert!(err_msg.contains("Neg") && err_msg.contains("signed integers"), "Error should mention Neg operator and signed integers, got: {}", err_msg);
}

#[test]
fn test_negate_parenthesized_expression() {
    let result = try_type_check(vec![fn_def("test", vec![arg("a", ty("i32")), arg("b", ty("i32"))], Some(ty("i32")), vec![ret(neg(paren(bin(OperatorKind::Add, var("a"), var("b")))))])]);
    assert!(result.is_ok(), "Negation of parenthesized expression should succeed, got: {:?}", result.err());
}

#[test]
fn test_double_negate() {
    let result = try_type_check(vec![fn_def("test", vec![arg("x", ty("i32"))], Some(ty("i32")), vec![ret(neg(neg(paren(var("x")))))])]);
    assert!(result.is_err(), "Double negation should be prohibited");
    let err_msg = result.err().unwrap();
    assert!(err_msg.contains("combined unary operators"), "Error should mention combined unary operators, got: {}", err_msg);
}

// ---- bitwise not ----

#[test]
fn test_bitnot_i8_succeeds() {
    let result = try_type_check(vec![fn_def("test", vec![arg("x", ty("i8"))], Some(ty("i8")), vec![ret(bitnot(var("x")))])]);
    assert!(result.is_ok(), "Bitwise NOT of i8 should succeed, got: {:?}", result.err());
}

#[test]
fn test_bitnot_i16_succeeds() {
    let result = try_type_check(vec![fn_def("test", vec![arg("x", ty("i16"))], Some(ty("i16")), vec![ret(bitnot(var("x")))])]);
    assert!(result.is_ok(), "Bitwise NOT of i16 should succeed, got: {:?}", result.err());
}

#[test]
fn test_bitnot_i32_succeeds() {
    let result = try_type_check(vec![fn_def("test", vec![arg("x", ty("i32"))], Some(ty("i32")), vec![ret(bitnot(var("x")))])]);
    assert!(result.is_ok(), "Bitwise NOT of i32 should succeed, got: {:?}", result.err());
}

#[test]
fn test_bitnot_i64_succeeds() {
    let result = try_type_check(vec![fn_def("test", vec![arg("x", ty("i64"))], Some(ty("i64")), vec![ret(bitnot(var("x")))])]);
    assert!(result.is_ok(), "Bitwise NOT of i64 should succeed, got: {:?}", result.err());
}

#[test]
fn test_bitnot_u8_succeeds() {
    let result = try_type_check(vec![fn_def("test", vec![arg("x", ty("u8"))], Some(ty("u8")), vec![ret(bitnot(var("x")))])]);
    assert!(result.is_ok(), "Bitwise NOT of u8 should succeed, got: {:?}", result.err());
}

#[test]
fn test_bitnot_u16_succeeds() {
    let result = try_type_check(vec![fn_def("test", vec![arg("x", ty("u16"))], Some(ty("u16")), vec![ret(bitnot(var("x")))])]);
    assert!(result.is_ok(), "Bitwise NOT of u16 should succeed, got: {:?}", result.err());
}

#[test]
fn test_bitnot_u32_succeeds() {
    let result = try_type_check(vec![fn_def("test", vec![arg("x", ty("u32"))], Some(ty("u32")), vec![ret(bitnot(var("x")))])]);
    assert!(result.is_ok(), "Bitwise NOT of u32 should succeed, got: {:?}", result.err());
}

#[test]
fn test_bitnot_u64_succeeds() {
    let result = try_type_check(vec![fn_def("test", vec![arg("x", ty("u64"))], Some(ty("u64")), vec![ret(bitnot(var("x")))])]);
    assert!(result.is_ok(), "Bitwise NOT of u64 should succeed, got: {:?}", result.err());
}

#[test]
fn test_bitnot_bool_produces_error() {
    let result = try_type_check(vec![fn_def("test", vec![arg("x", ty("bool"))], Some(ty("bool")), vec![ret(bitnot(var("x")))])]);
    assert!(result.is_err(), "Bitwise NOT of bool should produce error");
    let err_msg = result.err().unwrap();
    assert!(err_msg.contains("BitNot") && err_msg.contains("integers"), "Error should mention BitNot operator and integers, got: {}", err_msg);
}

#[test]
fn test_bitnot_combined_with_negate() {
    let result = try_type_check(vec![fn_def("test", vec![arg("x", ty("i32"))], Some(ty("i32")), vec![ret(bitnot(neg(paren(var("x")))))])]);
    assert!(result.is_err(), "Combined unary operators should be prohibited");
    let err_msg = result.err().unwrap();
    assert!(err_msg.contains("combined unary operators"), "Error should mention combined unary operators, got: {}", err_msg);
}

#[test]
fn test_negate_combined_with_bitnot() {
    let result = try_type_check(vec![fn_def("test", vec![arg("x", ty("i32"))], Some(ty("i32")), vec![ret(neg(paren(bitnot(var("x")))))])]);
    assert!(result.is_err(), "Combined unary operators should be prohibited");
    let err_msg = result.err().unwrap();
    assert!(err_msg.contains("combined unary operators"), "Error should mention combined unary operators, got: {}", err_msg);
}

#[test]
fn test_bitnot_then_neg_literal_combination_errors() {
    let result = try_type_check(vec![fn_def("test", vec![], Some(ty("i32")), vec![ret(neg(bitnot(num("42"))))])]);
    assert!(result.is_err(), "Combined unary operators should be prohibited");
    let err_msg = result.err().unwrap();
    assert!(err_msg.contains("combined unary operators"), "Error should mention combined unary operators, got: {}", err_msg);
}

// ---- logical not ----

#[test]
fn test_logical_not_bool_succeeds() {
    let result = try_type_check(vec![fn_def("test", vec![arg("x", ty("bool"))], Some(ty("bool")), vec![ret(not(var("x")))])]);
    assert!(result.is_ok(), "Logical NOT of bool should succeed, got: {:?}", result.err());
}

#[test]
fn test_logical_not_i32_produces_error() {
    let result = try_type_check(vec![fn_def("test", vec![arg("x", ty("i32"))], Some(ty("bool")), vec![ret(not(var("x")))])]);
    assert!(result.is_err(), "Logical NOT of i32 should produce error");
    let err_msg = result.err().unwrap();
    assert!(err_msg.contains("Not") && err_msg.contains("booleans"), "Error should mention Not operator and booleans, got: {}", err_msg);
}

#[test]
fn test_double_logical_not() {
    let result = try_type_check(vec![fn_def("test", vec![arg("x", ty("bool"))], Some(ty("bool")), vec![ret(not(not(var("x"))))])]);
    assert!(result.is_err(), "Double logical NOT should be prohibited");
    let err_msg = result.err().unwrap();
    assert!(err_msg.contains("combined unary operators"), "Error should mention combined unary operators, got: {}", err_msg);
}

// ---- division ----

#[test]
fn test_divide_i32_succeeds() {
    let result = try_type_check(vec![fn_def("test", vec![arg("a", ty("i32")), arg("b", ty("i32"))], Some(ty("i32")), vec![ret(bin(OperatorKind::Div, var("a"), var("b")))])]);
    assert!(result.is_ok(), "Division of i32 should succeed, got: {:?}", result.err());
}

#[test]
fn test_divide_i64_succeeds() {
    let result = try_type_check(vec![fn_def("test", vec![arg("a", ty("i64")), arg("b", ty("i64"))], Some(ty("i64")), vec![ret(bin(OperatorKind::Div, var("a"), var("b")))])]);
    assert!(result.is_ok(), "Division of i64 should succeed, got: {:?}", result.err());
}

#[test]
fn test_divide_u32_succeeds() {
    let result = try_type_check(vec![fn_def("test", vec![arg("a", ty("u32")), arg("b", ty("u32"))], Some(ty("u32")), vec![ret(bin(OperatorKind::Div, var("a"), var("b")))])]);
    assert!(result.is_ok(), "Division of u32 should succeed, got: {:?}", result.err());
}

#[test]
fn test_divide_mixed_types_produces_error() {
    let result = try_type_check(vec![fn_def(
        "test",
        vec![arg("a", ty("i32")), arg("b", ty("i64"))],
        Some(ty("i32")),
        vec![ret(bin(OperatorKind::Div, var("a"), var("b")))],
    )]);
    assert!(result.is_err(), "Division of mixed types should produce error");
}

#[test]
fn test_divide_bool_produces_error() {
    let result = try_type_check(vec![fn_def("test", vec![arg("a", ty("bool")), arg("b", ty("bool"))], Some(ty("bool")), vec![ret(bin(OperatorKind::Div, var("a"), var("b")))])]);
    assert!(result.is_err(), "Division of bool should produce error");
    let err_msg = result.err().unwrap();
    assert!(err_msg.contains("arithmetic") || err_msg.contains("Div"), "Error should mention arithmetic operator or division, got: {}", err_msg);
}

#[test]
fn test_divide_chained() {
    let result = try_type_check(vec![fn_def("test", vec![arg("a", ty("i32")), arg("b", ty("i32")), arg("c", ty("i32"))], Some(ty("i32")), vec![ret(bin(OperatorKind::Div, bin(OperatorKind::Div, var("a"), var("b")), var("c")))])]);
    assert!(result.is_ok(), "Chained division should succeed, got: {:?}", result.err());
}

#[test]
fn test_divide_with_multiply() {
    let result = try_type_check(vec![fn_def("test", vec![arg("a", ty("i32")), arg("b", ty("i32")), arg("c", ty("i32"))], Some(ty("i32")), vec![ret(bin(OperatorKind::Div, bin(OperatorKind::Mul, var("a"), var("b")), var("c")))])]);
    assert!(result.is_ok(), "Division combined with multiplication should succeed, got: {:?}", result.err());
}

#[test]
fn test_divide_with_addition_precedence() {
    let result = try_type_check(vec![fn_def("test", vec![arg("a", ty("i32")), arg("b", ty("i32")), arg("c", ty("i32"))], Some(ty("i32")), vec![ret(bin(OperatorKind::Add, var("a"), bin(OperatorKind::Div, var("b"), var("c"))))])]);
    assert!(result.is_ok(), "Division with addition (precedence) should succeed, got: {:?}", result.err());
}
