//! Checks of whole programs, written as trees, that go through each kind of statement, expression, type and definition.
use std::sync::atomic::{AtomicU32, Ordering as AtomicOrdering};

use inference_type_checker::ast::{
    Argument, ArgumentType, ArrayIndexAccessExpression, ArrayLiteral, AssertStatement, AssignStatement,
    BinaryExpression, BoolLiteral, ConstantDefinition, Definition, Directive, EnumDefinition, Expression,
    ExternalFunctionDefinition, FunctionCallExpression, FunctionDefinition, GenericType, Identifier,
    IfStatement, IgnoreArgument, Literal, Location, LoopStatement, MemberAccessExpression, ModuleDefinition,
    NumberLiteral, OperatorKind, ParenthesizedExpression, PrefixUnaryExpression, ReturnStatement,
    SelfReference, SimpleTypeKind, SourceFile, SpecDefinition, Statement, StringLiteral, StructDefinition,
    StructExpression, StructField, Type, TypeArray, TypeDefinition, TypeDefinitionStatement,
    TypeMemberAccessExpression, UnaryOperatorKind, UnitLiteral, UseDirective, UzumakiExpression,
    VariableDefinitionStatement, Visibility,
};
use inference_type_checker::type_checker::TypeChecker;
use inference_type_checker::type_info::{NumberType, TypeInfo, TypeInfoKind};
use inference_type_checker::typed_context::TypedContext;

static NEXT_ID: AtomicU32 = AtomicU32::new(1);

fn id() -> u32 {
    NEXT_ID.fetch_add(1, AtomicOrdering::SeqCst)
}

fn loc() -> Location {
    Location { offset_start: 0, offset_end: 1, start_line: 1, start_column: 1, end_line: 1, end_column: 2 }
}

fn ident(name: &str) -> Identifier {
    Identifier { id: id(), name: name.to_string(), location: loc() }
}

fn simple(kind: SimpleTypeKind) -> Type {
    Type::Simple(id(), kind)
}

/// A type as the parser writes it: builtin names as simple types, any other name as a named type.
fn ty(name: &str) -> Type {
    match name {
        "()" => simple(SimpleTypeKind::Unit),
        "bool" => simple(SimpleTypeKind::Bool),
        "i8" => simple(SimpleTypeKind::I8),
        "i16" => simple(SimpleTypeKind::I16),
        "i32" => simple(SimpleTypeKind::I32),
        "i64" => simple(SimpleTypeKind::I64),
        "u8" => simple(SimpleTypeKind::U8),
        "u16" => simple(SimpleTypeKind::U16),
        "u32" => simple(SimpleTypeKind::U32),
        "u64" => simple(SimpleTypeKind::U64),
        other => Type::Custom(ident(other)),
    }
}

fn array_t(element: Type, size: &str) -> Type {
    Type::Array(Box::new(TypeArray { id: id(), element_type: element, size: num(size) }))
}

fn generic_t(base: &str, params: &[&str]) -> Type {
    Type::Generic(GenericType { id: id(), base: ident(base), parameters: params.iter().map(|p| ident(p)).collect() })
}

fn num(value: &str) -> Expression {
    Expression::Literal(Literal::Number(NumberLiteral { id: id(), location: loc(), value: value.to_string() }))
}

fn boolean(value: bool) -> Expression {
    Expression::Literal(Literal::Bool(BoolLiteral { id: id(), location: loc(), value }))
}

fn string_lit(value: &str) -> Expression {
    Expression::Literal(Literal::String(StringLiteral { id: id(), location: loc(), value: value.to_string() }))
}

fn unit_lit() -> Expression {
    Expression::Literal(Literal::Unit(UnitLiteral { id: id(), location: loc() }))
}

fn var(name: &str) -> Expression {
    Expression::Identifier(ident(name))
}

fn uzumaki() -> Expression {
    Expression::Uzumaki(UzumakiExpression { id: id(), location: loc() })
}

fn bin(op: OperatorKind, left: Expression, right: Expression) -> Expression {
    Expression::Binary(Box::new(BinaryExpression { id: id(), location: loc(), operator: op, left, right }))
}

fn unary(op: UnaryOperatorKind, e: Expression) -> Expression {
    Expression::PrefixUnary(Box::new(PrefixUnaryExpression { id: id(), location: loc(), operator: op, expression: e }))
}

fn neg(e: Expression) -> Expression {
    unary(UnaryOperatorKind::Neg, e)
}

fn not(e: Expression) -> Expression {
    unary(UnaryOperatorKind::Not, e)
}

fn bitnot(e: Expression) -> Expression {
    unary(UnaryOperatorKind::BitNot, e)
}

fn paren(e: Expression) -> Expression {
    Expression::Parenthesized(Box::new(ParenthesizedExpression { id: id(), location: loc(), expression: e }))
}

fn call_with(function: Expression, type_parameters: Option<Vec<Identifier>>, args: Vec<Expression>) -> Expression {
    Expression::FunctionCall(Box::new(FunctionCallExpression {
        id: id(),
        location: loc(),
        function,
        type_parameters,
        arguments: Some(args.into_iter().map(|a| (None, a)).collect()),
    }))
}

fn call(name: &str, args: Vec<Expression>) -> Expression {
    call_with(var(name), None, args)
}

fn generic_call(name: &str, type_args: &[&str], args: Vec<Expression>) -> Expression {
    call_with(var(name), Some(type_args.iter().map(|t| ident(t)).collect()), args)
}

fn member(e: Expression, name: &str) -> Expression {
    Expression::MemberAccess(Box::new(MemberAccessExpression { id: id(), location: loc(), expression: e, name: ident(name) }))
}

fn method_call(receiver: Expression, name: &str, args: Vec<Expression>) -> Expression {
    call_with(member(receiver, name), None, args)
}

fn type_member(owner: &str, name: &str) -> Expression {
    Expression::TypeMemberAccess(Box::new(TypeMemberAccessExpression {
        id: id(),
        location: loc(),
        expression: Expression::Type(ty(owner)),
        name: ident(name),
    }))
}

fn associated_call(owner: &str, name: &str, args: Vec<Expression>) -> Expression {
    call_with(type_member(owner, name), None, args)
}

fn index(array: Expression, i: Expression) -> Expression {
    Expression::ArrayIndexAccess(Box::new(ArrayIndexAccessExpression { id: id(), location: loc(), array, index: i }))
}

fn array_lit(elements: Vec<Expression>) -> Expression {
    Expression::Literal(Literal::Array(ArrayLiteral { id: id(), location: loc(), elements: Some(elements) }))
}

fn struct_value(name: &str) -> Expression {
    Expression::Struct(StructExpression { id: id(), location: loc(), name: ident(name) })
}

fn ret(e: Expression) -> Statement {
    Statement::Return(ReturnStatement { location: loc(), expression: e })
}

fn let_(name: &str, t: Type, value: Expression) -> Statement {
    Statement::VariableDefinition(VariableDefinitionStatement { id: id(), location: loc(), name: ident(name), ty: t, value: Some(value) })
}

fn decl(name: &str, t: Type) -> Statement {
    Statement::VariableDefinition(VariableDefinitionStatement { id: id(), location: loc(), name: ident(name), ty: t, value: None })
}

fn assign(left: Expression, right: Expression) -> Statement {
    Statement::Assign(AssignStatement { location: loc(), left, right })
}

fn expr_stmt(e: Expression) -> Statement {
    Statement::Expression(e)
}

fn if_(condition: Expression, if_arm: Vec<Statement>, else_arm: Option<Vec<Statement>>) -> Statement {
    Statement::If(IfStatement { location: loc(), condition, if_arm, else_arm })
}

fn loop_(body: Vec<Statement>) -> Statement {
    Statement::Loop(LoopStatement { location: loc(), condition: None, body })
}

fn while_(condition: Expression, body: Vec<Statement>) -> Statement {
    Statement::Loop(LoopStatement { location: loc(), condition: Some(condition), body })
}

fn brk() -> Statement {
    Statement::Break(loc())
}

fn assert_(e: Expression) -> Statement {
    Statement::Assert(AssertStatement { location: loc(), expression: e })
}

fn const_stmt(name: &str, t: Type, value: Literal) -> Statement {
    Statement::ConstantDefinition(ConstantDefinition { id: id(), location: loc(), name: ident(name), ty: t, value })
}

fn type_stmt(name: &str, t: Type) -> Statement {
    Statement::TypeDefinition(TypeDefinitionStatement { location: loc(), name: ident(name), ty: t })
}

fn number_literal(value: &str) -> Literal {
    Literal::Number(NumberLiteral { id: id(), location: loc(), value: value.to_string() })
}

fn arg(name: &str, t: Type) -> ArgumentType {
    ArgumentType::Argument(Argument { id: id(), location: loc(), name: ident(name), ty: t })
}

fn ignored(t: Type) -> ArgumentType {
    ArgumentType::IgnoreArgument(IgnoreArgument { id: id(), location: loc(), ty: t })
}

fn self_arg() -> ArgumentType {
    ArgumentType::SelfReference(SelfReference { id: id(), location: loc() })
}

fn function(name: &str, args: Vec<ArgumentType>, returns: Option<Type>, body: Vec<Statement>) -> FunctionDefinition {
    FunctionDefinition {
        location: loc(),
        name: ident(name),
        visibility: Visibility::Public,
        type_parameters: None,
        arguments: if args.is_empty() { None } else { Some(args) },
        returns,
        body,
    }
}

fn private(mut f: FunctionDefinition) -> FunctionDefinition {
    f.visibility = Visibility::Private;
    f
}

fn generic(mut f: FunctionDefinition, params: &[&str]) -> FunctionDefinition {
    f.type_parameters = Some(params.iter().map(|p| ident(p)).collect());
    f
}

fn fn_def(name: &str, args: Vec<ArgumentType>, returns: Option<Type>, body: Vec<Statement>) -> Definition {
    Definition::Function(function(name, args, returns, body))
}

fn struct_def(name: &str, fields: Vec<(&str, Type)>, methods: Vec<FunctionDefinition>) -> Definition {
    Definition::Struct(StructDefinition {
        location: loc(),
        name: ident(name),
        visibility: Visibility::Public,
        fields: fields.into_iter().map(|(n, t)| StructField { name: ident(n), type_: t }).collect(),
        methods,
    })
}

fn enum_def(name: &str, variants: &[&str]) -> Definition {
    Definition::Enum(EnumDefinition {
        location: loc(),
        name: ident(name),
        visibility: Visibility::Public,
        variants: variants.iter().map(|v| ident(v)).collect(),
    })
}

fn type_def(name: &str, t: Type) -> Definition {
    Definition::Type(TypeDefinition { location: loc(), name: ident(name), ty: t })
}

fn const_def(name: &str, t: Type, value: Literal) -> Definition {
    Definition::Constant(ConstantDefinition { id: id(), location: loc(), name: ident(name), ty: t, value })
}

fn spec_def(name: &str) -> Definition {
    Definition::Spec(SpecDefinition { location: loc(), name: ident(name) })
}

fn external_fn(name: &str, args: Vec<ArgumentType>, returns: Option<Type>) -> Definition {
    Definition::ExternalFunction(ExternalFunctionDefinition {
        location: loc(),
        name: ident(name),
        arguments: if args.is_empty() { None } else { Some(args) },
        returns,
    })
}

fn module_def(name: &str, visibility: Visibility, body: Vec<Definition>) -> Definition {
    Definition::Module(ModuleDefinition { location: loc(), name: ident(name), visibility, body: Some(body) })
}

fn use_directive(path: &[&str], items: &[&str]) -> Directive {
    Directive::Use(UseDirective {
        location: loc(),
        segments: Some(path.iter().map(|s| ident(s)).collect()),
        imported_types: if items.is_empty() { None } else { Some(items.iter().map(|s| ident(s)).collect()) },
    })
}

fn file(definitions: Vec<Definition>) -> SourceFile {
    SourceFile { directives: Vec::new(), definitions }
}

/// Runs the checker over one file; the context on success, the joined messages on failure.
fn try_type_check(definitions: Vec<Definition>) -> Result<TypedContext, String> {
    try_type_check_file(file(definitions))
}

fn try_type_check_file(f: SourceFile) -> Result<TypedContext, String> {
    let mut ctx = TypedContext::new(vec![f]);
    let mut checker = TypeChecker::new();
    match checker.infer_types(&mut ctx) {
        Ok(_) => Ok(ctx),
        Err(e) => Err(e.to_string()),
    }
}

fn kind_of(ctx: &TypedContext, node: u32) -> Option<TypeInfoKind> {
    ctx.get_node_typeinfo(node).map(|t| t.kind)
}

fn same_kind(a: &TypeInfoKind, b: &TypeInfoKind) -> bool {
    format!("{:?}", a) == format!("{:?}", b)
}

/// The top-level functions of the checked files.
fn functions(ctx: &TypedContext) -> Vec<&FunctionDefinition> {
    let mut r = Vec::new();
    for f in &ctx.source_files {
        for d in &f.definitions {
            if let Definition::Function(fd) = d {
                r.push(fd);
            }
        }
    }
    r
}

fn walk_expression<'a>(e: &'a Expression, out: &mut Vec<&'a Expression>) {
    out.push(e);
    match e {
        Expression::ArrayIndexAccess(a) => {
            walk_expression(&a.array, out);
            walk_expression(&a.index, out);
        }
        Expression::MemberAccess(m) => walk_expression(&m.expression, out),
        Expression::TypeMemberAccess(t) => walk_expression(&t.expression, out),
        Expression::FunctionCall(f) => {
            walk_expression(&f.function, out);
            if let Some(args) = &f.arguments {
                for (_, a) in args {
                    walk_expression(a, out);
                }
            }
        }
        Expression::PrefixUnary(p) => walk_expression(&p.expression, out),
        Expression::Parenthesized(p) => walk_expression(&p.expression, out),
        Expression::Binary(b) => {
            walk_expression(&b.left, out);
            walk_expression(&b.right, out);
        }
        Expression::Literal(Literal::Array(a)) => {
            if let Some(els) = &a.elements {
                for x in els {
                    walk_expression(x, out);
                }
            }
        }
        _ => {}
    }
}

fn walk_statement<'a>(s: &'a Statement, stmts: &mut Vec<&'a Statement>, exprs: &mut Vec<&'a Expression>) {
    stmts.push(s);
    match s {
        Statement::Assign(a) => {
            walk_expression(&a.left, exprs);
            walk_expression(&a.right, exprs);
        }
        Statement::Block(b) => walk_statements(b, stmts, exprs),
        Statement::Expression(e) => walk_expression(e, exprs),
        Statement::Return(r) => walk_expression(&r.expression, exprs),
        Statement::Loop(l) => {
            if let Some(c) = &l.condition {
                walk_expression(c, exprs);
            }
            walk_statements(&l.body, stmts, exprs);
        }
        Statement::If(i) => {
            walk_expression(&i.condition, exprs);
            walk_statements(&i.if_arm, stmts, exprs);
            if let Some(e) = &i.else_arm {
                walk_statements(e, stmts, exprs);
            }
        }
        Statement::VariableDefinition(v) => {
            if let Some(e) = &v.value {
                walk_expression(e, exprs);
            }
        }
        Statement::Assert(a) => walk_expression(&a.expression, exprs),
        _ => {}
    }
}

fn walk_statements<'a>(ss: &'a [Statement], stmts: &mut Vec<&'a Statement>, exprs: &mut Vec<&'a Expression>) {
    for s in ss {
        walk_statement(s, stmts, exprs);
    }
}

fn walk_definitions<'a>(ds: &'a [Definition], stmts: &mut Vec<&'a Statement>, exprs: &mut Vec<&'a Expression>) {
    for d in ds {
        match d {
            Definition::Function(f) => walk_statements(&f.body, stmts, exprs),
            Definition::Struct(s) => {
                for m in &s.methods {
                    walk_statements(&m.body, stmts, exprs);
                }
            }
            Definition::Module(m) => {
                if let Some(b) = &m.body {
                    walk_definitions(b, stmts, exprs);
                }
            }
            _ => {}
        }
    }
}

/// Every expression of the checked files, outermost first.
fn expressions(ctx: &TypedContext) -> Vec<&Expression> {
    let mut stmts = Vec::new();
    let mut exprs = Vec::new();
    for f in &ctx.source_files {
        walk_definitions(&f.definitions, &mut stmts, &mut exprs);
    }
    exprs
}

/// Every statement of the checked files, outermost first.
fn statements(ctx: &TypedContext) -> Vec<&Statement> {
    let mut stmts = Vec::new();
    let mut exprs = Vec::new();
    for f in &ctx.source_files {
        walk_definitions(&f.definitions, &mut stmts, &mut exprs);
    }
    stmts
}

fn binaries(ctx: &TypedContext) -> Vec<&BinaryExpression> {
    expressions(ctx).into_iter().filter_map(|e| if let Expression::Binary(b) = e { Some(&**b) } else { None }).collect()
}

fn calls(ctx: &TypedContext) -> Vec<&FunctionCallExpression> {
    expressions(ctx).into_iter().filter_map(|e| if let Expression::FunctionCall(c) = e { Some(&**c) } else { None }).collect()
}

fn member_accesses(ctx: &TypedContext) -> Vec<&MemberAccessExpression> {
    expressions(ctx).into_iter().filter_map(|e| if let Expression::MemberAccess(m) = e { Some(&**m) } else { None }).collect()
}

fn identifiers(ctx: &TypedContext) -> Vec<&Identifier> {
    expressions(ctx).into_iter().filter_map(|e| if let Expression::Identifier(i) = e { Some(i) } else { None }).collect()
}

fn number_literals(ctx: &TypedContext) -> Vec<&NumberLiteral> {
    expressions(ctx)
        .into_iter()
        .filter_map(|e| if let Expression::Literal(Literal::Number(n)) = e { Some(n) } else { None })
        .collect()
}

fn variable_definitions(ctx: &TypedContext) -> Vec<&VariableDefinitionStatement> {
    statements(ctx)
        .into_iter()
        .filter_map(|s| if let Statement::VariableDefinition(v) = s { Some(v) } else { None })
        .collect()
}

const ALL_NUMBER_TYPES: [(NumberType, &str); 8] = [
    (NumberType::I8, "i8"),
    (NumberType::I16, "i16"),
    (NumberType::I32, "i32"),
    (NumberType::I64, "i64"),
    (NumberType::U8, "u8"),
    (NumberType::U16, "u16"),
    (NumberType::U32, "u32"),
    (NumberType::U64, "u64"),
];

fn empty_array_lit() -> Expression {
    Expression::Literal(Literal::Array(ArrayLiteral { id: id(), location: loc(), elements: None }))
}

// ---- statements ----

#[test]
fn test_if_without_else() {
    let result = try_type_check(vec![fn_def("test", vec![], Some(ty("i32")), vec![if_(boolean(true), vec![let_("x", ty("i32"), num("5"))], None), ret(num("42"))])]);
    assert!(result.is_ok(), "If without else should work, got: {:?}", result.err());
}

#[test]
fn test_if_with_else() {
    let result = try_type_check(vec![fn_def("test", vec![], Some(ty("i32")), vec![if_(boolean(true), vec![ret(num("1"))], Some(vec![ret(num("2"))]))])]);
    assert!(result.is_ok(), "If with else should work, got: {:?}", result.err());
}

#[test]
fn test_if_with_non_bool_condition() {
    let result = try_type_check(vec![fn_def("test", vec![], Some(ty("i32")), vec![if_(num("42"), vec![ret(num("1"))], None), ret(num("0"))])]);
    assert!(result.is_err(), "If with non-bool condition should fail");
    if let Err(error_msg) = result {
        assert!(error_msg.contains("type mismatch") || error_msg.contains("expected Bool"), "Error should mention type mismatch: {}", error_msg);
    }
}

#[test]
fn test_assert_statement_with_bool() {
    let result = try_type_check(vec![fn_def("test", vec![], Some(ty("i32")), vec![assert_(boolean(true)), ret(num("42"))])]);
    assert!(result.is_ok(), "Assert with bool should work, got: {:?}", result.err());
}

#[test]
fn test_assert_statement_with_non_bool() {
    let result = try_type_check(vec![fn_def("test", vec![], Some(ty("i32")), vec![assert_(num("42")), ret(num("0"))])]);
    assert!(result.is_err(), "Assert with non-bool should fail");
    if let Err(error_msg) = result {
        assert!(error_msg.contains("type mismatch") || error_msg.contains("expected Bool"), "Error should mention type mismatch: {}", error_msg);
    }
}

#[test]
fn test_constant_definition_statement() {
    let result = try_type_check(vec![fn_def("test", vec![], Some(ty("i32")), vec![const_stmt("MY_CONST", ty("i32"), number_literal("42")), ret(var("MY_CONST"))])]);
    assert!(result.is_ok(), "Constant definition should work, got: {:?}", result.err());
}

#[test]
fn test_variable_definition_with_initializer() {
    let result = try_type_check(vec![fn_def("test", vec![], Some(ty("i32")), vec![let_("x", ty("i32"), num("42")), ret(var("x"))])]);
    assert!(result.is_ok(), "Variable with initializer should work, got: {:?}", result.err());
}

#[test]
fn test_variable_definition_without_initializer() {
    let result = try_type_check(vec![fn_def("test", vec![], Some(ty("i32")), vec![decl("x", ty("i32")), ret(num("42"))])]);
    assert!(result.is_ok(), "Variable without initializer should work, got: {:?}", result.err());
}

#[test]
fn test_variable_definition_type_mismatch() {
    let result = try_type_check(vec![fn_def("test", vec![], Some(ty("i32")), vec![let_("x", ty("i32"), boolean(true)), ret(var("x"))])]);
    assert!(result.is_err(), "Variable definition with type mismatch should fail");
    if let Err(error_msg) = result {
        assert!(error_msg.contains("type mismatch"), "Error should mention type mismatch: {}", error_msg);
    }
}

#[test]
fn test_expression_statement() {
    let result = try_type_check(vec![fn_def("test", vec![], Some(ty("i32")), vec![expr_stmt(num("42")), ret(num("0"))])]);
    assert!(result.is_ok(), "Expression statement should work, got: {:?}", result.err());
}

#[test]
fn test_block_statement() {
    let result = try_type_check(vec![fn_def("test", vec![], Some(ty("i32")), vec![Statement::Block(vec![let_("x", ty("i32"), num("5"))]), ret(num("42"))])]);
    assert!(result.is_ok(), "Block statement should work, got: {:?}", result.err());
}

#[test]
fn test_nested_blocks() {
    let result = try_type_check(vec![fn_def("test", vec![], Some(ty("i32")), vec![Statement::Block(vec![Statement::Block(vec![let_("x", ty("i32"), num("1"))]), let_("y", ty("i32"), num("2"))]), ret(num("42"))])]);
    assert!(result.is_ok(), "Nested blocks should work, got: {:?}", result.err());
}

#[test]
fn test_assign_statement() {
    let result = try_type_check(vec![fn_def("test", vec![], Some(ty("i32")), vec![let_("x", ty("i32"), num("0")), assign(var("x"), num("42")), ret(var("x"))])]);
    assert!(result.is_ok(), "Assignment statement should work, got: {:?}", result.err());
}

#[test]
fn test_assign_statement_type_mismatch() {
    let result = try_type_check(vec![fn_def("test", vec![], Some(ty("i32")), vec![let_("x", ty("i32"), num("0")), assign(var("x"), boolean(true)), ret(var("x"))])]);
    assert!(result.is_err(), "Assignment with type mismatch should fail");
    if let Err(error_msg) = result {
        assert!(error_msg.contains("type mismatch"), "Error should mention type mismatch: {}", error_msg);
    }
}

#[test]
fn test_assign_uzumaki_to_variable() {
    let result = try_type_check(vec![fn_def("test", vec![], Some(ty("i32")), vec![decl("x", ty("i32")), assign(var("x"), uzumaki()), ret(var("x"))])]);
    assert!(result.is_ok(), "Assigning uzumaki to variable should work, got: {:?}", result.err());
}

#[test]
fn test_return_uzumaki() {
    let result = try_type_check(vec![fn_def("test", vec![], Some(ty("i32")), vec![ret(uzumaki())])]);
    assert!(result.is_ok(), "Returning uzumaki should work, got: {:?}", result.err());
}

// ---- expressions ----

#[test]
fn test_parenthesized_expression() {
    let result = try_type_check(vec![fn_def("test", vec![], Some(ty("i32")), vec![ret(paren(num("42")))])]);
    assert!(result.is_ok(), "Parenthesized expression should work, got: {:?}", result.err());
}

#[test]
fn test_nested_parenthesized_expression() {
    let result = try_type_check(vec![fn_def("test", vec![], Some(ty("i32")), vec![ret(paren(paren(paren(num("42")))))])]);
    assert!(result.is_ok(), "Nested parenthesized expression should work, got: {:?}", result.err());
}

#[test]
fn test_array_literal_empty() {
    let result = try_type_check(vec![fn_def("test", vec![], Some(ty("i32")), vec![let_("arr", array_t(ty("i32"), "0"), empty_array_lit()), ret(num("42"))])]);
    assert!(result.is_ok(), "Empty array literal should work, got: {:?}", result.err());
}

#[test]
fn test_array_literal_single_element() {
    let result = try_type_check(vec![fn_def("test", vec![], Some(ty("i32")), vec![let_("arr", array_t(ty("i32"), "1"), array_lit(vec![num("42")])), ret(index(var("arr"), num("0")))])]);
    assert!(result.is_ok(), "Single element array should work, got: {:?}", result.err());
}

#[test]
fn test_array_index_with_identifier() {
    let result = try_type_check(vec![fn_def("test", vec![], Some(ty("i32")), vec![let_("arr", array_t(ty("i32"), "3"), array_lit(vec![num("1"), num("2"), num("3")])), let_("idx", ty("i32"), num("0")), ret(index(var("arr"), var("idx")))])]);
    assert!(result.is_ok(), "Array indexing with identifier should work, got: {:?}", result.err());
}

#[test]
fn test_array_index_with_non_numeric() {
    let result = try_type_check(vec![fn_def("test", vec![], Some(ty("i32")), vec![let_("arr", array_t(ty("i32"), "3"), array_lit(vec![num("1"), num("2"), num("3")])), ret(index(var("arr"), boolean(true)))])]);
    assert!(result.is_err(), "Array indexing with non-numeric should fail");
    if let Err(error_msg) = result {
        assert!(error_msg.contains("array index") || error_msg.contains("numeric"), "Error should mention array index type: {}", error_msg);
    }
}

#[test]
fn test_literal_bool_true() {
    let result = try_type_check(vec![fn_def("test", vec![], Some(ty("bool")), vec![ret(boolean(true))])]);
    assert!(result.is_ok(), "Bool literal true should work, got: {:?}", result.err());
}

#[test]
fn test_literal_bool_false() {
    let result = try_type_check(vec![fn_def("test", vec![], Some(ty("bool")), vec![ret(boolean(false))])]);
    assert!(result.is_ok(), "Bool literal false should work, got: {:?}", result.err());
}

#[test]
fn test_literal_unit() {
    let result = try_type_check(vec![fn_def("test", vec![], None, vec![ret(unit_lit())])]);
    assert!(result.is_ok(), "Unit literal should work, got: {:?}", result.err());
}

#[test]
fn test_binary_comparison_eq() {
    let result = try_type_check(vec![fn_def("test", vec![], Some(ty("bool")), vec![ret(bin(OperatorKind::Eq, num("1"), num("1")))])]);
    assert!(result.is_ok(), "Equality comparison should work, got: {:?}", result.err());
}

#[test]
fn test_binary_comparison_ne() {
    let result = try_type_check(vec![fn_def("test", vec![], Some(ty("bool")), vec![ret(bin(OperatorKind::Ne, num("1"), num("2")))])]);
    assert!(result.is_ok(), "Not equal comparison should work, got: {:?}", result.err());
}

#[test]
fn test_binary_comparison_lt() {
    let result = try_type_check(vec![fn_def("test", vec![], Some(ty("bool")), vec![ret(bin(OperatorKind::Lt, num("1"), num("2")))])]);
    assert!(result.is_ok(), "Less than comparison should work, got: {:?}", result.err());
}

#[test]
fn test_binary_comparison_le() {
    let result = try_type_check(vec![fn_def("test", vec![], Some(ty("bool")), vec![ret(bin(OperatorKind::Le, num("1"), num("2")))])]);
    assert!(result.is_ok(), "Less than or equal comparison should work, got: {:?}", result.err());
}

#[test]
fn test_binary_comparison_gt() {
    let result = try_type_check(vec![fn_def("test", vec![], Some(ty("bool")), vec![ret(bin(OperatorKind::Gt, num("2"), num("1")))])]);
    assert!(result.is_ok(), "Greater than comparison should work, got: {:?}", result.err());
}

#[test]
fn test_binary_comparison_ge() {
    let result = try_type_check(vec![fn_def("test", vec![], Some(ty("bool")), vec![ret(bin(OperatorKind::Ge, num("2"), num("1")))])]);
    assert!(result.is_ok(), "Greater than or equal comparison should work, got: {:?}", result.err());
}

#[test]
fn test_binary_logical_and() {
    let result = try_type_check(vec![fn_def("test", vec![], Some(ty("bool")), vec![ret(bin(OperatorKind::And, boolean(true), boolean(false)))])]);
    assert!(result.is_ok(), "Logical AND should work, got: {:?}", result.err());
}

#[test]
fn test_binary_logical_or() {
    let result = try_type_check(vec![fn_def("test", vec![], Some(ty("bool")), vec![ret(bin(OperatorKind::Or, boolean(true), boolean(false)))])]);
    assert!(result.is_ok(), "Logical OR should work, got: {:?}", result.err());
}

#[test]
fn test_binary_logical_and_non_bool() {
    let result = try_type_check(vec![fn_def("test", vec![], Some(ty("bool")), vec![ret(bin(OperatorKind::And, num("1"), num("2")))])]);
    assert!(result.is_err(), "Logical AND with non-bool should fail");
    if let Err(error_msg) = result {
        assert!(error_msg.contains("invalid") || error_msg.contains("logical"), "Error should mention invalid logical operand: {}", error_msg);
    }
}

#[test]
fn test_binary_logical_or_non_bool() {
    let result = try_type_check(vec![fn_def("test", vec![], Some(ty("bool")), vec![ret(bin(OperatorKind::Or, num("1"), num("2")))])]);
    assert!(result.is_err(), "Logical OR with non-bool should fail");
    if let Err(error_msg) = result {
        assert!(error_msg.contains("invalid") || error_msg.contains("logical"), "Error should mention invalid logical operand: {}", error_msg);
    }
}

#[test]
fn test_binary_arithmetic_pow() {
    let result = try_type_check(vec![fn_def("test", vec![], Some(ty("i32")), vec![ret(bin(OperatorKind::Pow, num("2"), num("3")))])]);
    assert!(result.is_ok(), "Power operation should work, got: {:?}", result.err());
}

#[test]
fn test_binary_arithmetic_mod() {
    let result = try_type_check(vec![fn_def("test", vec![], Some(ty("i32")), vec![ret(bin(OperatorKind::Mod, num("10"), num("3")))])]);
    assert!(result.is_ok(), "Modulo operation should work, got: {:?}", result.err());
}

#[test]
fn test_binary_bitwise_and() {
    let result = try_type_check(vec![fn_def("test", vec![], Some(ty("i32")), vec![ret(bin(OperatorKind::BitAnd, num("5"), num("3")))])]);
    assert!(result.is_ok(), "Bitwise AND should work, got: {:?}", result.err());
}

#[test]
fn test_binary_bitwise_or() {
    let result = try_type_check(vec![fn_def("test", vec![], Some(ty("i32")), vec![ret(bin(OperatorKind::BitOr, num("5"), num("3")))])]);
    assert!(result.is_ok(), "Bitwise OR should work, got: {:?}", result.err());
}

#[test]
fn test_binary_bitwise_xor() {
    let result = try_type_check(vec![fn_def("test", vec![], Some(ty("i32")), vec![ret(bin(OperatorKind::BitXor, num("5"), num("3")))])]);
    assert!(result.is_ok(), "Bitwise XOR should work, got: {:?}", result.err());
}

#[test]
fn test_binary_shift_left() {
    let result = try_type_check(vec![fn_def("test", vec![], Some(ty("i32")), vec![ret(bin(OperatorKind::Shl, num("1"), num("3")))])]);
    assert!(result.is_ok(), "Shift left should work, got: {:?}", result.err());
}

#[test]
fn test_binary_shift_right() {
    let result = try_type_check(vec![fn_def("test", vec![], Some(ty("i32")), vec![ret(bin(OperatorKind::Shr, num("8"), num("2")))])]);
    assert!(result.is_ok(), "Shift right should work, got: {:?}", result.err());
}

#[test]
fn test_binary_arithmetic_with_non_number() {
    let result = try_type_check(vec![fn_def("test", vec![], Some(ty("i32")), vec![ret(bin(OperatorKind::Add, boolean(true), boolean(false)))])]);
    assert!(result.is_err(), "Arithmetic on non-numbers should fail");
    if let Err(error_msg) = result {
        assert!(error_msg.contains("invalid") || error_msg.contains("arithmetic"), "Error should mention invalid arithmetic operand: {}", error_msg);
    }
}

#[test]
fn test_unary_not_on_bool() {
    let result = try_type_check(vec![fn_def("test", vec![], Some(ty("bool")), vec![ret(not(boolean(true)))])]);
    assert!(result.is_ok(), "Unary NOT on bool should work, got: {:?}", result.err());
}

#[test]
fn test_unary_not_on_non_bool() {
    let result = try_type_check(vec![fn_def("test", vec![], Some(ty("i32")), vec![ret(not(num("42")))])]);
    assert!(result.is_err(), "Unary NOT on non-bool should fail");
    if let Err(error_msg) = result {
        assert!(error_msg.contains("unary operator") || error_msg.contains("booleans"), "Error should mention unary operator or booleans: {}", error_msg);
    }
}

#[test]
fn test_unary_neg_on_signed_integer() {
    let result = try_type_check(vec![fn_def("test", vec![], Some(ty("i32")), vec![ret(neg(num("42")))])]);
    assert!(result.is_ok(), "Unary neg on signed integer should work, got: {:?}", result.err());
}

#[test]
fn test_unary_neg_on_signed_i64() {
    let result = try_type_check(vec![fn_def("test", vec![arg("x", ty("i64"))], Some(ty("i64")), vec![ret(neg(var("x")))])]);
    assert!(result.is_ok(), "Unary neg on i64 should work, got: {:?}", result.err());
}

#[test]
fn test_unary_neg_on_unsigned_integer() {
    let result = try_type_check(vec![fn_def("test", vec![arg("u", ty("u32"))], Some(ty("u32")), vec![ret(neg(var("u")))])]);
    assert!(result.is_err(), "Unary neg on unsigned integer should fail");
    if let Err(error_msg) = result {
        assert!(error_msg.contains("unary operator") || error_msg.contains("signed"), "Error should mention unary operator or signed: {}", error_msg);
    }
}

#[test]
fn test_unary_neg_on_bool() {
    let result = try_type_check(vec![fn_def("test", vec![], Some(ty("bool")), vec![ret(neg(boolean(true)))])]);
    assert!(result.is_err(), "Unary neg on bool should fail");
    if let Err(error_msg) = result {
        assert!(error_msg.contains("unary operator") || error_msg.contains("signed"), "Error should mention unary operator or signed: {}", error_msg);
    }
}

#[test]
fn test_unary_bitnot_on_signed_integer() {
    let result = try_type_check(vec![fn_def("test", vec![], Some(ty("i32")), vec![ret(bitnot(num("42")))])]);
    assert!(result.is_ok(), "Unary bitnot on signed integer should work, got: {:?}", result.err());
}

#[test]
fn test_unary_bitnot_on_unsigned_integer() {
    let result = try_type_check(vec![fn_def("test", vec![arg("u", ty("u32"))], Some(ty("u32")), vec![ret(bitnot(var("u")))])]);
    assert!(result.is_ok(), "Unary bitnot on unsigned integer should work, got: {:?}", result.err());
}

#[test]
fn test_unary_bitnot_on_bool() {
    let result = try_type_check(vec![fn_def("test", vec![], Some(ty("bool")), vec![ret(bitnot(boolean(true)))])]);
    assert!(result.is_err(), "Unary bitnot on bool should fail");
    if let Err(error_msg) = result {
        assert!(error_msg.contains("unary operator") || error_msg.contains("integers"), "Error should mention unary operator or integers: {}", error_msg);
    }
}

#[test]
fn test_unary_neg_nested() {
    let result = try_type_check(vec![fn_def("test", vec![], Some(ty("i32")), vec![ret(neg(neg(num("42"))))])]);
    assert!(result.is_err(), "Double unary neg should be prohibited");
    if let Err(error_msg) = result {
        assert!(error_msg.contains("combined unary operators"), "Error should mention combined unary operators: {}", error_msg);
    }
}

#[test]
fn test_struct_expression_undefined() {
    let result = try_type_check(vec![fn_def("test", vec![], Some(ty("UndefinedStruct")), vec![ret(struct_value("UndefinedStruct"))])]);
    assert!(result.is_err(), "Undefined struct expression should fail");
    if let Err(error_msg) = result {
        assert!(error_msg.contains("UndefinedStruct") || error_msg.contains("not defined"), "Error should mention undefined struct: {}", error_msg);
    }
}

#[test]
fn test_member_access_on_struct() {
    let result = try_type_check(vec![struct_def("Point", vec![("x", ty("i32")), ("y", ty("i32"))], vec![]), fn_def("test", vec![arg("p", ty("Point"))], Some(ty("i32")), vec![ret(member(var("p"), "x"))])]);
    assert!(result.is_ok(), "Member access on struct should work, got: {:?}", result.err());
}

#[test]
fn test_member_access_field_not_found() {
    let result = try_type_check(vec![struct_def("Point", vec![("x", ty("i32")), ("y", ty("i32"))], vec![]), fn_def("test", vec![arg("p", ty("Point"))], Some(ty("i32")), vec![ret(member(var("p"), "z"))])]);
    assert!(result.is_err(), "Member access to non-existent field should fail");
    if let Err(error_msg) = result {
        assert!(error_msg.contains("field") && error_msg.contains("not found"), "Error should mention field not found: {}", error_msg);
    }
}

#[test]
fn test_method_call_on_struct() {
    let result = try_type_check(vec![struct_def("Counter", vec![("value", ty("i32"))], vec![function("get", vec![self_arg()], Some(ty("i32")), vec![ret(member(var("self"), "value"))])]), fn_def("test", vec![arg("c", ty("Counter"))], Some(ty("i32")), vec![ret(method_call(var("c"), "get", vec![]))])]);
    assert!(result.is_ok(), "Method call on struct should work, got: {:?}", result.err());
}

#[test]
fn test_method_call_not_found() {
    let result = try_type_check(vec![struct_def("Point", vec![("x", ty("i32"))], vec![]), fn_def("test", vec![arg("p", ty("Point"))], Some(ty("i32")), vec![ret(method_call(var("p"), "missing_method", vec![]))])]);
    assert!(result.is_err(), "Method call to non-existent method should fail");
    if let Err(error_msg) = result {
        assert!(error_msg.contains("method") && error_msg.contains("not found"), "Error should mention method not found: {}", error_msg);
    }
}

// ---- type validation ----

#[test]
fn test_validate_array_type() {
    let result = try_type_check(vec![fn_def("test", vec![arg("arr", array_t(ty("UnknownType"), "3"))], Some(ty("i32")), vec![ret(num("42"))])]);
    assert!(result.is_err(), "Array with unknown element type should fail");
    if let Err(error_msg) = result {
        assert!(error_msg.contains("UnknownType") || error_msg.contains("unknown type"), "Error should mention unknown type: {}", error_msg);
    }
}

#[test]
fn test_validate_generic_type_base() {
    let result = try_type_check(vec![fn_def("test", vec![arg("val", generic_t("UnknownGeneric", &["i32"]))], Some(ty("i32")), vec![ret(num("42"))])]);
    assert!(result.is_err(), "Generic with unknown base type should fail");
}

#[test]
fn test_validate_custom_type_known() {
    let result = try_type_check(vec![type_def("MyType", ty("i32")), fn_def("test", vec![arg("val", ty("MyType"))], Some(ty("MyType")), vec![ret(var("val"))])]);
    assert!(result.is_ok(), "Custom type that exists should work, got: {:?}", result.err());
}

#[test]
fn test_validate_custom_type_is_type_parameter() {
    let result = try_type_check(vec![Definition::Function(generic(function("test", vec![arg("val", ty("T"))], Some(ty("T")), vec![ret(var("val"))]), &["T"]))]);
    assert!(result.is_ok(), "Type parameter as custom type should work, got: {:?}", result.err());
}

#[test]
fn test_ignore_argument_type_validation() {
    let result = try_type_check(vec![fn_def("test", vec![ignored(ty("UnknownType"))], Some(ty("i32")), vec![ret(num("42"))])]);
    assert!(result.is_err(), "Ignore argument with unknown type should fail");
}

#[test]
fn test_argument_type_in_arguments() {
    let result = try_type_check(vec![fn_def("test", vec![ArgumentType::Type(ty("i32"))], Some(ty("i32")), vec![ret(num("42"))])]);
    assert!(result.is_ok(), "ArgumentType::Type should work, got: {:?}", result.err());
}

// ---- function registration ----

#[test]
fn test_self_reference_in_function() {
    let result = try_type_check(vec![fn_def("test", vec![self_arg()], Some(ty("i32")), vec![ret(num("42"))])]);
    assert!(result.is_err(), "Self reference in function should fail");
    if let Err(error_msg) = result {
        assert!(error_msg.contains("self") || error_msg.contains("method"), "Error should mention self reference issue: {}", error_msg);
    }
}

#[test]
fn test_constant_definition_at_module_level() {
    let result = try_type_check(vec![const_def("MY_CONST", ty("i32"), number_literal("42")), fn_def("test", vec![], Some(ty("i32")), vec![ret(var("MY_CONST"))])]);
    assert!(result.is_ok(), "Module-level constant should work, got: {:?}", result.err());
}

// ---- generic type inference ----

#[test]
fn test_type_parameter_count_mismatch_explicit() {
    let result = try_type_check(vec![Definition::Function(generic(function("identity", vec![arg("x", ty("T"))], Some(ty("T")), vec![ret(var("x"))]), &["T"])), fn_def("test", vec![], Some(ty("i32")), vec![ret(call("identity", vec![num("42")]))])] );
    assert!(result.is_ok() || result.is_err(), "Type parameter inference should either work or fail gracefully");
}

#[test]
fn test_conflicting_type_inference() {
    let result = try_type_check(vec![Definition::Function(generic(function("first", vec![arg("a", ty("T")), arg("b", ty("T"))], Some(ty("T")), vec![ret(var("a"))]), &["T"])), fn_def("test", vec![], Some(ty("i32")), vec![ret(call("first", vec![num("42"), boolean(true)]))])]);
    assert!(result.is_err(), "Conflicting type inference should fail");
    if let Err(error_msg) = result {
        assert!(error_msg.contains("conflicting") || error_msg.contains("type"), "Error should mention type conflict: {}", error_msg);
    }
}

#[test]
fn test_cannot_infer_type_parameter() {
    let result = try_type_check(vec![Definition::Function(generic(function("identity", vec![arg("x", ty("T"))], Some(ty("T")), vec![ret(var("x"))]), &["T"])), fn_def("test", vec![], Some(ty("i32")), vec![ret(call("identity", vec![num("42")]))])] );
    assert!(result.is_ok() || result.is_err(), "Type parameter inference should either work or fail gracefully");
}

// ---- imports ----

#[test]
fn test_import_with_self_keyword() {
    let result = try_type_check_file(SourceFile { directives: vec![use_directive(&["self", "Item"], &[])], definitions: vec![fn_def("test", vec![], Some(ty("i32")), vec![ret(num("42"))])] });
    assert!(result.is_err(), "Import with self should fail when item doesn't exist");
}

#[test]
fn test_partial_import_nonexistent_path() {
    let result = try_type_check_file(SourceFile { directives: vec![use_directive(&["std", "nonexistent", "Type"], &[])], definitions: vec![fn_def("test", vec![], Some(ty("i32")), vec![ret(num("42"))])] });
    assert!(result.is_err(), "Import from nonexistent path should fail");
}

// ---- symbol table, type info, visibility ----

#[test]
fn test_spec_registration() {
    let result = try_type_check(vec![spec_def("Comparable"), fn_def("test", vec![], Some(ty("i32")), vec![ret(num("42"))])]);
    assert!(result.is_ok(), "Spec registration should work, got: {:?}", result.err());
}

#[test]
fn test_type_info_is_array() {
    let result = try_type_check(vec![fn_def("test", vec![arg("arr", array_t(ty("i32"), "3"))], Some(ty("i32")), vec![ret(index(var("arr"), num("0")))])]);
    assert!(result.is_ok(), "Array type should be recognized, got: {:?}", result.err());
}

#[test]
fn test_type_info_is_struct() {
    let result = try_type_check(vec![struct_def("Point", vec![("x", ty("i32"))], vec![]), fn_def("test", vec![arg("p", ty("Point"))], Some(ty("i32")), vec![ret(member(var("p"), "x"))])]);
    assert!(result.is_ok(), "Struct type should be recognized, got: {:?}", result.err());
}

#[test]
fn test_type_info_qualified_name() {
    let result = try_type_check(vec![fn_def("test", vec![], Some(ty("i32")), vec![ret(num("42"))])]);
    assert!(result.is_ok(), "Basic function should work, got: {:?}", result.err());
}

#[test]
fn test_type_info_function_type() {
    let result = try_type_check(vec![fn_def("test", vec![], Some(ty("i32")), vec![ret(num("42"))])]);
    assert!(result.is_ok(), "Function type should work, got: {:?}", result.err());
}

#[test]
fn test_scope_descendant_check() {
    let result = try_type_check(vec![fn_def("test", vec![], Some(ty("i32")), vec![Statement::Block(vec![let_("x", ty("i32"), num("42"))]), ret(num("0"))])]);
    assert!(result.is_ok(), "Nested scopes should work, got: {:?}", result.err());
}

#[test]
fn test_symbol_is_public_check() {
    let result = try_type_check(vec![struct_def("PublicStruct", vec![("x", ty("i32"))], vec![]), fn_def("test", vec![arg("s", ty("PublicStruct"))], Some(ty("i32")), vec![ret(member(var("s"), "x"))])]);
    assert!(result.is_ok(), "Public symbol check should work, got: {:?}", result.err());
}

// ---- edge cases ----

#[test]
fn test_method_without_self() {
    let result = try_type_check(vec![struct_def("Math", vec![], vec![function("add", vec![arg("a", ty("i32")), arg("b", ty("i32"))], Some(ty("i32")), vec![ret(bin(OperatorKind::Add, var("a"), var("b")))])]), fn_def("test", vec![], Some(ty("i32")), vec![ret(num("42"))])]);
    assert!(result.is_ok(), "Method without self should register, got: {:?}", result.err());
}

#[test]
fn test_multiple_type_parameters() {
    let result = try_type_check(vec![Definition::Function(generic(function("swap", vec![arg("a", ty("T")), arg("b", ty("U"))], Some(ty("U")), vec![ret(var("b"))]), &["T", "U"])), fn_def("test", vec![], Some(ty("bool")), vec![ret(call("swap", vec![num("42"), boolean(true)]))])]);
    assert!(result.is_ok(), "Multiple type parameters should work, got: {:?}", result.err());
}

#[test]
fn test_cached_array_index_type() {
    let result = try_type_check(vec![fn_def("test", vec![], Some(ty("i32")), vec![let_("arr", array_t(ty("i32"), "2"), array_lit(vec![num("1"), num("2")])), let_("x", ty("i32"), index(var("arr"), num("0"))), let_("y", ty("i32"), index(var("arr"), num("0"))), ret(bin(OperatorKind::Add, var("x"), var("y")))])]);
    assert!(result.is_ok(), "Cached array index type should work, got: {:?}", result.err());
}

#[test]
fn test_cached_member_access_type() {
    let result = try_type_check(vec![struct_def("Point", vec![("x", ty("i32"))], vec![]), fn_def("test", vec![arg("p", ty("Point"))], Some(ty("i32")), vec![let_("a", ty("i32"), member(var("p"), "x")), let_("b", ty("i32"), member(var("p"), "x")), ret(bin(OperatorKind::Add, var("a"), var("b")))])]);
    assert!(result.is_ok(), "Cached member access type should work, got: {:?}", result.err());
}

#[test]
fn test_cached_function_call_type() {
    let result = try_type_check(vec![fn_def("get_value", vec![], Some(ty("i32")), vec![ret(num("42"))]), fn_def("test", vec![], Some(ty("i32")), vec![let_("x", ty("i32"), call("get_value", vec![])), ret(var("x"))])]);
    assert!(result.is_ok(), "Function call type caching should work, got: {:?}", result.err());
}

#[test]
fn test_binary_expression_type_caching() {
    let result = try_type_check(vec![fn_def("test", vec![], Some(ty("i32")), vec![let_("x", ty("i32"), bin(OperatorKind::Add, num("1"), num("2"))), ret(var("x"))])]);
    assert!(result.is_ok(), "Binary expression type caching should work, got: {:?}", result.err());
}

#[test]
fn test_type_expression() {
    let result = try_type_check(vec![fn_def("test", vec![], Some(ty("i32")), vec![ret(num("42"))])]);
    assert!(result.is_ok(), "Type expression should work, got: {:?}", result.err());
}

#[test]
fn test_uzumaki_expression_cached() {
    let result = try_type_check(vec![fn_def("test", vec![], Some(ty("i32")), vec![let_("x", ty("i32"), uzumaki()), ret(var("x"))])]);
    assert!(result.is_ok(), "Uzumaki expression type caching should work, got: {:?}", result.err());
}

#[test]
fn test_number_literal_cached() {
    let result = try_type_check(vec![fn_def("test", vec![], Some(ty("i32")), vec![let_("x", ty("i32"), num("42")), ret(num("42"))])]);
    assert!(result.is_ok(), "Number literal type caching should work, got: {:?}", result.err());
}
