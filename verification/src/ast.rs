//! The source tree that the checker walks: definitions, statements,
//! expressions and type expressions, each node with its identifier and
//! source location.
use vstd::prelude::*;

verus! {

/// A span in the source text.
#[derive(Clone, Copy, Debug, PartialEq, Eq, Structural)]
pub struct Location {
    pub offset_start: u32,
    pub offset_end: u32,
    pub start_line: u32,
    pub start_column: u32,
    pub end_line: u32,
    pub end_column: u32,
}

/// Whether a definition may be used outside the scope that defines it.
#[derive(Clone, Copy, Debug, PartialEq, Eq, Structural)]
pub enum Visibility {
    Public,
    Private,
}

/// Binary operators.
#[derive(Clone, Copy, Debug, PartialEq, Eq, Structural)]
pub enum OperatorKind {
    Pow,
    Add,
    Sub,
    Mul,
    Div,
    Mod,
    And,
    Or,
    Eq,
    Ne,
    Lt,
    Le,
    Gt,
    Ge,
    BitAnd,
    BitOr,
    BitXor,
    BitNot,
    Shl,
    Shr,
}

/// Prefix unary operators.
#[derive(Clone, Copy, Debug, PartialEq, Eq, Structural)]
pub enum UnaryOperatorKind {
    Not,
    Neg,
    BitNot,
}

/// A name as written in the source.
#[derive(Debug)]
pub struct Identifier {
    pub id: u32,
    pub name: String,
    pub location: Location,
}

/// The builtin primitive types.
#[derive(Clone, Copy, Debug, PartialEq, Eq, Structural)]
pub enum SimpleTypeKind {
    Unit,
    Bool,
    I8,
    I16,
    I32,
    I64,
    U8,
    U16,
    U32,
    U64,
}

/// `[element_type; size]`
#[derive(Debug)]
pub struct TypeArray {
    pub id: u32,
    pub element_type: Type,
    pub size: Expression,
}

/// `Base<P1, P2, ..>`
#[derive(Debug)]
pub struct GenericType {
    pub id: u32,
    pub base: Identifier,
    pub parameters: Vec<Identifier>,
}

/// `fn(P1, P2) -> R`
#[derive(Debug)]
pub struct FunctionType {
    pub id: u32,
    pub parameters: Option<Vec<Type>>,
    pub returns: Option<Box<Type>>,
}

/// `qualifier::name`
#[derive(Debug)]
pub struct QualifiedName {
    pub id: u32,
    pub qualifier: Identifier,
    pub name: Identifier,
}

/// `alias::name`, where `alias` names an imported type.
#[derive(Debug)]
pub struct TypeQualifiedName {
    pub id: u32,
    pub alias: Identifier,
    pub name: Identifier,
}

/// A type expression.
#[derive(Debug)]
pub enum Type {
    Array(Box<TypeArray>),
    Simple(u32, SimpleTypeKind),
    Generic(GenericType),
    Function(FunctionType),
    QualifiedName(QualifiedName),
    Qualified(TypeQualifiedName),
    Custom(Identifier),
}

impl Type {
    /// The node identifier of the type expression.
    pub open spec fn spec_node_id(&self) -> u32 {
        match self {
            Type::Array(a) => a.id,
            Type::Simple(id, _) => *id,
            Type::Generic(g) => g.id,
            Type::Function(f) => f.id,
            Type::QualifiedName(q) => q.id,
            Type::Qualified(q) => q.id,
            Type::Custom(i) => i.id,
        }
    }

    /// The node identifier of the type expression.
    #[verifier::when_used_as_spec(spec_node_id)]
    pub fn node_id(&self) -> (r: u32)
        ensures
            r == self.spec_node_id(),
    {
        match self {
            Type::Array(a) => a.id,
            Type::Simple(id, _) => *id,
            Type::Generic(g) => g.id,
            Type::Function(f) => f.id,
            Type::QualifiedName(q) => q.id,
            Type::Qualified(q) => q.id,
            Type::Custom(i) => i.id,
        }
    }
}

/// `array[index]`
#[derive(Debug)]
pub struct ArrayIndexAccessExpression {
    pub id: u32,
    pub location: Location,
    pub array: Expression,
    pub index: Expression,
}

/// `expression.name`
#[derive(Debug)]
pub struct MemberAccessExpression {
    pub id: u32,
    pub location: Location,
    pub expression: Expression,
    pub name: Identifier,
}

/// `expression::name`
#[derive(Debug)]
pub struct TypeMemberAccessExpression {
    pub id: u32,
    pub location: Location,
    pub expression: Expression,
    pub name: Identifier,
}

/// A call `function<type_parameters>(arguments)`; each argument may carry a label.
#[derive(Debug)]
pub struct FunctionCallExpression {
    pub id: u32,
    pub location: Location,
    pub function: Expression,
    pub type_parameters: Option<Vec<Identifier>>,
    pub arguments: Option<Vec<(Option<Identifier>, Expression)>>,
}

/// A struct value `Name { .. }`.
#[derive(Debug)]
pub struct StructExpression {
    pub id: u32,
    pub location: Location,
    pub name: Identifier,
}

/// `operator expression`
#[derive(Debug)]
pub struct PrefixUnaryExpression {
    pub id: u32,
    pub location: Location,
    pub operator: UnaryOperatorKind,
    pub expression: Expression,
}

/// `(expression)`
#[derive(Debug)]
pub struct ParenthesizedExpression {
    pub id: u32,
    pub location: Location,
    pub expression: Expression,
}

/// `left operator right`
#[derive(Debug)]
pub struct BinaryExpression {
    pub id: u32,
    pub location: Location,
    pub operator: OperatorKind,
    pub left: Expression,
    pub right: Expression,
}

/// `[e1, e2, ..]`
#[derive(Debug)]
pub struct ArrayLiteral {
    pub id: u32,
    pub location: Location,
    pub elements: Option<Vec<Expression>>,
}

/// `true` or `false`
#[derive(Debug)]
pub struct BoolLiteral {
    pub id: u32,
    pub location: Location,
    pub value: bool,
}

/// A string literal.
#[derive(Debug)]
pub struct StringLiteral {
    pub id: u32,
    pub location: Location,
    pub value: String,
}

/// A number literal, as written.
#[derive(Debug)]
pub struct NumberLiteral {
    pub id: u32,
    pub location: Location,
    pub value: String,
}

/// `()`
#[derive(Debug)]
pub struct UnitLiteral {
    pub id: u32,
    pub location: Location,
}

/// Literal values.
#[derive(Debug)]
pub enum Literal {
    Array(ArrayLiteral),
    Bool(BoolLiteral),
    String(StringLiteral),
    Number(NumberLiteral),
    Unit(UnitLiteral),
}

impl Literal {
    /// The node identifier of the literal.
    pub open spec fn spec_node_id(&self) -> u32 {
        match self {
            Literal::Array(l) => l.id,
            Literal::Bool(l) => l.id,
            Literal::String(l) => l.id,
            Literal::Number(l) => l.id,
            Literal::Unit(l) => l.id,
        }
    }

    /// The node identifier of the literal.
    #[verifier::when_used_as_spec(spec_node_id)]
    pub fn node_id(&self) -> (r: u32)
        ensures
            r == self.spec_node_id(),
    {
        match self {
            Literal::Array(l) => l.id,
            Literal::Bool(l) => l.id,
            Literal::String(l) => l.id,
            Literal::Number(l) => l.id,
            Literal::Unit(l) => l.id,
        }
    }
}

/// The `@` placeholder whose type comes from its context.
#[derive(Debug)]
pub struct UzumakiExpression {
    pub id: u32,
    pub location: Location,
}

/// Expressions.
#[derive(Debug)]
pub enum Expression {
    ArrayIndexAccess(Box<ArrayIndexAccessExpression>),
    MemberAccess(Box<MemberAccessExpression>),
    TypeMemberAccess(Box<TypeMemberAccessExpression>),
    FunctionCall(Box<FunctionCallExpression>),
    Struct(StructExpression),
    PrefixUnary(Box<PrefixUnaryExpression>),
    Parenthesized(Box<ParenthesizedExpression>),
    Binary(Box<BinaryExpression>),
    Literal(Literal),
    Identifier(Identifier),
    Type(Type),
    Uzumaki(UzumakiExpression),
}

impl Expression {
    /// The node identifier of the expression.
    pub open spec fn spec_node_id(&self) -> u32 {
        match self {
            Expression::ArrayIndexAccess(e) => e.id,
            Expression::MemberAccess(e) => e.id,
            Expression::TypeMemberAccess(e) => e.id,
            Expression::FunctionCall(e) => e.id,
            Expression::Struct(e) => e.id,
            Expression::PrefixUnary(e) => e.id,
            Expression::Parenthesized(e) => e.id,
            Expression::Binary(e) => e.id,
            Expression::Literal(l) => l.spec_node_id(),
            Expression::Identifier(i) => i.id,
            Expression::Type(t) => t.spec_node_id(),
            Expression::Uzumaki(u) => u.id,
        }
    }

    /// The node identifier of the expression.
    #[verifier::when_used_as_spec(spec_node_id)]
    pub fn node_id(&self) -> (r: u32)
        ensures
            r == self.spec_node_id(),
    {
        match self {
            Expression::ArrayIndexAccess(e) => e.id,
            Expression::MemberAccess(e) => e.id,
            Expression::TypeMemberAccess(e) => e.id,
            Expression::FunctionCall(e) => e.id,
            Expression::Struct(e) => e.id,
            Expression::PrefixUnary(e) => e.id,
            Expression::Parenthesized(e) => e.id,
            Expression::Binary(e) => e.id,
            Expression::Literal(l) => l.node_id(),
            Expression::Identifier(i) => i.id,
            Expression::Type(t) => t.node_id(),
            Expression::Uzumaki(u) => u.id,
        }
    }
}

impl FunctionCallExpression {
    /// The name under which the call looks its callee up: the identifier
    /// called, or the member named by a member access.
    pub open spec fn spec_callee_name(&self) -> Seq<char> {
        match &self.function {
            Expression::Identifier(i) => i.name@,
            Expression::MemberAccess(m) => m.name.name@,
            Expression::TypeMemberAccess(m) => m.name.name@,
            _ => Seq::empty(),
        }
    }

    /// The name under which the call looks its callee up.
    pub fn name(&self) -> (r: String)
        ensures
            r@ == self.spec_callee_name(),
    {
        match &self.function {
            Expression::Identifier(i) => i.name.clone(),
            Expression::MemberAccess(m) => m.name.name.clone(),
            Expression::TypeMemberAccess(m) => m.name.name.clone(),
            _ => String::new(),
        }
    }
}

/// `self` as a parameter.
#[derive(Debug)]
pub struct SelfReference {
    pub id: u32,
    pub location: Location,
}

/// `_: Type`
#[derive(Debug)]
pub struct IgnoreArgument {
    pub id: u32,
    pub location: Location,
    pub ty: Type,
}

/// `name: Type`
#[derive(Debug)]
pub struct Argument {
    pub id: u32,
    pub location: Location,
    pub name: Identifier,
    pub ty: Type,
}

/// A parameter of a function or method.
#[derive(Debug)]
pub enum ArgumentType {
    SelfReference(SelfReference),
    IgnoreArgument(IgnoreArgument),
    Argument(Argument),
    Type(Type),
}

/// `left = right;`
#[derive(Debug)]
pub struct AssignStatement {
    pub location: Location,
    pub left: Expression,
    pub right: Expression,
}

/// `return expression;`
#[derive(Debug)]
pub struct ReturnStatement {
    pub location: Location,
    pub expression: Expression,
}

/// `loop { .. }` or `while condition { .. }`
#[derive(Debug)]
pub struct LoopStatement {
    pub location: Location,
    pub condition: Option<Expression>,
    pub body: Vec<Statement>,
}

/// `if condition { .. } else { .. }`
#[derive(Debug)]
pub struct IfStatement {
    pub location: Location,
    pub condition: Expression,
    pub if_arm: Vec<Statement>,
    pub else_arm: Option<Vec<Statement>>,
}

/// `let name: ty = value;`
#[derive(Debug)]
pub struct VariableDefinitionStatement {
    pub id: u32,
    pub location: Location,
    pub name: Identifier,
    pub ty: Type,
    pub value: Option<Expression>,
}

/// `type name = ty;`
#[derive(Debug)]
pub struct TypeDefinitionStatement {
    pub location: Location,
    pub name: Identifier,
    pub ty: Type,
}

/// `assert expression;`
#[derive(Debug)]
pub struct AssertStatement {
    pub location: Location,
    pub expression: Expression,
}

/// `const name: ty = value;`
#[derive(Debug)]
pub struct ConstantDefinition {
    pub id: u32,
    pub location: Location,
    pub name: Identifier,
    pub ty: Type,
    pub value: Literal,
}

/// Statements.
#[derive(Debug)]
pub enum Statement {
    Assign(AssignStatement),
    Block(Vec<Statement>),
    Expression(Expression),
    Return(ReturnStatement),
    Loop(LoopStatement),
    Break(Location),
    If(IfStatement),
    VariableDefinition(VariableDefinitionStatement),
    TypeDefinition(TypeDefinitionStatement),
    Assert(AssertStatement),
    ConstantDefinition(ConstantDefinition),
}

/// A function or method with its body.
#[derive(Debug)]
pub struct FunctionDefinition {
    pub location: Location,
    pub name: Identifier,
    pub visibility: Visibility,
    pub type_parameters: Option<Vec<Identifier>>,
    pub arguments: Option<Vec<ArgumentType>>,
    pub returns: Option<Type>,
    pub body: Vec<Statement>,
}

/// A function implemented outside the program.
#[derive(Debug)]
pub struct ExternalFunctionDefinition {
    pub location: Location,
    pub name: Identifier,
    pub arguments: Option<Vec<ArgumentType>>,
    pub returns: Option<Type>,
}

/// `type name = ty;` at module level.
#[derive(Debug)]
pub struct TypeDefinition {
    pub location: Location,
    pub name: Identifier,
    pub ty: Type,
}

/// A struct field.
#[derive(Debug)]
pub struct StructField {
    pub name: Identifier,
    pub type_: Type,
}

/// A struct with its fields and methods.
#[derive(Debug)]
pub struct StructDefinition {
    pub location: Location,
    pub name: Identifier,
    pub visibility: Visibility,
    pub fields: Vec<StructField>,
    pub methods: Vec<FunctionDefinition>,
}

/// An enum with its variants.
#[derive(Debug)]
pub struct EnumDefinition {
    pub location: Location,
    pub name: Identifier,
    pub visibility: Visibility,
    pub variants: Vec<Identifier>,
}

/// A specification block.
#[derive(Debug)]
pub struct SpecDefinition {
    pub location: Location,
    pub name: Identifier,
}

/// `mod name { body }`
#[derive(Debug)]
pub struct ModuleDefinition {
    pub location: Location,
    pub name: Identifier,
    pub visibility: Visibility,
    pub body: Option<Vec<Definition>>,
}

/// Top-level definitions.
#[derive(Debug)]
pub enum Definition {
    Type(TypeDefinition),
    Struct(StructDefinition),
    Enum(EnumDefinition),
    Spec(SpecDefinition),
    Constant(ConstantDefinition),
    Function(FunctionDefinition),
    ExternalFunction(ExternalFunctionDefinition),
    Module(ModuleDefinition),
}

/// `use a::b;` or `use a::b::{c, d};`
#[derive(Debug)]
pub struct UseDirective {
    pub location: Location,
    pub segments: Option<Vec<Identifier>>,
    pub imported_types: Option<Vec<Identifier>>,
}

/// Directives at the head of a source file.
#[derive(Debug)]
pub enum Directive {
    Use(UseDirective),
}

/// A parsed external module: its definitions.
#[derive(Debug)]
pub struct ParsedModule {
    pub definitions: Vec<Definition>,
}

/// The external modules available to a program, by name.
pub type ExternPrelude = Vec<(String, ParsedModule)>;

/// One parsed source file.
#[derive(Debug)]
pub struct SourceFile {
    pub directives: Vec<Directive>,
    pub definitions: Vec<Definition>,
}

} // verus!
