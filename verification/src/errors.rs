//! The errors the checker reports, and the text of their messages.
use vstd::prelude::*;

use crate::ast::{Location, OperatorKind, UnaryOperatorKind};
use crate::text::{decimal, usize_to_decimal};
use crate::type_info::{type_text, TypeInfo};

verus! {

/// Kind of symbol registration for registration error context.
#[derive(Debug, Clone, Copy, PartialEq, Eq, Structural)]
pub enum RegistrationKind {
    Type,
    Struct,
    Enum,
    Spec,
    Function,
    Method,
    Variable,
}

/// How a registration kind is named in messages.
pub open spec fn registration_kind_text(k: RegistrationKind) -> Seq<char> {
    match k {
        RegistrationKind::Type => "type"@,
        RegistrationKind::Struct => "struct"@,
        RegistrationKind::Enum => "enum"@,
        RegistrationKind::Spec => "spec"@,
        RegistrationKind::Function => "function"@,
        RegistrationKind::Method => "method"@,
        RegistrationKind::Variable => "variable"@,
    }
}

impl RegistrationKind {
    /// The name of the kind in messages (see `registration_kind_text`).
    pub fn to_str(self) -> (r: &'static str)
        ensures
            r@ == registration_kind_text(self),
    {
        proof {
            reveal_strlit("type");
            reveal_strlit("struct");
            reveal_strlit("enum");
            reveal_strlit("spec");
            reveal_strlit("function");
            reveal_strlit("method");
            reveal_strlit("variable");
        }
        match self {
            RegistrationKind::Type => "type",
            RegistrationKind::Struct => "struct",
            RegistrationKind::Enum => "enum",
            RegistrationKind::Spec => "spec",
            RegistrationKind::Function => "function",
            RegistrationKind::Method => "method",
            RegistrationKind::Variable => "variable",
        }
    }

    /// The name of the kind in messages, as an owned string.
    pub fn to_text(self) -> (r: String)
        ensures
            r@ == registration_kind_text(self),
    {
        String::from_str(self.to_str())
    }
}

/// The name of a binary operator as it appears in messages.
pub open spec fn operator_name(op: OperatorKind) -> Seq<char> {
    match op {
        OperatorKind::Pow => "Pow"@,
        OperatorKind::Add => "Add"@,
        OperatorKind::Sub => "Sub"@,
        OperatorKind::Mul => "Mul"@,
        OperatorKind::Div => "Div"@,
        OperatorKind::Mod => "Mod"@,
        OperatorKind::And => "And"@,
        OperatorKind::Or => "Or"@,
        OperatorKind::Eq => "Eq"@,
        OperatorKind::Ne => "Ne"@,
        OperatorKind::Lt => "Lt"@,
        OperatorKind::Le => "Le"@,
        OperatorKind::Gt => "Gt"@,
        OperatorKind::Ge => "Ge"@,
        OperatorKind::BitAnd => "BitAnd"@,
        OperatorKind::BitOr => "BitOr"@,
        OperatorKind::BitXor => "BitXor"@,
        OperatorKind::BitNot => "BitNot"@,
        OperatorKind::Shl => "Shl"@,
        OperatorKind::Shr => "Shr"@,
    }
}

/// The name of a binary operator (see `operator_name`).
pub fn operator_str(op: OperatorKind) -> (r: &'static str)
    ensures
        r@ == operator_name(op),
{
    proof {
        reveal_strlit("Pow");
        reveal_strlit("Add");
        reveal_strlit("Sub");
        reveal_strlit("Mul");
        reveal_strlit("Div");
        reveal_strlit("Mod");
        reveal_strlit("And");
        reveal_strlit("Or");
        reveal_strlit("Eq");
        reveal_strlit("Ne");
        reveal_strlit("Lt");
        reveal_strlit("Le");
        reveal_strlit("Gt");
        reveal_strlit("Ge");
        reveal_strlit("BitAnd");
        reveal_strlit("BitOr");
        reveal_strlit("BitXor");
        reveal_strlit("BitNot");
        reveal_strlit("Shl");
        reveal_strlit("Shr");
    }
    match op {
        OperatorKind::Pow => "Pow",
        OperatorKind::Add => "Add",
        OperatorKind::Sub => "Sub",
        OperatorKind::Mul => "Mul",
        OperatorKind::Div => "Div",
        OperatorKind::Mod => "Mod",
        OperatorKind::And => "And",
        OperatorKind::Or => "Or",
        OperatorKind::Eq => "Eq",
        OperatorKind::Ne => "Ne",
        OperatorKind::Lt => "Lt",
        OperatorKind::Le => "Le",
        OperatorKind::Gt => "Gt",
        OperatorKind::Ge => "Ge",
        OperatorKind::BitAnd => "BitAnd",
        OperatorKind::BitOr => "BitOr",
        OperatorKind::BitXor => "BitXor",
        OperatorKind::BitNot => "BitNot",
        OperatorKind::Shl => "Shl",
        OperatorKind::Shr => "Shr",
    }
}

/// The name of a unary operator as it appears in messages.
pub open spec fn unary_operator_name(op: UnaryOperatorKind) -> Seq<char> {
    match op {
        UnaryOperatorKind::Not => "Not"@,
        UnaryOperatorKind::Neg => "Neg"@,
        UnaryOperatorKind::BitNot => "BitNot"@,
    }
}

/// The name of a unary operator (see `unary_operator_name`).
pub fn unary_operator_str(op: UnaryOperatorKind) -> (r: &'static str)
    ensures
        r@ == unary_operator_name(op),
{
    proof {
        reveal_strlit("Not");
        reveal_strlit("Neg");
        reveal_strlit("BitNot");
    }
    match op {
        UnaryOperatorKind::Not => "Not",
        UnaryOperatorKind::Neg => "Neg",
        UnaryOperatorKind::BitNot => "BitNot",
    }
}

/// How a location appears in messages: `line:column` of its start.
pub open spec fn location_text(l: Location) -> Seq<char> {
    decimal(l.start_line as nat) + ":"@ + decimal(l.start_column as nat)
}

/// The location as it appears in messages (see `location_text`).
pub fn location_string(l: &Location) -> (r: String)
    ensures
        r@ == location_text(*l),
{
    proof {
        reveal_strlit(":");
    }
    let mut s = usize_to_decimal(l.start_line as usize);
    s.append(":");
    let c = usize_to_decimal(l.start_column as usize);
    s.append(c.as_str());
    s
}

/// Context for type mismatch errors to provide better messages.
#[derive(Debug, Clone, PartialEq, Eq)]
pub enum TypeMismatchContext {
    Assignment,
    Return,
    VariableDefinition,
    BinaryOperation(OperatorKind),
    Condition,
    FunctionArgument { function_name: String, arg_name: String, arg_index: usize },
    MethodArgument { owner_type: String, method_name: String, arg_name: String, arg_index: usize },
    ArrayElement,
}

/// How a type mismatch context reads in messages.
pub open spec fn mismatch_context_text(c: TypeMismatchContext) -> Seq<char> {
    match c {
        TypeMismatchContext::Assignment => "in assignment"@,
        TypeMismatchContext::Return => "in return statement"@,
        TypeMismatchContext::VariableDefinition => "in variable definition"@,
        TypeMismatchContext::BinaryOperation(op) => "in binary operation `"@ + operator_name(op)
            + "`"@,
        TypeMismatchContext::Condition => "in condition"@,
        TypeMismatchContext::FunctionArgument { function_name, arg_name, arg_index } =>
            "in argument "@ + decimal(arg_index as nat) + " `"@ + arg_name@ + "` of function `"@
            + function_name@ + "`"@,
        TypeMismatchContext::MethodArgument { owner_type, method_name, arg_name, arg_index } =>
            "in argument "@ + decimal(arg_index as nat) + " `"@ + arg_name@ + "` of method `"@
            + owner_type@ + "::"@ + method_name@ + "`"@,
        TypeMismatchContext::ArrayElement => "in array element"@,
    }
}

impl TypeMismatchContext {
    /// The context as it reads in messages (see `mismatch_context_text`).
    pub fn to_text(&self) -> (r: String)
        ensures
            r@ == mismatch_context_text(*self),
    {
        proof {
            reveal_strlit("in assignment");
            reveal_strlit("in return statement");
            reveal_strlit("in variable definition");
            reveal_strlit("in binary operation `");
            reveal_strlit("`");
            reveal_strlit("in condition");
            reveal_strlit("in argument ");
            reveal_strlit(" `");
            reveal_strlit("` of function `");
            reveal_strlit("` of method `");
            reveal_strlit("::");
            reveal_strlit("in array element");
        }
        match self {
            TypeMismatchContext::Assignment => String::from_str("in assignment"),
            TypeMismatchContext::Return => String::from_str("in return statement"),
            TypeMismatchContext::VariableDefinition => String::from_str("in variable definition"),
            TypeMismatchContext::BinaryOperation(op) => {
                let mut s = String::from_str("in binary operation `");
                s.append(operator_str(*op));
                s.append("`");
                s
            },
            TypeMismatchContext::Condition => String::from_str("in condition"),
            TypeMismatchContext::FunctionArgument { function_name, arg_name, arg_index } => {
                let mut s = String::from_str("in argument ");
                let i = usize_to_decimal(*arg_index);
                s.append(i.as_str());
                s.append(" `");
                s.append(arg_name.as_str());
                s.append("` of function `");
                s.append(function_name.as_str());
                s.append("`");
                s
            },
            TypeMismatchContext::MethodArgument { owner_type, method_name, arg_name, arg_index } => {
                let mut s = String::from_str("in argument ");
                let i = usize_to_decimal(*arg_index);
                s.append(i.as_str());
                s.append(" `");
                s.append(arg_name.as_str());
                s.append("` of method `");
                s.append(owner_type.as_str());
                s.append("::");
                s.append(method_name.as_str());
                s.append("`");
                s
            },
            TypeMismatchContext::ArrayElement => String::from_str("in array element"),
        }
    }
}

/// Context for visibility violation errors to provide specific error messages.
#[derive(Debug, Clone, PartialEq, Eq)]
pub enum VisibilityContext {
    Function { name: String },
    Struct { name: String },
    Enum { name: String },
    Field { struct_name: String, field_name: String },
    Method { owner_type: String, method_name: String },
    Import { path: String },
}

/// How a visibility context reads in messages.
pub open spec fn visibility_context_text(c: VisibilityContext) -> Seq<char> {
    match c {
        VisibilityContext::Function { name } => "function `"@ + name@ + "`"@,
        VisibilityContext::Struct { name } => "struct `"@ + name@ + "`"@,
        VisibilityContext::Enum { name } => "enum `"@ + name@ + "`"@,
        VisibilityContext::Field { struct_name, field_name } => "field `"@ + field_name@
            + "` of struct `"@ + struct_name@ + "`"@,
        VisibilityContext::Method { owner_type, method_name } => "method `"@ + method_name@
            + "` on type `"@ + owner_type@ + "`"@,
        VisibilityContext::Import { path } => "item `"@ + path@ + "`"@,
    }
}

impl VisibilityContext {
    /// The context as it reads in messages (see `visibility_context_text`).
    pub fn to_text(&self) -> (r: String)
        ensures
            r@ == visibility_context_text(*self),
    {
        proof {
            reveal_strlit("function `");
            reveal_strlit("struct `");
            reveal_strlit("enum `");
            reveal_strlit("field `");
            reveal_strlit("` of struct `");
            reveal_strlit("method `");
            reveal_strlit("` on type `");
            reveal_strlit("item `");
            reveal_strlit("`");
        }
        let (head, first, middle, second): (&str, &String, &str, Option<&String>) = match self {
            VisibilityContext::Function { name } => ("function `", name, "", None),
            VisibilityContext::Struct { name } => ("struct `", name, "", None),
            VisibilityContext::Enum { name } => ("enum `", name, "", None),
            VisibilityContext::Field { struct_name, field_name } => (
                "field `",
                field_name,
                "` of struct `",
                Some(struct_name),
            ),
            VisibilityContext::Method { owner_type, method_name } => (
                "method `",
                method_name,
                "` on type `",
                Some(owner_type),
            ),
            VisibilityContext::Import { path } => ("item `", path, "", None),
        };
        let mut s = String::from_str(head);
        s.append(first.as_str());
        if let Some(second) = second {
            s.append(middle);
            s.append(second.as_str());
        }
        s.append("`");
        s
    }
}

/// What the optional reason of a registration error adds to its message.
pub open spec fn reason_text(reason: Option<String>) -> Seq<char> {
    match reason {
        Some(r) => ": "@ + r@,
        None => Seq::empty(),
    }
}

/// A type checking error with the source location it is tied to.
/// All type errors are tied to tree nodes and carry a location.
#[derive(Debug)]
pub enum TypeCheckError {

    TypeMismatch {
        expected: TypeInfo,
        found: TypeInfo,
        context: TypeMismatchContext,
        location: Location,
    },

    UnknownType {
        name: String,
        location: Location,
    },

    UnknownIdentifier {
        name: String,
        location: Location,
    },

    UndefinedFunction {
        name: String,
        location: Location,
    },

    UndefinedStruct {
        name: String,
        location: Location,
    },

    FieldNotFound {
        struct_name: String,
        field_name: String,
        location: Location,
    },

    VariantNotFound {
        enum_name: String,
        variant_name: String,
        location: Location,
    },

    UndefinedEnum {
        name: String,
        location: Location,
    },

    ExpectedEnumType {
        found: TypeInfo,
        location: Location,
    },

    MethodNotFound {
        owner_type: String,
        method_name: String,
        location: Location,
    },

    ArgumentCountMismatch {
        kind: &'static str,
        name: String,
        expected: usize,
        found: usize,
        location: Location,
    },

    TypeParameterCountMismatch {
        name: String,
        expected: usize,
        found: usize,
        location: Location,
    },

    MissingTypeParameters {
        function_name: String,
        expected: usize,
        location: Location,
    },

    InvalidBinaryOperand {
        operator: OperatorKind,
        expected_kind: &'static str,
        operand_desc: &'static str,
        found_types: (TypeInfo, TypeInfo),
        location: Location,
    },

    InvalidUnaryOperand {
        operator: UnaryOperatorKind,
        expected_type: &'static str,
        found_type: TypeInfo,
        location: Location,
    },

    CombinedUnaryOperators { location: Location },

    BinaryOperandTypeMismatch {
        operator: OperatorKind,
        left: TypeInfo,
        right: TypeInfo,
        location: Location,
    },

    SelfReferenceInFunction {
        function_name: String,
        location: Location,
    },

    SelfReferenceOutsideMethod { location: Location },

    ImportResolutionFailed {
        path: String,
        location: Location,
    },

    CircularImport {
        path: String,
        location: Location,
    },

    EmptyGlobImport { location: Location },

    RegistrationFailed {
        kind: RegistrationKind,
        name: String,
        reason: Option<String>,
        location: Location,
    },

    ExpectedArrayType {
        found: TypeInfo,
        location: Location,
    },

    ExpectedStructType {
        found: TypeInfo,
        location: Location,
    },

    MethodCallOnNonStruct {
        found: TypeInfo,
        location: Location,
    },

    ArrayIndexNotNumeric {
        found: TypeInfo,
        location: Location,
    },

    ArrayElementTypeMismatch {
        expected: TypeInfo,
        found: TypeInfo,
        location: Location,
    },

    CannotInferUzumakiType { location: Location },

    CannotInferTypeParameter {
        function_name: String,
        param_name: String,
        location: Location,
    },

    ConflictingTypeInference {
        param_name: String,
        first: TypeInfo,
        second: TypeInfo,
        location: Location,
    },

    PrivateAccessViolation {
        context: VisibilityContext,
        location: Location,
    },
    /// Instance method called as associated function.
    ///
    /// This occurs when `Type::method()` syntax is used for a method that requires `self`.
    /// Use `instance.method()` instead.

    InstanceMethodCalledAsAssociated {
        owner_type: String,
        method_name: String,
        location: Location,
    },
    /// Associated function called as instance method.
    ///
    /// This occurs when `instance.function()` syntax is used for an associated function
    /// that doesn't take `self`. Use `Type::function()` instead.

    AssociatedFunctionCalledAsMethod {
        owner_type: String,
        method_name: String,
        location: Location,
    },
}

impl TypeCheckError {
    /// The source location of the error.
    pub open spec fn spec_location(&self) -> Location {
        match self {
            TypeCheckError::TypeMismatch { location, .. } => *location,
            TypeCheckError::UnknownType { location, .. } => *location,
            TypeCheckError::UnknownIdentifier { location, .. } => *location,
            TypeCheckError::UndefinedFunction { location, .. } => *location,
            TypeCheckError::UndefinedStruct { location, .. } => *location,
            TypeCheckError::FieldNotFound { location, .. } => *location,
            TypeCheckError::VariantNotFound { location, .. } => *location,
            TypeCheckError::UndefinedEnum { location, .. } => *location,
            TypeCheckError::ExpectedEnumType { location, .. } => *location,
            TypeCheckError::MethodNotFound { location, .. } => *location,
            TypeCheckError::ArgumentCountMismatch { location, .. } => *location,
            TypeCheckError::TypeParameterCountMismatch { location, .. } => *location,
            TypeCheckError::MissingTypeParameters { location, .. } => *location,
            TypeCheckError::InvalidBinaryOperand { location, .. } => *location,
            TypeCheckError::InvalidUnaryOperand { location, .. } => *location,
            TypeCheckError::CombinedUnaryOperators { location, .. } => *location,
            TypeCheckError::BinaryOperandTypeMismatch { location, .. } => *location,
            TypeCheckError::SelfReferenceInFunction { location, .. } => *location,
            TypeCheckError::SelfReferenceOutsideMethod { location, .. } => *location,
            TypeCheckError::ImportResolutionFailed { location, .. } => *location,
            TypeCheckError::CircularImport { location, .. } => *location,
            TypeCheckError::EmptyGlobImport { location, .. } => *location,
            TypeCheckError::RegistrationFailed { location, .. } => *location,
            TypeCheckError::ExpectedArrayType { location, .. } => *location,
            TypeCheckError::ExpectedStructType { location, .. } => *location,
            TypeCheckError::MethodCallOnNonStruct { location, .. } => *location,
            TypeCheckError::ArrayIndexNotNumeric { location, .. } => *location,
            TypeCheckError::ArrayElementTypeMismatch { location, .. } => *location,
            TypeCheckError::CannotInferUzumakiType { location, .. } => *location,
            TypeCheckError::CannotInferTypeParameter { location, .. } => *location,
            TypeCheckError::ConflictingTypeInference { location, .. } => *location,
            TypeCheckError::PrivateAccessViolation { location, .. } => *location,
            TypeCheckError::InstanceMethodCalledAsAssociated { location, .. } => *location,
            TypeCheckError::AssociatedFunctionCalledAsMethod { location, .. } => *location,
        }
    }

    /// Returns the source location associated with this error.
    pub fn location(&self) -> (r: &Location)
        ensures
            *r == self.spec_location(),
    {
        match self {
            TypeCheckError::TypeMismatch { location, .. } => location,
            TypeCheckError::UnknownType { location, .. } => location,
            TypeCheckError::UnknownIdentifier { location, .. } => location,
            TypeCheckError::UndefinedFunction { location, .. } => location,
            TypeCheckError::UndefinedStruct { location, .. } => location,
            TypeCheckError::FieldNotFound { location, .. } => location,
            TypeCheckError::VariantNotFound { location, .. } => location,
            TypeCheckError::UndefinedEnum { location, .. } => location,
            TypeCheckError::ExpectedEnumType { location, .. } => location,
            TypeCheckError::MethodNotFound { location, .. } => location,
            TypeCheckError::ArgumentCountMismatch { location, .. } => location,
            TypeCheckError::TypeParameterCountMismatch { location, .. } => location,
            TypeCheckError::MissingTypeParameters { location, .. } => location,
            TypeCheckError::InvalidBinaryOperand { location, .. } => location,
            TypeCheckError::InvalidUnaryOperand { location, .. } => location,
            TypeCheckError::CombinedUnaryOperators { location, .. } => location,
            TypeCheckError::BinaryOperandTypeMismatch { location, .. } => location,
            TypeCheckError::SelfReferenceInFunction { location, .. } => location,
            TypeCheckError::SelfReferenceOutsideMethod { location, .. } => location,
            TypeCheckError::ImportResolutionFailed { location, .. } => location,
            TypeCheckError::CircularImport { location, .. } => location,
            TypeCheckError::EmptyGlobImport { location, .. } => location,
            TypeCheckError::RegistrationFailed { location, .. } => location,
            TypeCheckError::ExpectedArrayType { location, .. } => location,
            TypeCheckError::ExpectedStructType { location, .. } => location,
            TypeCheckError::MethodCallOnNonStruct { location, .. } => location,
            TypeCheckError::ArrayIndexNotNumeric { location, .. } => location,
            TypeCheckError::ArrayElementTypeMismatch { location, .. } => location,
            TypeCheckError::CannotInferUzumakiType { location, .. } => location,
            TypeCheckError::CannotInferTypeParameter { location, .. } => location,
            TypeCheckError::ConflictingTypeInference { location, .. } => location,
            TypeCheckError::PrivateAccessViolation { location, .. } => location,
            TypeCheckError::InstanceMethodCalledAsAssociated { location, .. } => location,
            TypeCheckError::AssociatedFunctionCalledAsMethod { location, .. } => location,
        }
    }
}

/// What the message of an error says after its location and `: `.
pub open spec fn error_body(e: TypeCheckError) -> Seq<char> {
    match e {
        TypeCheckError::TypeMismatch { expected, found, context, .. } => "type mismatch "@ + mismatch_context_text(context) + ": expected `"@ + type_text(expected@) + "`, found `"@ + type_text(found@) + "`"@,
        TypeCheckError::UnknownType { name, .. } => "unknown type `"@ + name@ + "`"@,
        TypeCheckError::UnknownIdentifier { name, .. } => "use of undeclared variable `"@ + name@ + "`"@,
        TypeCheckError::UndefinedFunction { name, .. } => "call to undefined function `"@ + name@ + "`"@,
        TypeCheckError::UndefinedStruct { name, .. } => "struct `"@ + name@ + "` is not defined"@,
        TypeCheckError::FieldNotFound { struct_name, field_name, .. } => "field `"@ + field_name@ + "` not found on struct `"@ + struct_name@ + "`"@,
        TypeCheckError::VariantNotFound { enum_name, variant_name, .. } => "variant `"@ + variant_name@ + "` not found on enum `"@ + enum_name@ + "`"@,
        TypeCheckError::UndefinedEnum { name, .. } => "enum `"@ + name@ + "` is not defined"@,
        TypeCheckError::ExpectedEnumType { found, .. } => "type member access requires an enum type, found `"@ + type_text(found@) + "`"@,
        TypeCheckError::MethodNotFound { owner_type, method_name, .. } => "method `"@ + method_name@ + "` not found on type `"@ + owner_type@ + "`"@,
        TypeCheckError::ArgumentCountMismatch { kind, name, expected, found, .. } => kind@ + " `"@ + name@ + "` expects "@ + decimal(expected as nat) + " arguments, but "@ + decimal(found as nat) + " provided"@,
        TypeCheckError::TypeParameterCountMismatch { name, expected, found, .. } => "type parameter count mismatch for `"@ + name@ + "`: expected "@ + decimal(expected as nat) + ", found "@ + decimal(found as nat),
        TypeCheckError::MissingTypeParameters { function_name, expected, .. } => "function `"@ + function_name@ + "` requires "@ + decimal(expected as nat) + " type parameters, but none were provided"@,
        TypeCheckError::InvalidBinaryOperand { operator, expected_kind, operand_desc, .. } => expected_kind@ + " operator `"@ + operator_name(operator) + "` cannot be applied to "@ + operand_desc@,
        TypeCheckError::InvalidUnaryOperand { operator, expected_type, found_type, .. } => "unary operator `"@ + unary_operator_name(operator) + "` can only be applied to "@ + expected_type@ + ", found `"@ + type_text(found_type@) + "`"@,
        TypeCheckError::CombinedUnaryOperators { .. } => "combined unary operators are prohibited"@,
        TypeCheckError::BinaryOperandTypeMismatch { operator, left, right, .. } => "cannot apply operator `"@ + operator_name(operator) + "` to operands of different types: `"@ + type_text(left@) + "` and `"@ + type_text(right@) + "`"@,
        TypeCheckError::SelfReferenceInFunction { function_name, .. } => "self reference not allowed in standalone function `"@ + function_name@ + "`"@,
        TypeCheckError::SelfReferenceOutsideMethod { .. } => "self reference is only allowed in methods, not functions"@,
        TypeCheckError::ImportResolutionFailed { path, .. } => "cannot resolve import path: "@ + path@,
        TypeCheckError::CircularImport { path, .. } => "circular glob import detected: "@ + path@ + "::*"@,
        TypeCheckError::EmptyGlobImport { .. } => "glob import path cannot be empty"@,
        TypeCheckError::RegistrationFailed { kind, name, reason, .. } => "error registering "@ + registration_kind_text(kind) + " `"@ + name@ + "`"@ + reason_text(reason),
        TypeCheckError::ExpectedArrayType { found, .. } => "expected an array type, found `"@ + type_text(found@) + "`"@,
        TypeCheckError::ExpectedStructType { found, .. } => "member access requires a struct type, found `"@ + type_text(found@) + "`"@,
        TypeCheckError::MethodCallOnNonStruct { found, .. } => "cannot call method on non-struct type `"@ + type_text(found@) + "`"@,
        TypeCheckError::ArrayIndexNotNumeric { found, .. } => "array index must be of number type, found `"@ + type_text(found@) + "`"@,
        TypeCheckError::ArrayElementTypeMismatch { expected, found, .. } => "array elements must be of the same type: expected `"@ + type_text(expected@) + "`, found `"@ + type_text(found@) + "`"@,
        TypeCheckError::CannotInferUzumakiType { .. } => "cannot infer type for uzumaki expression assigned to variable of unknown type"@,
        TypeCheckError::CannotInferTypeParameter { function_name, param_name, .. } => "cannot infer type parameter `"@ + param_name@ + "` for `"@ + function_name@ + "` - consider adding explicit type arguments"@,
        TypeCheckError::ConflictingTypeInference { param_name, first, second, .. } => "conflicting types for type parameter `"@ + param_name@ + "`: inferred `"@ + type_text(first@) + "` and `"@ + type_text(second@) + "`"@,
        TypeCheckError::PrivateAccessViolation { context, .. } => "cannot access private "@ + visibility_context_text(context),
        TypeCheckError::InstanceMethodCalledAsAssociated { owner_type, method_name, .. } => "instance method `"@ + owner_type@ + "::"@ + method_name@ + "` requires a receiver, use `instance."@ + method_name@ + "()` instead"@,
        TypeCheckError::AssociatedFunctionCalledAsMethod { owner_type, method_name, .. } => "associated function `"@ + owner_type@ + "::"@ + method_name@ + "` cannot be called on an instance, use `"@ + owner_type@ + "::"@ + method_name@ + "()` instead"@,
    }
}

/// The message of an error: its location, `: `, and what `error_body` says.
pub open spec fn error_message(e: TypeCheckError) -> Seq<char> {
    location_text(e.spec_location()) + ": "@ + error_body(e)
}

impl TypeCheckError {
    /// The message of the error (see `error_message`).
    #[verifier::rlimit(50)]
    pub fn message(&self) -> (r: String)
        ensures
            r@ == error_message(*self),
    {
        proof {
            reveal_strlit(" `");
            reveal_strlit(" arguments, but ");
            reveal_strlit(" operator `");
            reveal_strlit(" provided");
            reveal_strlit(" type parameters, but none were provided");
            reveal_strlit("()` instead");
            reveal_strlit(", found ");
            reveal_strlit(", found `");
            reveal_strlit(": ");
            reveal_strlit(": expected `");
            reveal_strlit("::");
            reveal_strlit("::*");
            reveal_strlit("`");
            reveal_strlit("` - consider adding explicit type arguments");
            reveal_strlit("` and `");
            reveal_strlit("` can only be applied to ");
            reveal_strlit("` cannot be applied to ");
            reveal_strlit("` cannot be called on an instance, use `");
            reveal_strlit("` expects ");
            reveal_strlit("` for `");
            reveal_strlit("` is not defined");
            reveal_strlit("` not found on enum `");
            reveal_strlit("` not found on struct `");
            reveal_strlit("` not found on type `");
            reveal_strlit("` requires ");
            reveal_strlit("` requires a receiver, use `instance.");
            reveal_strlit("` to operands of different types: `");
            reveal_strlit("`, found `");
            reveal_strlit("`: expected ");
            reveal_strlit("`: inferred `");
            reveal_strlit("array elements must be of the same type: expected `");
            reveal_strlit("array index must be of number type, found `");
            reveal_strlit("associated function `");
            reveal_strlit("call to undefined function `");
            reveal_strlit("cannot access private ");
            reveal_strlit("cannot apply operator `");
            reveal_strlit("cannot call method on non-struct type `");
            reveal_strlit("cannot infer type for uzumaki expression assigned to variable of unknown type");
            reveal_strlit("cannot infer type parameter `");
            reveal_strlit("cannot resolve import path: ");
            reveal_strlit("circular glob import detected: ");
            reveal_strlit("combined unary operators are prohibited");
            reveal_strlit("conflicting types for type parameter `");
            reveal_strlit("enum `");
            reveal_strlit("error registering ");
            reveal_strlit("expected an array type, found `");
            reveal_strlit("field `");
            reveal_strlit("function `");
            reveal_strlit("glob import path cannot be empty");
            reveal_strlit("instance method `");
            reveal_strlit("member access requires a struct type, found `");
            reveal_strlit("method `");
            reveal_strlit("self reference is only allowed in methods, not functions");
            reveal_strlit("self reference not allowed in standalone function `");
            reveal_strlit("struct `");
            reveal_strlit("type member access requires an enum type, found `");
            reveal_strlit("type mismatch ");
            reveal_strlit("type parameter count mismatch for `");
            reveal_strlit("unary operator `");
            reveal_strlit("unknown type `");
            reveal_strlit("use of undeclared variable `");
            reveal_strlit("variant `");
        }
        let mut s = location_string(self.location());
        s.append(": ");
        match self {
            TypeCheckError::TypeMismatch { expected, found, context, .. } => {
                s.append("type mismatch ");
                let t = context.to_text();
                s.append(t.as_str());
                s.append(": expected `");
                let t = expected.to_text();
                s.append(t.as_str());
                s.append("`, found `");
                let t = found.to_text();
                s.append(t.as_str());
                s.append("`");
            },
            TypeCheckError::UnknownType { name, .. } => {
                s.append("unknown type `");
                s.append(name.as_str());
                s.append("`");
            },
            TypeCheckError::UnknownIdentifier { name, .. } => {
                s.append("use of undeclared variable `");
                s.append(name.as_str());
                s.append("`");
            },
            TypeCheckError::UndefinedFunction { name, .. } => {
                s.append("call to undefined function `");
                s.append(name.as_str());
                s.append("`");
            },
            TypeCheckError::UndefinedStruct { name, .. } => {
                s.append("struct `");
                s.append(name.as_str());
                s.append("` is not defined");
            },
            TypeCheckError::FieldNotFound { struct_name, field_name, .. } => {
                s.append("field `");
                s.append(field_name.as_str());
                s.append("` not found on struct `");
                s.append(struct_name.as_str());
                s.append("`");
            },
            TypeCheckError::VariantNotFound { enum_name, variant_name, .. } => {
                s.append("variant `");
                s.append(variant_name.as_str());
                s.append("` not found on enum `");
                s.append(enum_name.as_str());
                s.append("`");
            },
            TypeCheckError::UndefinedEnum { name, .. } => {
                s.append("enum `");
                s.append(name.as_str());
                s.append("` is not defined");
            },
            TypeCheckError::ExpectedEnumType { found, .. } => {
                s.append("type member access requires an enum type, found `");
                let t = found.to_text();
                s.append(t.as_str());
                s.append("`");
            },
            TypeCheckError::MethodNotFound { owner_type, method_name, .. } => {
                s.append("method `");
                s.append(method_name.as_str());
                s.append("` not found on type `");
                s.append(owner_type.as_str());
                s.append("`");
            },
            TypeCheckError::ArgumentCountMismatch { kind, name, expected, found, .. } => {
                s.append(*kind);
                s.append(" `");
                s.append(name.as_str());
                s.append("` expects ");
                let t = usize_to_decimal(*expected);
                s.append(t.as_str());
                s.append(" arguments, but ");
                let t = usize_to_decimal(*found);
                s.append(t.as_str());
                s.append(" provided");
            },
            TypeCheckError::TypeParameterCountMismatch { name, expected, found, .. } => {
                s.append("type parameter count mismatch for `");
                s.append(name.as_str());
                s.append("`: expected ");
                let t = usize_to_decimal(*expected);
                s.append(t.as_str());
                s.append(", found ");
                let t = usize_to_decimal(*found);
                s.append(t.as_str());
            },
            TypeCheckError::MissingTypeParameters { function_name, expected, .. } => {
                s.append("function `");
                s.append(function_name.as_str());
                s.append("` requires ");
                let t = usize_to_decimal(*expected);
                s.append(t.as_str());
                s.append(" type parameters, but none were provided");
            },
            TypeCheckError::InvalidBinaryOperand { operator, expected_kind, operand_desc, .. } => {
                s.append(*expected_kind);
                s.append(" operator `");
                s.append(operator_str(*operator));
                s.append("` cannot be applied to ");
                s.append(*operand_desc);
            },
            TypeCheckError::InvalidUnaryOperand { operator, expected_type, found_type, .. } => {
                s.append("unary operator `");
                s.append(unary_operator_str(*operator));
                s.append("` can only be applied to ");
                s.append(*expected_type);
                s.append(", found `");
                let t = found_type.to_text();
                s.append(t.as_str());
                s.append("`");
            },
            TypeCheckError::CombinedUnaryOperators { .. } => {
                s.append("combined unary operators are prohibited");
            },
            TypeCheckError::BinaryOperandTypeMismatch { operator, left, right, .. } => {
                s.append("cannot apply operator `");
                s.append(operator_str(*operator));
                s.append("` to operands of different types: `");
                let t = left.to_text();
                s.append(t.as_str());
                s.append("` and `");
                let t = right.to_text();
                s.append(t.as_str());
                s.append("`");
            },
            TypeCheckError::SelfReferenceInFunction { function_name, .. } => {
                s.append("self reference not allowed in standalone function `");
                s.append(function_name.as_str());
                s.append("`");
            },
            TypeCheckError::SelfReferenceOutsideMethod { .. } => {
                s.append("self reference is only allowed in methods, not functions");
            },
            TypeCheckError::ImportResolutionFailed { path, .. } => {
                s.append("cannot resolve import path: ");
                s.append(path.as_str());
            },
            TypeCheckError::CircularImport { path, .. } => {
                s.append("circular glob import detected: ");
                s.append(path.as_str());
                s.append("::*");
            },
            TypeCheckError::EmptyGlobImport { .. } => {
                s.append("glob import path cannot be empty");
            },
            TypeCheckError::RegistrationFailed { kind, name, reason, .. } => {
                s.append("error registering ");
                s.append(kind.to_str());
                s.append(" `");
                s.append(name.as_str());
                s.append("`");
                if let Some(r) = reason {
                    s.append(": ");
                    s.append(r.as_str());
                }
            },
            TypeCheckError::ExpectedArrayType { found, .. } => {
                s.append("expected an array type, found `");
                let t = found.to_text();
                s.append(t.as_str());
                s.append("`");
            },
            TypeCheckError::ExpectedStructType { found, .. } => {
                s.append("member access requires a struct type, found `");
                let t = found.to_text();
                s.append(t.as_str());
                s.append("`");
            },
            TypeCheckError::MethodCallOnNonStruct { found, .. } => {
                s.append("cannot call method on non-struct type `");
                let t = found.to_text();
                s.append(t.as_str());
                s.append("`");
            },
            TypeCheckError::ArrayIndexNotNumeric { found, .. } => {
                s.append("array index must be of number type, found `");
                let t = found.to_text();
                s.append(t.as_str());
                s.append("`");
            },
            TypeCheckError::ArrayElementTypeMismatch { expected, found, .. } => {
                s.append("array elements must be of the same type: expected `");
                let t = expected.to_text();
                s.append(t.as_str());
                s.append("`, found `");
                let t = found.to_text();
                s.append(t.as_str());
                s.append("`");
            },
            TypeCheckError::CannotInferUzumakiType { .. } => {
                s.append("cannot infer type for uzumaki expression assigned to variable of unknown type");
            },
            TypeCheckError::CannotInferTypeParameter { function_name, param_name, .. } => {
                s.append("cannot infer type parameter `");
                s.append(param_name.as_str());
                s.append("` for `");
                s.append(function_name.as_str());
                s.append("` - consider adding explicit type arguments");
            },
            TypeCheckError::ConflictingTypeInference { param_name, first, second, .. } => {
                s.append("conflicting types for type parameter `");
                s.append(param_name.as_str());
                s.append("`: inferred `");
                let t = first.to_text();
                s.append(t.as_str());
                s.append("` and `");
                let t = second.to_text();
                s.append(t.as_str());
                s.append("`");
            },
            TypeCheckError::PrivateAccessViolation { context, .. } => {
                s.append("cannot access private ");
                let t = context.to_text();
                s.append(t.as_str());
            },
            TypeCheckError::InstanceMethodCalledAsAssociated { owner_type, method_name, .. } => {
                s.append("instance method `");
                s.append(owner_type.as_str());
                s.append("::");
                s.append(method_name.as_str());
                s.append("` requires a receiver, use `instance.");
                s.append(method_name.as_str());
                s.append("()` instead");
            },
            TypeCheckError::AssociatedFunctionCalledAsMethod { owner_type, method_name, .. } => {
                s.append("associated function `");
                s.append(owner_type.as_str());
                s.append("::");
                s.append(method_name.as_str());
                s.append("` cannot be called on an instance, use `");
                s.append(owner_type.as_str());
                s.append("::");
                s.append(method_name.as_str());
                s.append("()` instead");
            },
        }
        s
    }
}
} // verus!
