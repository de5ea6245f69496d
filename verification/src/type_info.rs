//! Descriptions of types as the checker infers them, with a mathematical
//! model for contracts, construction from type expressions, comparison,
//! rendering and substitution of type parameters.
use vstd::prelude::*;

use crate::ast::{Expression, Literal, SimpleTypeKind, Type};
use crate::fx::{substitution_contents, substitution_get, Substitutions};
use crate::text::{
    clone_strings, contains_string, decimal, joined, strings_equal, usize_to_decimal, views,
};

verus! {

/// Builtin integer types.
#[derive(Clone, Copy, Debug, PartialEq, Eq, Structural)]
pub enum NumberType {
    I8,
    I16,
    I32,
    I64,
    U8,
    U16,
    U32,
    U64,
}

/// The shape of a type.
#[derive(Debug)]
pub enum TypeInfoKind {
    Unit,
    Bool,
    String,
    Number(NumberType),
    Custom(String),
    Array(Box<TypeInfo>, u32),
    Generic(String),
    QualifiedName(String),
    Qualified(String),
    Function(String),
    Struct(String),
    Enum(String),
    Spec(String),
}

/// A type together with the names of the type parameters it is applied to.
#[derive(Debug)]
pub struct TypeInfo {
    pub kind: TypeInfoKind,
    pub type_params: Vec<String>,
}

/// The mathematical shape of a type: names as character sequences.
pub enum KindModel {
    Unit,
    Bool,
    Str,
    Number(NumberType),
    Custom(Seq<char>),
    Array(Box<TypeModel>, u32),
    Generic(Seq<char>),
    QualifiedName(Seq<char>),
    Qualified(Seq<char>),
    Function(Seq<char>),
    Struct(Seq<char>),
    Enum(Seq<char>),
    Spec(Seq<char>),
}

/// The mathematical value of a `TypeInfo`.
pub struct TypeModel {
    pub kind: KindModel,
    pub type_params: Seq<Seq<char>>,
}

/// The model of a type.
pub open spec fn model_of(t: TypeInfo) -> TypeModel
    decreases t,
{
    TypeModel {
        kind: match t.kind {
            TypeInfoKind::Unit => KindModel::Unit,
            TypeInfoKind::Bool => KindModel::Bool,
            TypeInfoKind::String => KindModel::Str,
            TypeInfoKind::Number(n) => KindModel::Number(n),
            TypeInfoKind::Custom(s) => KindModel::Custom(s@),
            TypeInfoKind::Array(b, n) => KindModel::Array(Box::new(model_of(*b)), n),
            TypeInfoKind::Generic(s) => KindModel::Generic(s@),
            TypeInfoKind::QualifiedName(s) => KindModel::QualifiedName(s@),
            TypeInfoKind::Qualified(s) => KindModel::Qualified(s@),
            TypeInfoKind::Function(s) => KindModel::Function(s@),
            TypeInfoKind::Struct(s) => KindModel::Struct(s@),
            TypeInfoKind::Enum(s) => KindModel::Enum(s@),
            TypeInfoKind::Spec(s) => KindModel::Spec(s@),
        },
        type_params: views(t.type_params@),
    }
}

impl View for TypeInfo {
    type V = TypeModel;

    open spec fn view(&self) -> TypeModel {
        model_of(*self)
    }
}

/// A type without type parameters.
pub open spec fn plain(kind: KindModel) -> TypeModel {
    TypeModel { kind, type_params: Seq::empty() }
}

/// The lower-case name of an integer type.
pub open spec fn number_text(n: NumberType) -> Seq<char> {
    match n {
        NumberType::I8 => "i8"@,
        NumberType::I16 => "i16"@,
        NumberType::I32 => "i32"@,
        NumberType::I64 => "i64"@,
        NumberType::U8 => "u8"@,
        NumberType::U16 => "u16"@,
        NumberType::U32 => "u32"@,
        NumberType::U64 => "u64"@,
    }
}

/// How a type is written in messages: builtin names (`Unit`, `Bool`,
/// `String`, `i32`, ..), `[element; length]` for arrays, the name for all
/// other types, followed by `<P1, P2>` when type parameters are applied.
pub open spec fn type_text(m: TypeModel) -> Seq<char>
    decreases m,
{
    let base = match m.kind {
        KindModel::Unit => "Unit"@,
        KindModel::Bool => "Bool"@,
        KindModel::Str => "String"@,
        KindModel::Number(n) => number_text(n),
        KindModel::Array(e, len) => "["@ + type_text(*e) + "; "@ + decimal(len as nat) + "]"@,
        KindModel::Custom(s) => s,
        KindModel::Generic(s) => s,
        KindModel::QualifiedName(s) => s,
        KindModel::Qualified(s) => s,
        KindModel::Function(s) => s,
        KindModel::Struct(s) => s,
        KindModel::Enum(s) => s,
        KindModel::Spec(s) => s,
    };
    if m.type_params.len() == 0 {
        base
    } else {
        base + "<"@ + joined(m.type_params, ", "@) + ">"@
    }
}

/// The model of a builtin primitive type.
pub open spec fn simple_model(k: SimpleTypeKind) -> KindModel {
    match k {
        SimpleTypeKind::Unit => KindModel::Unit,
        SimpleTypeKind::Bool => KindModel::Bool,
        SimpleTypeKind::I8 => KindModel::Number(NumberType::I8),
        SimpleTypeKind::I16 => KindModel::Number(NumberType::I16),
        SimpleTypeKind::I32 => KindModel::Number(NumberType::I32),
        SimpleTypeKind::I64 => KindModel::Number(NumberType::I64),
        SimpleTypeKind::U8 => KindModel::Number(NumberType::U8),
        SimpleTypeKind::U16 => KindModel::Number(NumberType::U16),
        SimpleTypeKind::U32 => KindModel::Number(NumberType::U32),
        SimpleTypeKind::U64 => KindModel::Number(NumberType::U64),
    }
}

/// The value of a decimal digit character, if it is one.
pub open spec fn digit_value(c: char) -> Option<nat> {
    if '0' <= c && c <= '9' {
        Some((c as nat - '0' as nat) as nat)
    } else {
        None
    }
}

/// The value of a string of decimal digits, if it is one (and not empty).
pub open spec fn decimal_value(s: Seq<char>) -> Option<nat>
    decreases s.len(),
{
    if s.len() == 0 {
        None
    } else {
        match digit_value(s.last()) {
            None => None,
            Some(d) => if s.len() == 1 {
                Some(d)
            } else {
                match decimal_value(s.drop_last()) {
                    None => None,
                    Some(v) => Some(v * 10 + d),
                }
            },
        }
    }
}

/// The length written in an array type: the value of a number literal that
/// fits in `u32`, and 0 for any other size expression.
pub open spec fn array_length(size: Expression) -> u32 {
    match size {
        Expression::Literal(Literal::Number(n)) => match decimal_value(n.value@) {
            Some(v) => if v <= u32::MAX { v as u32 } else { 0 },
            None => 0,
        },
        _ => 0,
    }
}

/// The type that a type expression denotes, where the names in `params` are
/// type parameters in scope: primitive types map to their builtin shape, a
/// name to a type parameter when it is one of `params`, `String` to the
/// builtin string type, and any other name to a named type, a generic application to its base name with the parameters'
/// names applied, qualified names to `qualifier::name`, and function types to
/// an unnamed function type.
pub open spec fn type_of(ty: Type, params: Seq<Seq<char>>) -> TypeModel
    decreases ty,
{
    match ty {
        Type::Simple(_, k) => plain(simple_model(k)),
        Type::Custom(i) => if params.contains(i.name@) {
            plain(KindModel::Generic(i.name@))
        } else if i.name@ == "String"@ {
            plain(KindModel::Str)
        } else {
            plain(KindModel::Custom(i.name@))
        },
        Type::Array(a) => plain(
            KindModel::Array(Box::new(type_of(a.element_type, params)), array_length(a.size)),
        ),
        Type::Generic(g) => TypeModel {
            kind: KindModel::Custom(g.base.name@),
            type_params: g.parameters@.map_values(|p: crate::ast::Identifier| p.name@),
        },
        Type::Function(_) => plain(KindModel::Function(Seq::empty())),
        Type::QualifiedName(q) => plain(
            KindModel::QualifiedName(q.qualifier.name@ + "::"@ + q.name.name@),
        ),
        Type::Qualified(q) => plain(KindModel::Qualified(q.alias.name@ + "::"@ + q.name.name@)),
    }
}

/// The type after replacing each type parameter that `subst` maps by its image.
pub open spec fn substituted(m: TypeModel, subst: Map<Seq<char>, TypeModel>) -> TypeModel
    decreases m,
{
    match m.kind {
        KindModel::Generic(name) => if subst.contains_key(name) {
            subst[name]
        } else {
            m
        },
        KindModel::Array(e, len) => TypeModel {
            kind: KindModel::Array(Box::new(substituted(*e, subst)), len),
            type_params: m.type_params,
        },
        _ => m,
    }
}

/// Parses a string of decimal digits; `None` when it is not one or the value
/// does not fit in `u32`.
fn parse_u32(s: &str) -> (r: Option<u32>)
    ensures
        r == (match decimal_value(s@) {
            Some(v) => if v <= u32::MAX { Some(v as u32) } else { None },
            None => None,
        }),
{
    let n = s.unicode_len();
    if n == 0 {
        return None;
    }
    let mut acc: u64 = 0;
    let mut i: usize = 0;
    while i < n
        invariant
            n == s@.len(),
            0 < n,
            i <= n,
            acc <= u32::MAX,
            i == 0 ==> acc == 0,
            i > 0 ==> decimal_value(s@.take(i as int)) == Some(acc as nat),
        decreases n - i,
    {
        let c = s.get_char(i);
        proof {
            assert(s@.take(i + 1).drop_last() =~= s@.take(i as int));
            assert(s@.take(i + 1).last() == c);
        }
        if c < '0' || c > '9' {
            proof {
                lemma_decimal_none_extends(s@, i as int + 1);
            }
            return None;
        }
        let d = (c as u32 - '0' as u32) as u64;
        let ghost prev = acc;
        acc = acc * 10 + d;
        proof {
            assert(digit_value(c) == Some(d as nat));
            let t = s@.take(i + 1);
            assert(t.len() == i + 1);
            if i == 0 {
                assert(decimal_value(t) == Some(d as nat));
            } else {
                assert(decimal_value(t.drop_last()) == Some(prev as nat));
                assert(decimal_value(t) == Some(prev as nat * 10 + d as nat));
            }
        }
        if acc > u32::MAX as u64 {
            proof {
                lemma_decimal_large_extends(s@, i as int + 1, acc as nat);
            }
            return None;
        }
        i = i + 1;
    }
    proof {
        assert(s@.take(n as int) =~= s@);
    }
    Some(acc as u32)
}

/// A prefix that is not a number keeps every extension from being one.
proof fn lemma_decimal_none_extends(s: Seq<char>, k: int)
    requires
        0 < k <= s.len(),
        decimal_value(s.take(k)) is None,
    ensures
        decimal_value(s) is None,
    decreases s.len() - k,
{
    if k < s.len() {
        assert(s.take(k + 1).drop_last() =~= s.take(k));
        lemma_decimal_none_extends(s, k + 1);
    } else {
        assert(s.take(k) =~= s);
    }
}

/// A prefix whose value is above `u32::MAX` keeps every extension above it.
proof fn lemma_decimal_large_extends(s: Seq<char>, k: int, v: nat)
    requires
        0 < k <= s.len(),
        decimal_value(s.take(k)) == Some(v),
        v > u32::MAX,
    ensures
        match decimal_value(s) {
            Some(w) => w > u32::MAX,
            None => true,
        },
    decreases s.len() - k,
{
    if k < s.len() {
        assert(s.take(k + 1).drop_last() =~= s.take(k));
        match decimal_value(s.take(k + 1)) {
            Some(w) => {
                lemma_decimal_large_extends(s, k + 1, w);
            },
            None => {
                lemma_decimal_none_extends(s, k + 1);
            },
        }
    } else {
        assert(s.take(k) =~= s);
    }
}

fn array_length_of(size: &Expression) -> (r: u32)
    ensures
        r == array_length(*size),
{
    match size {
        Expression::Literal(Literal::Number(n)) => match parse_u32(n.value.as_str()) {
            Some(v) => v,
            None => 0,
        },
        _ => 0,
    }
}

fn number_str(n: NumberType) -> (s: &'static str)
    ensures
        s@ == number_text(n),
{
    proof {
        reveal_strlit("i8");
        reveal_strlit("i16");
        reveal_strlit("i32");
        reveal_strlit("i64");
        reveal_strlit("u8");
        reveal_strlit("u16");
        reveal_strlit("u32");
        reveal_strlit("u64");
    }
    match n {
        NumberType::I8 => "i8",
        NumberType::I16 => "i16",
        NumberType::I32 => "i32",
        NumberType::I64 => "i64",
        NumberType::U8 => "u8",
        NumberType::U16 => "u16",
        NumberType::U32 => "u32",
        NumberType::U64 => "u64",
    }
}

impl TypeInfo {
    /// The unit type.
    pub fn unit() -> (r: TypeInfo)
        ensures
            r@ == plain(KindModel::Unit),
    {
        let r = TypeInfo { kind: TypeInfoKind::Unit, type_params: Vec::new() };
        proof {
            assert(r@.type_params =~= Seq::<Seq<char>>::empty());
        }
        r
    }

    /// The boolean type.
    pub fn boolean() -> (r: TypeInfo)
        ensures
            r@ == plain(KindModel::Bool),
    {
        let r = TypeInfo { kind: TypeInfoKind::Bool, type_params: Vec::new() };
        proof {
            assert(r@.type_params =~= Seq::<Seq<char>>::empty());
        }
        r
    }

    /// The string type.
    pub fn string() -> (r: TypeInfo)
        ensures
            r@ == plain(KindModel::Str),
    {
        let r = TypeInfo { kind: TypeInfoKind::String, type_params: Vec::new() };
        proof {
            assert(r@.type_params =~= Seq::<Seq<char>>::empty());
        }
        r
    }

    /// A type of the given shape with no type parameters applied.
    pub fn of_kind(kind: TypeInfoKind) -> (r: TypeInfo)
        ensures
            r@.type_params == Seq::<Seq<char>>::empty(),
            r.kind == kind,
    {
        let r = TypeInfo { kind, type_params: Vec::new() };
        proof {
            assert(r@.type_params =~= Seq::<Seq<char>>::empty());
        }
        r
    }

    /// The type that `ty` denotes, with no type parameters in scope.
    pub fn new(ty: &Type) -> (r: TypeInfo)
        ensures
            r@ == type_of(*ty, Seq::empty()),
    {
        let none: Vec<String> = Vec::new();
        proof {
            assert(views(none@) =~= Seq::<Seq<char>>::empty());
        }
        Self::new_with_type_params(ty, &none)
    }

    /// The type that `ty` denotes, where the names in `type_params` are type
    /// parameters in scope.
    pub fn new_with_type_params(ty: &Type, type_params: &Vec<String>) -> (r: TypeInfo)
        ensures
            r@ == type_of(*ty, views(type_params@)),
        decreases ty,
    {
        match ty {
            Type::Simple(_, k) => {
                let kind = match k {
                    SimpleTypeKind::Unit => TypeInfoKind::Unit,
                    SimpleTypeKind::Bool => TypeInfoKind::Bool,
                    SimpleTypeKind::I8 => TypeInfoKind::Number(NumberType::I8),
                    SimpleTypeKind::I16 => TypeInfoKind::Number(NumberType::I16),
                    SimpleTypeKind::I32 => TypeInfoKind::Number(NumberType::I32),
                    SimpleTypeKind::I64 => TypeInfoKind::Number(NumberType::I64),
                    SimpleTypeKind::U8 => TypeInfoKind::Number(NumberType::U8),
                    SimpleTypeKind::U16 => TypeInfoKind::Number(NumberType::U16),
                    SimpleTypeKind::U32 => TypeInfoKind::Number(NumberType::U32),
                    SimpleTypeKind::U64 => TypeInfoKind::Number(NumberType::U64),
                };
                Self::of_kind(kind)
            },
            Type::Custom(i) => {
                proof {
                    reveal_strlit("String");
                }
                if contains_string(type_params, &i.name) {
                    Self::of_kind(TypeInfoKind::Generic(i.name.clone()))
                } else if i.name == String::from_str("String") {
                    Self::of_kind(TypeInfoKind::String)
                } else {
                    Self::of_kind(TypeInfoKind::Custom(i.name.clone()))
                }
            },
            Type::Array(a) => {
                let element = Self::new_with_type_params(&a.element_type, type_params);
                let len = array_length_of(&a.size);
                Self::of_kind(TypeInfoKind::Array(Box::new(element), len))
            },
            Type::Generic(g) => {
                let mut names: Vec<String> = Vec::new();
                let mut i: usize = 0;
                while i < g.parameters.len()
                    invariant
                        i <= g.parameters.len(),
                        names@.len() == i,
                        forall|j: int| 0 <= j < i ==> names@[j]@ == g.parameters@[j].name@,
                    decreases g.parameters.len() - i,
                {
                    names.push(g.parameters[i].name.clone());
                    i = i + 1;
                }
                let r = TypeInfo { kind: TypeInfoKind::Custom(g.base.name.clone()), type_params: names };
                proof {
                    assert(r@.type_params =~= g.parameters@.map_values(
                        |p: crate::ast::Identifier| p.name@,
                    ));
                }
                r
            },
            Type::Function(_) => Self::of_kind(TypeInfoKind::Function(String::new())),
            Type::QualifiedName(q) => {
                let mut s = q.qualifier.name.clone();
                s.append("::");
                s.append(q.name.name.as_str());
                proof {
                    reveal_strlit("::");
                }
                Self::of_kind(TypeInfoKind::QualifiedName(s))
            },
            Type::Qualified(q) => {
                let mut s = q.alias.name.clone();
                s.append("::");
                s.append(q.name.name.as_str());
                proof {
                    reveal_strlit("::");
                }
                Self::of_kind(TypeInfoKind::Qualified(s))
            },
        }
    }

    /// Whether the two types are the same (same shape, names and type parameters).
    pub fn equals(&self, other: &TypeInfo) -> (r: bool)
        ensures
            r == (self@ == other@),
        decreases self,
    {
        let kinds = match (&self.kind, &other.kind) {
            (TypeInfoKind::Unit, TypeInfoKind::Unit) => true,
            (TypeInfoKind::Bool, TypeInfoKind::Bool) => true,
            (TypeInfoKind::String, TypeInfoKind::String) => true,
            (TypeInfoKind::Number(a), TypeInfoKind::Number(b)) => *a == *b,
            (TypeInfoKind::Custom(a), TypeInfoKind::Custom(b)) => *a == *b,
            (TypeInfoKind::Array(a, n), TypeInfoKind::Array(b, m)) => *n == *m && a.equals(b),
            (TypeInfoKind::Generic(a), TypeInfoKind::Generic(b)) => *a == *b,
            (TypeInfoKind::QualifiedName(a), TypeInfoKind::QualifiedName(b)) => *a == *b,
            (TypeInfoKind::Qualified(a), TypeInfoKind::Qualified(b)) => *a == *b,
            (TypeInfoKind::Function(a), TypeInfoKind::Function(b)) => *a == *b,
            (TypeInfoKind::Struct(a), TypeInfoKind::Struct(b)) => *a == *b,
            (TypeInfoKind::Enum(a), TypeInfoKind::Enum(b)) => *a == *b,
            (TypeInfoKind::Spec(a), TypeInfoKind::Spec(b)) => *a == *b,
            _ => false,
        };
        kinds && strings_equal(&self.type_params, &other.type_params)
    }

    /// A copy of the type.
    pub fn duplicate(&self) -> (r: TypeInfo)
        ensures
            r@ == self@,
        decreases self,
    {
        let kind = match &self.kind {
            TypeInfoKind::Unit => TypeInfoKind::Unit,
            TypeInfoKind::Bool => TypeInfoKind::Bool,
            TypeInfoKind::String => TypeInfoKind::String,
            TypeInfoKind::Number(n) => TypeInfoKind::Number(*n),
            TypeInfoKind::Custom(s) => TypeInfoKind::Custom(s.clone()),
            TypeInfoKind::Array(e, n) => TypeInfoKind::Array(Box::new(e.duplicate()), *n),
            TypeInfoKind::Generic(s) => TypeInfoKind::Generic(s.clone()),
            TypeInfoKind::QualifiedName(s) => TypeInfoKind::QualifiedName(s.clone()),
            TypeInfoKind::Qualified(s) => TypeInfoKind::Qualified(s.clone()),
            TypeInfoKind::Function(s) => TypeInfoKind::Function(s.clone()),
            TypeInfoKind::Struct(s) => TypeInfoKind::Struct(s.clone()),
            TypeInfoKind::Enum(s) => TypeInfoKind::Enum(s.clone()),
            TypeInfoKind::Spec(s) => TypeInfoKind::Spec(s.clone()),
        };
        TypeInfo { kind, type_params: clone_strings(&self.type_params) }
    }

    /// Whether the type is one of the builtin integer types.
    pub fn is_number(&self) -> (r: bool)
        ensures
            r == (self@.kind is Number),
    {
        match &self.kind {
            TypeInfoKind::Number(_) => true,
            _ => false,
        }
    }

    /// Whether the type is `Bool`.
    pub fn is_bool(&self) -> (r: bool)
        ensures
            r == (self@.kind is Bool),
    {
        match &self.kind {
            TypeInfoKind::Bool => true,
            _ => false,
        }
    }

    /// Whether the type is one of the signed integer types `i8`, `i16`, `i32`, `i64`.
    pub fn is_signed_integer(&self) -> (r: bool)
        ensures
            r == (self@.kind == KindModel::Number(NumberType::I8) || self@.kind
                == KindModel::Number(NumberType::I16) || self@.kind == KindModel::Number(
                NumberType::I32,
            ) || self@.kind == KindModel::Number(NumberType::I64)),
    {
        match &self.kind {
            TypeInfoKind::Number(NumberType::I8) => true,
            TypeInfoKind::Number(NumberType::I16) => true,
            TypeInfoKind::Number(NumberType::I32) => true,
            TypeInfoKind::Number(NumberType::I64) => true,
            _ => false,
        }
    }

    /// The type with every type parameter that `substitutions` maps replaced
    /// by its image.
    pub fn substitute(&self, substitutions: &Substitutions) -> (r: TypeInfo)
        ensures
            r@ == substituted(self@, substitution_contents(*substitutions)),
        decreases self,
    {
        match &self.kind {
            TypeInfoKind::Generic(name) => match substitution_get(substitutions, name) {
                Some(t) => t.duplicate(),
                None => self.duplicate(),
            },
            TypeInfoKind::Array(e, n) => {
                let inner = e.substitute(substitutions);
                TypeInfo {
                    kind: TypeInfoKind::Array(Box::new(inner), *n),
                    type_params: clone_strings(&self.type_params),
                }
            },
            _ => self.duplicate(),
        }
    }

    /// The type as written in messages (see `type_text`).
    pub fn to_text(&self) -> (r: String)
        ensures
            r@ == type_text(self@),
        decreases self,
    {
        proof {
            reveal_strlit("Unit");
            reveal_strlit("Bool");
            reveal_strlit("String");
            reveal_strlit("[");
            reveal_strlit("; ");
            reveal_strlit("]");
            reveal_strlit("<");
            reveal_strlit(", ");
            reveal_strlit(">");
        }
        let mut s = match &self.kind {
            TypeInfoKind::Unit => String::from_str("Unit"),
            TypeInfoKind::Bool => String::from_str("Bool"),
            TypeInfoKind::String => String::from_str("String"),
            TypeInfoKind::Number(n) => String::from_str(number_str(*n)),
            TypeInfoKind::Array(e, len) => {
                let mut s = String::from_str("[");
                let inner = e.to_text();
                s.append(inner.as_str());
                s.append("; ");
                let digits = usize_to_decimal(*len as usize);
                s.append(digits.as_str());
                s.append("]");
                s
            },
            TypeInfoKind::Custom(n) => n.clone(),
            TypeInfoKind::Generic(n) => n.clone(),
            TypeInfoKind::QualifiedName(n) => n.clone(),
            TypeInfoKind::Qualified(n) => n.clone(),
            TypeInfoKind::Function(n) => n.clone(),
            TypeInfoKind::Struct(n) => n.clone(),
            TypeInfoKind::Enum(n) => n.clone(),
            TypeInfoKind::Spec(n) => n.clone(),
        };
        if self.type_params.len() > 0 {
            s.append("<");
            let params = crate::text::join(&self.type_params, ", ");
            s.append(params.as_str());
            s.append(">");
        }
        s
    }
}

impl Default for TypeInfo {
    /// The unit type.
    fn default() -> (r: TypeInfo)
        ensures
            r@ == plain(KindModel::Unit),
    {
        TypeInfo::unit()
    }
}

} // verus!

verus! {

impl PartialEq for TypeInfo {
    /// Whether the two types are the same (see `equals`).
    fn eq(&self, other: &TypeInfo) -> (r: bool) {
        self.equals(other)
    }
}

impl vstd::std_specs::cmp::PartialEqSpecImpl for TypeInfo {
    open spec fn obeys_eq_spec() -> bool {
        true
    }

    open spec fn eq_spec(&self, other: &TypeInfo) -> bool {
        self@ == other@
    }
}

impl Clone for TypeInfo {
    /// A copy of the type (see `duplicate`).
    fn clone(&self) -> (r: TypeInfo)
        ensures
            r@ == self@,
    {
        self.duplicate()
    }
}

} // verus!
