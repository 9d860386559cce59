//! The specification document and its nested entities.
//!
//! Everything here is plain data: the parser builds a `Spec` once and the
//! type system and runtime only read it.

use vstd::prelude::*;
use crate::num::Num;
use crate::text::{dec_str, u32_to_string};

verus! {

/// Semantic version of a specification: major and minor are required,
/// patch is optional. No pre-release or build metadata.
#[derive(Debug, Clone, PartialEq)]
pub struct Version {
    pub major: u32,
    pub minor: u32,
    pub patch: Option<u32>,
}

impl Version {
    /// The rendered form of a version: `major.minor` or `major.minor.patch`.
    pub open spec fn spec_render(self) -> Seq<char> {
        match self.patch {
            Some(p) => dec_str(self.major as nat) + seq!['.'] + dec_str(self.minor as nat)
                + seq!['.'] + dec_str(p as nat),
            None => dec_str(self.major as nat) + seq!['.'] + dec_str(self.minor as nat),
        }
    }

    /// Render the version as text, `1.0` or `2.1.3`.
    pub fn render(&self) -> (r: String)
        ensures
            r@ == self.spec_render(),
    {
        let mut r = u32_to_string(self.major);
        r.append(".");
        let minor = u32_to_string(self.minor);
        r.append(minor.as_str());
        match self.patch {
            Some(p) => {
                r.append(".");
                let patch = u32_to_string(p);
                r.append(patch.as_str());
                proof {
                    reveal_strlit(".");
                    assert(r@ == self.spec_render());
                }
                r
            },
            None => {
                proof {
                    reveal_strlit(".");
                    assert(r@ == self.spec_render());
                }
                r
            },
        }
    }
}

/// Root specification document.
#[derive(Debug, PartialEq)]
pub struct Spec {
    pub name: String,
    pub version: Version,
    pub description: Option<String>,
    pub inputs: Vec<FieldDef>,
    pub computed: Vec<ComputedField>,
    pub events: Vec<EventDef>,
    pub constraints: Vec<ConstraintDef>,
    pub lifecycle: Vec<LifecycleDef>,
    pub extensions: Vec<ExtensionDef>,
    pub types: Vec<TypeDef>,
}

/// Input field definition: a name, a type expression and modifiers.
#[derive(Debug, PartialEq)]
pub struct FieldDef {
    pub name: String,
    pub type_expr: TypeExpr,
    pub modifiers: Vec<Modifier>,
}

/// Type expressions.
#[derive(Debug, PartialEq)]
pub enum TypeExpr {
    Primitive(PrimitiveType),
    Generic { name: String, args: Vec<TypeExpr> },
    Reference(String),
}

/// Primitive types.
#[derive(Debug, Clone, Copy, PartialEq, Eq, Structural)]
pub enum PrimitiveType {
    String,
    Int,
    Float,
    Bool,
    Null,
}

impl PrimitiveType {
    /// The lower-case name of the primitive type.
    pub open spec fn spec_render(self) -> Seq<char> {
        match self {
            PrimitiveType::String => "string"@,
            PrimitiveType::Int => "int"@,
            PrimitiveType::Float => "float"@,
            PrimitiveType::Bool => "bool"@,
            PrimitiveType::Null => "null"@,
        }
    }

    /// Render the primitive type name as text.
    pub fn render(&self) -> (r: String)
        ensures
            r@ == self.spec_render(),
    {
        match self {
            PrimitiveType::String => String::from_str("string"),
            PrimitiveType::Int => String::from_str("int"),
            PrimitiveType::Float => String::from_str("float"),
            PrimitiveType::Bool => String::from_str("bool"),
            PrimitiveType::Null => String::from_str("null"),
        }
    }
}

/// Field modifiers: a closed set; several may coexist on one field.
#[derive(Debug, PartialEq)]
pub enum Modifier {
    Optional,
    Readonly,
    Default(Expression),
    Computed,
    Secret,
    Generate,
    Ref(String),
}

/// A computed field: evaluated once per execution, cached under its name.
#[derive(Debug, PartialEq)]
pub struct ComputedField {
    pub name: String,
    pub expression: Expression,
}

/// Event definition: parsed and validated, not dispatched by `execute`.
#[derive(Debug, PartialEq)]
pub struct EventDef {
    pub event_type: EventType,
    pub parameter: String,
    pub action: Action,
}

/// Event kinds.
#[derive(Debug, Clone, PartialEq)]
pub enum EventType {
    OnCreate,
    OnChange,
    OnError,
    Custom(String),
}

/// An action a lifecycle entry or event can trigger.
#[derive(Debug, PartialEq)]
pub enum Action {
    FunctionCall { object: String, method: String, arguments: Vec<Argument> },
    Identifier(String),
}

/// A named function-call argument; an empty name marks a positional one.
#[derive(Debug, PartialEq)]
pub struct Argument {
    pub name: String,
    pub value: Expression,
}

/// Expressions: a strict tree, owned by whichever entity embeds it.
#[derive(Debug, PartialEq)]
pub enum Expression {
    StringLiteral(String),
    StringTemplate { parts: Vec<TemplatePart> },
    Number(Num),
    Boolean(bool),
    Identifier(String),
    FunctionCall { object: String, method: String, arguments: Vec<Argument> },
    Add(Box<Expression>, Box<Expression>),
    Subtract(Box<Expression>, Box<Expression>),
    Multiply(Box<Expression>, Box<Expression>),
    Divide(Box<Expression>, Box<Expression>),
    Modulo(Box<Expression>, Box<Expression>),
    Equal(Box<Expression>, Box<Expression>),
    NotEqual(Box<Expression>, Box<Expression>),
    LessThan(Box<Expression>, Box<Expression>),
    LessThanOrEqual(Box<Expression>, Box<Expression>),
    GreaterThan(Box<Expression>, Box<Expression>),
    GreaterThanOrEqual(Box<Expression>, Box<Expression>),
    And(Box<Expression>, Box<Expression>),
    Or(Box<Expression>, Box<Expression>),
    Not(Box<Expression>),
    Conditional { condition: Box<Expression>, if_true: Box<Expression>, if_false: Box<Expression> },
    ArrayAccess(Box<Expression>, Box<Expression>),
    PropertyAccess(Box<Expression>, String),
}

/// Parts of a string template: literal text or a variable placeholder.
#[derive(Debug, Clone, PartialEq)]
pub enum TemplatePart {
    Text(String),
    Variable(String),
}

/// Constraint definition: parsed and validated, not enforced by `execute`.
#[derive(Debug, PartialEq)]
pub struct ConstraintDef {
    pub constraint_type: ConstraintType,
    pub expression: Expression,
}

/// Constraint kinds.
#[derive(Debug, Clone, Copy, PartialEq, Eq, Structural)]
pub enum ConstraintType {
    Assert,
    Ensure,
}

/// Lifecycle definition: a phase and the action run in that phase.
#[derive(Debug, PartialEq)]
pub struct LifecycleDef {
    pub phase: LifecyclePhase,
    pub action: Action,
}

/// Lifecycle phases. `Finally` is parsed but not distinguished from the
/// others during execution.
#[derive(Debug, Clone, Copy, PartialEq, Eq, Structural)]
pub enum LifecyclePhase {
    Before,
    After,
    Finally,
}

/// Extension import.
#[derive(Debug, Clone, PartialEq)]
pub struct ExtensionDef {
    pub name: String,
    pub import_spec: String,
}

/// User type definition.
#[derive(Debug, PartialEq)]
pub struct TypeDef {
    pub name: String,
    pub type_expr: TypeExpr,
}

} // verus!
