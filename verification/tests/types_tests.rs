//! Tests of the type system.

use sigmos::ast::{Expression, PrimitiveType, TypeExpr};
use sigmos::num::Num;
use sigmos::parser::SigmosParser;
use sigmos::types::{TypeChecker, TypeContext};

#[test]
fn test_primitive_types_are_valid() {
    let checker = TypeChecker::new();

    assert!(checker.is_valid_type(&TypeExpr::Primitive(PrimitiveType::String)));
    assert!(checker.is_valid_type(&TypeExpr::Primitive(PrimitiveType::Int)));
    assert!(checker.is_valid_type(&TypeExpr::Primitive(PrimitiveType::Float)));
    assert!(checker.is_valid_type(&TypeExpr::Primitive(PrimitiveType::Bool)));
    assert!(checker.is_valid_type(&TypeExpr::Primitive(PrimitiveType::Null)));
}

#[test]
fn test_builtin_generic_types() {
    let checker = TypeChecker::new();

    let list_type = TypeExpr::Generic {
        name: "list".to_string(),
        args: vec![TypeExpr::Primitive(PrimitiveType::String)],
    };
    assert!(checker.is_valid_type(&list_type));
}

#[test]
fn test_user_type_registration() {
    let mut checker = TypeChecker::new();

    let user_type = TypeExpr::Primitive(PrimitiveType::String);
    checker.register_type("UserId".to_string(), user_type).unwrap();

    let reference = TypeExpr::Reference("UserId".to_string());
    assert!(checker.is_valid_type(&reference));
}

#[test]
fn register_type_refuses_builtin_collision() {
    let mut checker = TypeChecker::new();
    let result = checker.register_type(
        "list".to_string(),
        TypeExpr::Primitive(PrimitiveType::Int),
    );
    assert!(result.is_err());
}

#[test]
fn register_type_refuses_invalid_definition() {
    let mut checker = TypeChecker::new();
    let result = checker.register_type(
        "Broken".to_string(),
        TypeExpr::Reference("Missing".to_string()),
    );
    assert!(result.is_err());
}

#[test]
fn inference_follows_the_structural_rules() {
    let checker = TypeChecker::new();
    let mut context = TypeContext::new();
    context.add_variable("n".to_string(), TypeExpr::Primitive(PrimitiveType::Int));

    // Literals type themselves; numeric literals infer as Float.
    let t = checker
        .type_of_expression(&Expression::Number(Num::from_i64(1)), &context)
        .unwrap();
    assert_eq!(t, TypeExpr::Primitive(PrimitiveType::Float));

    // Int + Int is Int.
    let add = Expression::Add(
        Box::new(Expression::Identifier("n".to_string())),
        Box::new(Expression::Identifier("n".to_string())),
    );
    assert_eq!(
        checker.type_of_expression(&add, &context).unwrap(),
        TypeExpr::Primitive(PrimitiveType::Int)
    );

    // Int + Float is Float.
    let mixed = Expression::Add(
        Box::new(Expression::Identifier("n".to_string())),
        Box::new(Expression::Number(Num::from_i64(1))),
    );
    assert_eq!(
        checker.type_of_expression(&mixed, &context).unwrap(),
        TypeExpr::Primitive(PrimitiveType::Float)
    );

    // String + String is a type error for arithmetic.
    let bad = Expression::Add(
        Box::new(Expression::StringLiteral("a".to_string())),
        Box::new(Expression::StringLiteral("b".to_string())),
    );
    assert!(checker.type_of_expression(&bad, &context).is_err());

    // Comparisons are Bool without operand checks.
    let cmp = Expression::LessThan(
        Box::new(Expression::Identifier("n".to_string())),
        Box::new(Expression::StringLiteral("x".to_string())),
    );
    assert_eq!(
        checker.type_of_expression(&cmp, &context).unwrap(),
        TypeExpr::Primitive(PrimitiveType::Bool)
    );

    // Undefined variables fail inference, naming the variable.
    let unknown = Expression::Identifier("missing".to_string());
    match checker.type_of_expression(&unknown, &context) {
        Err(e) => assert!(e.message().contains("missing")),
        Ok(_) => panic!("undefined variable must fail"),
    }

    // An unknown function call is assumed to return String.
    let call = Expression::FunctionCall {
        object: "svc".to_string(),
        method: "go".to_string(),
        arguments: vec![],
    };
    assert_eq!(
        checker.type_of_expression(&call, &context).unwrap(),
        TypeExpr::Primitive(PrimitiveType::String)
    );
}

#[test]
fn validate_spec_checks_fields_and_computed() {
    let spec = SigmosParser::parse_spec(
        r#"spec "T" v1.0 { inputs: a: string computed: c: -> "ok" }"#,
    )
    .unwrap();
    let mut checker = TypeChecker::new();
    assert!(checker.validate_spec(&spec).is_ok());

    let bad = SigmosParser::parse_spec(r#"spec "T" v1.0 { inputs: a: Missing }"#).unwrap();
    let mut checker2 = TypeChecker::new();
    assert!(checker2.validate_spec(&bad).is_err());

    // A computed field referring to a variable has no context at validation
    // time and is rejected.
    let unbound = SigmosParser::parse_spec(r#"spec "T" v1.0 { computed: c: -> other }"#).unwrap();
    let mut checker3 = TypeChecker::new();
    assert!(checker3.validate_spec(&unbound).is_err());
}
