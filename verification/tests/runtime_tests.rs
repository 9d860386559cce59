//! Tests of expression evaluation and specification execution.

use sigmos::ast::{Argument, ComputedField, Expression, FieldDef, Spec, TemplatePart, Version};
use sigmos::num::Num;
use sigmos::parser::SigmosParser;
use sigmos::runtime::{Bindings, ExecutionState, Runtime};
use sigmos::value::Value;

fn num(n: i64) -> Expression {
    Expression::Number(Num::from_i64(n))
}

fn runtime() -> Runtime {
    Runtime::new()
}

#[test]
fn test_runtime_creation() {
    let runtime = runtime();
    assert_eq!(*runtime.context().state(), ExecutionState::Idle);
}

#[test]
fn test_execute_empty_spec() {
    let mut runtime = runtime();
    let spec = Spec {
        name: "Test".to_string(),
        version: Version { major: 1, minor: 0, patch: None },
        description: None,
        inputs: vec![],
        computed: vec![],
        events: vec![],
        constraints: vec![],
        lifecycle: vec![],
        extensions: vec![],
        types: vec![],
    };

    runtime.execute(&spec).unwrap();
    assert_eq!(*runtime.context().state(), ExecutionState::Completed);
}

#[test]
fn test_enhanced_arithmetic_expressions() {
    let runtime = runtime();

    let add_expr = Expression::Add(Box::new(num(5)), Box::new(num(3)));
    let result = runtime.evaluate_expression(&add_expr).unwrap();
    assert_eq!(result, Value::Number(Num::from_i64(8)));

    let concat_expr = Expression::Add(
        Box::new(Expression::StringLiteral("Hello ".to_string())),
        Box::new(Expression::StringLiteral("World".to_string())),
    );
    let result = runtime.evaluate_expression(&concat_expr).unwrap();
    assert_eq!(result, Value::Str("Hello World".to_string()));

    let sub_expr = Expression::Subtract(Box::new(num(10)), Box::new(num(4)));
    let result = runtime.evaluate_expression(&sub_expr).unwrap();
    assert_eq!(result, Value::Number(Num::from_i64(6)));

    let mul_expr = Expression::Multiply(Box::new(num(3)), Box::new(num(4)));
    let result = runtime.evaluate_expression(&mul_expr).unwrap();
    assert_eq!(result, Value::Number(Num::from_i64(12)));

    let div_expr = Expression::Divide(Box::new(num(15)), Box::new(num(3)));
    let result = runtime.evaluate_expression(&div_expr).unwrap();
    assert_eq!(result, Value::Number(Num::from_i64(5)));

    let mod_expr = Expression::Modulo(Box::new(num(17)), Box::new(num(5)));
    let result = runtime.evaluate_expression(&mod_expr).unwrap();
    assert_eq!(result, Value::Number(Num::from_i64(2)));
}

#[test]
fn test_enhanced_comparison_expressions() {
    let runtime = runtime();

    let lt_expr = Expression::LessThan(Box::new(num(3)), Box::new(num(5)));
    let result = runtime.evaluate_expression(&lt_expr).unwrap();
    assert_eq!(result, Value::Bool(true));

    let gt_expr = Expression::GreaterThan(Box::new(num(7)), Box::new(num(4)));
    let result = runtime.evaluate_expression(&gt_expr).unwrap();
    assert_eq!(result, Value::Bool(true));

    let eq_expr = Expression::Equal(
        Box::new(Expression::StringLiteral("test".to_string())),
        Box::new(Expression::StringLiteral("test".to_string())),
    );
    let result = runtime.evaluate_expression(&eq_expr).unwrap();
    assert_eq!(result, Value::Bool(true));

    let ne_expr = Expression::NotEqual(Box::new(num(5)), Box::new(num(3)));
    let result = runtime.evaluate_expression(&ne_expr).unwrap();
    assert_eq!(result, Value::Bool(true));
}

#[test]
fn test_enhanced_logical_expressions() {
    let runtime = runtime();

    let and_expr = Expression::And(
        Box::new(Expression::Boolean(true)),
        Box::new(Expression::Boolean(true)),
    );
    let result = runtime.evaluate_expression(&and_expr).unwrap();
    assert_eq!(result, Value::Bool(true));

    let and_false_expr = Expression::And(
        Box::new(Expression::Boolean(true)),
        Box::new(Expression::Boolean(false)),
    );
    let result = runtime.evaluate_expression(&and_false_expr).unwrap();
    assert_eq!(result, Value::Bool(false));

    let or_expr = Expression::Or(
        Box::new(Expression::Boolean(false)),
        Box::new(Expression::Boolean(true)),
    );
    let result = runtime.evaluate_expression(&or_expr).unwrap();
    assert_eq!(result, Value::Bool(true));

    let not_expr = Expression::Not(Box::new(Expression::Boolean(false)));
    let result = runtime.evaluate_expression(&not_expr).unwrap();
    assert_eq!(result, Value::Bool(true));
}

#[test]
fn test_enhanced_conditional_expressions() {
    let runtime = runtime();

    let cond_true_expr = Expression::Conditional {
        condition: Box::new(Expression::Boolean(true)),
        if_true: Box::new(Expression::StringLiteral("yes".to_string())),
        if_false: Box::new(Expression::StringLiteral("no".to_string())),
    };
    let result = runtime.evaluate_expression(&cond_true_expr).unwrap();
    assert_eq!(result, Value::Str("yes".to_string()));

    let cond_false_expr = Expression::Conditional {
        condition: Box::new(Expression::Boolean(false)),
        if_true: Box::new(num(1)),
        if_false: Box::new(num(2)),
    };
    let result = runtime.evaluate_expression(&cond_false_expr).unwrap();
    assert_eq!(result, Value::Number(Num::from_i64(2)));
}

fn builtin_call(method: &str, value: Expression) -> Expression {
    Expression::FunctionCall {
        object: "".to_string(),
        method: method.to_string(),
        arguments: vec![Argument { name: "".to_string(), value }],
    }
}

#[test]
fn test_enhanced_builtin_functions() {
    let runtime = runtime();

    let len_expr = builtin_call("len", Expression::StringLiteral("hello".to_string()));
    let result = runtime.evaluate_expression(&len_expr).unwrap();
    assert_eq!(result, Value::Number(Num::from_i64(5)));

    let upper_expr = builtin_call("upper", Expression::StringLiteral("hello".to_string()));
    let result = runtime.evaluate_expression(&upper_expr).unwrap();
    assert_eq!(result, Value::Str("HELLO".to_string()));

    let lower_expr = builtin_call("lower", Expression::StringLiteral("WORLD".to_string()));
    let result = runtime.evaluate_expression(&lower_expr).unwrap();
    assert_eq!(result, Value::Str("world".to_string()));

    let trim_expr = builtin_call("trim", Expression::StringLiteral("  test  ".to_string()));
    let result = runtime.evaluate_expression(&trim_expr).unwrap();
    assert_eq!(result, Value::Str("test".to_string()));

    let abs_expr = builtin_call("abs", Expression::Number(Num::from_scaled(-5_500_000)));
    let result = runtime.evaluate_expression(&abs_expr).unwrap();
    assert_eq!(result, Value::Number(Num::from_scaled(5_500_000)));
}

#[test]
fn test_enhanced_string_templates() {
    let runtime = runtime();
    let mut context = Bindings::new();
    context.insert("name".to_string(), Value::Str("Alice".to_string()));
    context.insert("age".to_string(), Value::Number(Num::from_i64(30)));

    let template_expr = Expression::StringTemplate {
        parts: vec![
            TemplatePart::Text("Hello, ".to_string()),
            TemplatePart::Variable("name".to_string()),
            TemplatePart::Text("! You are ".to_string()),
            TemplatePart::Variable("age".to_string()),
            TemplatePart::Text(" years old.".to_string()),
        ],
    };
    let result = runtime
        .evaluate_expression_with_context(&template_expr, &context)
        .unwrap();
    assert_eq!(
        result,
        Value::Str("Hello, Alice! You are 30 years old.".to_string())
    );

    let template_missing_expr = Expression::StringTemplate {
        parts: vec![
            TemplatePart::Text("Hello, ".to_string()),
            TemplatePart::Variable("unknown".to_string()),
            TemplatePart::Text("!".to_string()),
        ],
    };
    let result = runtime
        .evaluate_expression_with_context(&template_missing_expr, &context)
        .unwrap();
    assert_eq!(result, Value::Str("Hello, ${unknown}!".to_string()));
}

#[test]
fn test_enhanced_variable_resolution() {
    let runtime = runtime();
    let mut context = Bindings::new();
    context.insert("x".to_string(), Value::Number(Num::from_i64(42)));
    context.insert("greeting".to_string(), Value::Str("Hello".to_string()));

    let var_expr = Expression::Identifier("x".to_string());
    let result = runtime
        .evaluate_expression_with_context(&var_expr, &context)
        .unwrap();
    assert_eq!(result, Value::Number(Num::from_i64(42)));

    let str_var_expr = Expression::Identifier("greeting".to_string());
    let result = runtime
        .evaluate_expression_with_context(&str_var_expr, &context)
        .unwrap();
    assert_eq!(result, Value::Str("Hello".to_string()));

    let unknown_expr = Expression::Identifier("unknown".to_string());
    let result = runtime
        .evaluate_expression_with_context(&unknown_expr, &context)
        .unwrap();
    assert_eq!(result, Value::Str("${unknown}".to_string()));
}

#[test]
fn test_enhanced_complex_expressions() {
    let runtime = runtime();
    let mut context = Bindings::new();
    context.insert("a".to_string(), Value::Number(Num::from_i64(10)));
    context.insert("b".to_string(), Value::Number(Num::from_i64(5)));

    let complex_expr = Expression::Multiply(
        Box::new(Expression::Add(
            Box::new(Expression::Identifier("a".to_string())),
            Box::new(Expression::Identifier("b".to_string())),
        )),
        Box::new(num(2)),
    );
    let result = runtime
        .evaluate_expression_with_context(&complex_expr, &context)
        .unwrap();
    assert_eq!(result, Value::Number(Num::from_i64(30)));

    let complex_cond = Expression::Conditional {
        condition: Box::new(Expression::GreaterThan(
            Box::new(Expression::Identifier("a".to_string())),
            Box::new(Expression::Identifier("b".to_string())),
        )),
        if_true: Box::new(Expression::StringLiteral("greater".to_string())),
        if_false: Box::new(Expression::StringLiteral("not greater".to_string())),
    };
    let result = runtime
        .evaluate_expression_with_context(&complex_cond, &context)
        .unwrap();
    assert_eq!(result, Value::Str("greater".to_string()));
}

#[test]
fn test_enhanced_error_handling() {
    let runtime = runtime();

    let div_zero_expr = Expression::Divide(Box::new(num(10)), Box::new(num(0)));
    let result = runtime.evaluate_expression(&div_zero_expr);
    assert!(result.is_err());

    let mod_zero_expr = Expression::Modulo(Box::new(num(10)), Box::new(num(0)));
    let result = runtime.evaluate_expression(&mod_zero_expr);
    assert!(result.is_err());

    let invalid_func_expr = Expression::FunctionCall {
        object: "".to_string(),
        method: "nonexistent".to_string(),
        arguments: vec![],
    };
    let result = runtime.evaluate_expression(&invalid_func_expr);
    match result {
        Err(e) => assert!(e.message().contains("nonexistent")),
        Ok(_) => panic!("unknown function must fail"),
    }

    // An unregistered provider name is an evaluation error naming it.
    let missing_plugin = Expression::FunctionCall {
        object: "svc".to_string(),
        method: "go".to_string(),
        arguments: vec![],
    };
    let result = runtime.evaluate_expression(&missing_plugin);
    match result {
        Err(e) => assert!(e.message().contains("svc")),
        Ok(_) => panic!("unregistered provider must fail"),
    }

    let invalid_len_expr = builtin_call("len", num(42));
    let result = runtime.evaluate_expression(&invalid_len_expr);
    assert!(result.is_err());
}

#[test]
fn truthiness_table_through_operators() {
    let runtime = runtime();
    // Falsy values: null, false, zero, empty text, empty array, empty object.
    let falsy = [
        Value::Null,
        Value::Bool(false),
        Value::Number(Num::from_i64(0)),
        Value::Str("".to_string()),
        Value::Array(vec![]),
        Value::Object(vec![]),
    ];
    for v in falsy {
        assert!(!runtime.is_truthy(&v));
    }
    let truthy = [
        Value::Bool(true),
        Value::Number(Num::from_i64(1)),
        Value::Number(Num::from_scaled(-1)),
        Value::Str("x".to_string()),
        Value::Array(vec![Value::Null]),
        Value::Object(vec![("k".to_string(), Value::Null)]),
    ];
    for v in truthy {
        assert!(runtime.is_truthy(&v));
    }

    // The same table, observed through Not and Conditional.
    let not_empty = Expression::Not(Box::new(Expression::StringLiteral("".to_string())));
    assert_eq!(runtime.evaluate_expression(&not_empty).unwrap(), Value::Bool(true));
    let cond = Expression::Conditional {
        condition: Box::new(num(0)),
        if_true: Box::new(Expression::StringLiteral("then".to_string())),
        if_false: Box::new(Expression::StringLiteral("else".to_string())),
    };
    assert_eq!(runtime.evaluate_expression(&cond).unwrap(), Value::Str("else".to_string()));
    let or_short = Expression::Or(
        Box::new(Expression::Boolean(true)),
        Box::new(Expression::Divide(Box::new(num(1)), Box::new(num(0)))),
    );
    assert_eq!(runtime.evaluate_expression(&or_short).unwrap(), Value::Bool(true));
    let and_short = Expression::And(
        Box::new(Expression::Boolean(false)),
        Box::new(Expression::Divide(Box::new(num(1)), Box::new(num(0)))),
    );
    assert_eq!(runtime.evaluate_expression(&and_short).unwrap(), Value::Bool(false));
}

#[test]
fn structural_equality_is_recursive() {
    let runtime = runtime();
    let a = Value::Array(vec![
        Value::Number(Num::from_i64(1)),
        Value::Str("two".to_string()),
    ]);
    let b = Value::Array(vec![
        Value::Number(Num::from_i64(1)),
        Value::Str("two".to_string()),
    ]);
    assert!(runtime.values_equal(&a, &b));

    // Arrays are order-sensitive.
    let c = Value::Array(vec![
        Value::Str("two".to_string()),
        Value::Number(Num::from_i64(1)),
    ]);
    assert!(!runtime.values_equal(&a, &c));

    // Objects are key-and-value sensitive, not order-sensitive.
    let o1 = Value::Object(vec![
        ("x".to_string(), Value::Number(Num::from_i64(1))),
        ("y".to_string(), Value::Number(Num::from_i64(2))),
    ]);
    let o2 = Value::Object(vec![
        ("y".to_string(), Value::Number(Num::from_i64(2))),
        ("x".to_string(), Value::Number(Num::from_i64(1))),
    ]);
    assert!(runtime.values_equal(&o1, &o2));
    let o3 = Value::Object(vec![
        ("x".to_string(), Value::Number(Num::from_i64(1))),
        ("z".to_string(), Value::Number(Num::from_i64(2))),
    ]);
    assert!(!runtime.values_equal(&o1, &o3));

    // Numbers compare exactly.
    assert!(runtime.values_equal(
        &Value::Number(Num::from_scaled(2_500_000)),
        &Value::Number(Num::from_scaled(2_500_000)),
    ));
    assert!(!runtime.values_equal(
        &Value::Number(Num::from_scaled(2_500_000)),
        &Value::Number(Num::from_scaled(2_500_001)),
    ));
}

#[test]
fn array_and_property_access() {
    let runtime = runtime();
    let mut context = Bindings::new();
    context.insert(
        "items".to_string(),
        Value::Array(vec![
            Value::Str("a".to_string()),
            Value::Str("b".to_string()),
        ]),
    );
    context.insert(
        "obj".to_string(),
        Value::Object(vec![("k".to_string(), Value::Number(Num::from_i64(7)))]),
    );

    let idx = Expression::ArrayAccess(
        Box::new(Expression::Identifier("items".to_string())),
        Box::new(num(1)),
    );
    assert_eq!(
        runtime.evaluate_expression_with_context(&idx, &context).unwrap(),
        Value::Str("b".to_string())
    );

    let oob = Expression::ArrayAccess(
        Box::new(Expression::Identifier("items".to_string())),
        Box::new(num(5)),
    );
    assert!(runtime.evaluate_expression_with_context(&oob, &context).is_err());

    let keyed = Expression::ArrayAccess(
        Box::new(Expression::Identifier("obj".to_string())),
        Box::new(Expression::StringLiteral("k".to_string())),
    );
    assert_eq!(
        runtime.evaluate_expression_with_context(&keyed, &context).unwrap(),
        Value::Number(Num::from_i64(7))
    );

    let missing = Expression::ArrayAccess(
        Box::new(Expression::Identifier("obj".to_string())),
        Box::new(Expression::StringLiteral("absent".to_string())),
    );
    assert_eq!(
        runtime.evaluate_expression_with_context(&missing, &context).unwrap(),
        Value::Null
    );

    let prop = Expression::PropertyAccess(
        Box::new(Expression::Identifier("obj".to_string())),
        "k".to_string(),
    );
    assert_eq!(
        runtime.evaluate_expression_with_context(&prop, &context).unwrap(),
        Value::Number(Num::from_i64(7))
    );

    let bad_prop = Expression::PropertyAccess(Box::new(num(3)), "k".to_string());
    assert!(runtime.evaluate_expression_with_context(&bad_prop, &context).is_err());
}

#[test]
fn end_to_end_scenario() {
    let source = r#"spec "Agent" v1.0 { description: "demo" inputs: name: string computed: greeting: -> "Hello World" }"#;
    let spec = SigmosParser::parse_spec(source).unwrap();
    assert_eq!(spec.name, "Agent");
    assert_eq!(spec.inputs.len(), 1);
    assert_eq!(
        spec.inputs[0],
        FieldDef {
            name: "name".to_string(),
            type_expr: sigmos::ast::TypeExpr::Primitive(sigmos::ast::PrimitiveType::String),
            modifiers: vec![],
        }
    );
    assert_eq!(spec.computed.len(), 1);
    assert_eq!(
        spec.computed[0],
        ComputedField {
            name: "greeting".to_string(),
            expression: Expression::StringLiteral("Hello World".to_string()),
        }
    );

    let mut runtime = runtime();
    runtime.execute(&spec).unwrap();
    assert_eq!(*runtime.context().state(), ExecutionState::Completed);
    let cached = runtime
        .context()
        .computed_value(&"greeting".to_string())
        .unwrap();
    assert_eq!(*cached, Value::Str("Hello World".to_string()));
    // The input field was bound to its default null value.
    let bound = runtime.context().variable(&"name".to_string()).unwrap();
    assert_eq!(*bound, Value::Null);
}
