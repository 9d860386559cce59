//! Tests of values, numbers and rendering.

use sigmos::ast::{Expression, TemplatePart, Version};
use sigmos::num::Num;
use sigmos::runtime::{Bindings, Runtime};
use sigmos::value::Value;

#[test]
fn number_rendering_drops_trailing_zeros() {
    assert_eq!(Value::Number(Num::from_i64(8)).render(), "8");
    assert_eq!(Value::Number(Num::from_i64(30)).render(), "30");
    assert_eq!(Value::Number(Num::from_i64(0)).render(), "0");
    assert_eq!(Value::Number(Num::from_scaled(-5_500_000)).render(), "-5.5");
    assert_eq!(Value::Number(Num::from_scaled(105_000)).render(), "0.105");
    assert_eq!(Value::Number(Num::from_scaled(1)).render(), "0.000001");
    assert_eq!(Value::Number(Num::from_i64(-12)).render(), "-12");
}

#[test]
fn scalar_rendering() {
    assert_eq!(Value::Null.render(), "null");
    assert_eq!(Value::Bool(true).render(), "true");
    assert_eq!(Value::Bool(false).render(), "false");
    assert_eq!(Value::Str("plain".to_string()).render(), "plain");
}

#[test]
fn collections_render_structurally_in_templates() {
    let runtime: Runtime = Runtime::new();
    let mut context = Bindings::new();
    context.insert(
        "xs".to_string(),
        Value::Array(vec![
            Value::Number(Num::from_i64(1)),
            Value::Str("a\"b".to_string()),
            Value::Null,
        ]),
    );
    context.insert(
        "o".to_string(),
        Value::Object(vec![("k".to_string(), Value::Bool(true))]),
    );
    let template = Expression::StringTemplate {
        parts: vec![
            TemplatePart::Variable("xs".to_string()),
            TemplatePart::Text(" ".to_string()),
            TemplatePart::Variable("o".to_string()),
        ],
    };
    let result = runtime
        .evaluate_expression_with_context(&template, &context)
        .unwrap();
    assert_eq!(
        result,
        Value::Str("[1,\"a\\\"b\",null] {\"k\":true}".to_string())
    );
}

#[test]
fn version_rendering() {
    assert_eq!(Version { major: 1, minor: 0, patch: None }.render(), "1.0");
    assert_eq!(Version { major: 10, minor: 23, patch: Some(400) }.render(), "10.23.400");
}

#[test]
fn checked_arithmetic_reports_overflow() {
    let a = Num::from_scaled(i64::MAX);
    let b = Num::from_scaled(1);
    assert!(a.checked_add(&b).is_none());
    assert_eq!(
        Num::from_i64(2).checked_mul(&Num::from_i64(3)).unwrap(),
        Num::from_i64(6)
    );
    assert_eq!(
        Num::from_i64(7).checked_div(&Num::from_i64(2)).unwrap(),
        Num::from_scaled(3_500_000)
    );
    assert_eq!(
        Num::from_i64(-7).rem(&Num::from_i64(3)),
        Num::from_i64(-1)
    );
}

#[test]
fn duplicate_preserves_structure() {
    let v = Value::Object(vec![
        (
            "list".to_string(),
            Value::Array(vec![Value::Number(Num::from_i64(1)), Value::Bool(false)]),
        ),
        ("s".to_string(), Value::Str("text".to_string())),
    ]);
    let copy = v.duplicate();
    assert_eq!(copy, v);
}

#[test]
fn test_memory_pressure() {
    for size in [1000, 5000, 10000] {
        let large_string = "x".repeat(size);
        let expr = Expression::StringLiteral(large_string.clone());

        let runtime: Runtime = Runtime::new();
        let result = runtime.evaluate_expression(&expr);

        assert!(result.is_ok(), "Failed to handle large string of size {}", size);

        if let Value::Str(result_str) = result.unwrap() {
            assert_eq!(result_str.len(), size);
        }
    }

    let runtime: Runtime = Runtime::new();
    for _ in 0..10000 {
        let expr = Expression::StringLiteral("small".to_string());
        let result = runtime.evaluate_expression(&expr);
        assert!(result.is_ok(), "Failed under memory pressure");
    }
}
