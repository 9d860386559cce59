//! Tests of the lexer and recursive-descent parser.

use sigmos::ast::{Expression, PrimitiveType, TypeExpr, Version};
use sigmos::num::Num;
use sigmos::parser::SigmosParser;

#[test]
fn test_parse_simple_spec() {
    let input = r#"
        spec "Test" v1.0 {
            description: "A test specification"
        }
        "#;

    let result = SigmosParser::parse_spec(input);
    assert!(result.is_ok());

    let spec = result.unwrap();
    assert_eq!(spec.name, "Test");
    assert_eq!(spec.version.major, 1);
    assert_eq!(spec.version.minor, 0);
    assert_eq!(spec.description, Some("A test specification".to_string()));
}

#[test]
fn test_parse_spec_with_inputs() {
    let input = r#"
        spec "Agent" v1.0 {
            description: "An AI agent"
            inputs:
                name: string
                age: int
        }
        "#;

    let result = SigmosParser::parse_spec(input);
    assert!(result.is_ok());

    let spec = result.unwrap();
    assert_eq!(spec.name, "Agent");
    assert_eq!(spec.inputs.len(), 2);
    assert_eq!(spec.inputs[0].name, "name");
    assert_eq!(spec.inputs[1].name, "age");
}

#[test]
fn test_parse_spec_with_computed_fields() {
    let input = r#"
        spec "Example" v1.0 {
            computed:
                greeting: -> "Hello World"
                count: -> 42
        }
        "#;

    let result = SigmosParser::parse_spec(input);
    assert!(result.is_ok());

    let spec = result.unwrap();
    assert_eq!(spec.computed.len(), 2);
    assert_eq!(spec.computed[0].name, "greeting");
    assert_eq!(spec.computed[1].name, "count");
}

#[test]
fn parse_recognizes_field_types() {
    let input = r#"spec "T" v1.0 { inputs: a: string b: int c: float d: bool e: Custom }"#;
    let spec = SigmosParser::parse_spec(input).unwrap();
    assert_eq!(spec.inputs.len(), 5);
    assert_eq!(spec.inputs[0].type_expr, TypeExpr::Primitive(PrimitiveType::String));
    assert_eq!(spec.inputs[1].type_expr, TypeExpr::Primitive(PrimitiveType::Int));
    assert_eq!(spec.inputs[2].type_expr, TypeExpr::Primitive(PrimitiveType::Float));
    assert_eq!(spec.inputs[3].type_expr, TypeExpr::Primitive(PrimitiveType::Bool));
    assert_eq!(spec.inputs[4].type_expr, TypeExpr::Reference("Custom".to_string()));
    assert!(spec.inputs.iter().all(|f| f.modifiers.is_empty()));
}

#[test]
fn parse_version_with_patch() {
    let spec = SigmosParser::parse_spec(r#"spec "V" v2.1.3 {}"#).unwrap();
    assert_eq!(
        spec.version,
        Version { major: 2, minor: 1, patch: Some(3) }
    );
    assert_eq!(spec.version.render(), "2.1.3");
}

#[test]
fn version_render_round_trips_through_source() {
    let v = Version { major: 1, minor: 0, patch: None };
    assert_eq!(v.render(), "1.0");
    let source = format!("spec \"R\" v{} {{}}", v.render());
    let spec = SigmosParser::parse_spec(&source).unwrap();
    assert_eq!(spec.version, v);
    assert_eq!(spec.version.render(), "1.0");

    let v2 = Version { major: 2, minor: 1, patch: Some(3) };
    assert_eq!(v2.render(), "2.1.3");
    let source2 = format!("spec \"R\" v{} {{}}", v2.render());
    let spec2 = SigmosParser::parse_spec(&source2).unwrap();
    assert_eq!(spec2.version, v2);
}

#[test]
fn parse_computed_number_literals() {
    let spec = SigmosParser::parse_spec(
        r#"spec "N" v1.0 { computed: a: -> 42 b: -> 2.5 c: -> name }"#,
    )
    .unwrap();
    assert_eq!(spec.computed[0].expression, Expression::Number(Num::from_i64(42)));
    assert_eq!(spec.computed[1].expression, Expression::Number(Num::from_scaled(2_500_000)));
    assert_eq!(spec.computed[2].expression, Expression::Identifier("name".to_string()));
}

#[test]
fn errors_describe_expected_and_found() {
    let err = SigmosParser::parse_spec("spec 5 v1.0 {}").unwrap_err();
    let msg = err.message();
    assert!(msg.contains("Expected spec name as string literal"));
    assert!(msg.contains("found"));
    assert!(msg.contains("integer literal"));
}

#[test]
fn parse_rejects_structural_errors() {
    assert!(SigmosParser::parse_spec("").is_err());
    assert!(SigmosParser::parse_spec("spec").is_err());
    assert!(SigmosParser::parse_spec("spec \"x\"").is_err());
    assert!(SigmosParser::parse_spec("spec \"x\" v1.0").is_err());
    assert!(SigmosParser::parse_spec("spec \"x\" v1.0 {").is_err());
    assert!(SigmosParser::parse_spec("spec \"x\" v1.0 { description: 5 }").is_err());
    assert!(SigmosParser::parse_spec("spec \"unterminated v1.0 {}").is_err());
    assert!(SigmosParser::parse_spec("spec \"x\" v1.0 { # }").is_err());
}

#[test]
fn parse_skips_unknown_sections() {
    let spec = SigmosParser::parse_spec(
        r#"spec "L" v1.0 { something unknown description: "kept" }"#,
    )
    .unwrap();
    assert_eq!(spec.description, Some("kept".to_string()));
}

#[test]
fn parser_is_total_over_arbitrary_text() {
    let inputs = [
        "spec \"test\" v1.0 { \u{0} }",
        "spec \"test\" v1.0 { \u{ff} }",
        "spec \"test\" v1.0 { { { { } } } }",
        "spec \"test\" v999999999999999999999.0 {}",
        "spec \"test\" v1.999999999999999999999 {}",
        "spec 'test\" v1.0 {}",
        "spec \"test\n\" v1.0 {}",
        "\u{1F680} emoji",
        "-",
        "->->->",
        "1.2.3.4.5",
        "v1.0",
    ];
    for input in inputs {
        // Any outcome is fine as long as it is a value, not a crash.
        let _ = SigmosParser::parse_spec(input);
    }
}
