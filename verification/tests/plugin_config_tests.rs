//! Tests of capability-provider configuration and related handles.

use sigmos::engine::Engine;
use sigmos::PluginError;
use sigmos::rest::{HttpMethod, RestConfig};
use sigmos::transpiler::Transpiler;

#[test]
fn test_rest_config_validation() {
    let mut config = RestConfig::default();
    assert!(config.validate().is_ok());

    config.name = "".to_string();
    assert!(config.validate().is_err());

    config.name = "test".to_string();
    config.base_url = "invalid-url".to_string();
    assert!(config.validate().is_err());

    config.base_url = "https://api.example.com".to_string();
    config.timeout_seconds = 0;
    assert!(config.validate().is_err());
}

#[test]
fn test_http_method_display() {
    assert_eq!(HttpMethod::GET.render(), "GET");
    assert_eq!(HttpMethod::POST.render(), "POST");
    assert_eq!(HttpMethod::DELETE.render(), "DELETE");
}

#[test]
fn rest_config_carries_its_plugin_name() {
    let config = RestConfig::default();
    assert_eq!(config.plugin_name(), "rest");
    assert_eq!(config.base_url, "https://api.example.com");
    assert_eq!(config.timeout_seconds, 30);
}

#[test]
fn test_transpiler_creation() {
    let transpiler = Transpiler::new();
    assert!(format!("{:?}", transpiler).contains("Transpiler"));
}

#[test]
fn engine_creation() {
    let engine = Engine::new();
    assert!(format!("{:?}", engine).contains("Engine"));
}

#[test]
fn test_plugin_error_display() {
    let error = PluginError::MethodNotFound("test_method".to_string());
    assert!(error.message().contains("test_method"));
}
