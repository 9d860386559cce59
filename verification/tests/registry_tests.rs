//! Tests of the plugin registry and capability boundary.

use sigmos::registry::{PluginCapabilities, PluginMetadata, PluginRegistry};
use sigmos::runtime::{Bindings, Plugin, RuntimeError, RuntimeResult};
use sigmos::value::Value;

#[derive(Debug)]
struct MockPlugin {
    name: String,
    initialized: bool,
}

impl MockPlugin {
    fn new(name: String) -> Self {
        Self { name, initialized: false }
    }
}

impl Plugin for MockPlugin {
    fn name(&self) -> String {
        self.name.clone()
    }

    fn initialize(&mut self) -> RuntimeResult<()> {
        self.initialized = true;
        Ok(())
    }

    fn execute(&self, method: &String, _args: &Bindings) -> RuntimeResult<Value> {
        if !self.initialized {
            return Err(RuntimeError::Plugin("not initialized".to_string()));
        }
        Ok(Value::Str(format!("{}:{}", self.name, method)))
    }
}

fn metadata(name: &str) -> PluginMetadata {
    PluginMetadata {
        name: name.to_string(),
        version: "1.0.0".to_string(),
        description: "Test plugin".to_string(),
        author: "Test Author".to_string(),
        methods: vec!["test_method".to_string()],
    }
}

fn capabilities() -> PluginCapabilities {
    PluginCapabilities {
        supports_async: false,
        supports_streaming: false,
        requires_network: false,
        requires_auth: false,
    }
}

#[test]
fn test_plugin_registry_basic() {
    let mut registry = PluginRegistry::new();
    assert_eq!(registry.plugin_count(), 0);

    let plugin = MockPlugin::new("test".to_string());
    assert!(registry
        .register_plugin(plugin, metadata("test"), capabilities())
        .is_ok());
    assert_eq!(registry.plugin_count(), 1);
    assert!(registry.has_plugin(&"test".to_string()));
}

#[test]
fn test_plugin_registry_aliases() {
    let mut registry = PluginRegistry::new();

    let plugin = MockPlugin::new("test".to_string());
    let aliases = vec!["t".to_string(), "testing".to_string()];

    assert!(registry
        .register_plugin_with_aliases(plugin, metadata("test"), capabilities(), aliases)
        .is_ok());

    assert!(registry.has_plugin(&"test".to_string()));
    assert!(registry.has_plugin(&"t".to_string()));
    assert!(registry.has_plugin(&"testing".to_string()));
}

#[test]
fn test_plugin_execution() {
    let mut registry = PluginRegistry::new();

    let mut plugin = MockPlugin::new("test".to_string());
    plugin.initialize().unwrap();
    registry
        .register_plugin(plugin, metadata("test"), capabilities())
        .unwrap();

    let args = Bindings::new();
    let result = registry.execute_plugin_method(
        &"test".to_string(),
        &"test_method".to_string(),
        &args,
    );
    assert!(result.is_ok());

    let value = result.unwrap();
    assert_eq!(value, Value::Str("test:test_method".to_string()));
}

#[test]
fn alias_integrity_and_unregistration() {
    let mut registry = PluginRegistry::new();
    registry
        .register_plugin_with_aliases(
            MockPlugin::new("primary".to_string()),
            metadata("primary"),
            capabilities(),
            vec!["alt".to_string()],
        )
        .unwrap();

    // Both the name and the alias reach the same registration.
    let by_name = registry.get_plugin(&"primary".to_string()).unwrap();
    assert_eq!(by_name.metadata.name, "primary");
    let by_alias = registry.get_plugin(&"alt".to_string()).unwrap();
    assert_eq!(by_alias.metadata.name, "primary");

    // A second provider under an already-used alias fails without
    // mutating the registry.
    let before = registry.plugin_count();
    let result = registry.register_plugin_with_aliases(
        MockPlugin::new("other".to_string()),
        metadata("other"),
        capabilities(),
        vec!["alt".to_string()],
    );
    assert!(result.is_err());
    assert_eq!(registry.plugin_count(), before);
    assert!(!registry.has_plugin(&"other".to_string()));

    // Unregistering the name removes both the name and the alias.
    registry.unregister_plugin(&"primary".to_string()).unwrap();
    assert!(!registry.has_plugin(&"primary".to_string()));
    assert!(!registry.has_plugin(&"alt".to_string()));
    assert_eq!(registry.plugin_count(), 0);
}

#[test]
fn enable_disable_controls_dispatch() {
    let mut registry = PluginRegistry::new();
    let mut plugin = MockPlugin::new("p".to_string());
    plugin.initialize().unwrap();
    registry
        .register_plugin(plugin, metadata("p"), capabilities())
        .unwrap();
    assert!(registry.is_plugin_enabled(&"p".to_string()));

    registry.disable_plugin(&"p".to_string()).unwrap();
    assert!(!registry.is_plugin_enabled(&"p".to_string()));
    let args = Bindings::new();
    let r = registry.execute_plugin_method(&"p".to_string(), &"m".to_string(), &args);
    assert!(r.is_err());

    registry.enable_plugin(&"p".to_string()).unwrap();
    assert!(registry.is_plugin_enabled(&"p".to_string()));
    let r2 = registry.execute_plugin_method(&"p".to_string(), &"m".to_string(), &args);
    assert!(r2.is_ok());

    assert!(registry.enable_plugin(&"missing".to_string()).is_err());
}

#[test]
fn initialize_all_is_idempotent() {
    let mut registry = PluginRegistry::new();
    registry
        .register_plugin(MockPlugin::new("a".to_string()), metadata("a"), capabilities())
        .unwrap();
    registry
        .register_plugin(MockPlugin::new("b".to_string()), metadata("b"), capabilities())
        .unwrap();

    // A provider executed before initialization reports the failure, never
    // a crash.
    let args = Bindings::new();
    let early = registry.execute_plugin_method(&"a".to_string(), &"m".to_string(), &args);
    assert!(early.is_err());

    let first = registry.initialize_all();
    assert!(first.is_ok());
    assert!(first.unwrap().is_empty());
    assert_eq!(registry.plugin_count(), 2);

    // A second pass neither duplicates nor corrupts registrations.
    let second = registry.initialize_all();
    assert!(second.is_ok());
    assert_eq!(registry.plugin_count(), 2);
    assert!(registry.has_plugin(&"a".to_string()));
    assert!(registry.has_plugin(&"b".to_string()));
    let after = registry.execute_plugin_method(&"a".to_string(), &"m".to_string(), &args);
    assert!(after.is_ok());
}

#[test]
fn capability_filter_returns_enabled_matches() {
    let mut registry = PluginRegistry::new();
    let net = PluginCapabilities {
        supports_async: false,
        supports_streaming: false,
        requires_network: true,
        requires_auth: false,
    };
    registry
        .register_plugin(MockPlugin::new("online".to_string()), metadata("online"), net)
        .unwrap();
    registry
        .register_plugin(MockPlugin::new("local".to_string()), metadata("local"), capabilities())
        .unwrap();
    registry.disable_plugin(&"online".to_string()).unwrap();

    let all = registry.get_plugins_by_capability(|_c| true);
    assert_eq!(all, vec!["local".to_string()]);

    registry.enable_plugin(&"online".to_string()).unwrap();
    let networked = registry.get_plugins_by_capability(|c| c.requires_network);
    assert_eq!(networked, vec!["online".to_string()]);
}

#[test]
fn listing_reports_registrations() {
    let mut registry = PluginRegistry::new();
    registry
        .register_plugin_with_aliases(
            MockPlugin::new("listed".to_string()),
            metadata("listed"),
            capabilities(),
            vec!["nick".to_string()],
        )
        .unwrap();
    let infos = registry.list_plugins();
    assert_eq!(infos.len(), 1);
    assert_eq!(infos[0].name, "listed");
    assert_eq!(infos[0].version, "1.0.0");
    assert_eq!(infos[0].aliases, vec!["nick".to_string()]);
    assert_eq!(
        registry
            .get_plugin_metadata(&"nick".to_string())
            .unwrap()
            .name,
        "listed"
    );
    assert!(registry
        .get_plugin_capabilities(&"listed".to_string())
        .is_some());
}

#[derive(Debug)]
struct FailingPlugin;

impl Plugin for FailingPlugin {
    fn name(&self) -> String {
        "faulty".to_string()
    }

    fn initialize(&mut self) -> RuntimeResult<()> {
        Err(RuntimeError::Plugin("setup refused".to_string()))
    }

    fn execute(&self, _method: &String, _args: &Bindings) -> RuntimeResult<Value> {
        Err(RuntimeError::Plugin("unusable".to_string()))
    }
}

#[test]
fn initialize_all_reports_failing_providers_by_name() {
    let mut registry: PluginRegistry<FailingPlugin> = PluginRegistry::new();
    registry
        .register_plugin(FailingPlugin, metadata_for("faulty"), capabilities())
        .unwrap();
    let result = registry.initialize_all();
    match result {
        Err(e) => {
            let msg = e.message();
            assert!(msg.contains("faulty"));
            assert!(msg.contains("setup refused"));
        }
        Ok(_) => panic!("a failing provider must surface"),
    }
    // The failure changed nothing in the registry itself.
    assert_eq!(registry.plugin_count(), 1);
    assert!(registry.has_plugin(&"faulty".to_string()));

    // An empty registry has no enabled provider, so bulk setup succeeds.
    let mut empty: PluginRegistry<FailingPlugin> = PluginRegistry::new();
    assert!(empty.initialize_all().is_ok());
}

fn metadata_for(name: &str) -> sigmos::registry::PluginMetadata {
    sigmos::registry::PluginMetadata {
        name: name.to_string(),
        version: "1.0.0".to_string(),
        description: "Test plugin".to_string(),
        author: "Test Author".to_string(),
        methods: vec![],
    }
}
