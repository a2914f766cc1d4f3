use std::sync::Arc;
use verdure::{
    ApplicationContext, ComponentData, ComponentDefinition, ComponentInstance, ComponentScope,
    ComponentValue, ConfigSource, ContextEventRecord, EventPublisher, Profile,
    CONFIGURATION_CHANGED_EVENT_KEY, CONTEXT_INITIALIZED_EVENT_KEY,
};

fn props(entries: &[(&str, &str)]) -> Vec<(String, String)> {
    entries
        .iter()
        .map(|(k, v)| (k.to_string(), v.to_string()))
        .collect()
}

fn trivial_factory(
    key: u64,
    _deps: Vec<(u64, ComponentInstance)>,
) -> Result<ComponentInstance, verdure::ComponentError> {
    Ok(Arc::new(ComponentValue {
        type_key: key,
        data: ComponentData::Unit,
    }))
}

#[test]
fn test_application_context_creation() {
    let context = ApplicationContext::new();
    assert_eq!(context.active_profiles().len(), 0);
}

#[test]
fn test_application_context_builder() {
    let profile = Profile::new("test", props(&[("test_key", "test_value")]));

    let mut context = ApplicationContext::builder()
        .with_profile(profile)
        .with_active_profile("test")
        .with_property("app.name", "TestApp")
        .build()
        .unwrap();

    assert_eq!(context.active_profiles(), vec!["test".to_string()]);
    assert_eq!(context.get_config("app.name"), "TestApp");
}

#[test]
fn test_configuration_management() {
    let mut context = ApplicationContext::new();

    let entries = props(&[
        ("database.url", "postgres://localhost/test"),
        ("server.port", "3000"),
        ("debug.enabled", "true"),
    ]);

    context
        .add_config_source(ConfigSource::Properties(entries))
        .unwrap();

    assert_eq!(context.get_config("database.url"), "postgres://localhost/test");

    let port = context.config_manager_mut().get_integer("server.port").unwrap();
    assert_eq!(port, 3000);

    let debug = context.config_manager_mut().get_boolean("debug.enabled").unwrap();
    assert_eq!(debug, true);
}

#[test]
fn context_test_configuration_with_defaults() {
    let mut context = ApplicationContext::new();

    assert_eq!(context.get_config("missing.key"), "");
    assert_eq!(
        context.get_config_or_default("missing.key", "default"),
        "default"
    );
}

#[test]
fn test_runtime_configuration() {
    let mut context = ApplicationContext::new();

    context.set_config("runtime.property", "runtime.value");
    assert_eq!(context.get_config("runtime.property"), "runtime.value");
}

#[test]
fn test_profile_management() {
    let dev_profile = Profile::new("development", props(&[("env", "dev")]));
    let local_profile = Profile::new("local", props(&[("location", "local")]));

    let mut context = ApplicationContext::builder()
        .with_profile(dev_profile)
        .with_profile(local_profile)
        .with_active_profile("development")
        .with_active_profile("local")
        .build()
        .unwrap();

    assert_eq!(
        context.active_profiles(),
        vec!["development".to_string(), "local".to_string()]
    );
    assert!(context.is_profile_active("development"));
    assert!(context.is_profile_active("local"));
    assert!(!context.is_profile_active("production"));

    assert_eq!(context.environment(), "development,local");
}

#[test]
fn test_environment_default() {
    let context = ApplicationContext::new();
    assert_eq!(context.environment(), "default");
}

#[test]
fn test_container_integration() {
    let context = ApplicationContext::new();
    assert!(context.get_component(77).is_none());

    let container = context.container();
    assert!(container.lifecycle_events().is_empty());
}

#[test]
fn test_builder_rejects_unknown_active_profile() {
    let result = ApplicationContext::builder()
        .with_active_profile("missing")
        .build();
    assert!(result.is_err());
}

#[test]
fn test_builder_rejects_duplicate_profiles() {
    let result = ApplicationContext::builder()
        .with_profile(Profile::new("dup", Vec::new()))
        .with_profile(Profile::new("dup", Vec::new()))
        .build();
    assert!(result.is_err());
}

#[test]
fn test_built_in_context_events() {
    let dev_profile = Profile::new("development", props(&[("env", "development")]));

    let mut context = ApplicationContext::builder()
        .with_profile(dev_profile)
        .with_active_profile("development")
        .with_property("initial.key", "initial.value")
        .build()
        .unwrap();

    context.initialize(trivial_factory).unwrap();

    context.set_config("runtime.key", "runtime.value");
    context.set_config("initial.key", "updated.value");

    let events = context.drain_context_events();
    assert_eq!(events.len(), 5);

    match &events[0] {
        ContextEventRecord::ProfileActivated(e) => {
            assert_eq!(e.profile_name, "development");
            assert_eq!(e.properties_count, 1);
        }
        _ => panic!("expected a profile activation first"),
    }
    match &events[1] {
        ContextEventRecord::Initializing(e) => {
            assert!(e.config_sources_count > 0);
            assert_eq!(e.active_profiles_count, 1);
        }
        _ => panic!("expected the initializing event second"),
    }
    match &events[2] {
        ContextEventRecord::Initialized(e) => {
            assert!(e.config_sources_count > 0);
            assert_eq!(e.active_profiles_count, 1);
        }
        _ => panic!("expected the initialized event third"),
    }
    match &events[3] {
        ContextEventRecord::ConfigurationChanged(e) => {
            assert_eq!(e.key, "runtime.key");
            assert_eq!(e.old_value, None);
            assert_eq!(e.new_value, "runtime.value");
        }
        _ => panic!("expected a configuration change fourth"),
    }
    match &events[4] {
        ContextEventRecord::ConfigurationChanged(e) => {
            assert_eq!(e.key, "initial.key");
            assert_eq!(e.old_value, Some("initial.value".to_string()));
            assert_eq!(e.new_value, "updated.value");
        }
        _ => panic!("expected a configuration change fifth"),
    }
}

#[test]
fn test_context_initialize_wires_components() {
    let mut context = ApplicationContext::new();
    context
        .container_mut()
        .add_definition(ComponentDefinition {
            type_key: 5,
            display_name: "standalone".to_string(),
            scope: ComponentScope::Singleton,
            dependencies: vec![],
        })
        .unwrap();

    context.initialize(trivial_factory).unwrap();
    assert!(context.get_component(5).is_some());
}

#[test]
fn test_event_publisher_creation() {
    let publisher = EventPublisher::new();
    assert_eq!(publisher.listener_count(CONTEXT_INITIALIZED_EVENT_KEY), 0);
}

#[test]
fn test_event_subscription() {
    let mut publisher = EventPublisher::new();
    publisher.subscribe(CONTEXT_INITIALIZED_EVENT_KEY);

    assert_eq!(publisher.listener_count(CONTEXT_INITIALIZED_EVENT_KEY), 1);
    assert_eq!(publisher.listener_count(CONFIGURATION_CHANGED_EVENT_KEY), 0);
}

#[test]
fn test_event_publishing() {
    let mut publisher = EventPublisher::new();
    let handle = publisher.subscribe(CONTEXT_INITIALIZED_EVENT_KEY);

    let plan = publisher.publish(CONTEXT_INITIALIZED_EVENT_KEY);
    assert_eq!(plan, vec![handle]);
}

#[test]
fn test_multiple_listeners_same_event() {
    let mut publisher = EventPublisher::new();
    let first = publisher.subscribe(CONTEXT_INITIALIZED_EVENT_KEY);
    let second = publisher.subscribe(CONTEXT_INITIALIZED_EVENT_KEY);

    let plan = publisher.publish(CONTEXT_INITIALIZED_EVENT_KEY);
    assert_eq!(plan, vec![first, second]);
    assert_eq!(publisher.listener_count(CONTEXT_INITIALIZED_EVENT_KEY), 2);
}

#[test]
fn test_different_event_types() {
    let mut publisher = EventPublisher::new();
    let a = publisher.subscribe(CONTEXT_INITIALIZED_EVENT_KEY);
    let b = publisher.subscribe(CONFIGURATION_CHANGED_EVENT_KEY);

    assert_eq!(publisher.publish(CONTEXT_INITIALIZED_EVENT_KEY), vec![a]);
    assert_eq!(publisher.publish(CONFIGURATION_CHANGED_EVENT_KEY), vec![b]);
}

#[test]
fn test_event_without_listeners() {
    let publisher = EventPublisher::new();
    let plan = publisher.publish(CONTEXT_INITIALIZED_EVENT_KEY);
    assert!(plan.is_empty());
}

#[test]
fn test_clear_listeners() {
    let mut publisher = EventPublisher::new();
    publisher.subscribe(CONTEXT_INITIALIZED_EVENT_KEY);
    publisher.subscribe(CONFIGURATION_CHANGED_EVENT_KEY);

    assert_eq!(publisher.listener_count(CONTEXT_INITIALIZED_EVENT_KEY), 1);
    assert_eq!(publisher.listener_count(CONFIGURATION_CHANGED_EVENT_KEY), 1);

    publisher.clear_all_listeners();

    assert_eq!(publisher.listener_count(CONTEXT_INITIALIZED_EVENT_KEY), 0);
    assert_eq!(publisher.listener_count(CONFIGURATION_CHANGED_EVENT_KEY), 0);
}

#[test]
fn test_listener_statistics() {
    let mut publisher = EventPublisher::new();
    publisher.subscribe(CONTEXT_INITIALIZED_EVENT_KEY);
    publisher.subscribe(CONFIGURATION_CHANGED_EVENT_KEY);

    let stats = publisher.listener_statistics();
    assert_eq!(stats.len(), 2);
}

#[test]
fn test_publish_with_context_reaches_both_groups() {
    let mut publisher = EventPublisher::new();
    let plain = publisher.subscribe(CONTEXT_INITIALIZED_EVENT_KEY);
    let aware = publisher.subscribe_context_aware(CONTEXT_INITIALIZED_EVENT_KEY);

    let (plain_plan, aware_plan) = publisher.publish_with_context(CONTEXT_INITIALIZED_EVENT_KEY);
    assert_eq!(plain_plan, vec![plain]);
    assert_eq!(aware_plan, vec![aware]);
}

#[test]
fn test_event_system_integration() {
    let mut context = ApplicationContext::new();
    let handle = context.subscribe_to_events(CONTEXT_INITIALIZED_EVENT_KEY);

    let event = verdure::ContextInitializedEvent {
        config_sources_count: 0,
        active_profiles_count: 0,
        timestamp: 0,
    };
    let plan = context.publish_event(&event);
    assert_eq!(plan, vec![handle]);
}

#[test]
fn test_config_precedence_through_context() {
    // a source added later wins; a runtime override wins over both
    let mut context = ApplicationContext::new();
    context
        .add_config_source(ConfigSource::Properties(props(&[("k", "1")])))
        .unwrap();
    context
        .add_config_source(ConfigSource::Properties(props(&[("k", "2")])))
        .unwrap();
    assert_eq!(context.get_config("k"), "2");

    context.set_config("k", "3");
    assert_eq!(context.get_config("k"), "3");
}

#[test]
fn test_context_aware_event_listeners() {
    // context-aware listeners are named by the registry alongside plain
    // ones; a publication with context reaches both groups
    let mut context = ApplicationContext::builder()
        .with_property("test.key", "test.value")
        .build()
        .unwrap();

    let aware = context.subscribe_to_context_events(CONTEXT_INITIALIZED_EVENT_KEY);
    let plain = context.subscribe_to_events(CONTEXT_INITIALIZED_EVENT_KEY);

    let (plain_plan, aware_plan) = context.dispatch_plan(CONTEXT_INITIALIZED_EVENT_KEY);
    assert_eq!(plain_plan, vec![plain]);
    assert_eq!(aware_plan, vec![aware]);

    // the context is readable while dispatching
    assert_eq!(context.get_config("test.key"), "test.value");
    assert_eq!(context.environment(), "default");
}
