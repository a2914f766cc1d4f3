use std::cell::Cell;
use std::collections::HashMap;
use std::sync::Arc;
use verdure::{
    ComponentContainer, ComponentData, ComponentDefinition, ComponentDescriptor, ComponentError,
    ComponentFactory, ComponentInitializer, ComponentInstance, ComponentScope, ComponentStats,
    ComponentValue, ContainerErrorKind, ContainerLifecycleEvent,
};

const TEST_COMPONENT_KEY: u64 = 1;
const DEPENDENT_COMPONENT_KEY: u64 = 2;
const UNRELATED_COMPONENT_KEY: u64 = 3;

fn instance(type_key: u64, data: ComponentData) -> ComponentInstance {
    Arc::new(ComponentValue { type_key, data })
}

#[test]
fn test_component_descriptor() {
    let desc1 = ComponentDescriptor::for_type(TEST_COMPONENT_KEY);
    let desc2 = ComponentDescriptor::new(TEST_COMPONENT_KEY, None);
    assert_eq!(desc1, desc2);

    let desc_with_qualifier = ComponentDescriptor::with_qualifier(TEST_COMPONENT_KEY, "test");
    assert_ne!(desc1, desc_with_qualifier);
    assert_eq!(desc_with_qualifier.qualifier, Some("test".to_string()));
}

#[test]
fn test_component_descriptor_hash_and_eq() {
    let desc1 = ComponentDescriptor::for_type(TEST_COMPONENT_KEY);
    let desc2 = ComponentDescriptor::for_type(TEST_COMPONENT_KEY);
    let desc3 = ComponentDescriptor::with_qualifier(TEST_COMPONENT_KEY, "test");

    assert_eq!(desc1, desc2);
    assert_ne!(desc1, desc3);

    let mut map = HashMap::new();
    map.insert(desc1.clone(), "value1");
    map.insert(desc3.clone(), "value2");

    assert_eq!(map.get(&desc2), Some(&"value1"));
    assert_eq!(map.get(&desc3), Some(&"value2"));
}

#[test]
fn test_component_stats_default() {
    let stats = ComponentStats::default();
    assert!(stats.created_at.is_none());
    assert!(stats.last_accessed.is_none());
    assert_eq!(stats.access_count, 0);
    assert_eq!(stats.creation_time, 0);
}

#[test]
fn test_component_scope() {
    match ComponentScope::Singleton {
        ComponentScope::Singleton => assert!(true),
        ComponentScope::Prototype => assert!(false),
    }

    match ComponentScope::Prototype {
        ComponentScope::Singleton => assert!(false),
        ComponentScope::Prototype => assert!(true),
    }
}

#[test]
fn test_container_creation() {
    let container = ComponentContainer::new();
    assert!(container.lifecycle_events().is_empty());
    assert!(container.get_component_by_type_id(TEST_COMPONENT_KEY).is_none());
    assert!(container.stats_for(TEST_COMPONENT_KEY).is_none());
}

#[test]
fn test_manual_component_registration() {
    let mut container = ComponentContainer::new();
    let test_component = instance(TEST_COMPONENT_KEY, ComponentData::Int(100));

    container.register_component(test_component.clone());

    let retrieved = container.get_component(TEST_COMPONENT_KEY);
    assert!(retrieved.is_some());
    assert_eq!(retrieved.unwrap().data, ComponentData::Int(100));
}

#[test]
fn test_register_component_by_type_id() {
    let mut container = ComponentContainer::new();
    let test_component = instance(TEST_COMPONENT_KEY, ComponentData::Int(200));

    container.register_component_by_type_id(TEST_COMPONENT_KEY, test_component);

    let retrieved = container.get_component_by_type_id(TEST_COMPONENT_KEY);
    assert!(retrieved.is_some());
    assert_eq!(retrieved.unwrap().data, ComponentData::Int(200));
}

#[test]
fn test_get_nonexistent_component() {
    let container = ComponentContainer::new();
    let result = container.get_component(TEST_COMPONENT_KEY);
    assert!(result.is_none());
}

#[test]
fn test_component_instance_type() {
    // a value stored under a different key than it identifies itself
    // with is not handed out by the checked lookup
    let mut container = ComponentContainer::new();
    let mislabelled = instance(TEST_COMPONENT_KEY, ComponentData::Int(123));
    container.register_component_by_type_id(DEPENDENT_COMPONENT_KEY, mislabelled);

    assert!(container.get_component_by_type_id(DEPENDENT_COMPONENT_KEY).is_some());
    assert!(container.get_component(DEPENDENT_COMPONENT_KEY).is_none());

    let well_labelled = instance(TEST_COMPONENT_KEY, ComponentData::Int(123));
    container.register_component(well_labelled);
    let retrieved = container.get_component(TEST_COMPONENT_KEY);
    assert_eq!(retrieved.unwrap().data, ComponentData::Int(123));
}

#[test]
fn test_component_definition_structure() {
    let definition = ComponentDefinition {
        type_key: TEST_COMPONENT_KEY,
        display_name: "SimpleComponent".to_string(),
        scope: ComponentScope::Singleton,
        dependencies: Vec::new(),
    };

    assert_eq!(definition.type_key, TEST_COMPONENT_KEY);
    assert_eq!(definition.display_name, "SimpleComponent");
    assert!(matches!(definition.scope, ComponentScope::Singleton));
    assert!(definition.dependencies.is_empty());
}

#[test]
fn test_component_definition_with_dependencies() {
    let mut container = ComponentContainer::new();
    container
        .add_definition(ComponentDefinition {
            type_key: TEST_COMPONENT_KEY,
            display_name: "SimpleComponent".to_string(),
            scope: ComponentScope::Singleton,
            dependencies: Vec::new(),
        })
        .unwrap();
    container
        .add_definition(ComponentDefinition {
            type_key: DEPENDENT_COMPONENT_KEY,
            display_name: "ComponentWithDependencies".to_string(),
            scope: ComponentScope::Singleton,
            dependencies: vec![TEST_COMPONENT_KEY],
        })
        .unwrap();

    let result = container.initialize(
        |key: u64, deps: Vec<(u64, ComponentInstance)>| {
            if key == TEST_COMPONENT_KEY {
                Ok(instance(TEST_COMPONENT_KEY, ComponentData::Int(999)))
            } else {
                let dep = deps
                    .iter()
                    .find(|d| d.0 == TEST_COMPONENT_KEY)
                    .ok_or_else(|| ComponentError::DependencyNotFound("SimpleComponent".to_string()))?;
                let inner = match dep.1.data {
                    ComponentData::Int(v) => v,
                    _ => 0,
                };
                Ok(instance(DEPENDENT_COMPONENT_KEY, ComponentData::Int(inner + 1)))
            }
        },
    );
    assert!(result.is_ok());

    let dependent = container.get_component(DEPENDENT_COMPONENT_KEY).unwrap();
    assert_eq!(dependent.data, ComponentData::Int(1000));
}

#[test]
fn test_component_definition_creator_missing_dependency() {
    let mut container = ComponentContainer::new();
    container
        .add_definition(ComponentDefinition {
            type_key: DEPENDENT_COMPONENT_KEY,
            display_name: "ComponentWithDependencies".to_string(),
            scope: ComponentScope::Singleton,
            dependencies: vec![TEST_COMPONENT_KEY],
        })
        .unwrap();

    let result = container.initialize(
        |_key: u64, _deps: Vec<(u64, ComponentInstance)>| {
            Ok(instance(DEPENDENT_COMPONENT_KEY, ComponentData::Unit))
        },
    );
    assert!(result.is_err());
    assert_eq!(result.unwrap_err().kind, ContainerErrorKind::NotFound);
}

#[derive(Debug)]
struct SimpleComponent {
    value: i32,
}

#[derive(Debug)]
struct ComponentWithDependencies {
    simple: Arc<SimpleComponent>,
    message: String,
}

impl ComponentInitializer for SimpleComponent {
    type Dependencies = ();

    fn __new(_deps: Self::Dependencies) -> Self {
        SimpleComponent { value: 42 }
    }

    fn __scope() -> ComponentScope {
        ComponentScope::Singleton
    }
}

impl ComponentInitializer for ComponentWithDependencies {
    type Dependencies = (Arc<SimpleComponent>,);

    fn __new(deps: Self::Dependencies) -> Self {
        let (simple,) = deps;
        ComponentWithDependencies {
            simple,
            message: "Hello".to_string(),
        }
    }

    fn __scope() -> ComponentScope {
        ComponentScope::Prototype
    }
}

#[test]
fn test_simple_component_initializer() {
    let component = SimpleComponent::__new(());
    assert_eq!(component.value, 42);

    match SimpleComponent::__scope() {
        ComponentScope::Singleton => assert!(true),
        ComponentScope::Prototype => assert!(false),
    }
}

#[test]
fn test_component_with_dependencies_initializer() {
    let simple_component = Arc::new(SimpleComponent { value: 100 });
    let deps = (simple_component.clone(),);

    let component = ComponentWithDependencies::__new(deps);
    assert_eq!(component.simple.value, 100);
    assert_eq!(component.message, "Hello");

    match ComponentWithDependencies::__scope() {
        ComponentScope::Singleton => assert!(false),
        ComponentScope::Prototype => assert!(true),
    }
}

struct MockComponentFactory {
    components: HashMap<u64, ComponentInstance>,
}

impl MockComponentFactory {
    fn new() -> Self {
        Self {
            components: HashMap::new(),
        }
    }

    fn register(&mut self, type_key: u64, data: ComponentData) {
        self.components.insert(type_key, instance(type_key, data));
    }
}

impl ComponentFactory for MockComponentFactory {
    fn get_component_by_type_id(&self, type_key: u64) -> Option<ComponentInstance> {
        self.components.get(&type_key).cloned()
    }

    fn get_component(&self, type_key: u64) -> Option<ComponentInstance> {
        let component = self.get_component_by_type_id(type_key)?;
        if component.type_key == type_key {
            Some(component)
        } else {
            None
        }
    }
}

#[test]
fn test_component_factory_get_component() {
    let mut factory = MockComponentFactory::new();
    factory.register(TEST_COMPONENT_KEY, ComponentData::Int(42));

    let retrieved = factory.get_component(TEST_COMPONENT_KEY);
    assert!(retrieved.is_some());
    assert_eq!(retrieved.unwrap().data, ComponentData::Int(42));
}

#[test]
fn test_component_factory_get_component_by_type_id() {
    let mut factory = MockComponentFactory::new();
    factory.register(TEST_COMPONENT_KEY, ComponentData::Int(100));

    let retrieved = factory.get_component_by_type_id(TEST_COMPONENT_KEY);
    assert!(retrieved.is_some());
    assert_eq!(retrieved.unwrap().data, ComponentData::Int(100));
}

#[test]
fn test_component_factory_multiple_components() {
    let mut factory = MockComponentFactory::new();
    factory.register(TEST_COMPONENT_KEY, ComponentData::Int(123));
    factory.register(DEPENDENT_COMPONENT_KEY, ComponentData::Text("test".to_string()));

    let first = factory.get_component(TEST_COMPONENT_KEY);
    let second = factory.get_component(DEPENDENT_COMPONENT_KEY);

    assert!(first.is_some());
    assert!(second.is_some());

    assert_eq!(first.unwrap().data, ComponentData::Int(123));
    assert_eq!(second.unwrap().data, ComponentData::Text("test".to_string()));
}

#[test]
fn test_component_factory_nonexistent_component() {
    let factory = MockComponentFactory::new();

    assert!(factory.get_component(TEST_COMPONENT_KEY).is_none());
    assert!(factory.get_component_by_type_id(TEST_COMPONENT_KEY).is_none());
}

#[test]
fn test_component_factory_downcast_failure() {
    let mut factory = MockComponentFactory::new();
    factory
        .components
        .insert(DEPENDENT_COMPONENT_KEY, instance(TEST_COMPONENT_KEY, ComponentData::Int(42)));

    // the slot is occupied, but the value identifies itself differently
    assert!(factory.get_component_by_type_id(DEPENDENT_COMPONENT_KEY).is_some());
    assert!(factory.get_component(DEPENDENT_COMPONENT_KEY).is_none());
}

#[test]
fn test_component_factory_trait_object() {
    let mut factory = MockComponentFactory::new();
    factory.register(TEST_COMPONENT_KEY, ComponentData::Int(999));

    let erased: &dyn ComponentFactory = &factory;
    let component = erased.get_component(TEST_COMPONENT_KEY);
    assert!(component.is_some());
    assert_eq!(component.unwrap().data, ComponentData::Int(999));
}

#[test]
fn test_initialize_resolves_dependencies_first() {
    // a chain of three singletons is created in dependency order, each
    // exactly once
    let mut container = ComponentContainer::new();
    for (key, deps) in [
        (TEST_COMPONENT_KEY, vec![]),
        (DEPENDENT_COMPONENT_KEY, vec![TEST_COMPONENT_KEY]),
        (UNRELATED_COMPONENT_KEY, vec![DEPENDENT_COMPONENT_KEY]),
    ] {
        container
            .add_definition(ComponentDefinition {
                type_key: key,
                display_name: format!("component-{}", key),
                scope: ComponentScope::Singleton,
                dependencies: deps,
            })
            .unwrap();
    }

    let calls = Cell::new(0u32);
    let result = container.initialize(|key: u64, deps: Vec<(u64, ComponentInstance)>| {
        calls.set(calls.get() + 1);
        for dep in &deps {
            assert!(matches!(dep.1.data, ComponentData::Int(_)));
        }
        Ok(instance(key, ComponentData::Int(key as i64)))
    });
    assert!(result.is_ok());
    assert_eq!(calls.get(), 3);

    let created: Vec<u64> = container
        .lifecycle_events()
        .iter()
        .filter_map(|e| match e {
            ContainerLifecycleEvent::ComponentCreated {
                component_type_key, ..
            } => Some(*component_type_key),
            _ => None,
        })
        .collect();
    assert_eq!(
        created,
        vec![TEST_COMPONENT_KEY, DEPENDENT_COMPONENT_KEY, UNRELATED_COMPONENT_KEY]
    );

    // a second initialization re-creates nothing
    let second = container.initialize(|key: u64, _deps: Vec<(u64, ComponentInstance)>| {
        Ok(instance(key, ComponentData::Unit))
    });
    assert!(second.is_ok());
    assert_eq!(
        container.get_component(TEST_COMPONENT_KEY).unwrap().data,
        ComponentData::Int(TEST_COMPONENT_KEY as i64)
    );
}

#[test]
fn test_initialize_detects_cycle() {
    let mut container = ComponentContainer::new();
    // an unrelated singleton resolved before the cycle stays intact
    container
        .add_definition(ComponentDefinition {
            type_key: UNRELATED_COMPONENT_KEY,
            display_name: "unrelated".to_string(),
            scope: ComponentScope::Singleton,
            dependencies: vec![],
        })
        .unwrap();
    container
        .add_definition(ComponentDefinition {
            type_key: TEST_COMPONENT_KEY,
            display_name: "first-on-cycle".to_string(),
            scope: ComponentScope::Singleton,
            dependencies: vec![DEPENDENT_COMPONENT_KEY],
        })
        .unwrap();
    container
        .add_definition(ComponentDefinition {
            type_key: DEPENDENT_COMPONENT_KEY,
            display_name: "second-on-cycle".to_string(),
            scope: ComponentScope::Singleton,
            dependencies: vec![TEST_COMPONENT_KEY],
        })
        .unwrap();

    let result = container.initialize(|key: u64, _deps: Vec<(u64, ComponentInstance)>| {
        Ok(instance(key, ComponentData::Unit))
    });
    assert!(result.is_err());
    assert_eq!(result.unwrap_err().kind, ContainerErrorKind::CircularDependency);

    assert!(container.get_component(UNRELATED_COMPONENT_KEY).is_some());
    assert!(container.get_component(TEST_COMPONENT_KEY).is_none());
}

#[test]
fn test_initialize_reports_factory_failure() {
    let mut container = ComponentContainer::new();
    container
        .add_definition(ComponentDefinition {
            type_key: TEST_COMPONENT_KEY,
            display_name: "failing".to_string(),
            scope: ComponentScope::Singleton,
            dependencies: vec![],
        })
        .unwrap();

    let result = container.initialize(|_key: u64, _deps: Vec<(u64, ComponentInstance)>| {
        Err(ComponentError::CreationError("boom".to_string()))
    });
    let error = result.unwrap_err();
    assert_eq!(error.kind, ContainerErrorKind::CreationFailed);
    assert!(error.message.contains("failing"));
    assert!(error.message.contains("boom"));

    // nothing was stored or logged for the failed component
    assert!(container.get_component(TEST_COMPONENT_KEY).is_none());
    let created = container
        .lifecycle_events()
        .iter()
        .filter(|e| matches!(e, ContainerLifecycleEvent::ComponentCreated { .. }))
        .count();
    assert_eq!(created, 0);
}

#[test]
fn test_duplicate_definition_rejected() {
    let mut container = ComponentContainer::new();
    let def = |name: &str| ComponentDefinition {
        type_key: TEST_COMPONENT_KEY,
        display_name: name.to_string(),
        scope: ComponentScope::Singleton,
        dependencies: vec![],
    };
    container.add_definition(def("first")).unwrap();
    let second = container.add_definition(def("second"));
    assert!(second.is_err());
    assert_eq!(second.unwrap_err().kind, ContainerErrorKind::Configuration);
}

#[test]
fn test_prototype_components_are_not_stored() {
    let mut container = ComponentContainer::new();
    container
        .add_definition(ComponentDefinition {
            type_key: TEST_COMPONENT_KEY,
            display_name: "prototype".to_string(),
            scope: ComponentScope::Prototype,
            dependencies: vec![],
        })
        .unwrap();

    let result = container.initialize(|key: u64, _deps: Vec<(u64, ComponentInstance)>| {
        Ok(instance(key, ComponentData::Unit))
    });
    assert!(result.is_ok());
    assert!(container.get_component(TEST_COMPONENT_KEY).is_none());
    assert!(container.stats_for(TEST_COMPONENT_KEY).is_some());
}
