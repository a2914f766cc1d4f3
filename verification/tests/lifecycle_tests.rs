use std::sync::atomic::{AtomicUsize, Ordering};
use verdure::{
    ContainerLifecycleEvent, ContextInitializingEvent, Event, LifecycleEventPublisher,
    LifecycleListener, CONTEXT_INITIALIZING_EVENT_KEY,
};

#[test]
fn test_lifecycle_event_publisher_creation() {
    let publisher = LifecycleEventPublisher::new();
    assert!(publisher.events().is_empty());
}

#[test]
fn test_event_publisher_with_custom_listeners() {
    let mut publisher = LifecycleEventPublisher::new();
    publisher.publish(ContainerLifecycleEvent::InitializationStarted { component_count: 1 });
    assert_eq!(publisher.events().len(), 1);

    let drained = publisher.drain_events();
    assert_eq!(drained.len(), 1);
    assert!(publisher.events().is_empty());
}

#[test]
fn test_container_lifecycle_events() {
    let init_started = ContainerLifecycleEvent::InitializationStarted { component_count: 10 };
    match &init_started {
        ContainerLifecycleEvent::InitializationStarted { component_count } => {
            assert_eq!(*component_count, 10);
        }
        _ => panic!("Expected an initialization-started event"),
    }

    let init_completed = ContainerLifecycleEvent::InitializationCompleted {
        component_count: 10,
        duration_ms: 100,
    };
    match &init_completed {
        ContainerLifecycleEvent::InitializationCompleted {
            component_count,
            duration_ms,
        } => {
            assert_eq!(*component_count, 10);
            assert_eq!(*duration_ms, 100);
        }
        _ => panic!("Expected an initialization-completed event"),
    }

    let component_created = ContainerLifecycleEvent::ComponentCreated {
        component_name: "TestComponent".to_string(),
        component_type_key: 9,
        creation_duration_ms: 50,
    };
    match &component_created {
        ContainerLifecycleEvent::ComponentCreated {
            component_name,
            component_type_key,
            creation_duration_ms,
        } => {
            assert_eq!(component_name, "TestComponent");
            assert_eq!(*component_type_key, 9);
            assert_eq!(*creation_duration_ms, 50);
        }
        _ => panic!("Expected a component-created event"),
    }
}

struct CountingListener {
    seen: AtomicUsize,
}

impl LifecycleListener for CountingListener {
    fn on_lifecycle_event(&self, _event: &ContainerLifecycleEvent) {
        self.seen.fetch_add(1, Ordering::SeqCst);
    }
}

#[test]
fn test_lifecycle_listener_trait() {
    let listener = CountingListener { seen: AtomicUsize::new(0) };
    assert_eq!(listener.seen.load(Ordering::SeqCst), 0);

    let event = ContainerLifecycleEvent::InitializationStarted { component_count: 3 };
    listener.on_lifecycle_event(&event);
    assert_eq!(listener.seen.load(Ordering::SeqCst), 1);

    let event2 = ContainerLifecycleEvent::InitializationCompleted {
        component_count: 3,
        duration_ms: 200,
    };
    listener.on_lifecycle_event(&event2);
    assert_eq!(listener.seen.load(Ordering::SeqCst), 2);
}

#[test]
fn test_event_types_pattern_matching() {
    let events = vec![
        ContainerLifecycleEvent::InitializationStarted { component_count: 1 },
        ContainerLifecycleEvent::InitializationCompleted {
            component_count: 1,
            duration_ms: 10,
        },
        ContainerLifecycleEvent::ComponentCreated {
            component_name: "Test".to_string(),
            component_type_key: 4,
            creation_duration_ms: 5,
        },
    ];

    let mut event_types = Vec::new();

    for event in events {
        match event {
            ContainerLifecycleEvent::InitializationStarted { .. } => {
                event_types.push("started");
            }
            ContainerLifecycleEvent::InitializationCompleted { .. } => {
                event_types.push("completed");
            }
            ContainerLifecycleEvent::ComponentCreated { .. } => {
                event_types.push("created");
            }
        }
    }

    assert_eq!(event_types, vec!["started", "completed", "created"]);
}

#[test]
fn test_event_trait_methods() {
    let event = ContextInitializingEvent {
        config_sources_count: 0,
        active_profiles_count: 0,
        timestamp: 0,
    };

    assert_eq!(event.name(), "ContextInitializing");
    assert_eq!(event.event_key(), CONTEXT_INITIALIZING_EVENT_KEY);
}
