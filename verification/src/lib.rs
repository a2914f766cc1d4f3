//! An inversion-of-control runtime: a registry of component definitions with
//! declared dependencies, scopes and factories, resolved into a live object
//! graph, together with a layered configuration resolver (sources, profiles,
//! runtime overrides) and a type-keyed event publisher.

pub mod clock;
pub mod component;
pub mod config;
pub mod config_value;
pub mod container;
pub mod context;
pub mod errors;
pub mod event;
pub mod flatten;
pub mod lifecycle;
pub mod profile;
pub mod properties;
pub mod shared_map;
pub mod strutil;

pub use component::ComponentData;
pub use component::ComponentDefinition;
pub use component::ComponentDescriptor;
pub use component::ComponentFactory;
pub use component::ComponentInitializer;
pub use component::ComponentInstance;
pub use component::ComponentScope;
pub use component::ComponentStats;
pub use component::ComponentValue;
pub use config::ConfigManager;
pub use config::ConfigSource;
pub use context::ApplicationContext;
pub use context::ApplicationContextBuilder;
pub use event::ContextAwareEventListener;
pub use event::ContextInitializedEvent;
pub use event::ContextInitializingEvent;
pub use event::ConfigurationChangedEvent;
pub use event::ContextEventRecord;
pub use event::Event;
pub use event::EventListener;
pub use event::EventPublisher;
pub use event::ProfileActivatedEvent;
pub use event::CONFIGURATION_CHANGED_EVENT_KEY;
pub use event::CONTEXT_INITIALIZED_EVENT_KEY;
pub use event::CONTEXT_INITIALIZING_EVENT_KEY;
pub use event::PROFILE_ACTIVATED_EVENT_KEY;
pub use config_value::ConfigValue;
pub use flatten::ConfigTree;
pub use profile::Profile;
pub use profile::ProfileManager;
pub use container::ComponentContainer;
pub use lifecycle::ContainerLifecycleEvent;
pub use lifecycle::LifecycleEventPublisher;
pub use lifecycle::LifecycleListener;

pub use errors::ComponentError;
pub use errors::ContainerError;
pub use errors::ContainerErrorKind;
pub use errors::ContextError;
pub use errors::ContextResult;
