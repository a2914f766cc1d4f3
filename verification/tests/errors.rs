use verdure::{ComponentError, ContainerError, ContainerErrorKind, ContextError};

#[test]
fn test_container_error_creation() {
    let error = ContainerError::not_found("test component");
    assert_eq!(error.kind, ContainerErrorKind::NotFound);
    assert_eq!(error.message, "test component");
    assert!(error.source.is_none());
}

#[test]
fn test_container_error_display() {
    let error = ContainerError::circular_dependency("ComponentA -> ComponentB -> ComponentA");
    assert_eq!(
        error.describe(),
        "Circular dependency detected: ComponentA -> ComponentB -> ComponentA"
    );
}

#[test]
fn test_container_error_with_source() {
    let error = ContainerError::creation_failed("Failed to create component")
        .with_source("file not found");
    assert_eq!(error.kind, ContainerErrorKind::CreationFailed);
    assert!(error.source.is_some());
}

#[test]
fn test_container_error_from_string() {
    let error: ContainerError = "test error message".to_string().into();
    assert_eq!(error.kind, ContainerErrorKind::Other);
    assert_eq!(error.message, "test error message");
}

#[test]
fn test_container_error_from_owned_string() {
    let msg = String::from("test error message");
    let error: ContainerError = msg.into();
    assert_eq!(error.kind, ContainerErrorKind::Other);
    assert_eq!(error.message, "test error message");
}

#[test]
fn test_all_error_kinds() {
    let errors = vec![
        ContainerError::not_found("not found"),
        ContainerError::circular_dependency("circular"),
        ContainerError::creation_failed("creation failed"),
        ContainerError::type_cast_failed("cast failed"),
        ContainerError::configuration("config error"),
        ContainerError::other("other error"),
    ];

    let expected_kinds = vec![
        ContainerErrorKind::NotFound,
        ContainerErrorKind::CircularDependency,
        ContainerErrorKind::CreationFailed,
        ContainerErrorKind::TypeCastFailed,
        ContainerErrorKind::Configuration,
        ContainerErrorKind::Other,
    ];

    for (error, expected_kind) in errors.iter().zip(expected_kinds.iter()) {
        assert_eq!(&error.kind, expected_kind);
    }
}

#[test]
fn test_error_kind_display() {
    assert_eq!(ContainerErrorKind::NotFound.describe(), "Component not found");
    assert_eq!(
        ContainerErrorKind::CircularDependency.describe(),
        "Circular dependency detected"
    );
    assert_eq!(
        ContainerErrorKind::CreationFailed.describe(),
        "Component creation failed"
    );
    assert_eq!(ContainerErrorKind::TypeCastFailed.describe(), "Type cast failed");
    assert_eq!(ContainerErrorKind::Configuration.describe(), "Configuration error");
    assert_eq!(ContainerErrorKind::Other.describe(), "Other error");
}

#[test]
fn test_component_error_display() {
    let errors = vec![
        ComponentError::DependencyNotFound("TestDep".to_string()),
        ComponentError::DowncastFailed("TestComponent".to_string()),
        ComponentError::CircularDependency("A -> B -> A".to_string()),
        ComponentError::ConfigurationError("Invalid config".to_string()),
        ComponentError::CreationError("Failed to create".to_string()),
        ComponentError::NotFound("ComponentX".to_string()),
    ];

    let expected_messages = vec![
        "Dependency 'TestDep' not found",
        "Failed to downcast dependency 'TestComponent'",
        "Circular dependency detected: A -> B -> A",
        "Configuration error: Invalid config",
        "Component creation error: Failed to create",
        "Component not found: ComponentX",
    ];

    for (error, expected) in errors.iter().zip(expected_messages.iter()) {
        assert_eq!(error.describe(), *expected);
    }
}

#[test]
fn test_from_container_error() {
    let container_errors = vec![
        ContainerError::not_found("test component"),
        ContainerError::circular_dependency("A -> B -> A"),
        ContainerError::creation_failed("creation failed"),
        ContainerError::type_cast_failed("cast failed"),
        ContainerError::configuration("config error"),
        ContainerError::other("other error"),
    ];

    let component_errors: Vec<ComponentError> = container_errors
        .into_iter()
        .map(ComponentError::from)
        .collect();

    assert!(matches!(component_errors[0], ComponentError::NotFound(_)));
    assert!(matches!(component_errors[1], ComponentError::CircularDependency(_)));
    assert!(matches!(component_errors[2], ComponentError::CreationError(_)));
    assert!(matches!(component_errors[3], ComponentError::DowncastFailed(_)));
    assert!(matches!(component_errors[4], ComponentError::ConfigurationError(_)));
    assert!(matches!(component_errors[5], ComponentError::CreationError(_)));
}

#[test]
fn test_to_container_error() {
    let component_errors = vec![
        ComponentError::NotFound("test".to_string()),
        ComponentError::CircularDependency("A -> B -> A".to_string()),
        ComponentError::CreationError("create failed".to_string()),
        ComponentError::DowncastFailed("cast failed".to_string()),
        ComponentError::ConfigurationError("config error".to_string()),
        ComponentError::DependencyNotFound("dependency".to_string()),
    ];

    let container_errors: Vec<ContainerError> = component_errors
        .into_iter()
        .map(ContainerError::from)
        .collect();

    assert_eq!(container_errors[0].kind, ContainerErrorKind::NotFound);
    assert_eq!(container_errors[1].kind, ContainerErrorKind::CircularDependency);
    assert_eq!(container_errors[2].kind, ContainerErrorKind::CreationFailed);
    assert_eq!(container_errors[3].kind, ContainerErrorKind::TypeCastFailed);
    assert_eq!(container_errors[4].kind, ContainerErrorKind::Configuration);
    assert_eq!(container_errors[5].kind, ContainerErrorKind::NotFound);
    assert!(container_errors[5].message.contains("Dependency: dependency"));
}

#[test]
fn test_error_roundup_conversion() {
    let original_container_error = ContainerError::circular_dependency("A -> B -> A");
    let component_error = ComponentError::from(original_container_error);
    let back_to_container = ContainerError::from(component_error);

    assert_eq!(back_to_container.kind, ContainerErrorKind::CircularDependency);
    assert_eq!(back_to_container.message, "A -> B -> A");
}

#[test]
fn test_context_error_creation() {
    let error = ContextError::configuration_not_found("test.key");
    assert!(matches!(error, ContextError::ConfigurationNotFound { .. }));
    assert_eq!(error.describe(), "Configuration not found: test.key");
}

#[test]
fn test_invalid_configuration_error() {
    let error = ContextError::invalid_configuration("port", "not a number");
    assert!(matches!(error, ContextError::InvalidConfiguration { .. }));
    assert_eq!(
        error.describe(),
        "Invalid configuration for key 'port': not a number"
    );
}

#[test]
fn test_profile_not_found_error() {
    let error = ContextError::profile_not_found("development");
    assert!(matches!(error, ContextError::ProfileNotFound { .. }));
    assert_eq!(error.describe(), "Environment profile not found: development");
}

#[test]
fn test_initialization_failed_error() {
    let error = ContextError::initialization_failed("missing required config");
    assert!(matches!(error, ContextError::InitializationFailed { .. }));
    assert_eq!(
        error.describe(),
        "Context initialization failed: missing required config"
    );
}

#[test]
fn test_configuration_file_error() {
    let error = ContextError::configuration_file_error("file not found");
    assert!(matches!(error, ContextError::ConfigurationFileError { .. }));
    assert_eq!(error.describe(), "Configuration file error: file not found");
}

#[test]
fn test_serialization_error() {
    let error = ContextError::serialization_error("invalid TOML format");
    assert!(matches!(error, ContextError::SerializationError { .. }));
    assert_eq!(error.describe(), "Serialization error: invalid TOML format");
}

#[test]
fn test_property_binding_error() {
    let error = ContextError::property_binding_error("database.port", "type mismatch");
    assert!(matches!(error, ContextError::PropertyBindingError { .. }));
    assert_eq!(
        error.describe(),
        "Property binding error for 'database.port': type mismatch"
    );
}
