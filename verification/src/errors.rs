//! Error types for container, component and context operations.

use vstd::prelude::*;
use vstd::string::StringExecFns;

verus! {

/// Enumeration of the kinds of container errors.
#[derive(Debug, PartialEq, Eq, Structural, Clone, Copy)]
pub enum ContainerErrorKind {
    /// A component or dependency was not found.
    NotFound,
    /// A circular dependency was detected between components.
    CircularDependency,
    /// A factory failed to create a component instance.
    CreationFailed,
    /// A component could not be cast to the expected type.
    TypeCastFailed,
    /// A configuration error occurred.
    Configuration,
    /// Any other error.
    Other,
}

impl ContainerErrorKind {
    /// The short text describing this kind.
    pub open spec fn spec_describe(self) -> Seq<char> {
        match self {
            ContainerErrorKind::NotFound => "Component not found"@,
            ContainerErrorKind::CircularDependency => "Circular dependency detected"@,
            ContainerErrorKind::CreationFailed => "Component creation failed"@,
            ContainerErrorKind::TypeCastFailed => "Type cast failed"@,
            ContainerErrorKind::Configuration => "Configuration error"@,
            ContainerErrorKind::Other => "Other error"@,
        }
    }

    /// Renders this kind as text.
    pub fn describe(&self) -> (r: String)
        ensures
            r@ == self.spec_describe(),
    {
        match self {
            ContainerErrorKind::NotFound => "Component not found".to_owned(),
            ContainerErrorKind::CircularDependency => "Circular dependency detected".to_owned(),
            ContainerErrorKind::CreationFailed => "Component creation failed".to_owned(),
            ContainerErrorKind::TypeCastFailed => "Type cast failed".to_owned(),
            ContainerErrorKind::Configuration => "Configuration error".to_owned(),
            ContainerErrorKind::Other => "Other error".to_owned(),
        }
    }
}

/// The main error type for container operations: a kind, a human-readable
/// message, and optionally the text of the error that caused it.
#[derive(Debug)]
pub struct ContainerError {
    /// The specific kind of error that occurred.
    pub kind: ContainerErrorKind,
    /// A human-readable message describing the issue.
    pub message: String,
    /// The rendered source error that caused this error, if any.
    pub source: Option<String>,
}

impl ContainerError {
    /// Creates a new error of the given kind.
    pub fn new(kind: ContainerErrorKind, message: &str) -> (r: Self)
        ensures
            r.kind == kind,
            r.message@ == message@,
            r.source is None,
    {
        Self { kind, message: message.to_owned(), source: None }
    }

    /// Attaches the text of a source error.
    pub fn with_source(self, err: &str) -> (r: Self)
        ensures
            r.kind == self.kind,
            r.message == self.message,
            r.source matches Some(s) && s@ == err@,
    {
        Self { kind: self.kind, message: self.message, source: Some(err.to_owned()) }
    }

    /// Creates a "not found" error.
    pub fn not_found(message: &str) -> (r: Self)
        ensures
            r.kind == ContainerErrorKind::NotFound,
            r.message@ == message@,
            r.source is None,
    {
        Self::new(ContainerErrorKind::NotFound, message)
    }

    /// Creates a "circular dependency" error.
    pub fn circular_dependency(message: &str) -> (r: Self)
        ensures
            r.kind == ContainerErrorKind::CircularDependency,
            r.message@ == message@,
            r.source is None,
    {
        Self::new(ContainerErrorKind::CircularDependency, message)
    }

    /// Creates a "creation failed" error.
    pub fn creation_failed(message: &str) -> (r: Self)
        ensures
            r.kind == ContainerErrorKind::CreationFailed,
            r.message@ == message@,
            r.source is None,
    {
        Self::new(ContainerErrorKind::CreationFailed, message)
    }

    /// Creates a "type cast failed" error.
    pub fn type_cast_failed(message: &str) -> (r: Self)
        ensures
            r.kind == ContainerErrorKind::TypeCastFailed,
            r.message@ == message@,
            r.source is None,
    {
        Self::new(ContainerErrorKind::TypeCastFailed, message)
    }

    /// Creates a "configuration" error.
    pub fn configuration(message: &str) -> (r: Self)
        ensures
            r.kind == ContainerErrorKind::Configuration,
            r.message@ == message@,
            r.source is None,
    {
        Self::new(ContainerErrorKind::Configuration, message)
    }

    /// Creates an "other" error.
    pub fn other(message: &str) -> (r: Self)
        ensures
            r.kind == ContainerErrorKind::Other,
            r.message@ == message@,
            r.source is None,
    {
        Self::new(ContainerErrorKind::Other, message)
    }

    /// Renders this error as "kind: message".
    pub fn describe(&self) -> (r: String)
        ensures
            r@ == self.kind.spec_describe() + ": "@ + self.message@,
    {
        let text = self.kind.describe();
        text.concat(": ").concat(self.message.as_str())
    }
}

/// Component-level errors, as factories and component users see them.
#[derive(Debug)]
pub enum ComponentError {
    /// A declared dependency was missing when a component was created.
    DependencyNotFound(String),
    /// A dependency could not be cast to its declared type.
    DowncastFailed(String),
    /// A dependency cycle was detected.
    CircularDependency(String),
    /// A configuration value was missing or malformed.
    ConfigurationError(String),
    /// A factory reported a creation failure.
    CreationError(String),
    /// A component was not found.
    NotFound(String),
}

impl ComponentError {
    /// The text this error renders to.
    pub open spec fn spec_describe(self) -> Seq<char> {
        match self {
            ComponentError::DependencyNotFound(s) => "Dependency '"@ + s@ + "' not found"@,
            ComponentError::DowncastFailed(s) => "Failed to downcast dependency '"@ + s@ + "'"@,
            ComponentError::CircularDependency(s) => "Circular dependency detected: "@ + s@,
            ComponentError::ConfigurationError(s) => "Configuration error: "@ + s@,
            ComponentError::CreationError(s) => "Component creation error: "@ + s@,
            ComponentError::NotFound(s) => "Component not found: "@ + s@,
        }
    }

    /// Renders this error as text.
    pub fn describe(&self) -> (r: String)
        ensures
            r@ == self.spec_describe(),
    {
        match self {
            ComponentError::DependencyNotFound(s) => {
                "Dependency '".to_owned().concat(s.as_str()).concat("' not found")
            },
            ComponentError::DowncastFailed(s) => {
                "Failed to downcast dependency '".to_owned().concat(s.as_str()).concat("'")
            },
            ComponentError::CircularDependency(s) => {
                "Circular dependency detected: ".to_owned().concat(s.as_str())
            },
            ComponentError::ConfigurationError(s) => {
                "Configuration error: ".to_owned().concat(s.as_str())
            },
            ComponentError::CreationError(s) => {
                "Component creation error: ".to_owned().concat(s.as_str())
            },
            ComponentError::NotFound(s) => "Component not found: ".to_owned().concat(s.as_str()),
        }
    }
}

impl From<String> for ContainerError {
    /// Wraps a bare message as an error of the unspecific kind.
    fn from(message: String) -> (r: ContainerError) {
        ContainerError { kind: ContainerErrorKind::Other, message, source: None }
    }
}

impl vstd::std_specs::convert::FromSpecImpl<String> for ContainerError {
    open spec fn obeys_from_spec() -> bool {
        true
    }

    open spec fn from_spec(message: String) -> ContainerError {
        ContainerError { kind: ContainerErrorKind::Other, message, source: None }
    }
}

/// The kind that a `ComponentError` maps to as a container error.
pub open spec fn container_kind_of(err: ComponentError) -> ContainerErrorKind {
    match err {
        ComponentError::NotFound(_) => ContainerErrorKind::NotFound,
        ComponentError::CircularDependency(_) => ContainerErrorKind::CircularDependency,
        ComponentError::CreationError(_) => ContainerErrorKind::CreationFailed,
        ComponentError::DowncastFailed(_) => ContainerErrorKind::TypeCastFailed,
        ComponentError::ConfigurationError(_) => ContainerErrorKind::Configuration,
        ComponentError::DependencyNotFound(_) => ContainerErrorKind::NotFound,
    }
}

/// The message text that a `ComponentError` maps to as a container error.
pub open spec fn container_message_of(err: ComponentError) -> Seq<char> {
    match err {
        ComponentError::NotFound(msg) => msg@,
        ComponentError::CircularDependency(msg) => msg@,
        ComponentError::CreationError(msg) => msg@,
        ComponentError::DowncastFailed(msg) => msg@,
        ComponentError::ConfigurationError(msg) => msg@,
        ComponentError::DependencyNotFound(msg) => "Dependency: "@ + msg@,
    }
}

impl ComponentError {
    /// Converts a container error into the component error of the matching
    /// variant, keeping its message.
    pub fn from(err: ContainerError) -> (r: ComponentError)
        ensures
            r == match err.kind {
                ContainerErrorKind::NotFound => ComponentError::NotFound(err.message),
                ContainerErrorKind::CircularDependency => ComponentError::CircularDependency(
                    err.message,
                ),
                ContainerErrorKind::CreationFailed => ComponentError::CreationError(err.message),
                ContainerErrorKind::TypeCastFailed => ComponentError::DowncastFailed(err.message),
                ContainerErrorKind::Configuration => ComponentError::ConfigurationError(
                    err.message,
                ),
                ContainerErrorKind::Other => ComponentError::CreationError(err.message),
            },
    {
        match err.kind {
            ContainerErrorKind::NotFound => ComponentError::NotFound(err.message),
            ContainerErrorKind::CircularDependency => ComponentError::CircularDependency(
                err.message,
            ),
            ContainerErrorKind::CreationFailed => ComponentError::CreationError(err.message),
            ContainerErrorKind::TypeCastFailed => ComponentError::DowncastFailed(err.message),
            ContainerErrorKind::Configuration => ComponentError::ConfigurationError(err.message),
            ContainerErrorKind::Other => ComponentError::CreationError(err.message),
        }
    }
}

impl ContainerError {
    /// Converts a component error into the container error of the matching
    /// kind; a missing dependency becomes a not-found error whose message
    /// names the dependency.
    pub fn from(err: ComponentError) -> (r: ContainerError)
        ensures
            r.kind == container_kind_of(err),
            r.message@ == container_message_of(err),
            r.source is None,
    {
        match err {
            ComponentError::NotFound(msg) => ContainerError::not_found(msg.as_str()),
            ComponentError::CircularDependency(msg) => ContainerError::circular_dependency(
                msg.as_str(),
            ),
            ComponentError::CreationError(msg) => ContainerError::creation_failed(msg.as_str()),
            ComponentError::DowncastFailed(msg) => ContainerError::type_cast_failed(msg.as_str()),
            ComponentError::ConfigurationError(msg) => ContainerError::configuration(msg.as_str()),
            ComponentError::DependencyNotFound(msg) => {
                let full = "Dependency: ".to_owned().concat(msg.as_str());
                ContainerError::not_found(full.as_str())
            },
        }
    }
}

/// Errors of context operations: configuration management, profiles and
/// initialization.
#[derive(Debug, Clone, PartialEq)]
pub enum ContextError {
    /// A configuration key was not found (or its value could not be coerced).
    ConfigurationNotFound { key: String },
    /// A configuration value was present but invalid.
    InvalidConfiguration { key: String, reason: String },
    /// A named environment profile was not found.
    ProfileNotFound { profile: String },
    /// Context initialization failed.
    InitializationFailed { reason: String },
    /// A configuration file could not be read or parsed.
    ConfigurationFileError { message: String },
    /// A value could not be serialized or deserialized.
    SerializationError { message: String },
    /// A property could not be bound to a configuration value.
    PropertyBindingError { property: String, reason: String },
}

impl ContextError {
    /// The text this error renders to.
    pub open spec fn spec_describe(self) -> Seq<char> {
        match self {
            ContextError::ConfigurationNotFound { key } => "Configuration not found: "@ + key@,
            ContextError::InvalidConfiguration { key, reason } => {
                "Invalid configuration for key '"@ + key@ + "': "@ + reason@
            },
            ContextError::ProfileNotFound { profile } => {
                "Environment profile not found: "@ + profile@
            },
            ContextError::InitializationFailed { reason } => {
                "Context initialization failed: "@ + reason@
            },
            ContextError::ConfigurationFileError { message } => {
                "Configuration file error: "@ + message@
            },
            ContextError::SerializationError { message } => "Serialization error: "@ + message@,
            ContextError::PropertyBindingError { property, reason } => {
                "Property binding error for '"@ + property@ + "': "@ + reason@
            },
        }
    }

    /// Renders this error as text.
    pub fn describe(&self) -> (r: String)
        ensures
            r@ == self.spec_describe(),
    {
        match self {
            ContextError::ConfigurationNotFound { key } => {
                "Configuration not found: ".to_owned().concat(key.as_str())
            },
            ContextError::InvalidConfiguration { key, reason } => {
                "Invalid configuration for key '".to_owned().concat(key.as_str()).concat(
                    "': ",
                ).concat(reason.as_str())
            },
            ContextError::ProfileNotFound { profile } => {
                "Environment profile not found: ".to_owned().concat(profile.as_str())
            },
            ContextError::InitializationFailed { reason } => {
                "Context initialization failed: ".to_owned().concat(reason.as_str())
            },
            ContextError::ConfigurationFileError { message } => {
                "Configuration file error: ".to_owned().concat(message.as_str())
            },
            ContextError::SerializationError { message } => {
                "Serialization error: ".to_owned().concat(message.as_str())
            },
            ContextError::PropertyBindingError { property, reason } => {
                "Property binding error for '".to_owned().concat(property.as_str()).concat(
                    "': ",
                ).concat(reason.as_str())
            },
        }
    }

    /// Creates a configuration-not-found error.
    pub fn configuration_not_found(key: &str) -> (r: Self)
        ensures
            r matches ContextError::ConfigurationNotFound { key: k } && k@ == key@,
    {
        ContextError::ConfigurationNotFound { key: key.to_owned() }
    }

    /// Creates an invalid-configuration error.
    pub fn invalid_configuration(key: &str, reason: &str) -> (r: Self)
        ensures
            r matches ContextError::InvalidConfiguration { key: k, reason: re } && k@ == key@
                && re@ == reason@,
    {
        ContextError::InvalidConfiguration { key: key.to_owned(), reason: reason.to_owned() }
    }

    /// Creates a profile-not-found error.
    pub fn profile_not_found(profile: &str) -> (r: Self)
        ensures
            r matches ContextError::ProfileNotFound { profile: p } && p@ == profile@,
    {
        ContextError::ProfileNotFound { profile: profile.to_owned() }
    }

    /// Creates an initialization-failed error.
    pub fn initialization_failed(reason: &str) -> (r: Self)
        ensures
            r matches ContextError::InitializationFailed { reason: re } && re@ == reason@,
    {
        ContextError::InitializationFailed { reason: reason.to_owned() }
    }

    /// Creates a configuration-file error.
    pub fn configuration_file_error(message: &str) -> (r: Self)
        ensures
            r matches ContextError::ConfigurationFileError { message: m } && m@ == message@,
    {
        ContextError::ConfigurationFileError { message: message.to_owned() }
    }

    /// Creates a serialization error.
    pub fn serialization_error(message: &str) -> (r: Self)
        ensures
            r matches ContextError::SerializationError { message: m } && m@ == message@,
    {
        ContextError::SerializationError { message: message.to_owned() }
    }

    /// Creates a property-binding error.
    pub fn property_binding_error(property: &str, reason: &str) -> (r: Self)
        ensures
            r matches ContextError::PropertyBindingError { property: p, reason: re } && p@
                == property@ && re@ == reason@,
    {
        ContextError::PropertyBindingError {
            property: property.to_owned(),
            reason: reason.to_owned(),
        }
    }
}

/// The result type of context operations.
pub type ContextResult<T> = Result<T, ContextError>;

} // verus!
