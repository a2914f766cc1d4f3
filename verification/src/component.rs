//! Component model: scopes, type-keyed instances, descriptors, definitions
//! and creation statistics.
//!
//! Type identity is a plain `u64` key chosen by the embedding application,
//! and instances are reference-counted handles to a tagged value, so that a
//! failed downcast is an ordinary absent result rather than a panic.

use vstd::prelude::*;

verus! {

/// Lifecycle scope of a component.
#[derive(Debug, Clone, Copy, PartialEq, Eq, Structural)]
pub enum ComponentScope {
    /// A single shared instance, cached in the store.
    Singleton,
    /// A new instance on each request, never stored.
    Prototype,
}

/// The payload a component instance carries.
#[derive(Debug, Clone, PartialEq)]
pub enum ComponentData {
    /// No payload.
    Unit,
    /// An integer payload.
    Int(i64),
    /// A text payload.
    Text(String),
    /// A payload of named text fields.
    Pairs(Vec<(String, String)>),
}

/// A component value: its type key together with its payload.
#[derive(Debug, PartialEq)]
pub struct ComponentValue {
    /// The type key under which the value identifies itself.
    pub type_key: u64,
    /// The value's payload.
    pub data: ComponentData,
}

/// A shared, reference-counted handle to a component value.
pub type ComponentInstance = std::sync::Arc<ComponentValue>;

/// Relies on `Arc::clone`: the returned handle is a new reference to the
/// same component value.
#[verifier::external_body]
pub fn share_instance(instance: &ComponentInstance) -> (r: ComponentInstance)
    ensures
        r == *instance,
{
    std::sync::Arc::clone(instance)
}

/// A lookup key for component slots: a type key and an optional qualifier.
#[derive(Debug, Clone, PartialEq, Eq, Hash)]
pub struct ComponentDescriptor {
    /// The type key of the component.
    pub type_key: u64,
    /// An optional qualifier for named instances.
    pub qualifier: Option<String>,
}

impl ComponentDescriptor {
    /// Creates a descriptor from a type key and an optional qualifier.
    pub fn new(type_key: u64, qualifier: Option<String>) -> (r: Self)
        ensures
            r.type_key == type_key,
            r.qualifier == qualifier,
    {
        Self { type_key, qualifier }
    }

    /// Creates a descriptor for a type key without a qualifier.
    pub fn for_type(type_key: u64) -> (r: Self)
        ensures
            r.type_key == type_key,
            r.qualifier is None,
    {
        Self { type_key, qualifier: None }
    }

    /// Creates a descriptor for a type key with a qualifier.
    pub fn with_qualifier(type_key: u64, qualifier: &str) -> (r: Self)
        ensures
            r.type_key == type_key,
            r.qualifier matches Some(q) && q@ == qualifier@,
    {
        Self { type_key, qualifier: Some(qualifier.to_owned()) }
    }
}

/// Creation and access statistics of one component.
#[derive(Debug, Clone)]
pub struct ComponentStats {
    /// When the component was first created (milliseconds since the epoch).
    pub created_at: Option<u64>,
    /// When the component was last accessed (milliseconds since the epoch).
    pub last_accessed: Option<u64>,
    /// How many times the component has been accessed.
    pub access_count: u64,
    /// How long creating the instance took, in milliseconds.
    pub creation_time: u64,
}

impl Default for ComponentStats {
    /// Statistics of a component that was never created or accessed.
    fn default() -> (r: Self)
        ensures
            r.created_at is None,
            r.last_accessed is None,
            r.access_count == 0,
            r.creation_time == 0,
    {
        ComponentStats { created_at: None, last_accessed: None, access_count: 0, creation_time: 0 }
    }
}

/// The descriptor of one registered component: its type key, display name,
/// scope, and the type keys of its declared dependencies, in order.
///
/// The factory that builds instances is not part of the definition: the
/// container's `initialize` takes a single factory function that it calls
/// with a definition's type key and resolved dependencies.
#[derive(Debug)]
pub struct ComponentDefinition {
    /// The type key of the component this definition describes.
    pub type_key: u64,
    /// The human-readable name of the component type.
    pub display_name: String,
    /// The component's lifecycle scope.
    pub scope: ComponentScope,
    /// The type keys of the declared dependencies, in declaration order.
    pub dependencies: Vec<u64>,
}

/// A component type that knows how to build itself from its resolved
/// dependencies. Embedding applications implement this for their component
/// types and bridge it into the container's factory function.
pub trait ComponentInitializer: Sized {
    /// The tuple of dependencies this component is built from.
    type Dependencies;

    /// Builds the component from its dependencies.
    fn __new(deps: Self::Dependencies) -> Self;

    /// The scope this component type is managed under.
    fn __scope() -> ComponentScope;
}

/// Read access to stored components, by type key, for callers that need
/// dynamic dispatch.
///
/// These trait methods carry no contract of their own: a trait method
/// cannot demand the implementor's validity. The contracted lookup API of
/// the container is `ComponentContainer::lookup_by_type_key` and
/// `ComponentContainer::lookup_component`, which this trait's impl
/// mirrors.
pub trait ComponentFactory {
    /// Returns the stored instance under the key, whatever it holds.
    fn get_component_by_type_id(&self, type_key: u64) -> Option<ComponentInstance>;

    /// Returns the stored instance under the key only if the value
    /// identifies itself with that key; a mismatch is an absent result.
    fn get_component(&self, type_key: u64) -> Option<ComponentInstance>;
}

} // verus!
