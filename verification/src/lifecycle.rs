//! Container lifecycle events and their published history.
//!
//! The container records the events it fires in order; the embedding
//! application drains the history and hands each event to its listeners.

use vstd::prelude::*;

verus! {

/// An event in the container's lifecycle.
#[derive(Debug)]
pub enum ContainerLifecycleEvent {
    /// Container initialization began.
    InitializationStarted {
        /// How many definitions the container will consider.
        component_count: usize,
    },
    /// Container initialization completed successfully.
    InitializationCompleted {
        /// How many components the store holds afterwards.
        component_count: usize,
        /// How long initialization took, in milliseconds.
        duration_ms: u64,
    },
    /// One component instance was created.
    ComponentCreated {
        /// The display name of the created component.
        component_name: String,
        /// The type key of the created component.
        component_type_key: u64,
        /// How long the factory took, in milliseconds.
        creation_duration_ms: u64,
    },
}

/// The type keys of the creation events in a history, in firing order.
pub open spec fn created_keys(events: Seq<ContainerLifecycleEvent>) -> Seq<u64>
    decreases events.len(),
{
    if events.len() == 0 {
        Seq::empty()
    } else {
        created_keys(events.drop_last()) + (match events.last() {
            ContainerLifecycleEvent::ComponentCreated { component_type_key, .. } => {
                seq![component_type_key]
            },
            _ => Seq::empty(),
        })
    }
}

/// Appending an event extends the created keys by that event's key, if it
/// is a creation event, and by nothing otherwise.
pub proof fn lemma_created_keys_push(events: Seq<ContainerLifecycleEvent>, e: ContainerLifecycleEvent)
    ensures
        created_keys(events.push(e)) == created_keys(events) + (match e {
            ContainerLifecycleEvent::ComponentCreated { component_type_key, .. } => {
                seq![component_type_key]
            },
            _ => Seq::empty(),
        }),
{
    assert(events.push(e).drop_last() =~= events);
    assert(events.push(e).last() == e);
}

/// A listener for container lifecycle events, implemented by the embedding
/// application.
pub trait LifecycleListener: Send + Sync {
    /// Called with each lifecycle event.
    fn on_lifecycle_event(&self, event: &ContainerLifecycleEvent);
}

/// The recorded history of lifecycle events, in firing order.
#[derive(Debug)]
pub struct LifecycleEventPublisher {
    /// The events fired so far, oldest first.
    pub events: Vec<ContainerLifecycleEvent>,
}

impl LifecycleEventPublisher {
    /// Creates a publisher with an empty history.
    pub fn new() -> (r: Self)
        ensures
            r.events@.len() == 0,
    {
        LifecycleEventPublisher { events: Vec::new() }
    }

    /// Records one event at the end of the history.
    pub fn publish(&mut self, event: ContainerLifecycleEvent)
        ensures
            final(self).events@ == old(self).events@.push(event),
    {
        self.events.push(event);
    }

    /// The recorded history.
    pub fn events(&self) -> (r: &Vec<ContainerLifecycleEvent>)
        ensures
            r == &self.events,
    {
        &self.events
    }

    /// Removes and returns the recorded history, oldest first.
    pub fn drain_events(&mut self) -> (r: Vec<ContainerLifecycleEvent>)
        ensures
            r@ == old(self).events@,
            final(self).events@.len() == 0,
    {
        let mut drained = Vec::new();
        std::mem::swap(&mut drained, &mut self.events);
        drained
    }
}

} // verus!
