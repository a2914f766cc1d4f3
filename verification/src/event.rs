//! Context events and the type-keyed listener registry.
//!
//! Events carry a numeric type key. The publisher keeps, per key, the
//! listeners subscribed for exactly that key, in subscription order, and
//! answers a publication with the listener handles to invoke; the
//! embedding application holds the listener callbacks themselves and runs
//! them in the returned order.

use vstd::prelude::*;

verus! {

/// The event key of the context-initializing event.
pub const CONTEXT_INITIALIZING_EVENT_KEY: u64 = 1;

/// The event key of the context-initialized event.
pub const CONTEXT_INITIALIZED_EVENT_KEY: u64 = 2;

/// The event key of the profile-activated event.
pub const PROFILE_ACTIVATED_EVENT_KEY: u64 = 3;

/// The event key of the configuration-changed event.
pub const CONFIGURATION_CHANGED_EVENT_KEY: u64 = 4;

/// Fired when context initialization begins.
#[derive(Debug)]
pub struct ContextInitializingEvent {
    /// How many configuration sources are registered.
    pub config_sources_count: usize,
    /// How many profiles are active.
    pub active_profiles_count: usize,
    /// When initialization began, in milliseconds since the epoch.
    pub timestamp: u64,
}

/// Fired when the context has been fully initialized.
#[derive(Debug)]
pub struct ContextInitializedEvent {
    /// How many configuration sources are registered.
    pub config_sources_count: usize,
    /// How many profiles are active.
    pub active_profiles_count: usize,
    /// When initialization completed, in milliseconds since the epoch.
    pub timestamp: u64,
}

/// Fired when a profile is activated during context construction.
#[derive(Debug)]
pub struct ProfileActivatedEvent {
    /// The name of the activated profile.
    pub profile_name: String,
    /// How many properties the activated profile holds.
    pub properties_count: usize,
    /// When the profile was activated, in milliseconds since the epoch.
    pub timestamp: u64,
}

/// Fired when a configuration value is changed at run time.
#[derive(Debug)]
pub struct ConfigurationChangedEvent {
    /// The configuration key that changed.
    pub key: String,
    /// The old value, if the key resolved before the change.
    pub old_value: Option<String>,
    /// The new value.
    pub new_value: String,
    /// When the change happened, in milliseconds since the epoch.
    pub timestamp: u64,
}

/// An event, identified by a numeric type key shared by all events of its
/// kind and by nothing else.
pub trait Event: Sized {
    /// The type key of this event's kind.
    spec fn spec_key(&self) -> u64;

    /// The type key of this event's kind.
    fn event_key(&self) -> (r: u64)
        ensures
            r == self.spec_key(),
    ;

    /// The display name of this event's kind.
    fn name(&self) -> &'static str;
}

impl Event for ContextInitializingEvent {
    open spec fn spec_key(&self) -> u64 {
        CONTEXT_INITIALIZING_EVENT_KEY
    }

    fn event_key(&self) -> u64 {
        CONTEXT_INITIALIZING_EVENT_KEY
    }

    fn name(&self) -> &'static str {
        "ContextInitializing"
    }
}

impl Event for ContextInitializedEvent {
    open spec fn spec_key(&self) -> u64 {
        CONTEXT_INITIALIZED_EVENT_KEY
    }

    fn event_key(&self) -> u64 {
        CONTEXT_INITIALIZED_EVENT_KEY
    }

    fn name(&self) -> &'static str {
        "ContextInitialized"
    }
}

impl Event for ProfileActivatedEvent {
    open spec fn spec_key(&self) -> u64 {
        PROFILE_ACTIVATED_EVENT_KEY
    }

    fn event_key(&self) -> u64 {
        PROFILE_ACTIVATED_EVENT_KEY
    }

    fn name(&self) -> &'static str {
        "ProfileActivated"
    }
}

impl Event for ConfigurationChangedEvent {
    open spec fn spec_key(&self) -> u64 {
        CONFIGURATION_CHANGED_EVENT_KEY
    }

    fn event_key(&self) -> u64 {
        CONFIGURATION_CHANGED_EVENT_KEY
    }

    fn name(&self) -> &'static str {
        "ConfigurationChanged"
    }
}

/// A listener for events of one kind, implemented by the embedding
/// application.
pub trait EventListener<T: Event> {
    /// Called with each published event of the kind.
    fn on_event(&self, event: &T);
}

/// A listener for events of one kind that also receives the application
/// context, implemented by the embedding application.
pub trait ContextAwareEventListener<T: Event> {
    /// Called with each published event of the kind and the context.
    fn on_context_event(&self, event: &T, context: &crate::context::ApplicationContext);
}

/// A context event as recorded in the context's event history.
#[derive(Debug)]
pub enum ContextEventRecord {
    /// Context initialization began.
    Initializing(ContextInitializingEvent),
    /// Context initialization completed.
    Initialized(ContextInitializedEvent),
    /// A profile was activated.
    ProfileActivated(ProfileActivatedEvent),
    /// A configuration value was changed.
    ConfigurationChanged(ConfigurationChangedEvent),
}

/// The listener handles subscribed for a key, in subscription order.
pub open spec fn ids_for(subs: Seq<(u64, u64)>, key: u64) -> Seq<u64>
    decreases subs,
{
    if subs.len() == 0 {
        Seq::empty()
    } else {
        ids_for(subs.drop_last(), key) + (if subs.last().0 == key {
            seq![subs.last().1]
        } else {
            Seq::empty()
        })
    }
}

/// A key with a subscribed listener occurs among the subscriptions.
proof fn lemma_ids_for_nonempty(subs: Seq<(u64, u64)>, key: u64)
    requires
        ids_for(subs, key).len() > 0,
    ensures
        exists|b: int| 0 <= b < subs.len() && (#[trigger] subs[b]).0 == key,
    decreases subs.len(),
{
    if subs.len() > 0 {
        if subs.last().0 == key {
            assert(subs[subs.len() - 1].0 == key);
        } else {
            lemma_ids_for_nonempty(subs.drop_last(), key);
            let b = choose|b: int|
                0 <= b < subs.drop_last().len() && (#[trigger] subs.drop_last()[b]).0 == key;
            assert(subs[b].0 == key);
        }
    }
}

/// The type-keyed listener registry: who listens to which event kind, in
/// subscription order, for plain and context-aware listeners.
#[derive(Debug)]
pub struct EventPublisher {
    /// Subscriptions of plain listeners: event key and listener handle.
    listeners: Vec<(u64, u64)>,
    /// Subscriptions of context-aware listeners.
    context_aware_listeners: Vec<(u64, u64)>,
    /// The next listener handle to give out.
    next_handle: u64,
}

impl EventPublisher {
    /// The plain subscriptions, in order.
    pub closed spec fn spec_plain(self) -> Seq<(u64, u64)> {
        self.listeners@
    }

    /// The context-aware subscriptions, in order.
    pub closed spec fn spec_aware(self) -> Seq<(u64, u64)> {
        self.context_aware_listeners@
    }

    /// The next listener handle to be given out.
    pub closed spec fn spec_next_handle(self) -> u64 {
        self.next_handle
    }

    /// Creates a publisher with no subscriptions.
    pub fn new() -> (r: Self)
        ensures
            r.spec_plain().len() == 0,
            r.spec_aware().len() == 0,
    {
        EventPublisher { listeners: Vec::new(), context_aware_listeners: Vec::new(), next_handle: 0 }
    }

    /// Subscribes a plain listener to an event kind and returns its
    /// handle, under which the embedding application keeps the callback.
    pub fn subscribe(&mut self, event_key: u64) -> (r: u64)
        ensures
            r == old(self).spec_next_handle(),
            final(self).spec_plain() == old(self).spec_plain().push((event_key, r)),
            final(self).spec_aware() == old(self).spec_aware(),
    {
        let handle = self.next_handle;
        self.next_handle = self.next_handle.wrapping_add(1);
        self.listeners.push((event_key, handle));
        handle
    }

    /// Subscribes a context-aware listener to an event kind and returns
    /// its handle.
    pub fn subscribe_context_aware(&mut self, event_key: u64) -> (r: u64)
        ensures
            r == old(self).spec_next_handle(),
            final(self).spec_aware() == old(self).spec_aware().push((event_key, r)),
            final(self).spec_plain() == old(self).spec_plain(),
    {
        let handle = self.next_handle;
        self.next_handle = self.next_handle.wrapping_add(1);
        self.context_aware_listeners.push((event_key, handle));
        handle
    }

    /// The handles to invoke for a publication of the given kind: exactly
    /// the plain listeners subscribed for that key, in subscription order.
    #[verifier::loop_isolation(false)]
    pub fn publish(&self, event_key: u64) -> (r: Vec<u64>)
        ensures
            r@ == ids_for(self.spec_plain(), event_key),
    {
        ids_matching(&self.listeners, event_key)
    }

    /// The handles to invoke for a publication with context access: the
    /// plain listeners and the context-aware listeners for the key, each
    /// group in subscription order.
    pub fn publish_with_context(&self, event_key: u64) -> (r: (Vec<u64>, Vec<u64>))
        ensures
            r.0@ == ids_for(self.spec_plain(), event_key),
            r.1@ == ids_for(self.spec_aware(), event_key),
    {
        (ids_matching(&self.listeners, event_key), ids_matching(
            &self.context_aware_listeners,
            event_key,
        ))
    }

    /// How many plain listeners are subscribed for an event kind.
    pub fn listener_count(&self, event_key: u64) -> (r: usize)
        ensures
            r == ids_for(self.spec_plain(), event_key).len(),
    {
        let ids = ids_matching(&self.listeners, event_key);
        ids.len()
    }

    /// Removes all plain listeners; context-aware listeners stay.
    pub fn clear_all_listeners(&mut self)
        ensures
            final(self).spec_plain().len() == 0,
            final(self).spec_aware() == old(self).spec_aware(),
    {
        self.listeners.clear();
    }

    /// The subscription statistics: each event key with at least one
    /// plain listener, with its listener count, keyed once each.
    #[verifier::loop_isolation(false)]
    pub fn listener_statistics(&self) -> (r: Vec<(u64, usize)>)
        ensures
            forall|i: int|
                0 <= i < r@.len() ==> (#[trigger] r@[i]).1 == ids_for(
                    self.spec_plain(),
                    r@[i].0,
                ).len(),
            forall|i: int, j: int| 0 <= i < j < r@.len() ==> r@[i].0 != r@[j].0,
            forall|k: u64|
                ids_for(self.spec_plain(), k).len() > 0 ==> (exists|i: int|
                    0 <= i < r@.len() && (#[trigger] r@[i]).0 == k),
    {
        let n = self.listeners.len();
        let mut out: Vec<(u64, usize)> = Vec::new();
        let mut i: usize = 0;
        while i < n
            invariant
                i <= n,
                n == self.spec_plain().len(),
                forall|a: int|
                    0 <= a < out@.len() ==> (#[trigger] out@[a]).1 == ids_for(
                        self.spec_plain(),
                        out@[a].0,
                    ).len(),
                forall|a: int, b: int| 0 <= a < b < out@.len() ==> out@[a].0 != out@[b].0,
                forall|b: int|
                    0 <= b < i ==> (exists|a: int|
                        0 <= a < out@.len() && (#[trigger] out@[a]).0 == (
                        #[trigger] self.spec_plain()[b]).0),
            decreases n - i,
        {
            let key = self.listeners[i].0;
            let mut seen = false;
            let on = out.len();
            let mut a: usize = 0;
            while a < on
                invariant
                    a <= on,
                    on == out@.len(),
                    seen == exists|b: int| 0 <= b < a && (#[trigger] out@[b]).0 == key,
                decreases on - a,
            {
                if out[a].0 == key {
                    seen = true;
                    proof {
                        assert(out@[a as int].0 == key);
                    }
                    a = on;
                } else {
                    proof {
                        assert(seen == exists|b: int| 0 <= b < a + 1 && (#[trigger] out@[b]).0 == key);
                    }
                    a += 1;
                }
            }
            let ghost before = out@;
            if !seen {
                let count = self.listener_count(key);
                out.push((key, count));
                proof {
                    assert(out@.drop_last() =~= before);
                    assert forall|x: int, y: int|
                        0 <= x < y < out@.len() implies out@[x].0 != out@[y].0 by {
                        if y == out@.len() - 1 {
                            assert(!(exists|b: int|
                                0 <= b < before.len() && (#[trigger] before[b]).0 == key));
                            assert(before[x].0 != key);
                        }
                    }
                }
            }
            proof {
                assert(key == (#[trigger] self.spec_plain()[i as int]).0);
                assert forall|b: int|
                    0 <= b < i + 1 implies (exists|a: int|
                    0 <= a < out@.len() && (#[trigger] out@[a]).0 == (
                    #[trigger] self.spec_plain()[b]).0) by {
                    if b == i {
                        if seen {
                            let a0 = choose|a0: int|
                                0 <= a0 < before.len() && (#[trigger] before[a0]).0 == key;
                            assert(out@[a0].0 == key);
                        } else {
                            assert(out@[out@.len() - 1].0 == key);
                        }
                    } else {
                        let a0 = choose|a0: int|
                            0 <= a0 < before.len() && (#[trigger] before[a0]).0
                                == self.spec_plain()[b].0;
                        assert(out@[a0].0 == self.spec_plain()[b].0);
                    }
                }
            }
            i += 1;
        }
        proof {
            assert forall|k: u64| ids_for(self.spec_plain(), k).len() > 0 implies (exists|a: int|
                0 <= a < out@.len() && (#[trigger] out@[a]).0 == k) by {
                lemma_ids_for_nonempty(self.spec_plain(), k);
            }
        }
        out
    }
}

/// Collects the handles subscribed for a key, in order.
#[verifier::loop_isolation(false)]
fn ids_matching(subs: &Vec<(u64, u64)>, key: u64) -> (r: Vec<u64>)
    ensures
        r@ == ids_for(subs@, key),
{
    let n = subs.len();
    let mut out: Vec<u64> = Vec::new();
    let mut i: usize = 0;
    proof {
        assert(subs@.take(0) =~= Seq::<(u64, u64)>::empty());
    }
    while i < n
        invariant
            i <= n,
            out@ == ids_for(subs@.take(i as int), key),
        decreases n - i,
    {
        proof {
            assert(subs@.take(i + 1).drop_last() =~= subs@.take(i as int));
            assert(subs@.take(i + 1).last() == subs@[i as int]);
        }
        if subs[i].0 == key {
            out.push(subs[i].1);
        }
        i += 1;
    }
    proof {
        assert(subs@.take(n as int) =~= subs@);
    }
    out
}

} // verus!
