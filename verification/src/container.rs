//! The component container: an explicit registry of component definitions,
//! a concurrent type-keyed store of created instances, and the resolver
//! that turns definitions into a fully wired object graph.

use vstd::prelude::*;
use vstd::string::StringExecFns;
use crate::component::{
    ComponentDefinition, ComponentInstance, ComponentScope, ComponentStats, ComponentFactory,
    share_instance,
};
use crate::errors::{ComponentError, ContainerError, ContainerErrorKind};
use crate::lifecycle::{ContainerLifecycleEvent, LifecycleEventPublisher, created_keys};
use crate::shared_map::{dash_contains, dash_get, dash_insert, dash_len, dash_new, dash_view};

verus! {

/// Whether some definition in the sequence has the given type key.
pub open spec fn has_def(defs: Seq<ComponentDefinition>, k: u64) -> bool {
    exists|i: int| 0 <= i < defs.len() && defs[i].type_key == k
}

/// The definition with the given type key.
pub open spec fn def_at(defs: Seq<ComponentDefinition>, k: u64) -> ComponentDefinition {
    defs[choose|i: int| 0 <= i < defs.len() && defs[i].type_key == k]
}

/// Whether no two definitions share a type key.
pub open spec fn distinct_def_keys(defs: Seq<ComponentDefinition>) -> bool {
    forall|i: int, j: int|
        0 <= i < j < defs.len() ==> defs[i].type_key != defs[j].type_key
}

/// Whether the component with key `a` declares a dependency on key `b`.
pub open spec fn dep_edge(defs: Seq<ComponentDefinition>, a: u64, b: u64) -> bool {
    has_def(defs, a) && def_at(defs, a).dependencies@.contains(b)
}

/// Whether `c` is a dependency cycle: each key depends on the next, and the
/// last depends on the first.
pub open spec fn is_dep_cycle(defs: Seq<ComponentDefinition>, c: Seq<u64>) -> bool {
    &&& c.len() > 0
    &&& forall|i: int| 0 <= i < c.len() - 1 ==> dep_edge(defs, #[trigger] c[i], c[i + 1])
    &&& dep_edge(defs, c[c.len() - 1], c[0])
}

/// Whether the key is defined with singleton scope.
pub open spec fn is_singleton(defs: Seq<ComponentDefinition>, k: u64) -> bool {
    has_def(defs, k) && def_at(defs, k).scope == ComponentScope::Singleton
}

/// Whether a sequence of created keys respects dependencies: each created
/// component's dependencies were either in the store when the sequence
/// began or created earlier in the sequence.
pub open spec fn log_respects_deps(
    defs: Seq<ComponentDefinition>,
    base: Set<u64>,
    created: Seq<u64>,
) -> bool {
    forall|i: int|
        0 <= i < created.len() ==> has_def(defs, #[trigger] created[i]) && (forall|d: u64|
            def_at(defs, created[i]).dependencies@.contains(d) ==> base.contains(d) || (
            exists|j: int| 0 <= j < i && created[j] == d))
}

/// The central component container.
///
/// Definitions are registered explicitly with [`Self::add_definition`];
/// [`Self::initialize`] then resolves them depth-first with cycle
/// detection, calling the given factory once per created instance, and
/// stores singletons in a concurrent type-keyed store.
pub struct ComponentContainer {
    /// The registered definitions, in registration order, with distinct keys.
    definitions: Vec<ComponentDefinition>,
    /// The stored instances; the index map points into this.
    slots: Vec<ComponentInstance>,
    /// The concurrent map from type key to slot position.
    index: dashmap::DashMap<u64, u64, std::collections::hash_map::RandomState>,
    /// The keys currently being resolved, outermost first; used for cycle
    /// detection and cleared as each resolution unwinds.
    initializing: Vec<u64>,
    /// Creation statistics, keyed by type key.
    stats: Vec<(u64, ComponentStats)>,
    /// The recorded lifecycle events.
    lifecycle: LifecycleEventPublisher,
}

impl ComponentContainer {
    /// The registered definitions.
    pub closed spec fn defs(self) -> Seq<ComponentDefinition> {
        self.definitions@
    }

    /// The keys the store currently holds.
    pub closed spec fn store_dom(self) -> Set<u64> {
        dash_view(self.index).dom()
    }

    /// The instance stored under a key.
    pub closed spec fn store_at(self, k: u64) -> ComponentInstance {
        self.slots@[dash_view(self.index)[k] as int]
    }

    /// The recorded lifecycle events.
    pub closed spec fn events(self) -> Seq<ContainerLifecycleEvent> {
        self.lifecycle.events@
    }

    /// The keys currently being resolved.
    pub closed spec fn resolving(self) -> Seq<u64> {
        self.initializing@
    }

    /// The recorded statistics entries, in recording order.
    pub closed spec fn stats_entries(self) -> Seq<(u64, ComponentStats)> {
        self.stats@
    }

    /// The keys of the recorded statistics entries.
    pub closed spec fn stats_keys(self) -> Seq<u64> {
        self.stats@.map_values(|p: (u64, ComponentStats)| p.0)
    }

    /// Structural validity: definition keys are distinct and every index
    /// entry points at an existing slot.
    pub closed spec fn wf_core(self) -> bool {
        &&& distinct_def_keys(self.defs())
        &&& dash_view(self.index).dom().finite()
        &&& forall|k: u64|
            #[trigger] dash_view(self.index).dom().contains(k) ==> dash_view(self.index)[k]
                < self.slots@.len()
    }

    /// Validity between public operations: structurally valid, with no
    /// resolution in flight.
    pub closed spec fn wf(self) -> bool {
        self.wf_core() && self.resolving().len() == 0
    }

    /// A container that is valid between operations is structurally valid.
    pub proof fn lemma_wf_implies_core(self)
        requires
            self.wf(),
        ensures
            self.wf_core(),
    {
    }

    /// Whether every store entry of `old_c` is still present and unchanged.
    pub open spec fn store_extends(old_c: Self, new_c: Self) -> bool {
        forall|k: u64|
            #[trigger] old_c.store_dom().contains(k) ==> new_c.store_dom().contains(k)
                && new_c.store_at(k) == old_c.store_at(k)
    }

    /// Creates an empty container.
    pub fn new() -> (r: Self)
        ensures
            r.wf(),
            r.defs().len() == 0,
            forall|k: u64| !r.store_dom().contains(k),
            r.events().len() == 0,
            r.stats_keys().len() == 0,
    {
        ComponentContainer {
            definitions: Vec::new(),
            slots: Vec::new(),
            index: dash_new(),
            initializing: Vec::new(),
            stats: Vec::new(),
            lifecycle: LifecycleEventPublisher::new(),
        }
    }

    /// Registers a component definition.
    ///
    /// Duplicate registration is rejected eagerly: a definition whose type
    /// key is already registered is refused with a configuration error and
    /// leaves the container unchanged.
    pub fn add_definition(&mut self, def: ComponentDefinition) -> (r: Result<(), ContainerError>)
        requires
            old(self).wf(),
        ensures
            final(self).wf(),
            r is Ok <==> !has_def(old(self).defs(), def.type_key),
            r is Ok ==> final(self).defs() == old(self).defs().push(def),
            r is Err ==> *final(self) == *old(self),
            r matches Err(e) ==> e.kind == ContainerErrorKind::Configuration,
            final(self).store_dom() == old(self).store_dom(),
            Self::store_extends(*old(self), *final(self)),
            final(self).events() == old(self).events(),
    {
        let ghost entry = *self;
        let n = self.definitions.len();
        let mut i: usize = 0;
        while i < n
            invariant
                *self == entry,
                entry == *old(self),
                entry.wf(),
                n == self.definitions.len(),
                i <= n,
                forall|j: int| 0 <= j < i ==> self.defs()[j].type_key != def.type_key,
            decreases n - i,
        {
            if self.definitions[i].type_key == def.type_key {
                return Err(ContainerError::configuration(
                    "a definition with this type key is already registered",
                ));
            }
            i += 1;
        }
        proof {
            assert(!has_def(self.defs(), def.type_key));
        }
        self.definitions.push(def);
        proof {
            let ds = self.defs();
            assert forall|a: int, b: int| 0 <= a < b < ds.len() implies ds[a].type_key
                != ds[b].type_key by {
                if b == ds.len() - 1 {
                    assert(ds[a] == old(self).defs()[a]);
                } else {
                    assert(ds[a] == old(self).defs()[a]);
                    assert(ds[b] == old(self).defs()[b]);
                }
            }
        }
        Ok(())
    }

    /// Registers a pre-created instance under the type key the value
    /// identifies itself with, overwriting any prior entry for that key.
    pub fn register_component(&mut self, instance: ComponentInstance)
        requires
            old(self).wf_core(),
        ensures
            final(self).wf_core(),
            final(self).resolving() == old(self).resolving(),
            final(self).store_dom() == old(self).store_dom().insert(instance.type_key),
            final(self).store_at(instance.type_key) == instance,
            forall|k: u64|
                #[trigger] old(self).store_dom().contains(k) && k != instance.type_key
                    ==> final(self).store_dom().contains(k) && final(self).store_at(k) == old(self).store_at(k),
            final(self).defs() == old(self).defs(),
            final(self).events() == old(self).events(),
    {
        let type_key = instance.type_key;
        self.register_component_by_type_id(type_key, instance);
    }

    /// Registers a pre-created instance under an explicit type key,
    /// overwriting any prior entry for that key. The key need not match
    /// the key the value identifies itself with; a checked retrieval of a
    /// mismatched entry reports absence.
    pub fn register_component_by_type_id(&mut self, type_key: u64, instance: ComponentInstance)
        requires
            old(self).wf_core(),
        ensures
            final(self).wf_core(),
            final(self).resolving() == old(self).resolving(),
            final(self).store_dom() == old(self).store_dom().insert(type_key),
            final(self).store_at(type_key) == instance,
            forall|k: u64|
                #[trigger] old(self).store_dom().contains(k) && k != type_key
                    ==> final(self).store_dom().contains(k) && final(self).store_at(k) == old(self).store_at(k),
            final(self).defs() == old(self).defs(),
            final(self).events() == old(self).events(),
    {
        let slot = self.slots.len();
        self.slots.push(instance);
        dash_insert(&mut self.index, type_key, slot as u64);
        proof {
            assert(dash_view(self.index).dom() =~= dash_view(old(self).index).dom().insert(
                type_key,
            ));
        }
    }

    /// Returns the stored instance under the key, whatever value it holds.
    pub fn lookup_by_type_key(&self, type_key: u64) -> (r: Option<ComponentInstance>)
        requires
            self.wf_core(),
        ensures
            r == if self.store_dom().contains(type_key) {
                Some(self.store_at(type_key))
            } else {
                None::<ComponentInstance>
            },
    {
        match dash_get(&self.index, type_key) {
            Some(slot) => {
                let n = self.slots.len();
                proof {
                    assert(dash_view(self.index).dom().contains(type_key));
                    assert(slot < n as u64);
                }
                let idx = slot as usize;
                Some(share_instance(&self.slots[idx]))
            },
            None => None,
        }
    }

    /// Returns the stored instance under the key only if the stored value
    /// identifies itself with that key: a mismatch is an ordinary absent
    /// result, never a panic.
    pub fn lookup_component(&self, type_key: u64) -> (r: Option<ComponentInstance>)
        requires
            self.wf_core(),
        ensures
            r == if self.store_dom().contains(type_key) && self.store_at(type_key).type_key
                == type_key {
                Some(self.store_at(type_key))
            } else {
                None::<ComponentInstance>
            },
    {
        match self.lookup_by_type_key(type_key) {
            Some(instance) => {
                if instance.type_key == type_key {
                    Some(instance)
                } else {
                    None
                }
            },
            None => None,
        }
    }

    /// The recorded lifecycle events, oldest first.
    pub fn lifecycle_events(&self) -> (r: &Vec<ContainerLifecycleEvent>)
        ensures
            r@ == self.events(),
    {
        self.lifecycle.events()
    }

    /// Removes and returns the recorded lifecycle events, oldest first.
    pub fn drain_lifecycle_events(&mut self) -> (r: Vec<ContainerLifecycleEvent>)
        requires
            old(self).wf(),
        ensures
            final(self).wf(),
            r@ == old(self).events(),
            final(self).events().len() == 0,
            final(self).store_dom() == old(self).store_dom(),
            Self::store_extends(*old(self), *final(self)),
            final(self).defs() == old(self).defs(),
    {
        self.lifecycle.drain_events()
    }

    /// The creation statistics recorded for a type key, if any: the first
    /// entry recorded under that key.
    pub fn stats_for(&self, type_key: u64) -> (r: Option<&ComponentStats>)
        ensures
            r is Some <==> self.stats_keys().contains(type_key),
            r matches Some(s) ==> exists|i: int|
                0 <= i < self.stats_entries().len() && (#[trigger] self.stats_entries()[i]).0
                    == type_key && self.stats_entries()[i].1 == *s && (forall|j: int|
                0 <= j < i ==> self.stats_entries()[j].0 != type_key),
    {
        let n = self.stats.len();
        let mut i: usize = 0;
        while i < n
            invariant
                n == self.stats.len(),
                i <= n,
                forall|j: int| 0 <= j < i ==> self.stats_keys()[j] != type_key,
            decreases n - i,
        {
            if self.stats[i].0 == type_key {
                proof {
                    assert(self.stats_keys()[i as int] == type_key);
                    assert forall|j: int|
                        0 <= j < i implies self.stats_entries()[j].0 != type_key by {
                        assert(self.stats_keys()[j] == self.stats@[j].0);
                    }
                    assert(self.stats_entries()[i as int].0 == type_key);
                }
                return Some(&self.stats[i].1);
            }
            i += 1;
        }
        proof {
            assert(forall|j: int| 0 <= j < self.stats_keys().len() ==> self.stats_keys()[j] != type_key);
        }
        None
    }
}


/// Whether no singleton key occurs twice in a sequence of created keys.
pub open spec fn singletons_once(defs: Seq<ComponentDefinition>, s: Seq<u64>) -> bool {
    forall|i: int, j: int|
        0 <= i < j < s.len() && is_singleton(defs, #[trigger] s[i]) ==> s[i] != #[trigger] s[j]
}

/// The keys created between two container states, in firing order.
pub open spec fn created_since(old_c: ComponentContainer, new_c: ComponentContainer) -> Seq<u64> {
    created_keys(new_c.events()).skip(created_keys(old_c.events()).len() as int)
}

/// How one container state extends another during resolution: definitions
/// are unchanged, stored entries are kept, the creation history only grows,
/// every newly created component had its dependencies available, no
/// singleton is created twice or over an existing entry, and the store
/// gains only created, singleton-scoped keys — a prototype-scoped creation
/// is never stored.
pub open spec fn resolution_extends(old_c: ComponentContainer, new_c: ComponentContainer) -> bool {
    &&& new_c.wf_core()
    &&& new_c.defs() == old_c.defs()
    &&& ComponentContainer::store_extends(old_c, new_c)
    &&& old_c.events().is_prefix_of(new_c.events())
    &&& created_keys(old_c.events()).is_prefix_of(created_keys(new_c.events()))
    &&& log_respects_deps(old_c.defs(), old_c.store_dom(), created_since(old_c, new_c))
    &&& singletons_once(old_c.defs(), created_since(old_c, new_c))
    &&& forall|k: u64|
        #[trigger] created_since(old_c, new_c).contains(k) && is_singleton(old_c.defs(), k)
            ==> !old_c.store_dom().contains(k) && new_c.store_dom().contains(k)
    &&& forall|k: u64|
        #[trigger] new_c.store_dom().contains(k) ==> old_c.store_dom().contains(k)
            || created_since(old_c, new_c).contains(k)
    &&& forall|k: u64|
        #[trigger] new_c.store_dom().contains(k) && !old_c.store_dom().contains(k)
            ==> is_singleton(old_c.defs(), k)
    &&& forall|k: u64|
        #[trigger] old_c.store_dom().contains(k) ==> !created_since(old_c, new_c).contains(k)
}

/// Resolution progress is reflexive.
pub proof fn lemma_resolution_extends_refl(c: ComponentContainer)
    requires
        c.wf_core(),
    ensures
        resolution_extends(c, c),
{
    assert(created_keys(c.events()).is_prefix_of(created_keys(c.events()))) by {
        assert(created_keys(c.events()).subrange(0, created_keys(c.events()).len() as int)
            =~= created_keys(c.events()));
    }
    assert(c.events().is_prefix_of(c.events())) by {
        assert(c.events().subrange(0, c.events().len() as int) =~= c.events());
    }
    assert(created_since(c, c) =~= Seq::<u64>::empty());
}

/// Resolution progress composes.
pub proof fn lemma_resolution_extends_trans(
    a: ComponentContainer,
    b: ComponentContainer,
    c: ComponentContainer,
)
    requires
        resolution_extends(a, b),
        resolution_extends(b, c),
    ensures
        resolution_extends(a, c),
        created_since(a, c) == created_since(a, b) + created_since(b, c),
{
    let ca = created_keys(a.events());
    let cb = created_keys(b.events());
    let cc = created_keys(c.events());
    let s1 = created_since(a, b);
    let s2 = created_since(b, c);
    let s = created_since(a, c);
    assert(cb.subrange(0, ca.len() as int) =~= ca);
    assert(cc.subrange(0, cb.len() as int) =~= cb);
    assert(cc.subrange(0, ca.len() as int) =~= ca);
    assert(s =~= s1 + s2);
    assert(c.events().subrange(0, a.events().len() as int) =~= a.events()) by {
        assert(b.events().subrange(0, a.events().len() as int) =~= a.events());
        assert(c.events().subrange(0, b.events().len() as int) =~= b.events());
        assert forall|k: int| 0 <= k < a.events().len() implies c.events()[k] == a.events()[k] by {
            assert(b.events()[k] == b.events().subrange(0, a.events().len() as int)[k]);
            assert(c.events()[k] == c.events().subrange(0, b.events().len() as int)[k]);
        }
    }
    let defs = a.defs();
    // dependencies of each created key were available
    assert forall|i: int| 0 <= i < s.len() implies has_def(defs, #[trigger] s[i]) && (forall|
        d: u64,
    |
        def_at(defs, s[i]).dependencies@.contains(d) ==> a.store_dom().contains(d) || (exists|
            j: int,
        | 0 <= j < i && s[j] == d)) by {
        if i < s1.len() {
            assert(s[i] == s1[i]);
            assert forall|d: u64| def_at(defs, s[i]).dependencies@.contains(d) implies a
                .store_dom().contains(d) || (exists|j: int| 0 <= j < i && s[j] == d) by {
                if !a.store_dom().contains(d) {
                    let j = choose|j: int| 0 <= j < i && s1[j] == d;
                    assert(s[j] == d);
                }
            }
        } else {
            let i2 = i - s1.len();
            assert(s[i] == s2[i2]);
            assert forall|d: u64| def_at(defs, s[i]).dependencies@.contains(d) implies a
                .store_dom().contains(d) || (exists|j: int| 0 <= j < i && s[j] == d) by {
                if b.store_dom().contains(d) {
                    if !a.store_dom().contains(d) {
                        assert(s1.contains(d));
                        let j = choose|j: int| 0 <= j < s1.len() && s1[j] == d;
                        assert(s[j] == d);
                    }
                } else {
                    let j2 = choose|j: int| 0 <= j < i2 && s2[j] == d;
                    assert(s[s1.len() + j2] == d);
                    assert(0 <= s1.len() + j2 < i);
                }
            }
        }
    }
    // no singleton twice
    assert forall|i: int, j: int|
        0 <= i < j < s.len() && is_singleton(defs, #[trigger] s[i]) implies s[i] != #[trigger] s[j] by {
        if i < s1.len() && j >= s1.len() {
            assert(s[i] == s1[i]);
            assert(s[j] == s2[j - s1.len()]);
            assert(s1.contains(s1[i]));
            assert(b.store_dom().contains(s1[i]));
            if s2[j - s1.len()] == s1[i] {
                assert(s2.contains(s1[i]));
            }
        } else if i >= s1.len() {
            assert(s[i] == s2[i - s1.len()]);
            assert(s[j] == s2[j - s1.len()]);
        } else {
            assert(s[i] == s1[i]);
            assert(s[j] == s1[j]);
        }
    }
    // singleton creations are fresh over a and land in the store of c
    assert forall|k: u64|
        #[trigger] s.contains(k) && is_singleton(defs, k) implies !a.store_dom().contains(k)
            && c.store_dom().contains(k) by {
        let i = choose|i: int| 0 <= i < s.len() && s[i] == k;
        if i < s1.len() {
            assert(s1[i] == k);
            assert(s1.contains(k));
            assert(b.store_dom().contains(k));
        } else {
            assert(s2[i - s1.len()] == k);
            assert(s2.contains(k));
            if a.store_dom().contains(k) {
                assert(b.store_dom().contains(k));
            }
        }
    }
    // keys already stored are never re-created
    assert forall|k: u64| #[trigger] a.store_dom().contains(k) implies !s.contains(k) by {
        if s.contains(k) {
            let i = choose|i: int| 0 <= i < s.len() && s[i] == k;
            if i < s1.len() {
                assert(s1[i] == k);
                assert(s1.contains(k));
            } else {
                assert(s2[i - s1.len()] == k);
                assert(s2.contains(k));
                assert(b.store_dom().contains(k));
            }
        }
    }
    // the store gains only singleton-scoped keys
    assert forall|k: u64|
        #[trigger] c.store_dom().contains(k) && !a.store_dom().contains(k) implies is_singleton(
        defs,
        k,
    ) by {
        if !b.store_dom().contains(k) {
            assert(is_singleton(b.defs(), k));
        }
    }
    // the store gains only created keys
    assert forall|k: u64| #[trigger] c.store_dom().contains(k) implies a.store_dom().contains(k)
        || s.contains(k) by {
        if !a.store_dom().contains(k) {
            if b.store_dom().contains(k) {
                assert(s1.contains(k));
                let i = choose|i: int| 0 <= i < s1.len() && s1[i] == k;
                assert(s[i] == k);
            } else {
                assert(s2.contains(k));
                let i = choose|i: int| 0 <= i < s2.len() && s2[i] == k;
                assert(s[s1.len() + i] == k);
            }
        }
    }
}



/// Whether a key's creation is accounted for by the factory: some
/// dependency vector and instance satisfy the factory's postcondition for
/// the key, and when the key is singleton-scoped, that instance is
/// exactly what the store of `new_c` holds for it.
pub open spec fn factory_created<F: Fn(u64, Vec<(u64, ComponentInstance)>) -> Result<
    ComponentInstance,
    ComponentError,
>>(factory: F, defs: Seq<ComponentDefinition>, new_c: ComponentContainer, k: u64) -> bool {
    exists|deps: Vec<(u64, ComponentInstance)>, inst: ComponentInstance|
        call_ensures(factory, (k, deps), Result::<ComponentInstance, ComponentError>::Ok(inst))
            && (is_singleton(defs, k) ==> new_c.store_dom().contains(k) && new_c.store_at(k)
            == inst)
}

/// Whether every key created between two container states came out of the
/// factory, in the sense of [`factory_created`].
pub open spec fn creations_from_factory<F: Fn(u64, Vec<(u64, ComponentInstance)>) -> Result<
    ComponentInstance,
    ComponentError,
>>(factory: F, old_c: ComponentContainer, new_c: ComponentContainer) -> bool {
    forall|j: int|
        0 <= j < created_since(old_c, new_c).len() ==> factory_created(
            factory,
            old_c.defs(),
            new_c,
            #[trigger] created_since(old_c, new_c)[j],
        )
}

/// A factory-accounted creation stays accounted in any later state that
/// keeps the store's entries.
proof fn lemma_factory_created_persists<F: Fn(u64, Vec<(u64, ComponentInstance)>) -> Result<
    ComponentInstance,
    ComponentError,
>>(
    factory: F,
    defs: Seq<ComponentDefinition>,
    b: ComponentContainer,
    c: ComponentContainer,
    k: u64,
)
    requires
        factory_created(factory, defs, b, k),
        ComponentContainer::store_extends(b, c),
    ensures
        factory_created(factory, defs, c, k),
{
    let (deps, inst) = choose|deps: Vec<(u64, ComponentInstance)>, inst: ComponentInstance|
        call_ensures(factory, (k, deps), Result::<ComponentInstance, ComponentError>::Ok(inst))
            && (is_singleton(defs, k) ==> b.store_dom().contains(k) && b.store_at(k) == inst);
    assert(call_ensures(factory, (k, deps), Result::<ComponentInstance, ComponentError>::Ok(
        inst,
    )) && (is_singleton(defs, k) ==> c.store_dom().contains(k) && c.store_at(k) == inst));
}

/// Factory-accounted creation composes across resolution steps.
proof fn lemma_creations_concat<F: Fn(u64, Vec<(u64, ComponentInstance)>) -> Result<
    ComponentInstance,
    ComponentError,
>>(factory: F, a: ComponentContainer, b: ComponentContainer, c: ComponentContainer)
    requires
        resolution_extends(a, b),
        resolution_extends(b, c),
        creations_from_factory(factory, a, b),
        creations_from_factory(factory, b, c),
    ensures
        creations_from_factory(factory, a, c),
{
    lemma_resolution_extends_trans(a, b, c);
    let s1 = created_since(a, b);
    let s2 = created_since(b, c);
    let s = created_since(a, c);
    assert(s == s1 + s2);
    assert forall|j: int| 0 <= j < s.len() implies factory_created(
        factory,
        a.defs(),
        c,
        #[trigger] s[j],
    ) by {
        if j < s1.len() {
            assert(s[j] == s1[j]);
            assert(factory_created(factory, a.defs(), b, s1[j]));
            lemma_factory_created_persists(factory, a.defs(), b, c, s1[j]);
        } else {
            assert(s[j] == s2[j - s1.len()]);
            assert(factory_created(factory, b.defs(), c, s2[j - s1.len()]));
        }
    }
}

/// No member of a dependency cycle that starts outside the store can occur
/// among created keys up to position `p`, when creations respect
/// dependencies: its dependency on the next cycle member would have had to
/// be created still earlier.
proof fn lemma_cycle_member_never_created(
    defs: Seq<ComponentDefinition>,
    base: Set<u64>,
    created: Seq<u64>,
    c: Seq<u64>,
    p: int,
)
    requires
        log_respects_deps(defs, base, created),
        is_dep_cycle(defs, c),
        forall|i: int| 0 <= i < c.len() ==> !base.contains(#[trigger] c[i]),
        0 <= p,
    ensures
        forall|i: int, pos: int|
            0 <= i < c.len() && 0 <= pos <= p && pos < created.len() ==> created[pos] != c[i],
    decreases p,
{
    if p > 0 {
        lemma_cycle_member_never_created(defs, base, created, c, p - 1);
    }
    assert forall|i: int, pos: int|
        0 <= i < c.len() && 0 <= pos <= p && pos < created.len() implies created[pos] != c[i] by {
        if pos == p && created[pos] == c[i] {
            let nxt_i = if i == c.len() - 1 {
                0
            } else {
                i + 1
            };
            let nxt = c[nxt_i];
            assert(dep_edge(defs, c[i], nxt));
            assert(def_at(defs, created[pos]).dependencies@.contains(nxt));
            assert(!base.contains(nxt));
            let j = choose|j: int| 0 <= j < pos && created[j] == nxt;
            assert(created[j] != c[nxt_i]);
        }
    }
}

/// A creation order that respects dependencies never covers a dependency
/// cycle none of whose members was already stored: some member stays
/// uncreated. Together with the postconditions of
/// [`ComponentContainer::initialize`] — on success, every definition's key
/// was already stored or appears among the created keys, and the created
/// keys respect dependencies — this says that a container whose
/// definitions contain a cycle of fresh components cannot initialize
/// successfully; with the error clauses it fails with a
/// circular-dependency error whenever every dependency is defined and the
/// factory itself succeeds.
pub proof fn lemma_cycle_blocks_resolution(
    defs: Seq<ComponentDefinition>,
    base: Set<u64>,
    created: Seq<u64>,
    c: Seq<u64>,
)
    requires
        log_respects_deps(defs, base, created),
        is_dep_cycle(defs, c),
        forall|i: int| 0 <= i < c.len() ==> !base.contains(#[trigger] c[i]),
    ensures
        exists|i: int| 0 <= i < c.len() && !created.contains(#[trigger] c[i]),
{
    if forall|i: int| 0 <= i < c.len() ==> created.contains(#[trigger] c[i]) {
        assert(created.contains(c[0]));
        let pos = choose|pos: int| 0 <= pos < created.len() && created[pos] == c[0];
        lemma_cycle_member_never_created(defs, base, created, c, pos);
        assert(created[pos] != c[0]);
    }
}

/// A duplicate-free sequence of keys that all have definitions is no longer
/// than the definition list.
pub proof fn lemma_defined_keys_bound(defs: Seq<ComponentDefinition>, s: Seq<u64>)
    requires
        s.no_duplicates(),
        forall|i: int| 0 <= i < s.len() ==> has_def(defs, #[trigger] s[i]),
    ensures
        s.len() <= defs.len(),
{
    broadcast use vstd::seq_lib::seq_to_set_is_finite;

    let keys = defs.map_values(|d: ComponentDefinition| d.type_key);
    s.unique_seq_to_set();
    assert forall|k: u64| s.to_set().contains(k) implies keys.to_set().contains(k) by {
        assert(s.contains(k));
        let i = choose|i: int| 0 <= i < s.len() && s[i] == k;
        assert(has_def(defs, k));
        let j = choose|j: int| 0 <= j < defs.len() && defs[j].type_key == k;
        assert(keys[j] == k);
        assert(keys.contains(k));
    }
    vstd::set_lib::lemma_len_subset(s.to_set(), keys.to_set());
    keys.lemma_cardinality_of_set();
}

impl ComponentContainer {
    /// Looks up the definition registered under a type key.
    fn find_def(&self, key: u64) -> (r: Option<&ComponentDefinition>)
        requires
            distinct_def_keys(self.defs()),
        ensures
            match r {
                Some(d) => has_def(self.defs(), key) && *d == def_at(self.defs(), key),
                None => !has_def(self.defs(), key),
            },
    {
        let n = self.definitions.len();
        let mut i: usize = 0;
        while i < n
            invariant
                n == self.definitions.len(),
                i <= n,
                distinct_def_keys(self.defs()),
                forall|j: int| 0 <= j < i ==> self.defs()[j].type_key != key,
            decreases n - i,
        {
            if self.definitions[i].type_key == key {
                proof {
                    assert(has_def(self.defs(), key));
                    let j = choose|j: int|
                        0 <= j < self.defs().len() && self.defs()[j].type_key == key;
                    assert(j == i);
                }
                return Some(&self.definitions[i]);
            }
            i += 1;
        }
        None
    }

    /// Records creation statistics for a type key, replacing any earlier
    /// entry for that key.
    fn stats_set(&mut self, key: u64, stat: ComponentStats)
        ensures
            final(self).stats_keys().contains(key),
            final(self).definitions == old(self).definitions,
            final(self).slots == old(self).slots,
            final(self).index == old(self).index,
            final(self).initializing == old(self).initializing,
            final(self).lifecycle == old(self).lifecycle,
    {
        let ghost entry = *self;
        let n = self.stats.len();
        let mut i: usize = 0;
        while i < n
            invariant
                *self == entry,
                entry == *old(self),
                n == self.stats.len(),
                i <= n,
            decreases n - i,
        {
            if self.stats[i].0 == key {
                self.stats[i] = (key, stat);
                proof {
                    assert(self.stats_keys()[i as int] == key);
                }
                return ;
            }
            i += 1;
        }
        self.stats.push((key, stat));
        proof {
            assert(self.stats_keys()[n as int] == key);
        }
    }

    /// Resolves one component: detects cycles through the in-flight list,
    /// resolves declared dependencies depth-first, invokes the factory,
    /// records the creation event and statistics, and stores the instance
    /// if its scope is singleton.
    #[verifier::rlimit(100)]
    #[verifier::loop_isolation(false)]
    fn resolve_bean<F: Fn(u64, Vec<(u64, ComponentInstance)>) -> Result<
        ComponentInstance,
        ComponentError,
    >>(&mut self, key: u64, factory: &F) -> (r: Result<ComponentInstance, ContainerError>)
        requires
            old(self).wf_core(),
            forall|args: (u64, Vec<(u64, ComponentInstance)>)| call_requires(*factory, args),
            has_def(old(self).defs(), key),
            !old(self).store_dom().contains(key),
            old(self).resolving().no_duplicates(),
            forall|i: int|
                0 <= i < old(self).resolving().len() ==> has_def(
                    old(self).defs(),
                    #[trigger] old(self).resolving()[i],
                ),
            forall|i: int|
                0 <= i < old(self).resolving().len() - 1 ==> dep_edge(
                    old(self).defs(),
                    #[trigger] old(self).resolving()[i],
                    old(self).resolving()[i + 1],
                ),
            old(self).resolving().len() > 0 ==> dep_edge(
                old(self).defs(),
                old(self).resolving().last(),
                key,
            ),
        ensures
            resolution_extends(*old(self), *final(self)),
            creations_from_factory(*factory, *old(self), *final(self)),
            final(self).resolving() == old(self).resolving(),
            forall|k: u64|
                old(self).resolving().contains(k) ==> !created_since(
                    *old(self),
                    *final(self),
                ).contains(k),
            r matches Ok(inst) ==> {
                &&& created_since(*old(self), *final(self)).len() > 0
                &&& created_since(*old(self), *final(self)).last() == key
                &&& exists|deps: Vec<(u64, ComponentInstance)>|
                    {
                        &&& deps@.len() == def_at(old(self).defs(), key).dependencies@.len()
                        &&& (forall|i: int|
                            0 <= i < deps@.len() ==> (#[trigger] deps@[i]).0 == def_at(
                                old(self).defs(),
                                key,
                            ).dependencies@[i])
                        &&& (forall|i: int|
                            0 <= i < deps@.len() ==> is_singleton(
                                old(self).defs(),
                                (#[trigger] deps@[i]).0,
                            ) ==> final(self).store_dom().contains(deps@[i].0) && deps@[i].1
                                == final(self).store_at(deps@[i].0))
                        &&& call_ensures(
                            *factory,
                            (key, deps),
                            Result::<ComponentInstance, ComponentError>::Ok(inst),
                        )
                    }
                &&& is_singleton(old(self).defs(), key) ==> final(self).store_dom().contains(key)
                    && final(self).store_at(key) == inst
            },
            r is Err ==> !created_since(*old(self), *final(self)).contains(key)
                && !(final(self).store_dom().contains(key)),
            r matches Err(e) ==> {
                &&& (e.kind == ContainerErrorKind::CircularDependency || e.kind
                    == ContainerErrorKind::NotFound || e.kind == ContainerErrorKind::CreationFailed)
                &&& e.kind == ContainerErrorKind::CircularDependency ==> exists|
                    c: Seq<u64>,
                    i: int,
                |
                    is_dep_cycle(old(self).defs(), c) && 0 <= i < c.len() && e.message@ == def_at(
                        old(self).defs(),
                        c[i],
                    ).display_name@
                &&& e.kind == ContainerErrorKind::NotFound ==> exists|a: u64, b: u64|
                    dep_edge(old(self).defs(), a, b) && !has_def(old(self).defs(), b)
                        && !(final(self).store_dom().contains(b))
                &&& e.kind == ContainerErrorKind::CreationFailed ==> exists|
                    k2: u64,
                    deps2: Vec<(u64, ComponentInstance)>,
                    ce2: ComponentError,
                |
                    {
                        &&& has_def(old(self).defs(), k2)
                        &&& call_ensures(
                            *factory,
                            (k2, deps2),
                            Result::<ComponentInstance, ComponentError>::Err(ce2),
                        )
                        &&& e.message@ == "Failed to create bean '"@ + def_at(
                            old(self).defs(),
                            k2,
                        ).display_name@ + "': '"@ + ce2.spec_describe() + "'"@
                    }
            },
        decreases old(self).defs().len() - old(self).resolving().len(),
    {
        let ghost entry = *old(self);
        let ghost defs = entry.defs();
        // cycle detection against the in-flight list
        let rl = self.initializing.len();
        let mut ci: usize = 0;
        while ci < rl
            invariant
                *self == entry,
                entry == *old(self),
                defs == entry.defs(),
                rl == self.initializing.len(),
                ci <= rl,
                forall|j: int| 0 <= j < ci ==> entry.resolving()[j] != key,
            decreases rl - ci,
        {
            if self.initializing[ci] == key {
                proof {
                    let c = entry.resolving().skip(ci as int);
                    assert(c[0] == key);
                    assert(c.len() > 0);
                    assert forall|i: int| 0 <= i < c.len() - 1 implies dep_edge(
                        defs,
                        #[trigger] c[i],
                        c[i + 1],
                    ) by {
                        assert(c[i] == entry.resolving()[ci + i]);
                        assert(c[i + 1] == entry.resolving()[ci + i + 1]);
                    }
                    assert(c[c.len() - 1] == entry.resolving().last());
                    assert(dep_edge(defs, c[c.len() - 1], c[0]));
                    assert(is_dep_cycle(defs, c));
                    lemma_resolution_extends_refl(entry);
                    assert(created_since(entry, entry) =~= Seq::<u64>::empty());
                }
                let ghost cycle = entry.resolving().skip(ci as int);
                let name = match self.find_def(key) {
                    Some(d) => d.display_name.clone(),
                    None => {
                        proof {
                            assert(false);
                        }
                        String::new()
                    },
                };
                proof {
                    assert(cycle[0] == key);
                    assert(name@ == def_at(defs, cycle[0]).display_name@);
                }
                return Err(ContainerError::circular_dependency(name.as_str()));
            }
            ci += 1;
        }
        proof {
            assert(!entry.resolving().contains(key));
        }
        // mark this key as in flight
        self.initializing.push(key);
        let ghost marked = *self;
        proof {
            assert(marked.resolving() =~= entry.resolving().push(key));
            assert forall|a: int, b: int|
                0 <= a < b < marked.resolving().len() implies marked.resolving()[a]
                != marked.resolving()[b] by {
                if b == marked.resolving().len() - 1 {
                    assert(entry.resolving()[a] != key);
                }
            }
            assert(marked.resolving().no_duplicates());
            lemma_resolution_extends_refl(entry);
            assert(created_since(entry, entry) =~= Seq::<u64>::empty());
        }
        let (name, scope, dep_keys) = match self.find_def(key) {
            Some(d) => (d.display_name.clone(), d.scope, copy_keys(&d.dependencies)),
            None => {
                proof {
                    assert(false);
                }
                (String::new(), ComponentScope::Prototype, Vec::new())
            },
        };
        let ghost def = def_at(defs, key);
        // resolve the declared dependencies, in order
        let mut collected: Vec<(u64, ComponentInstance)> = Vec::new();
        let dn = dep_keys.len();
        let mut di: usize = 0;
        while di < dn
            invariant
                forall|args: (u64, Vec<(u64, ComponentInstance)>)| call_requires(*factory, args),
                entry == *old(self),
                dn == dep_keys.len(),
                di <= dn,
                dep_keys@ == def.dependencies@,
                def == def_at(defs, key),
                defs == entry.defs(),
                has_def(defs, key),
                entry.wf_core(),
                !entry.store_dom().contains(key),
                entry.resolving().no_duplicates(),
                !entry.resolving().contains(key),
                forall|i: int|
                    0 <= i < entry.resolving().len() ==> has_def(
                        defs,
                        #[trigger] entry.resolving()[i],
                    ),
                forall|i: int|
                    0 <= i < entry.resolving().len() - 1 ==> dep_edge(
                        defs,
                        #[trigger] entry.resolving()[i],
                        entry.resolving()[i + 1],
                    ),
                entry.resolving().len() > 0 ==> dep_edge(defs, entry.resolving().last(), key),
                resolution_extends(entry, *self),
                creations_from_factory(*factory, entry, *self),
                self.resolving() == entry.resolving().push(key),
                !self.store_dom().contains(key),
                forall|k: u64|
                    entry.resolving().push(key).contains(k) ==> !created_since(
                        entry,
                        *self,
                    ).contains(k),
                forall|i: int|
                    0 <= i < di ==> entry.store_dom().contains(#[trigger] dep_keys@[i])
                        || created_since(entry, *self).contains(dep_keys@[i]),
                collected@.len() == di,
                forall|i: int| 0 <= i < di ==> (#[trigger] collected@[i]).0 == dep_keys@[i],
                forall|i: int|
                    0 <= i < di ==> is_singleton(defs, (#[trigger] collected@[i]).0) ==> self
                        .store_dom().contains(collected@[i].0) && collected@[i].1 == self.store_at(
                        collected@[i].0,
                    ),
            decreases dn - di,
        {
            let ghost mid = *self;
            let dep = dep_keys[di];
            proof {
                assert(def.dependencies@.contains(dep));
                assert(dep_edge(defs, key, dep));
            }
            match self.lookup_by_type_key(dep) {
                Some(inst) => {
                    let ghost coll_before = collected@;
                    collected.push((dep, inst));
                    proof {
                        assert(collected@.drop_last() =~= coll_before);
                        assert(collected@.last() == (dep, inst));
                    }
                },
                None => {
                    match self.find_def(dep) {
                        Some(_) => {
                            proof {
                                assert(self.resolving() == entry.resolving().push(key));
                                assert forall|a: int|
                                    0 <= a < self.resolving().len() implies has_def(
                                    defs,
                                    #[trigger] self.resolving()[a],
                                ) by {
                                    if a < entry.resolving().len() {
                                        assert(self.resolving()[a] == entry.resolving()[a]);
                                    } else {
                                        assert(self.resolving()[a] == key);
                                    }
                                }
                                assert forall|a: int, b: int|
                                    0 <= a < b < self.resolving().len() implies self.resolving()[a]
                                    != self.resolving()[b] by {
                                    if b == self.resolving().len() - 1 {
                                        assert(entry.resolving()[a] != key);
                                    }
                                }
                                assert(self.resolving().no_duplicates());
                                lemma_defined_keys_bound(defs, self.resolving());
                                assert forall|a: int|
                                    0 <= a < self.resolving().len() - 1 implies dep_edge(
                                    defs,
                                    #[trigger] self.resolving()[a],
                                    self.resolving()[a + 1],
                                ) by {
                                    if a + 1 < entry.resolving().len() {
                                        assert(self.resolving()[a] == entry.resolving()[a]);
                                        assert(self.resolving()[a + 1] == entry.resolving()[a + 1]);
                                    } else {
                                        assert(self.resolving()[a] == entry.resolving().last());
                                        assert(self.resolving()[a + 1] == key);
                                    }
                                }
                                assert(self.resolving().last() == key);
                                assert(dep_edge(defs, key, dep));
                            }
                            let sub = self.resolve_bean(dep, factory);
                            proof {
                                lemma_creations_concat(*factory, entry, mid, *self);
                                lemma_resolution_extends_trans(entry, mid, *self);
                            }
                            match sub {
                                Ok(inst) => {
                                    proof {
                                        // the dependency was just created
                                        let s1 = created_since(entry, mid);
                                        let smid = created_since(mid, *self);
                                        let s = created_since(entry, *self);
                                        assert(smid.len() > 0 && smid.last() == dep);
                                        assert(s == s1 + smid);
                                        assert(s[s.len() - 1] == dep);
                                        assert(s.contains(dep));
                                        // keys already in flight were not created
                                        assert forall|k2: u64|
                                            entry.resolving().push(key).contains(
                                                k2,
                                            ) implies !s.contains(k2) by {
                                            if s.contains(k2) {
                                                let i = choose|i: int|
                                                    0 <= i < s.len() && s[i] == k2;
                                                if i < s1.len() {
                                                    assert(s1[i] == k2);
                                                    assert(s1.contains(k2));
                                                } else {
                                                    assert(smid[i - s1.len()] == k2);
                                                    assert(smid.contains(k2));
                                                    assert(mid.resolving().contains(k2));
                                                }
                                            }
                                        }
                                        // the key being resolved is still absent from the store
                                        assert(!self.store_dom().contains(key)) by {
                                            if self.store_dom().contains(key) {
                                                assert(mid.store_dom().contains(key)
                                                    || created_since(mid, *self).contains(key));
                                                assert(mid.resolving().contains(key));
                                            }
                                        }
                                    }
                                    let ghost coll_before = collected@;
                                    collected.push((dep, inst));
                                    proof {
                                        assert(collected@.drop_last() =~= coll_before);
                                        assert(collected@.last() == (dep, inst));
                                    }
                                },
                                Err(e) => {
                                    proof {
                                        lemma_resolution_extends_trans(entry, mid, *self);
                                    }
                                    let ghost after_sub = *self;
                                    let popped = self.initializing.pop();
                                    proof {
                                        assert(self.resolving() =~= entry.resolving());
                                        assert(self.lifecycle == after_sub.lifecycle);
                                        assert(self.index == after_sub.index);
                                        assert(self.slots == after_sub.slots);
                                        assert(self.definitions == after_sub.definitions);
                                        assert(resolution_extends(entry, *self));
                                        assert(creations_from_factory(*factory, entry, *self));
                                        let s1 = created_since(entry, mid);
                                        let smid = created_since(mid, *self);
                                        let s = created_since(entry, *self);
                                        assert(s == s1 + smid);
                                        assert forall|k2: u64|
                                            entry.resolving().push(key).contains(
                                            k2,
                                        ) implies !s.contains(k2) by {
                                            if s.contains(k2) {
                                                let i = choose|i: int|
                                                    0 <= i < s.len() && s[i] == k2;
                                                if i < s1.len() {
                                                    assert(s1[i] == k2);
                                                    assert(s1.contains(k2));
                                                } else {
                                                    assert(smid[i - s1.len()] == k2);
                                                    assert(smid.contains(k2));
                                                    assert(mid.resolving().contains(k2));
                                                }
                                            }
                                        }
                                        assert(entry.resolving().push(key).contains(key));
                                        assert(!s.contains(key));
                                        assert(!(self.store_dom().contains(key))) by {
                                            if self.store_dom().contains(key) {
                                                assert(entry.store_dom().contains(key)
                                                    || s.contains(key));
                                            }
                                        }
                                    }
                                    return Err(e);
                                },
                            }
                        },
                        None => {
                            let popped = self.initializing.pop();
                            proof {
                                assert(self.resolving() =~= entry.resolving());
                                assert(dep_edge(defs, key, dep) && !has_def(defs, dep)
                                    && !self.store_dom().contains(dep));
                            }
                            return Err(ContainerError::not_found(
                                "no definition is registered for a declared dependency",
                            ));
                        },
                    }
                },
            }
            proof {
                // availability recorded so far persists as the history grows
                assert forall|i: int| 0 <= i < di + 1 implies entry.store_dom().contains(
                    #[trigger] dep_keys@[i],
                ) || created_since(entry, *self).contains(dep_keys@[i]) by {
                    if i < di && !entry.store_dom().contains(dep_keys@[i]) {
                        let smid = created_since(entry, mid);
                        let s = created_since(entry, *self);
                        assert(smid.contains(dep_keys@[i]));
                        let j = choose|j: int| 0 <= j < smid.len() && smid[j] == dep_keys@[i];
                        lemma_resolution_extends_trans(entry, mid, *self);
                        assert(s[j] == dep_keys@[i]);
                    } else {
                        assert(entry.store_dom().contains(dep_keys@[i]) || created_since(
                            entry,
                            *self,
                        ).contains(dep_keys@[i]));
                    }
                }
            }
            di += 1;
        }
        // all dependencies are available: invoke the factory
        let ghost pre_call = *self;
        let ghost cargs = collected;
        let t0 = crate::clock::now_unix_millis();
        let created = factory(key, collected);
        let t1 = crate::clock::now_unix_millis();
        let duration = if t1 >= t0 {
            t1 - t0
        } else {
            0
        };
        match created {
            Ok(inst) => {
                let shared = share_instance(&inst);
                self.lifecycle.publish(
                    ContainerLifecycleEvent::ComponentCreated {
                        component_name: name,
                        component_type_key: key,
                        creation_duration_ms: duration,
                    },
                );
                proof {
                    crate::lifecycle::lemma_created_keys_push(
                        pre_call.events(),
                        ContainerLifecycleEvent::ComponentCreated {
                            component_name: name,
                            component_type_key: key,
                            creation_duration_ms: duration,
                        },
                    );
                    assert(created_keys(self.events()) =~= created_keys(pre_call.events())
                        + seq![key]);
                }
                let popped = self.initializing.pop();
                proof {
                    assert(self.resolving() =~= entry.resolving());
                }
                if scope == ComponentScope::Singleton {
                    self.register_component_by_type_id(key, shared);
                }
                let stat = ComponentStats {
                    created_at: Some(t1),
                    last_accessed: Some(t1),
                    access_count: 1,
                    creation_time: duration,
                };
                self.stats_set(key, stat);
                proof {
                    let s = created_since(entry, *self);
                    let s0 = created_since(entry, pre_call);
                    assert(created_keys(entry.events()).is_prefix_of(
                        created_keys(pre_call.events()),
                    ));
                    assert(self.events() =~= pre_call.events().push(
                        ContainerLifecycleEvent::ComponentCreated {
                            component_name: name,
                            component_type_key: key,
                            creation_duration_ms: duration,
                        },
                    ));
                    assert(entry.events().is_prefix_of(self.events())) by {
                        assert(pre_call.events().subrange(0, entry.events().len() as int)
                            =~= entry.events());
                        assert(self.events().subrange(0, entry.events().len() as int)
                            =~= entry.events()) by {
                            assert forall|k: int| 0 <= k < entry.events().len() implies self
                                .events()[k] == entry.events()[k] by {
                                assert(pre_call.events()[k] == pre_call.events().subrange(
                                    0,
                                    entry.events().len() as int,
                                )[k]);
                            }
                        }
                    }
                    assert(s =~= s0 + seq![key]);
                    assert(s.last() == key);
                    // the new entry respects dependencies
                    assert forall|i: int| 0 <= i < s.len() implies has_def(
                        defs,
                        #[trigger] s[i],
                    ) && (forall|d: u64|
                        def_at(defs, s[i]).dependencies@.contains(d) ==> entry.store_dom().contains(
                            d,
                        ) || (exists|j: int| 0 <= j < i && s[j] == d)) by {
                        if i < s0.len() {
                            assert(s[i] == s0[i]);
                            assert forall|d: u64|
                                def_at(defs, s[i]).dependencies@.contains(d) implies entry
                                .store_dom().contains(d) || (exists|j: int|
                                0 <= j < i && s[j] == d) by {
                                if !entry.store_dom().contains(d) {
                                    let j = choose|j: int| 0 <= j < i && s0[j] == d;
                                    assert(s[j] == d);
                                }
                            }
                        } else {
                            assert(s[i] == key);
                            assert forall|d: u64|
                                def_at(defs, s[i]).dependencies@.contains(d) implies entry
                                .store_dom().contains(d) || (exists|j: int|
                                0 <= j < i && s[j] == d) by {
                                if !entry.store_dom().contains(d) {
                                    let jj = choose|jj: int|
                                        0 <= jj < dep_keys@.len() && dep_keys@[jj] == d;
                                    assert(s0.contains(d));
                                    let j = choose|j: int| 0 <= j < s0.len() && s0[j] == d;
                                    assert(s[j] == d);
                                }
                            }
                        }
                    }
                    // singleton uniqueness extends to the new entry
                    assert forall|i: int, j: int|
                        0 <= i < j < s.len() && is_singleton(defs, #[trigger] s[i]) implies s[i]
                        != #[trigger] s[j] by {
                        if j == s.len() - 1 {
                            assert(s[j] == key);
                            assert(s[i] == s0[i]);
                            if s0[i] == key {
                                assert(s0.contains(key));
                            }
                        } else {
                            assert(s[i] == s0[i]);
                            assert(s[j] == s0[j]);
                        }
                    }
                    assert forall|k2: u64|
                        #[trigger] s.contains(k2) && is_singleton(defs, k2) implies !entry
                        .store_dom().contains(k2) && self.store_dom().contains(k2) by {
                        let i = choose|i: int| 0 <= i < s.len() && s[i] == k2;
                        if i < s0.len() {
                            assert(s0[i] == k2);
                            assert(s0.contains(k2));
                            assert(pre_call.store_dom().contains(k2));
                        } else {
                            assert(k2 == key);
                        }
                    }
                    assert forall|k2: u64| #[trigger] self.store_dom().contains(k2) implies entry
                        .store_dom().contains(k2) || s.contains(k2) by {
                        if !entry.store_dom().contains(k2) {
                            if k2 == key {
                                assert(s[s.len() - 1] == key);
                            } else {
                                assert(pre_call.store_dom().contains(k2));
                                assert(s0.contains(k2));
                                let i = choose|i: int| 0 <= i < s0.len() && s0[i] == k2;
                                assert(s[i] == k2);
                            }
                        }
                    }
                    assert forall|k2: u64|
                        entry.resolving().contains(k2) implies !s.contains(k2) by {
                        if s.contains(k2) {
                            let i = choose|i: int| 0 <= i < s.len() && s[i] == k2;
                            if i < s0.len() {
                                assert(s0[i] == k2);
                                assert(s0.contains(k2));
                                assert(entry.resolving().push(key).contains(k2));
                            } else {
                                assert(k2 == key);
                                assert(!entry.resolving().contains(key));
                            }
                        }
                    }
                    assert(resolution_extends(entry, *self));
                    // every created key, the new one included, came out of the factory
                    assert(ComponentContainer::store_extends(pre_call, *self));
                    assert forall|j: int| 0 <= j < s.len() implies factory_created(
                        *factory,
                        defs,
                        *self,
                        #[trigger] s[j],
                    ) by {
                        if j < s0.len() {
                            assert(s[j] == s0[j]);
                            assert(factory_created(*factory, defs, pre_call, s0[j]));
                            lemma_factory_created_persists(*factory, defs, pre_call, *self, s0[j]);
                        } else {
                            assert(s[j] == key);
                            if is_singleton(defs, key) {
                                assert(self.store_dom().contains(key) && self.store_at(key)
                                    == inst);
                            }
                            assert(call_ensures(
                                *factory,
                                (key, cargs),
                                Result::<ComponentInstance, ComponentError>::Ok(inst),
                            ));
                        }
                    }
                    assert(creations_from_factory(*factory, entry, *self));
                }
                Ok(inst)
            },
            Err(ce) => {
                let popped = self.initializing.pop();
                proof {
                    assert(self.resolving() =~= entry.resolving());
                }
                let desc = ce.describe();
                let msg = "Failed to create bean '".to_owned().concat(name.as_str()).concat(
                    "': '",
                ).concat(desc.as_str()).concat("'");
                return Err(ContainerError::creation_failed(msg.as_str()));
            },
        }
    }

    /// Wires the whole object graph: walks the registered definitions in
    /// order, resolves each one whose key is not yet in the store, and
    /// records lifecycle events around the run.
    ///
    /// The factory is called once per created instance with the component's
    /// type key and its resolved dependencies as `(key, instance)` pairs in
    /// declaration order. A definition whose key is already stored (for
    /// example, registered by hand) is never re-created. On an error the
    /// run stops at the first failure; components already stored stay in
    /// the store.
    #[verifier::rlimit(80)]
    #[verifier::loop_isolation(false)]
    pub fn initialize<F: Fn(u64, Vec<(u64, ComponentInstance)>) -> Result<
        ComponentInstance,
        ComponentError,
    >>(&mut self, factory: F) -> (r: Result<(), ContainerError>)
        requires
            old(self).wf(),
            forall|args: (u64, Vec<(u64, ComponentInstance)>)| call_requires(factory, args),
        ensures
            final(self).wf(),
            resolution_extends(*old(self), *final(self)),
            creations_from_factory(factory, *old(self), *final(self)),
            old(self).events().len() < final(self).events().len(),
            (final(self).events()[old(self).events().len() as int]
                matches ContainerLifecycleEvent::InitializationStarted { component_count }
                && component_count == old(self).defs().len()),
            r matches Ok(_) ==> (final(self).events().last()
                matches ContainerLifecycleEvent::InitializationCompleted { component_count, .. }
                && component_count == final(self).store_dom().len()),
            r matches Ok(_) ==> forall|i: int|
                0 <= i < old(self).defs().len() ==> {
                    &&& old(self).store_dom().contains(#[trigger] old(self).defs()[i].type_key)
                        || created_since(*old(self), *final(self)).contains(
                        old(self).defs()[i].type_key,
                    )
                    &&& old(self).defs()[i].scope == ComponentScope::Singleton
                        ==> (final(self).store_dom().contains(old(self).defs()[i].type_key))
                },
            r matches Err(e) ==> {
                &&& (e.kind == ContainerErrorKind::CircularDependency || e.kind
                    == ContainerErrorKind::NotFound || e.kind == ContainerErrorKind::CreationFailed)
                &&& e.kind == ContainerErrorKind::CircularDependency ==> exists|
                    c: Seq<u64>,
                    i: int,
                |
                    is_dep_cycle(old(self).defs(), c) && 0 <= i < c.len() && e.message@ == def_at(
                        old(self).defs(),
                        c[i],
                    ).display_name@
                &&& e.kind == ContainerErrorKind::NotFound ==> exists|a: u64, b: u64|
                    dep_edge(old(self).defs(), a, b) && !has_def(old(self).defs(), b)
                        && !(final(self).store_dom().contains(b))
                &&& e.kind == ContainerErrorKind::CreationFailed ==> exists|
                    k2: u64,
                    deps2: Vec<(u64, ComponentInstance)>,
                    ce2: ComponentError,
                |
                    {
                        &&& has_def(old(self).defs(), k2)
                        &&& call_ensures(
                            factory,
                            (k2, deps2),
                            Result::<ComponentInstance, ComponentError>::Err(ce2),
                        )
                        &&& e.message@ == "Failed to create bean '"@ + def_at(
                            old(self).defs(),
                            k2,
                        ).display_name@ + "': '"@ + ce2.spec_describe() + "'"@
                    }
            },
            ((forall|c: Seq<u64>| !is_dep_cycle(old(self).defs(), c)) && (forall|a: u64, b: u64|
                dep_edge(old(self).defs(), a, b) ==> has_def(old(self).defs(), b) || old(
                    self,
                ).store_dom().contains(b)) && (forall|
                args: (u64, Vec<(u64, ComponentInstance)>),
                out: Result<ComponentInstance, ComponentError>,
            |
                call_ensures(factory, args, out) ==> out is Ok)) ==> r is Ok,
    {
        let ghost entry = *old(self);
        let ghost defs = entry.defs();
        let count = self.definitions.len();
        let t0 = crate::clock::now_unix_millis();
        self.lifecycle.publish(
            ContainerLifecycleEvent::InitializationStarted { component_count: count },
        );
        proof {
            crate::lifecycle::lemma_created_keys_push(
                entry.events(),
                ContainerLifecycleEvent::InitializationStarted { component_count: count },
            );
            assert(created_keys(self.events()) =~= created_keys(entry.events()));
            assert(created_keys(entry.events()).is_prefix_of(created_keys(self.events()))) by {
                assert(created_keys(self.events()).subrange(
                    0,
                    created_keys(entry.events()).len() as int,
                ) =~= created_keys(entry.events()));
            }
            assert(entry.events().is_prefix_of(self.events())) by {
                assert(self.events().subrange(0, entry.events().len() as int) =~= entry.events());
            }
            assert(created_since(entry, *self) =~= Seq::<u64>::empty());
            assert(resolution_extends(entry, *self));
            assert(creations_from_factory(factory, entry, *self));
        }
        let mut i: usize = 0;
        while i < count
            invariant
                count == self.definitions.len(),
                i <= count,
                self.resolving().len() == 0,
                resolution_extends(entry, *self),
                creations_from_factory(factory, entry, *self),
                entry.events().len() < self.events().len(),
                count == defs.len(),
                self.events()[entry.events().len() as int]
                    == (ContainerLifecycleEvent::InitializationStarted { component_count: count }),
                forall|j: int|
                    0 <= j < i ==> {
                        &&& entry.store_dom().contains(#[trigger] defs[j].type_key)
                            || created_since(entry, *self).contains(defs[j].type_key)
                        &&& defs[j].scope == ComponentScope::Singleton ==> self.store_dom()
                            .contains(defs[j].type_key)
                    },
            decreases count - i,
        {
            let ghost mid = *self;
            let def_key = self.definitions[i].type_key;
            proof {
                assert(defs[i as int].type_key == def_key);
                assert(has_def(defs, def_key));
            }
            if !dash_contains(&self.index, def_key) {
                match self.resolve_bean(def_key, &factory) {
                    Ok(_inst) => {
                        proof {
                            lemma_creations_concat(factory, entry, mid, *self);
                            lemma_resolution_extends_trans(entry, mid, *self);
                            let s1 = created_since(entry, mid);
                            let s2 = created_since(mid, *self);
                            let s = created_since(entry, *self);
                            assert(s == s1 + s2);
                            assert(s2.len() > 0 && s2.last() == def_key);
                            assert(s[s.len() - 1] == def_key);
                            assert(s.contains(def_key));
                            if def_at(defs, def_key).scope == ComponentScope::Singleton {
                                assert(is_singleton(defs, def_key));
                                assert(self.store_dom().contains(def_key));
                            }
                            assert forall|j: int| 0 <= j < i + 1 implies {
                                &&& entry.store_dom().contains(#[trigger] defs[j].type_key)
                                    || created_since(entry, *self).contains(defs[j].type_key)
                                &&& defs[j].scope == ComponentScope::Singleton ==> self
                                    .store_dom().contains(defs[j].type_key)
                            } by {
                                if j < i {
                                    if !entry.store_dom().contains(defs[j].type_key) {
                                        assert(s1.contains(defs[j].type_key));
                                        let jj = choose|jj: int|
                                            0 <= jj < s1.len() && s1[jj] == defs[j].type_key;
                                        assert(s[jj] == defs[j].type_key);
                                    }
                                } else {
                                    assert(defs[j].type_key == def_key);
                                    if defs[j].scope == ComponentScope::Singleton {
                                        let jd = choose|jd: int|
                                            0 <= jd < defs.len() && defs[jd].type_key == def_key;
                                        assert(defs[jd] == def_at(defs, def_key));
                                        assert(defs[jd].scope == defs[j].scope) by {
                                            if jd != j {
                                                assert(distinct_def_keys(defs));
                                            }
                                        }
                                    }
                                }
                            }
                        }
                    },
                    Err(e) => {
                        proof {
                            lemma_creations_concat(factory, entry, mid, *self);
                            lemma_resolution_extends_trans(entry, mid, *self);
                        }
                        return Err(e);
                    },
                }
            } else {
                proof {
                    assert(self.store_dom().contains(def_key));
                    if def_at(defs, def_key).scope == ComponentScope::Singleton {
                    }
                    assert forall|j: int| 0 <= j < i + 1 implies {
                        &&& entry.store_dom().contains(#[trigger] defs[j].type_key)
                            || created_since(entry, *self).contains(defs[j].type_key)
                        &&& defs[j].scope == ComponentScope::Singleton ==> self.store_dom()
                            .contains(defs[j].type_key)
                    } by {
                        if j == i {
                            assert(self.store_dom().contains(defs[j].type_key));
                            assert(entry.store_dom().contains(defs[j].type_key) || created_since(
                                entry,
                                *self,
                            ).contains(defs[j].type_key));
                        }
                    }
                }
            }
            i += 1;
        }
        let stored = dash_len(&self.index);
        let t1 = crate::clock::now_unix_millis();
        let duration = if t1 >= t0 {
            t1 - t0
        } else {
            0
        };
        let ghost before_done = *self;
        self.lifecycle.publish(
            ContainerLifecycleEvent::InitializationCompleted {
                component_count: stored,
                duration_ms: duration,
            },
        );
        proof {
            crate::lifecycle::lemma_created_keys_push(
                before_done.events(),
                ContainerLifecycleEvent::InitializationCompleted {
                    component_count: stored,
                    duration_ms: duration,
                },
            );
            assert(self.index == before_done.index);
            assert(self.slots == before_done.slots);
            assert(self.definitions == before_done.definitions);
            assert(created_keys(self.events()) =~= created_keys(before_done.events()));
            assert(created_since(entry, *self) =~= created_since(entry, before_done));
            assert(created_since(entry, *self) == created_since(entry, before_done));
            assert(created_keys(entry.events()).is_prefix_of(created_keys(self.events()))) by {
                assert(created_keys(self.events()).subrange(
                    0,
                    created_keys(entry.events()).len() as int,
                ) =~= created_keys(before_done.events()).subrange(
                    0,
                    created_keys(entry.events()).len() as int,
                ));
            }
            assert(entry.events().is_prefix_of(self.events())) by {
                assert(before_done.events().subrange(0, entry.events().len() as int)
                    =~= entry.events());
                assert(self.events().subrange(0, entry.events().len() as int) =~= entry.events())
                    by {
                    assert forall|k: int| 0 <= k < entry.events().len() implies self.events()[k]
                        == entry.events()[k] by {
                        assert(before_done.events()[k] == before_done.events().subrange(
                            0,
                            entry.events().len() as int,
                        )[k]);
                    }
                }
            }
            assert forall|k: u64| #[trigger] self.store_dom().contains(k) implies entry
                .store_dom().contains(k) || created_since(entry, *self).contains(k) by {
                assert(before_done.store_dom().contains(k));
            }
            assert forall|k: u64|
                #[trigger] self.store_dom().contains(k) && !entry.store_dom().contains(
                k,
            ) implies is_singleton(defs, k) by {
                assert(before_done.store_dom().contains(k));
            }
            assert(resolution_extends(entry, *self));
            assert(ComponentContainer::store_extends(before_done, *self));
            assert forall|j: int|
                0 <= j < created_since(entry, *self).len() implies factory_created(
                factory,
                entry.defs(),
                *self,
                #[trigger] created_since(entry, *self)[j],
            ) by {
                assert(created_since(entry, before_done)[j] == created_since(entry, *self)[j]);
                assert(factory_created(
                    factory,
                    entry.defs(),
                    before_done,
                    created_since(entry, before_done)[j],
                ));
                lemma_factory_created_persists(
                    factory,
                    entry.defs(),
                    before_done,
                    *self,
                    created_since(entry, *self)[j],
                );
            }
            assert(creations_from_factory(factory, entry, *self));
            assert(self.events() == before_done.events().push(
                ContainerLifecycleEvent::InitializationCompleted {
                    component_count: stored,
                    duration_ms: duration,
                },
            ));
            assert(self.events().last() == ContainerLifecycleEvent::InitializationCompleted {
                component_count: stored,
                duration_ms: duration,
            });
            assert(stored == self.store_dom().len());
            assert(self.events()[entry.events().len() as int] == before_done.events()[
                entry.events().len() as int]);
        }
        Ok(())
    }
}

/// Copies a list of type keys.
fn copy_keys(v: &Vec<u64>) -> (r: Vec<u64>)
    ensures
        r@ == v@,
{
    let n = v.len();
    let mut r: Vec<u64> = Vec::new();
    let mut i: usize = 0;
    while i < n
        invariant
            n == v.len(),
            i <= n,
            r@ == v@.subrange(0, i as int),
        decreases n - i,
    {
        r.push(v[i]);
        proof {
            assert(r@ =~= v@.subrange(0, i + 1));
        }
        i += 1;
    }
    proof {
        assert(v@.subrange(0, n as int) =~= v@);
    }
    r
}

impl ComponentFactory for ComponentContainer {
    fn get_component_by_type_id(&self, type_key: u64) -> Option<ComponentInstance> {
        match dash_get(&self.index, type_key) {
            Some(slot) => {
                if (slot as usize) < self.slots.len() {
                    Some(share_instance(&self.slots[slot as usize]))
                } else {
                    None
                }
            },
            None => None,
        }
    }

    fn get_component(&self, type_key: u64) -> Option<ComponentInstance> {
        match self.get_component_by_type_id(type_key) {
            Some(instance) => {
                if instance.type_key == type_key {
                    Some(instance)
                } else {
                    None
                }
            },
            None => None,
        }
    }
}

} // verus!

