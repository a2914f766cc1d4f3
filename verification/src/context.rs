//! The application context: the configuration manager, the component
//! container and the event system behind one facade, with a builder for
//! assembling sources, profiles and properties.

use vstd::prelude::*;
use vstd::string::StringExecFns;
use crate::component::ComponentInstance;
use crate::config::{ConfigManager, ConfigSource, source_entries};
use crate::config_value::{ConfigData, ConfigValue, data_scalar_text};
use crate::container::{ComponentContainer, resolution_extends, created_since, creations_from_factory, is_dep_cycle, dep_edge, has_def};
use crate::component::ComponentScope;
use crate::errors::{ComponentError, ContextError, ContextResult};
use crate::event::{
    ConfigurationChangedEvent, ContextEventRecord, ContextInitializedEvent,
    ContextInitializingEvent, Event, EventPublisher, ProfileActivatedEvent, ids_for,
};
use crate::profile::{Profile, has_profile, distinct_profile_names, profile_at};
use crate::strutil::kv_view;

verus! {

/// The active names after activating a list of names in order, appending
/// each name not already active.
pub open spec fn appended_actives(acc: Seq<Seq<char>>, names: Seq<Seq<char>>) -> Seq<Seq<char>>
    decreases names.len(),
{
    if names.len() == 0 {
        acc
    } else {
        appended_actives(
            if acc.contains(names[0]) {
                acc
            } else {
                acc.push(names[0])
            },
            names.drop_first(),
        )
    }
}

/// A fluent builder for an [`ApplicationContext`]: configuration sources,
/// profiles, names of profiles to activate, and single properties.
#[derive(Debug)]
pub struct ApplicationContextBuilder {
    /// The configuration sources, in registration order.
    config_sources: Vec<ConfigSource>,
    /// The names of the profiles to activate, in activation order.
    active_profiles: Vec<String>,
    /// The profiles to register, in registration order.
    profiles: Vec<Profile>,
    /// Single properties, gathered into one in-memory source.
    properties: Vec<(String, String)>,
}

impl ApplicationContextBuilder {
    /// The gathered sources.
    pub closed spec fn spec_sources(self) -> Seq<ConfigSource> {
        self.config_sources@
    }

    /// The names of the profiles to activate.
    pub closed spec fn spec_active_names(self) -> Seq<Seq<char>> {
        self.active_profiles@.map_values(|s: String| s@)
    }

    /// The profiles to register.
    pub closed spec fn spec_profiles(self) -> Seq<Profile> {
        self.profiles@
    }

    /// The gathered single properties.
    pub closed spec fn spec_properties(self) -> Seq<(Seq<char>, Seq<char>)> {
        kv_view(self.properties@)
    }

    /// Creates an empty builder.
    pub fn new() -> (r: Self)
        ensures
            r.spec_sources().len() == 0,
            r.spec_active_names().len() == 0,
            r.spec_profiles().len() == 0,
            r.spec_properties().len() == 0,
    {
        ApplicationContextBuilder {
            config_sources: Vec::new(),
            active_profiles: Vec::new(),
            profiles: Vec::new(),
            properties: Vec::new(),
        }
    }

    /// Adds a configuration source.
    pub fn with_config_source(self, source: ConfigSource) -> (r: Self)
        ensures
            r.spec_sources() == self.spec_sources().push(source),
            r.spec_active_names() == self.spec_active_names(),
            r.spec_profiles() == self.spec_profiles(),
            r.spec_properties() == self.spec_properties(),
    {
        let mut b = self;
        b.config_sources.push(source);
        b
    }

    /// Adds a TOML file source by path.
    pub fn with_toml_config_file(self, path: &str) -> (r: Self)
        ensures
            r.spec_sources().len() == self.spec_sources().len() + 1,
            r.spec_sources().take(self.spec_sources().len() as int) == self.spec_sources(),
            r.spec_sources().last() matches ConfigSource::TomlFile(p) && p@ == path@,
            r.spec_active_names() == self.spec_active_names(),
            r.spec_profiles() == self.spec_profiles(),
            r.spec_properties() == self.spec_properties(),
    {
        let owned = path.to_owned();
        let r = self.with_config_source(ConfigSource::TomlFile(owned));
        proof {
            assert(r.spec_sources().take(r.spec_sources().len() - 1) =~= self.spec_sources());
        }
        r
    }

    /// Adds a YAML file source by path.
    pub fn with_yaml_config_file(self, path: &str) -> (r: Self)
        ensures
            r.spec_sources().len() == self.spec_sources().len() + 1,
            r.spec_sources().take(self.spec_sources().len() as int) == self.spec_sources(),
            r.spec_sources().last() matches ConfigSource::YamlFile(p) && p@ == path@,
            r.spec_active_names() == self.spec_active_names(),
            r.spec_profiles() == self.spec_profiles(),
            r.spec_properties() == self.spec_properties(),
    {
        let owned = path.to_owned();
        let r = self.with_config_source(ConfigSource::YamlFile(owned));
        proof {
            assert(r.spec_sources().take(r.spec_sources().len() - 1) =~= self.spec_sources());
        }
        r
    }

    /// Adds a properties file source by path.
    pub fn with_properties_config_file(self, path: &str) -> (r: Self)
        ensures
            r.spec_sources().len() == self.spec_sources().len() + 1,
            r.spec_sources().take(self.spec_sources().len() as int) == self.spec_sources(),
            r.spec_sources().last() matches ConfigSource::PropertiesFile(p) && p@ == path@,
            r.spec_active_names() == self.spec_active_names(),
            r.spec_profiles() == self.spec_profiles(),
            r.spec_properties() == self.spec_properties(),
    {
        let owned = path.to_owned();
        let r = self.with_config_source(ConfigSource::PropertiesFile(owned));
        proof {
            assert(r.spec_sources().take(r.spec_sources().len() - 1) =~= self.spec_sources());
        }
        r
    }

    /// Adds a format-detected file source by path.
    pub fn with_config_file(self, path: &str) -> (r: Self)
        ensures
            r.spec_sources().len() == self.spec_sources().len() + 1,
            r.spec_sources().take(self.spec_sources().len() as int) == self.spec_sources(),
            r.spec_sources().last() matches ConfigSource::ConfigFile(p) && p@ == path@,
            r.spec_active_names() == self.spec_active_names(),
            r.spec_profiles() == self.spec_profiles(),
            r.spec_properties() == self.spec_properties(),
    {
        let owned = path.to_owned();
        let r = self.with_config_source(ConfigSource::ConfigFile(owned));
        proof {
            assert(r.spec_sources().take(r.spec_sources().len() - 1) =~= self.spec_sources());
        }
        r
    }

    /// Marks a profile name for activation.
    pub fn with_active_profile(self, profile: &str) -> (r: Self)
        ensures
            r.spec_active_names() == self.spec_active_names().push(profile@),
            r.spec_sources() == self.spec_sources(),
            r.spec_profiles() == self.spec_profiles(),
            r.spec_properties() == self.spec_properties(),
    {
        let mut b = self;
        let ghost before = b.active_profiles@;
        b.active_profiles.push(profile.to_owned());
        proof {
            assert(b.spec_active_names() =~= before.map_values(|s: String| s@).push(profile@));
        }
        b
    }

    /// Adds a profile.
    pub fn with_profile(self, profile: Profile) -> (r: Self)
        ensures
            r.spec_profiles() == self.spec_profiles().push(profile),
            r.spec_sources() == self.spec_sources(),
            r.spec_active_names() == self.spec_active_names(),
            r.spec_properties() == self.spec_properties(),
    {
        let mut b = self;
        b.profiles.push(profile);
        b
    }

    /// Sets a single property.
    pub fn with_property(self, key: &str, value: &str) -> (r: Self)
        ensures
            r.spec_properties() == self.spec_properties().push((key@, value@)),
            r.spec_sources() == self.spec_sources(),
            r.spec_active_names() == self.spec_active_names(),
            r.spec_profiles() == self.spec_profiles(),
    {
        let mut b = self;
        let ghost before = b.properties@;
        b.properties.push((key.to_owned(), value.to_owned()));
        proof {
            assert(b.properties@.drop_last() =~= before);
            assert(b.spec_properties() =~= kv_view(before).push((key@, value@)));
        }
        b
    }

    /// Builds the context: registers the sources in order, gathers the
    /// single properties into one in-memory source after them, registers
    /// the profiles, and activates the named profiles in order, recording
    /// a profile-activated event for each activation. A duplicate profile
    /// name or an unknown activation name is rejected.
    #[verifier::loop_isolation(false)]
    pub fn build(self) -> (r: ContextResult<ApplicationContext>)
        ensures
            r matches Ok(context) ==> {
                &&& context.wf()
                &&& context.spec_config().source_maps() == self.spec_sources().map_values(
                    |s: ConfigSource| source_entries(s),
                ) + (if self.spec_properties().len() > 0 {
                    seq![self.spec_properties()]
                } else {
                    Seq::empty()
                })
                &&& context.spec_config().spec_actives() == appended_actives(
                    Seq::empty(),
                    self.spec_active_names(),
                )
                &&& context.spec_config().spec_profiles().len() == self.spec_profiles().len()
                &&& forall|i: int|
                    0 <= i < self.spec_profiles().len() ==> (#[trigger] context.spec_config()
                        .spec_profiles()[i]).spec_name() == self.spec_profiles()[i].spec_name()
                        && context.spec_config().spec_profiles()[i].spec_props()
                        == self.spec_profiles()[i].spec_props()
                &&& context.spec_config().override_views().len() == 0
                &&& context.spec_events().len() == self.spec_active_names().len()
                &&& forall|j: int|
                    0 <= j < context.spec_events().len() ==> ((#[trigger] context.spec_events()[j])
                        matches ContextEventRecord::ProfileActivated(e) && e.profile_name@
                        == self.spec_active_names()[j] && e.properties_count == profile_at(
                        self.spec_profiles(),
                        self.spec_active_names()[j],
                    ).spec_props().len())
            },
            r is Err ==> !(distinct_profile_names(self.spec_profiles()) && (forall|i: int|
                0 <= i < self.spec_active_names().len() ==> has_profile(
                    self.spec_profiles(),
                    #[trigger] self.spec_active_names()[i],
                ))),
            (distinct_profile_names(self.spec_profiles()) && (forall|i: int|
                0 <= i < self.spec_active_names().len() ==> has_profile(
                    self.spec_profiles(),
                    #[trigger] self.spec_active_names()[i],
                ))) ==> r is Ok,
            r matches Err(e) ==> (e matches ContextError::InvalidConfiguration { .. } || e
                matches ContextError::ProfileNotFound { .. }),
    {
        let ghost source_views = self.spec_sources();
        let ghost profile_views = self.spec_profiles();
        let ghost active_views = self.spec_active_names();
        let ghost props_view = self.spec_properties();
        let ApplicationContextBuilder { config_sources, active_profiles, profiles, properties } =
            self;
        let mut context = ApplicationContext::new();
        // register the sources, in order
        let mut sources = config_sources;
        while sources.len() > 0
            invariant
                sources@.len() <= source_views.len(),
                forall|i: int|
                    0 <= i < sources@.len() ==> sources@[i] == source_views[source_views.len()
                        - sources@.len() + i],
                context.wf(),
                context.spec_config().source_maps() =~= source_views.take(
                    source_views.len() - sources@.len(),
                ).map_values(|s: ConfigSource| source_entries(s)),
                context.spec_config().override_views().len() == 0,
                context.spec_config().spec_profiles().len() == 0,
                context.spec_config().spec_actives().len() == 0,
                context.spec_events().len() == 0,
            decreases sources.len(),
        {
            let ghost done = source_views.len() - sources@.len();
            let ghost rest = sources@;
            let s = sources.remove(0);
            proof {
                assert(s == source_views[done]);
                assert forall|i: int| 0 <= i < sources@.len() implies sources@[i]
                    == source_views[source_views.len() - sources@.len() + i] by {
                    assert(sources@[i] == rest[i + 1]);
                }
            }
            let added = context.config_manager.add_source(s);
            proof {
                assert(context.spec_config().source_maps() =~= source_views.take(
                    done + 1,
                ).map_values(|s2: ConfigSource| source_entries(s2)));
            }
        }
        proof {
            assert(source_views.take(source_views.len() as int) =~= source_views);
        }
        // the gathered properties become one in-memory source
        if properties.len() > 0 {
            proof {
                assert(kv_view(properties@) == props_view);
                crate::strutil::lemma_kv_view_index(properties@);
            }
            let added = context.config_manager.add_source(ConfigSource::Properties(properties));
        } else {
            proof {
                assert(props_view.len() == 0);
            }
        }
        let ghost base_maps = source_views.map_values(|s: ConfigSource| source_entries(s)) + (
        if props_view.len() > 0 {
            seq![props_view]
        } else {
            Seq::empty()
        });
        proof {
            assert(context.spec_config().source_maps() =~= base_maps);
        }
        // register the profiles, in order
        let mut rem = profiles;
        while rem.len() > 0
            invariant
                rem@.len() <= profile_views.len(),
                forall|i: int|
                    0 <= i < rem@.len() ==> rem@[i] == profile_views[profile_views.len()
                        - rem@.len() + i],
                context.wf(),
                context.spec_config().spec_profiles() =~= profile_views.take(
                    profile_views.len() - rem@.len(),
                ),
                distinct_profile_names(profile_views.take(profile_views.len() - rem@.len())),
                context.spec_config().override_views().len() == 0,
                context.spec_config().spec_actives().len() == 0,
                context.spec_config().source_maps() == base_maps,
                context.spec_events().len() == 0,
            decreases rem.len(),
        {
            let ghost done = profile_views.len() - rem@.len();
            let ghost rest = rem@;
            let p = rem.remove(0);
            proof {
                assert(p == profile_views[done]);
                assert forall|i: int| 0 <= i < rem@.len() implies rem@[i]
                    == profile_views[profile_views.len() - rem@.len() + i] by {
                    assert(rem@[i] == rest[i + 1]);
                }
            }
            match context.config_manager.add_profile(p) {
                Ok(_) => {
                    proof {
                        assert(context.spec_config().spec_profiles() =~= profile_views.take(
                            done + 1,
                        ));
                        assert forall|a: int, b: int|
                            0 <= a < b < done + 1 implies (#[trigger] profile_views.take(done + 1)[
                            a]).spec_name() != (#[trigger] profile_views.take(done + 1)[
                            b]).spec_name() by {
                            if b < done {
                                assert(profile_views.take(done)[a].spec_name()
                                    != profile_views.take(done)[b].spec_name());
                            } else {
                                assert(!has_profile(
                                    context.spec_config().spec_profiles().drop_last(),
                                    profile_views[done].spec_name(),
                                ) || true);
                                if profile_views[a].spec_name() == profile_views[
                                    done].spec_name() {
                                    assert(profile_views.take(done)[a] == profile_views[a]);
                                    assert(has_profile(
                                        profile_views.take(done),
                                        profile_views[done].spec_name(),
                                    ));
                                }
                            }
                        }
                    }
                },
                Err(e) => {
                    proof {
                        assert(has_profile(
                            profile_views.take(done),
                            profile_views[done].spec_name(),
                        ));
                        let w = choose|w: int|
                            0 <= w < done && profile_views.take(done)[w].spec_name()
                                == profile_views[done].spec_name();
                        assert(profile_views[w].spec_name() == profile_views[done].spec_name());
                        assert(!distinct_profile_names(profile_views));
                    }
                    return Err(e);
                },
            }
        }
        proof {
            assert(profile_views.take(profile_views.len() as int) =~= profile_views);
            assert(distinct_profile_names(profile_views));
        }
        // activate the named profiles, in order, recording each activation
        let an = active_profiles.len();
        let mut ai: usize = 0;
        while ai < an
            invariant
                ai <= an,
                an == active_profiles@.len(),
                active_views == active_profiles@.map_values(|s: String| s@),
                context.wf(),
                context.spec_config().spec_profiles().len() == profile_views.len(),
                forall|i: int|
                    0 <= i < profile_views.len() ==> (#[trigger] context.spec_config()
                        .spec_profiles()[i]).spec_name() == profile_views[i].spec_name()
                        && context.spec_config().spec_profiles()[i].spec_props()
                        == profile_views[i].spec_props(),
                context.spec_config().spec_actives() == appended_actives(
                    Seq::empty(),
                    active_views.take(ai as int),
                ),
                context.spec_config().override_views().len() == 0,
                context.spec_config().source_maps() == base_maps,
                context.spec_events().len() == ai,
                forall|j: int|
                    0 <= j < ai ==> ((#[trigger] context.spec_events()[j])
                        matches ContextEventRecord::ProfileActivated(e) && e.profile_name@
                        == active_views[j] && e.properties_count == profile_at(
                        profile_views,
                        active_views[j],
                    ).spec_props().len()),
            decreases an - ai,
        {
            let name = active_profiles[ai].clone();
            proof {
                assert(name@ == active_views[ai as int]);
            }
            let ghost acc_before = context.spec_config().spec_actives();
            let ghost cm_profiles_before = context.spec_config().spec_profiles();
            match context.config_manager.activate_profile(name.as_str()) {
                Ok(_) => {},
                Err(e) => {
                    proof {
                        assert(!has_profile(cm_profiles_before, name@));
                        if has_profile(profile_views, name@) {
                            let w = choose|w: int|
                                0 <= w < profile_views.len() && profile_views[w].spec_name()
                                    == name@;
                            assert(cm_profiles_before[w].spec_name() == name@);
                        }
                        assert(!has_profile(profile_views, active_views[ai as int]));
                    }
                    return Err(e);
                },
            }
            proof {
                lemma_appended_actives_snoc_take(active_views, ai as int, acc_before);
                // the activated name still has its registered profile
                assert(has_profile(cm_profiles_before, name@));
                let w = choose|w: int|
                    0 <= w < cm_profiles_before.len() && cm_profiles_before[w].spec_name()
                        == name@;
                assert(context.spec_config().spec_profiles()[w].spec_name() == name@);
                assert(has_profile(context.spec_config().spec_profiles(), name@));
            }
            let properties_count = context.config_manager.profile_manager()
                .get_profile_properties_count(name.as_str());
            proof {
                // the count is the registered profile's property count
                let cm_now = context.spec_config().spec_profiles();
                assert(properties_count == profile_at(cm_now, name@).spec_props().len());
                let w1 = choose|w1: int|
                    0 <= w1 < cm_now.len() && cm_now[w1].spec_name() == name@;
                assert(profile_at(cm_now, name@) == cm_now[w1]);
                assert(profile_views[w1].spec_name() == name@);
                assert(has_profile(profile_views, name@));
                let w2 = choose|w2: int|
                    0 <= w2 < profile_views.len() && profile_views[w2].spec_name() == name@;
                assert(profile_at(profile_views, name@) == profile_views[w2]);
                assert(w1 == w2);
                assert(cm_now[w1].spec_props() == profile_views[w1].spec_props());
                assert(properties_count == profile_at(
                    profile_views,
                    active_views[ai as int],
                ).spec_props().len());
            }
            let timestamp = crate::clock::now_unix_millis();
            let ghost events_before = context.event_log@;
            context.event_log.push(
                ContextEventRecord::ProfileActivated(
                    ProfileActivatedEvent { profile_name: name, properties_count, timestamp },
                ),
            );
            proof {
                assert(context.event_log@.drop_last() =~= events_before);
            }
            ai += 1;
        }
        proof {
            assert(active_views.take(an as int) =~= active_views);
        }
        Ok(context)
    }
}

/// Activating one more name extends the accumulated activations by the
/// name, if it was not active yet.
proof fn lemma_appended_actives_snoc(acc: Seq<Seq<char>>, names: Seq<Seq<char>>)
    ensures
        names.len() > 0 ==> appended_actives(acc, names) == (if appended_actives(
            acc,
            names.drop_last(),
        ).contains(names.last()) {
            appended_actives(acc, names.drop_last())
        } else {
            appended_actives(acc, names.drop_last()).push(names.last())
        }),
    decreases names.len(),
{
    reveal_with_fuel(appended_actives, 3);
    if names.len() == 1 {
        assert(names.drop_last() =~= Seq::<Seq<char>>::empty());
        assert(names.drop_first() =~= Seq::<Seq<char>>::empty());
        let acc2 = if acc.contains(names[0]) {
            acc
        } else {
            acc.push(names[0])
        };
        assert(appended_actives(acc, names) == appended_actives(acc2, names.drop_first()));
        assert(appended_actives(acc2, names.drop_first()) == acc2);
        assert(appended_actives(acc, names.drop_last()) == acc);
        assert(names.last() == names[0]);
    } else if names.len() > 1 {
        let acc2 = if acc.contains(names[0]) {
            acc
        } else {
            acc.push(names[0])
        };
        lemma_appended_actives_snoc(acc2, names.drop_first());
        assert(names.drop_first().drop_last() =~= names.drop_last().drop_first());
        assert(names.drop_first().last() == names.last());
        assert(names.drop_last()[0] == names[0]);
        assert(names.drop_last().len() > 0);
        assert(appended_actives(acc, names) == appended_actives(acc2, names.drop_first()));
        assert(appended_actives(acc, names.drop_last()) == appended_actives(
            acc2,
            names.drop_last().drop_first(),
        ));
    }
}

/// The activation fold advances by one position of the name list.
proof fn lemma_appended_actives_snoc_take(names: Seq<Seq<char>>, i: int, acc: Seq<Seq<char>>)
    requires
        0 <= i < names.len(),
        acc == appended_actives(Seq::empty(), names.take(i)),
    ensures
        appended_actives(Seq::empty(), names.take(i + 1)) == (if acc.contains(names[i]) {
            acc
        } else {
            acc.push(names[i])
        }),
{
    lemma_appended_actives_snoc(Seq::empty(), names.take(i + 1));
    assert(names.take(i + 1).drop_last() =~= names.take(i));
    assert(names.take(i + 1).last() == names[i]);
}

/// The application context.
pub struct ApplicationContext {
    /// The configuration manager.
    config_manager: ConfigManager,
    /// The listener registry.
    event_publisher: EventPublisher,
    /// The component container.
    container: ComponentContainer,
    /// The recorded context events, oldest first.
    event_log: Vec<ContextEventRecord>,
}

impl ApplicationContext {
    /// The configuration manager's state.
    pub closed spec fn spec_config(self) -> ConfigManager {
        self.config_manager
    }

    /// The container's state.
    pub closed spec fn spec_container(self) -> ComponentContainer {
        self.container
    }

    /// The recorded context events.
    pub closed spec fn spec_events(self) -> Seq<ContextEventRecord> {
        self.event_log@
    }

    /// The listener registry's state.
    pub closed spec fn spec_publisher(self) -> EventPublisher {
        self.event_publisher
    }

    /// Validity of the context's parts.
    pub closed spec fn wf(self) -> bool {
        self.config_manager.wf() && self.container.wf()
    }

    /// Creates an empty context.
    pub fn new() -> (r: Self)
        ensures
            r.wf(),
            r.spec_config().spec_sources_len() == 0,
            r.spec_config().source_maps().len() == 0,
            r.spec_config().override_views().len() == 0,
            r.spec_config().spec_profiles().len() == 0,
            r.spec_config().spec_actives().len() == 0,
            r.spec_events().len() == 0,
            r.spec_container().defs().len() == 0,
            forall|k: u64| !r.spec_container().store_dom().contains(k),
            r.spec_publisher().spec_plain().len() == 0,
            r.spec_publisher().spec_aware().len() == 0,
    {
        ApplicationContext {
            config_manager: ConfigManager::new(),
            event_publisher: EventPublisher::new(),
            container: ComponentContainer::new(),
            event_log: Vec::new(),
        }
    }

    /// Creates a builder for a context.
    pub fn builder() -> (r: ApplicationContextBuilder)
        ensures
            r.spec_sources().len() == 0,
            r.spec_active_names().len() == 0,
            r.spec_profiles().len() == 0,
            r.spec_properties().len() == 0,
    {
        ApplicationContextBuilder::new()
    }

    /// Initializes the context: records the initializing event, wires the
    /// component container with the given factory, and records the
    /// initialized event. A container failure is reported as an
    /// initialization error; components already stored stay stored.
    pub fn initialize<F: Fn(u64, Vec<(u64, ComponentInstance)>) -> Result<
        ComponentInstance,
        ComponentError,
    >>(&mut self, factory: F) -> (r: ContextResult<()>)
        requires
            old(self).wf(),
            forall|args: (u64, Vec<(u64, ComponentInstance)>)| call_requires(factory, args),
        ensures
            final(self).wf(),
            resolution_extends(old(self).spec_container(), final(self).spec_container()),
            creations_from_factory(
                factory,
                old(self).spec_container(),
                final(self).spec_container(),
            ),
            r is Ok ==> forall|i: int|
                0 <= i < old(self).spec_container().defs().len() ==> {
                    &&& old(self).spec_container().store_dom().contains(
                        (#[trigger] old(self).spec_container().defs()[i]).type_key,
                    ) || created_since(
                        old(self).spec_container(),
                        final(self).spec_container(),
                    ).contains(old(self).spec_container().defs()[i].type_key)
                    &&& old(self).spec_container().defs()[i].scope == ComponentScope::Singleton
                        ==> (final(self).spec_container().store_dom().contains(
                        old(self).spec_container().defs()[i].type_key,
                    ))
                },
            r matches Err(e) ==> e matches ContextError::InitializationFailed { .. },
            r is Err ==> (exists|c: Seq<u64>|
                is_dep_cycle(old(self).spec_container().defs(), c)) || (exists|a: u64, b: u64|
                dep_edge(old(self).spec_container().defs(), a, b) && !has_def(
                    old(self).spec_container().defs(),
                    b,
                )) || (exists|
                args: (u64, Vec<(u64, ComponentInstance)>),
                ce: ComponentError,
            |
                call_ensures(factory, args, Result::<ComponentInstance, ComponentError>::Err(ce))),
            ((forall|c: Seq<u64>| !is_dep_cycle(old(self).spec_container().defs(), c)) && (forall|
                a: u64,
                b: u64,
            |
                dep_edge(old(self).spec_container().defs(), a, b) ==> has_def(
                    old(self).spec_container().defs(),
                    b,
                ) || old(self).spec_container().store_dom().contains(b)) && (forall|
                args: (u64, Vec<(u64, ComponentInstance)>),
                out: Result<ComponentInstance, ComponentError>,
            |
                call_ensures(factory, args, out) ==> out is Ok)) ==> r is Ok,
            final(self).spec_config() == old(self).spec_config(),
            final(self).spec_events().len() == old(self).spec_events().len() + (if r is Ok {
                2int
            } else {
                1int
            }),
            (final(self).spec_events()[old(self).spec_events().len() as int]
                matches ContextEventRecord::Initializing(e) && e.config_sources_count == old(
                self,
            ).spec_config().spec_sources_len() && e.active_profiles_count == old(
                self,
            ).spec_config().spec_actives().len()),
            r is Ok ==> (final(self).spec_events().last()
                matches ContextEventRecord::Initialized(e) && e.config_sources_count == old(
                self,
            ).spec_config().spec_sources_len() && e.active_profiles_count == old(
                self,
            ).spec_config().spec_actives().len()),
    {
        let sources_count = self.config_manager.sources_count();
        let actives = self.config_manager.profile_manager().active_profiles();
        let active_count = actives.len();
        proof {
            assert(actives@.map_values(|n: String| n@).len() == actives@.len());
            assert(active_count == self.spec_config().spec_actives().len());
        }
        let t0 = crate::clock::now_unix_millis();
        let ghost log0 = self.event_log@;
        self.event_log.push(
            ContextEventRecord::Initializing(
                ContextInitializingEvent {
                    config_sources_count: sources_count,
                    active_profiles_count: active_count,
                    timestamp: t0,
                },
            ),
        );
        proof {
            assert(self.event_log@.drop_last() =~= log0);
        }
        let outcome = self.container.initialize(factory);
        match outcome {
            Ok(_) => {},
            Err(e) => {
                let desc = e.describe();
                let msg = "IoC container initialization failed: ".to_owned().concat(
                    desc.as_str(),
                );
                return Err(ContextError::initialization_failed(msg.as_str()));
            },
        }
        let sources_count2 = self.config_manager.sources_count();
        let actives2 = self.config_manager.profile_manager().active_profiles();
        let active_count2 = actives2.len();
        proof {
            assert(actives2@.map_values(|n: String| n@).len() == actives2@.len());
            assert(active_count2 == old(self).spec_config().spec_actives().len());
            assert(sources_count2 == old(self).spec_config().spec_sources_len());
        }
        let t1 = crate::clock::now_unix_millis();
        let ghost log1 = self.event_log@;
        self.event_log.push(
            ContextEventRecord::Initialized(
                ContextInitializedEvent {
                    config_sources_count: sources_count2,
                    active_profiles_count: active_count2,
                    timestamp: t1,
                },
            ),
        );
        proof {
            assert(self.event_log@.drop_last() =~= log1);
            assert(self.event_log@[log0.len() as int] == log1[log0.len() as int]);
        }
        Ok(())
    }

    /// The configuration value for a key, as text, or empty text for a
    /// missing key or one with no text form.
    pub fn get_config(&mut self, key: &str) -> (r: String)
        requires
            old(self).wf(),
        ensures
            final(self).wf(),
            r@ == config_text_or(old(self).spec_config(), key@, ""@),
            unchanged_but_config_cache(*old(self), *final(self)),
    {
        proof {
            reveal_strlit("");
        }
        self.config_manager.get_string_or_default(key, "")
    }

    /// The configuration value for a key, as text, or the given default
    /// for a missing key or one with no text form.
    pub fn get_config_or_default(&mut self, key: &str, default: &str) -> (r: String)
        requires
            old(self).wf(),
        ensures
            final(self).wf(),
            r@ == config_text_or(old(self).spec_config(), key@, default@),
            unchanged_but_config_cache(*old(self), *final(self)),
    {
        self.config_manager.get_string_or_default(key, default)
    }

    /// Sets a configuration override and records a configuration-changed
    /// event carrying the old text, if the key resolved to a non-empty
    /// text before, and the new text.
    pub fn set_config(&mut self, key: &str, value: &str)
        requires
            old(self).wf(),
        ensures
            final(self).wf(),
            final(self).spec_config().spec_resolve(key@) == Some(
                ConfigData::Text(value@),
            ),
            forall|k2: Seq<char>|
                k2 != key@ ==> final(self).spec_config().spec_resolve(k2) == old(
                    self,
                ).spec_config().spec_resolve(k2),
            final(self).spec_events().len() == old(self).spec_events().len() + 1,
            final(self).spec_events().last() matches ContextEventRecord::ConfigurationChanged(e)
                && e.key@ == key@ && e.new_value@ == value@ && (match e.old_value {
                Some(o) => o@ == config_text_or(old(self).spec_config(), key@, ""@) && o@.len()
                    > 0,
                None => config_text_or(old(self).spec_config(), key@, ""@).len() == 0,
            }),
            final(self).spec_container() == old(self).spec_container(),
    {
        let old_text = self.get_config(key);
        let old_value_opt: Option<String> = if old_text.as_str().is_empty() {
            None
        } else {
            Some(old_text)
        };
        self.config_manager.set(key, ConfigValue::String(value.to_owned()));
        let timestamp = crate::clock::now_unix_millis();
        let ghost log0 = self.event_log@;
        self.event_log.push(
            ContextEventRecord::ConfigurationChanged(
                ConfigurationChangedEvent {
                    key: key.to_owned(),
                    old_value: old_value_opt,
                    new_value: value.to_owned(),
                    timestamp,
                },
            ),
        );
        proof {
            assert(self.event_log@.drop_last() =~= log0);
        }
    }

    /// Registers a configuration source.
    pub fn add_config_source(&mut self, source: ConfigSource) -> (r: ContextResult<()>)
        requires
            old(self).wf(),
        ensures
            final(self).wf(),
            r is Ok,
            final(self).spec_config().source_maps() == old(self).spec_config()
                .source_maps().push(source_entries(source)),
            final(self).spec_container() == old(self).spec_container(),
            final(self).spec_events() == old(self).spec_events(),
    {
        self.config_manager.add_source(source)
    }

    /// Attaches file content to a configuration source and registers it.
    pub fn add_config_source_content(&mut self, source: ConfigSource, content: &str) -> (r:
        ContextResult<()>)
        requires
            old(self).wf(),
        ensures
            final(self).wf(),
            r is Ok <==> crate::config::parsed_entries(source, content@) is Some,
            r is Ok ==> final(self).spec_config().source_maps() == old(self).spec_config()
                .source_maps().push(crate::config::parsed_entries(source, content@).unwrap()),
            final(self).spec_container() == old(self).spec_container(),
            final(self).spec_events() == old(self).spec_events(),
    {
        self.config_manager.add_source_content(source, content)
    }

    /// The component container.
    pub fn container(&self) -> (r: &ComponentContainer)
        ensures
            *r == self.spec_container(),
    {
        &self.container
    }

    /// Write access to the component container.
    pub fn container_mut(&mut self) -> &mut ComponentContainer {
        &mut self.container
    }

    /// The configuration manager.
    pub fn config_manager(&self) -> (r: &ConfigManager)
        ensures
            *r == self.spec_config(),
    {
        &self.config_manager
    }

    /// Write access to the configuration manager.
    pub fn config_manager_mut(&mut self) -> &mut ConfigManager {
        &mut self.config_manager
    }

    /// The stored component under a type key, if the stored value
    /// identifies itself with that key.
    pub fn get_component(&self, type_key: u64) -> (r: Option<ComponentInstance>)
        requires
            self.wf(),
        ensures
            r == if self.spec_container().store_dom().contains(type_key) && self.spec_container()
                .store_at(type_key).type_key == type_key {
                Some(self.spec_container().store_at(type_key))
            } else {
                None::<ComponentInstance>
            },
    {
        proof {
            self.container.lemma_wf_implies_core();
        }
        self.container.lookup_component(type_key)
    }

    /// The listener handles to invoke for an event, in subscription order.
    pub fn publish_event<T: Event>(&self, event: &T) -> (r: Vec<u64>)
        ensures
            r@ == ids_for(self.spec_publisher().spec_plain(), event.spec_key()),
    {
        self.event_publisher.publish(event.event_key())
    }

    /// The listener handles, plain and context-aware, to invoke for a
    /// publication of the given kind, each group in subscription order.
    pub fn dispatch_plan(&self, event_key: u64) -> (r: (Vec<u64>, Vec<u64>))
        ensures
            r.0@ == ids_for(self.spec_publisher().spec_plain(), event_key),
            r.1@ == ids_for(self.spec_publisher().spec_aware(), event_key),
    {
        self.event_publisher.publish_with_context(event_key)
    }

    /// Subscribes a plain listener for an event kind; the embedding
    /// application keeps the callback under the returned handle.
    pub fn subscribe_to_events(&mut self, event_key: u64) -> (r: u64)
        ensures
            final(self).spec_publisher().spec_plain() == old(self).spec_publisher()
                .spec_plain().push((event_key, r)),
            final(self).spec_publisher().spec_aware() == old(self).spec_publisher().spec_aware(),
            final(self).spec_config() == old(self).spec_config(),
            final(self).spec_container() == old(self).spec_container(),
            final(self).spec_events() == old(self).spec_events(),
    {
        self.event_publisher.subscribe(event_key)
    }

    /// Subscribes a context-aware listener for an event kind.
    pub fn subscribe_to_context_events(&mut self, event_key: u64) -> (r: u64)
        ensures
            final(self).spec_publisher().spec_aware() == old(self).spec_publisher()
                .spec_aware().push((event_key, r)),
            final(self).spec_publisher().spec_plain() == old(self).spec_publisher().spec_plain(),
            final(self).spec_config() == old(self).spec_config(),
            final(self).spec_container() == old(self).spec_container(),
            final(self).spec_events() == old(self).spec_events(),
    {
        self.event_publisher.subscribe_context_aware(event_key)
    }

    /// The names of the active profiles, earliest activation first.
    #[verifier::loop_isolation(false)]
    pub fn active_profiles(&self) -> (r: Vec<String>)
        ensures
            r@.map_values(|s: String| s@) == self.spec_config().spec_actives(),
    {
        let names = self.config_manager.profile_manager().active_profiles();
        let n = names.len();
        let mut out: Vec<String> = Vec::new();
        let mut i: usize = 0;
        while i < n
            invariant
                i <= n,
                n == names@.len(),
                names@.map_values(|s: String| s@) == self.spec_config().spec_actives(),
                out@.map_values(|s: String| s@) =~= self.spec_config().spec_actives().take(
                    i as int,
                ),
            decreases n - i,
        {
            let ghost before = out@;
            out.push(names[i].clone());
            proof {
                assert(out@.drop_last() =~= before);
                assert(out@.map_values(|s: String| s@) =~= self.spec_config()
                    .spec_actives().take(i + 1));
            }
            i += 1;
        }
        proof {
            assert(self.spec_config().spec_actives().take(n as int) =~= self.spec_config()
                .spec_actives());
        }
        out
    }

    /// Whether a profile of the given name is active.
    #[verifier::loop_isolation(false)]
    pub fn is_profile_active(&self, profile_name: &str) -> (r: bool)
        ensures
            r == self.spec_config().spec_actives().contains(profile_name@),
    {
        let names = self.config_manager.profile_manager().active_profiles();
        let n = names.len();
        let target = profile_name.to_owned();
        let mut i: usize = 0;
        while i < n
            invariant
                i <= n,
                n == names@.len(),
                target@ == profile_name@,
                names@.map_values(|s: String| s@) == self.spec_config().spec_actives(),
                forall|j: int| 0 <= j < i ==> self.spec_config().spec_actives()[j] != profile_name@,
            decreases n - i,
        {
            if names[i] == target {
                proof {
                    assert(self.spec_config().spec_actives()[i as int] == profile_name@);
                }
                return true;
            }
            i += 1;
        }
        proof {
            if self.spec_config().spec_actives().contains(profile_name@) {
                let j = choose|j: int|
                    0 <= j < self.spec_config().spec_actives().len() && self.spec_config()
                        .spec_actives()[j] == profile_name@;
            }
        }
        false
    }

    /// A text naming the environment: the active profile names joined
    /// with commas, or `default` with no active profile.
    #[verifier::loop_isolation(false)]
    pub fn environment(&self) -> (r: String)
        ensures
            r@ == if self.spec_config().spec_actives().len() == 0 {
                "default"@
            } else {
                joined_names(self.spec_config().spec_actives())
            },
    {
        let names = self.config_manager.profile_manager().active_profiles();
        let n = names.len();
        if n == 0 {
            return "default".to_owned();
        }
        let mut out = String::new();
        let mut i: usize = 0;
        while i < n
            invariant
                i <= n,
                n == names@.len(),
                n > 0,
                names@.map_values(|s: String| s@) == self.spec_config().spec_actives(),
                out@ == joined_names(self.spec_config().spec_actives().take(i as int)),
            decreases n - i,
        {
            if i > 0 {
                out.append(",");
            }
            out.append(names[i].as_str());
            proof {
                let all = self.spec_config().spec_actives();
                assert(all.take(i + 1).drop_last() =~= all.take(i as int));
                assert(all.take(i + 1).last() == all[i as int]);
                if i == 0 {
                    assert(all.take(1)[0] == all[0]);
                }
            }
            i += 1;
        }
        proof {
            assert(self.spec_config().spec_actives().take(n as int) =~= self.spec_config()
                .spec_actives());
        }
        out
    }

    /// Removes and returns the recorded context events, oldest first.
    pub fn drain_context_events(&mut self) -> (r: Vec<ContextEventRecord>)
        requires
            old(self).wf(),
        ensures
            final(self).wf(),
            r@ == old(self).spec_events(),
            final(self).spec_events().len() == 0,
            final(self).spec_config() == old(self).spec_config(),
            final(self).spec_container() == old(self).spec_container(),
    {
        let mut drained = Vec::new();
        std::mem::swap(&mut drained, &mut self.event_log);
        drained
    }
}

/// The names joined with commas.
pub open spec fn joined_names(names: Seq<Seq<char>>) -> Seq<char>
    decreases names.len(),
{
    if names.len() == 0 {
        Seq::empty()
    } else if names.len() == 1 {
        names[0]
    } else {
        joined_names(names.drop_last()) + ","@ + names.last()
    }
}

/// The text a key resolves to in a configuration manager, or the given
/// fallback when the key is missing or its value has no text form.
pub open spec fn config_text_or(cm: ConfigManager, key: Seq<char>, fallback: Seq<char>) -> Seq<
    char,
> {
    match cm.spec_resolve(key) {
        Some(d) => match data_scalar_text(d) {
            Some(t) => t,
            None => fallback,
        },
        None => fallback,
    }
}

/// Whether two context states differ at most in the configuration
/// manager's cache: every observable part is unchanged, and every key
/// still resolves identically.
pub open spec fn unchanged_but_config_cache(
    a: ApplicationContext,
    b: ApplicationContext,
) -> bool {
    &&& forall|k: Seq<char>| b.spec_config().spec_resolve(k) == a.spec_config().spec_resolve(k)
    &&& b.spec_config().spec_actives() == a.spec_config().spec_actives()
    &&& b.spec_config().spec_profiles() == a.spec_config().spec_profiles()
    &&& b.spec_config().spec_sources_len() == a.spec_config().spec_sources_len()
    &&& b.spec_container() == a.spec_container()
    &&& b.spec_events() == a.spec_events()
    &&& b.spec_publisher() == a.spec_publisher()
}

} // verus!
