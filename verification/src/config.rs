//! The configuration manager: layered sources, environment profiles and
//! runtime overrides, resolved into single flat key lookups with a cache
//! that is never allowed to go stale.
//!
//! Precedence, highest first: runtime overrides set with [`ConfigManager::set`],
//! active profiles (the profile activated last first), then configuration
//! sources (the source added last first).

use vstd::prelude::*;
use crate::config_value::{
    ConfigData, ConfigValue, cv_pair_views, data_boolean, data_integer, data_scalar_text,
    lemma_cv_pair_views_index,
};
use crate::errors::{ContextError, ContextResult};
use crate::flatten::{flat_of, toml_tree_of, yaml_tree_of, toml_flat_map, yaml_flat_map};
use crate::profile::{Profile, ProfileManager, active_value};
use crate::properties::{parse_properties, props_of};
use crate::strutil::{
    ascii_upper_char, chars_of, kv_lookup, kv_view, lemma_kv_view_index, string_from_chars,
    to_ascii_lower, kv_get,
};

verus! {

/// A source of configuration entries.
#[derive(Debug, PartialEq)]
pub enum ConfigSource {
    /// A TOML file at a path.
    TomlFile(String),
    /// A YAML file at a path.
    YamlFile(String),
    /// A properties file at a path.
    PropertiesFile(String),
    /// A file at a path whose format is detected from its extension, or
    /// by trying the formats in order.
    ConfigFile(String),
    /// The process environment, one variable per key, named by the
    /// `A_B`-from-`a.b` rule of [`env_var_name`]. Environment access is
    /// refused inside the verified core, so the embedding application
    /// reads the variables and hands them in through
    /// [`ConfigManager::provide_environment_entries`]; lookups consult
    /// them at this source's precedence position.
    Environment,
    /// Command line arguments.
    CommandLine,
    /// In-memory properties.
    Properties(Vec<(String, String)>),
}

/// The entries a source defines by itself, with no file content attached:
/// in-memory properties define their pairs and every other source defines
/// nothing.
pub open spec fn source_entries(source: ConfigSource) -> Seq<(Seq<char>, Seq<char>)> {
    match source {
        ConfigSource::Properties(pairs) => kv_view(pairs@),
        _ => Seq::empty(),
    }
}

/// The flat entries a TOML text defines, if it parses.
pub open spec fn toml_entries(content: Seq<char>) -> Option<Seq<(Seq<char>, Seq<char>)>> {
    match toml_tree_of(content) {
        Some(t) => Some(flat_of(t, Seq::empty())),
        None => None,
    }
}

/// The flat entries a YAML text defines, if it parses.
pub open spec fn yaml_entries(content: Seq<char>) -> Option<Seq<(Seq<char>, Seq<char>)>> {
    match yaml_tree_of(content) {
        Some(t) => Some(flat_of(t, Seq::empty())),
        None => None,
    }
}

/// Whether the sequence ends with the suffix.
pub open spec fn has_suffix(s: Seq<char>, suffix: Seq<char>) -> bool {
    s.len() >= suffix.len() && s.skip(s.len() - suffix.len()) == suffix
}

/// The characters, lowered for ASCII letters.
pub open spec fn lower_of(s: Seq<char>) -> Seq<char> {
    crate::strutil::ascii_lower(s)
}

/// The entries that attaching a file content to a source defines: a file
/// source parses the content in its format; a path with an unknown
/// extension is tried as TOML, then YAML, then properties; a non-file
/// source keeps its own entries.
pub open spec fn parsed_entries(source: ConfigSource, content: Seq<char>) -> Option<
    Seq<(Seq<char>, Seq<char>)>,
> {
    match source {
        ConfigSource::TomlFile(_) => toml_entries(content),
        ConfigSource::YamlFile(_) => yaml_entries(content),
        ConfigSource::PropertiesFile(_) => Some(props_of(content)),
        ConfigSource::ConfigFile(path) => {
            let lower = lower_of(path@);
            if has_suffix(lower, ".toml"@) {
                toml_entries(content)
            } else if has_suffix(lower, ".yaml"@) || has_suffix(lower, ".yml"@) {
                yaml_entries(content)
            } else if has_suffix(lower, ".properties"@) {
                Some(props_of(content))
            } else if toml_entries(content) is Some {
                toml_entries(content)
            } else if yaml_entries(content) is Some {
                yaml_entries(content)
            } else {
                Some(props_of(content))
            }
        },
        _ => Some(source_entries(source)),
    }
}

/// The value a key resolves to through the source maps, where the map
/// added last wins.
pub open spec fn sources_value(
    maps: Seq<Seq<(Seq<char>, Seq<char>)>>,
    key: Seq<char>,
) -> Option<Seq<char>>
    decreases maps.len(),
{
    if maps.len() == 0 {
        None
    } else {
        match kv_lookup(maps.last(), key) {
            Some(v) => Some(v),
            None => sources_value(maps.drop_last(), key),
        }
    }
}

/// The value a key resolves to through override entries, where the entry
/// set last wins.
pub open spec fn data_lookup(
    pairs: Seq<(Seq<char>, ConfigData)>,
    key: Seq<char>,
) -> Option<ConfigData>
    decreases pairs.len(),
{
    if pairs.len() == 0 {
        None
    } else if pairs.last().0 == key {
        Some(pairs.last().1)
    } else {
        data_lookup(pairs.drop_last(), key)
    }
}

/// The configuration manager.
#[derive(Debug)]
pub struct ConfigManager {
    /// The registered sources, in registration order.
    sources: Vec<ConfigSource>,
    /// The flat entries each source defines, aligned with `sources`.
    resolved: Vec<Vec<(String, String)>>,
    /// Runtime overrides, in the order they were set.
    overrides: Vec<(String, ConfigValue)>,
    /// Cached lookups; cleared whenever a source, an override or a
    /// profile changes.
    cache: Vec<(String, ConfigValue)>,
    /// The environment profiles.
    profile_manager: ProfileManager,
}

impl ConfigManager {
    /// How many sources are registered.
    pub closed spec fn spec_sources_len(self) -> nat {
        self.sources@.len()
    }

    /// The registered sources, in registration order.
    pub closed spec fn spec_sources(self) -> Seq<ConfigSource> {
        self.sources@
    }

    /// The flat entries of each source, in registration order.
    pub closed spec fn source_maps(self) -> Seq<Seq<(Seq<char>, Seq<char>)>> {
        self.resolved@.map_values(|v: Vec<(String, String)>| kv_view(v@))
    }

    /// The override entries, in the order they were set.
    pub closed spec fn override_views(self) -> Seq<(Seq<char>, ConfigData)> {
        cv_pair_views(self.overrides@)
    }

    /// The cached entries.
    pub closed spec fn cache_views(self) -> Seq<(Seq<char>, ConfigData)> {
        cv_pair_views(self.cache@)
    }

    /// The registered profiles.
    pub closed spec fn spec_profiles(self) -> Seq<Profile> {
        self.profile_manager.spec_profiles()
    }

    /// The names of the active profiles, earliest activation first.
    pub closed spec fn spec_actives(self) -> Seq<Seq<char>> {
        self.profile_manager.spec_actives()
    }

    /// The value a key resolves to: overrides first, then active
    /// profiles, then sources. The cache takes no part.
    pub open spec fn spec_resolve(self, key: Seq<char>) -> Option<ConfigData> {
        match data_lookup(self.override_views(), key) {
            Some(d) => Some(d),
            None => match active_value(self.spec_profiles(), self.spec_actives(), key) {
                Some(t) => Some(ConfigData::Text(t)),
                None => match sources_value(self.source_maps(), key) {
                    Some(t) => Some(ConfigData::Text(t)),
                    None => None,
                },
            },
        }
    }

    /// Validity: each source has its entries, the profiles are valid, and
    /// every cached entry agrees with what resolution gives afresh.
    pub closed spec fn wf(self) -> bool {
        &&& self.resolved@.len() == self.sources@.len()
        &&& self.profile_manager.wf()
        &&& forall|i: int|
            0 <= i < self.cache_views().len() ==> self.spec_resolve(
                (#[trigger] self.cache_views()[i]).0,
            ) == Some(self.cache_views()[i].1)
    }

    /// Creates a configuration manager with no sources, overrides or
    /// profiles.
    pub fn new() -> (r: Self)
        ensures
            r.wf(),
            r.spec_sources_len() == 0,
            r.override_views().len() == 0,
            r.source_maps().len() == 0,
            r.spec_profiles().len() == 0,
            r.spec_actives().len() == 0,
            r.cache_views().len() == 0,
    {
        ConfigManager {
            sources: Vec::new(),
            resolved: Vec::new(),
            overrides: Vec::new(),
            cache: Vec::new(),
            profile_manager: ProfileManager::new(),
        }
    }

    /// Registers a source. An in-memory properties source defines its
    /// pairs; a file source registered this way defines no entries until
    /// content is attached with [`Self::add_source_content`]. The cache is
    /// cleared.
    pub fn add_source(&mut self, source: ConfigSource) -> (r: ContextResult<()>)
        requires
            old(self).wf(),
        ensures
            final(self).wf(),
            r is Ok,
            final(self).spec_sources_len() == old(self).spec_sources_len() + 1,
            final(self).source_maps() == old(self).source_maps().push(source_entries(source)),
            final(self).override_views() == old(self).override_views(),
            final(self).spec_profiles() == old(self).spec_profiles(),
            final(self).spec_actives() == old(self).spec_actives(),
            final(self).cache_views().len() == 0,
    {
        let entries = match &source {
            ConfigSource::Properties(pairs) => copy_string_pairs(pairs),
            _ => Vec::new(),
        };
        proof {
            assert(kv_view(entries@) =~= source_entries(source));
        }
        self.push_source(source, entries);
        Ok(())
    }

    /// Attaches file content to a source and registers it: the content is
    /// parsed in the source's format, with detection for
    /// [`ConfigSource::ConfigFile`]; content that parses in no applicable
    /// format is rejected and leaves the manager unchanged. The cache is
    /// cleared on success.
    pub fn add_source_content(&mut self, source: ConfigSource, content: &str) -> (r: ContextResult<
        (),
    >)
        requires
            old(self).wf(),
        ensures
            final(self).wf(),
            r is Ok <==> parsed_entries(source, content@) is Some,
            r is Ok ==> {
                &&& final(self).spec_sources_len() == old(self).spec_sources_len() + 1
                &&& final(self).source_maps() == old(self).source_maps().push(
                    parsed_entries(source, content@).unwrap(),
                )
                &&& final(self).cache_views().len() == 0
            },
            r matches Err(e) ==> *final(self) == *old(self) && e
                matches ContextError::ConfigurationFileError { .. },
            final(self).override_views() == old(self).override_views(),
            final(self).spec_profiles() == old(self).spec_profiles(),
            final(self).spec_actives() == old(self).spec_actives(),
    {
        let entries: Option<Vec<(String, String)>> = match &source {
            ConfigSource::TomlFile(_) => toml_flat_map(content),
            ConfigSource::YamlFile(_) => yaml_flat_map(content),
            ConfigSource::PropertiesFile(_) => Some(parse_properties(content)),
            ConfigSource::ConfigFile(path) => {
                let lower = to_ascii_lower(&chars_of(path.as_str()));
                if chars_suffix_text(&lower, ".toml") {
                    toml_flat_map(content)
                } else if chars_suffix_text(&lower, ".yaml") || chars_suffix_text(&lower, ".yml") {
                    yaml_flat_map(content)
                } else if chars_suffix_text(&lower, ".properties") {
                    Some(parse_properties(content))
                } else {
                    match toml_flat_map(content) {
                        Some(entries) => Some(entries),
                        None => match yaml_flat_map(content) {
                            Some(entries) => Some(entries),
                            None => Some(parse_properties(content)),
                        },
                    }
                }
            },
            _ => {
                let own = match &source {
                    ConfigSource::Properties(pairs) => copy_string_pairs(pairs),
                    _ => Vec::new(),
                };
                proof {
                    assert(kv_view(own@) =~= source_entries(source));
                }
                Some(own)
            },
        };
        match entries {
            Some(entries) => {
                self.push_source(source, entries);
                Ok(())
            },
            None => Err(
                ContextError::configuration_file_error(
                    "the file content parses in no applicable format",
                ),
            ),
        }
    }

    /// Appends a source with its entries and clears the cache.
    fn push_source(&mut self, source: ConfigSource, entries: Vec<(String, String)>)
        requires
            old(self).wf(),
        ensures
            final(self).wf(),
            final(self).spec_sources_len() == old(self).spec_sources_len() + 1,
            final(self).source_maps() == old(self).source_maps().push(kv_view(entries@)),
            final(self).override_views() == old(self).override_views(),
            final(self).spec_profiles() == old(self).spec_profiles(),
            final(self).spec_actives() == old(self).spec_actives(),
            final(self).cache_views().len() == 0,
    {
        self.sources.push(source);
        self.resolved.push(entries);
        self.cache = Vec::new();
        proof {
            assert(self.resolved@.drop_last() =~= old(self).resolved@);
            assert(self.source_maps() =~= old(self).source_maps().push(kv_view(entries@)));
            assert(self.cache_views() =~= Seq::<(Seq<char>, ConfigData)>::empty());
        }
    }

    /// Supplies the entries of every registered environment source: the
    /// embedding application reads the variables (named by
    /// [`env_var_name`]) outside the verified core and hands the key-value
    /// pairs in; lookups then consult them at the environment source's
    /// own precedence position. Other sources keep their entries. The
    /// cache is cleared.
    #[verifier::loop_isolation(false)]
    pub fn provide_environment_entries(&mut self, entries: Vec<(String, String)>)
        requires
            old(self).wf(),
        ensures
            final(self).wf(),
            final(self).spec_sources() == old(self).spec_sources(),
            final(self).spec_sources_len() == old(self).spec_sources_len(),
            final(self).source_maps().len() == old(self).source_maps().len(),
            forall|i: int|
                0 <= i < old(self).source_maps().len() ==> final(self).source_maps()[i] == (
                if old(self).spec_sources()[i] is Environment {
                    kv_view(entries@)
                } else {
                    old(self).source_maps()[i]
                }),
            final(self).override_views() == old(self).override_views(),
            final(self).spec_profiles() == old(self).spec_profiles(),
            final(self).spec_actives() == old(self).spec_actives(),
            final(self).cache_views().len() == 0,
    {
        self.cache = Vec::new();
        proof {
            assert(self.cache_views() =~= Seq::<(Seq<char>, ConfigData)>::empty());
        }
        let ghost entry = *self;
        let ghost entry_view = kv_view(entries@);
        let n = self.sources.len();
        let mut i: usize = 0;
        while i < n
            invariant
                i <= n,
                n == self.sources@.len(),
                self.sources@ == entry.sources@,
                self.resolved@.len() == entry.resolved@.len(),
                self.overrides@ == entry.overrides@,
                self.cache@ == entry.cache@,
                self.profile_manager == entry.profile_manager,
                forall|j: int|
                    0 <= j < self.resolved@.len() ==> self.source_maps()[j] == (if j < i
                        && entry.spec_sources()[j] is Environment {
                        entry_view
                    } else {
                        entry.source_maps()[j]
                    }),
            decreases n - i,
        {
            let ghost pre = *self;
            let is_env = match &self.sources[i] {
                ConfigSource::Environment => true,
                _ => false,
            };
            if is_env {
                let copied = copy_string_pairs(&entries);
                let ghost copied_view = kv_view(copied@);
                self.resolved[i] = copied;
                proof {
                    assert(copied_view == entry_view);
                    assert(self.resolved@ =~= pre.resolved@.update(i as int, copied));
                }
            }
            proof {
                assert forall|j: int|
                    0 <= j < self.resolved@.len() implies self.source_maps()[j] == (if j < i + 1
                        && entry.spec_sources()[j] is Environment {
                        entry_view
                    } else {
                        entry.source_maps()[j]
                    }) by {
                    if is_env && j == i {
                        assert(self.source_maps()[j] == kv_view(self.resolved@[j]@));
                    } else {
                        assert(self.resolved@[j] == pre.resolved@[j]);
                        assert(self.source_maps()[j] == pre.source_maps()[j]);
                        if j == i {
                            assert(!(entry.spec_sources()[j] is Environment));
                        }
                    }
                }
            }
            i += 1;
        }
    }

    /// Sets a runtime override: afterwards the key resolves to the given
    /// value and every other key resolves as before. The cache is
    /// cleared.
    pub fn set(&mut self, key: &str, value: ConfigValue)
        requires
            old(self).wf(),
        ensures
            final(self).wf(),
            final(self).override_views() == old(self).override_views().push((key@, value@)),
            final(self).source_maps() == old(self).source_maps(),
            final(self).spec_profiles() == old(self).spec_profiles(),
            final(self).spec_actives() == old(self).spec_actives(),
            final(self).spec_sources_len() == old(self).spec_sources_len(),
            final(self).cache_views().len() == 0,
            final(self).spec_resolve(key@) == Some(value@),
            forall|k2: Seq<char>|
                k2 != key@ ==> final(self).spec_resolve(k2) == old(self).spec_resolve(k2),
    {
        let ghost val_view = value@;
        self.overrides.push((key.to_owned(), value));
        self.cache = Vec::new();
        proof {
            assert(self.overrides@.drop_last() =~= old(self).overrides@);
            let ov = self.override_views();
            assert(ov.drop_last() =~= old(self).override_views());
            assert(ov.last() == (key@, val_view));
            assert(self.cache_views() =~= Seq::<(Seq<char>, ConfigData)>::empty());
            assert forall|k2: Seq<char>| k2 != key@ implies final(self).spec_resolve(k2) == old(
                self,
            ).spec_resolve(k2) by {
                assert(ov.drop_last() == old(self).override_views());
            }
        }
    }

    /// How many sources are registered.
    pub fn sources_count(&self) -> (r: usize)
        ensures
            r == self.spec_sources_len(),
    {
        self.sources.len()
    }

    /// Clears the lookup cache; the next lookup reads the sources,
    /// profiles and overrides afresh.
    pub fn invalidate_cache(&mut self)
        requires
            old(self).wf(),
        ensures
            final(self).wf(),
            final(self).cache_views().len() == 0,
            final(self).override_views() == old(self).override_views(),
            final(self).source_maps() == old(self).source_maps(),
            final(self).spec_profiles() == old(self).spec_profiles(),
            final(self).spec_actives() == old(self).spec_actives(),
            final(self).spec_sources_len() == old(self).spec_sources_len(),
    {
        self.cache = Vec::new();
        proof {
            assert(self.cache_views() =~= Seq::<(Seq<char>, ConfigData)>::empty());
        }
    }

    /// The profile manager.
    pub fn profile_manager(&self) -> (r: &ProfileManager)
        ensures
            r.spec_profiles() == self.spec_profiles(),
            r.spec_actives() == self.spec_actives(),
            self.wf() ==> r.wf(),
    {
        &self.profile_manager
    }

    /// Write access to the profile manager. The cache is cleared first,
    /// so that lookups after any profile change read the profiles afresh.
    pub fn profile_manager_mut(&mut self) -> &mut ProfileManager
        requires
            old(self).wf(),
    {
        self.cache = Vec::new();
        &mut self.profile_manager
    }

    /// Registers a profile, rejecting a duplicate name. The cache is
    /// cleared.
    pub fn add_profile(&mut self, profile: Profile) -> (r: ContextResult<()>)
        requires
            old(self).wf(),
        ensures
            final(self).wf(),
            r is Ok <==> !crate::profile::has_profile(
                old(self).spec_profiles(),
                profile.spec_name(),
            ),
            r is Ok ==> final(self).spec_profiles() == old(self).spec_profiles().push(profile),
            r matches Err(e) ==> final(self).spec_profiles() == old(self).spec_profiles() && e
                matches ContextError::InvalidConfiguration { .. },
            final(self).spec_actives() == old(self).spec_actives(),
            final(self).override_views() == old(self).override_views(),
            final(self).source_maps() == old(self).source_maps(),
            final(self).spec_sources_len() == old(self).spec_sources_len(),
            final(self).cache_views().len() == 0,
    {
        self.cache = Vec::new();
        proof {
            assert(self.cache_views() =~= Seq::<(Seq<char>, ConfigData)>::empty());
        }
        let r = self.profile_manager.add_profile(profile);
        r
    }

    /// Activates a profile by name, rejecting an unknown one. The cache
    /// is cleared.
    pub fn activate_profile(&mut self, profile_name: &str) -> (r: ContextResult<()>)
        requires
            old(self).wf(),
        ensures
            final(self).wf(),
            r is Ok <==> crate::profile::has_profile(old(self).spec_profiles(), profile_name@),
            r is Ok ==> final(self).spec_actives() == if old(self).spec_actives().contains(
                profile_name@,
            ) {
                old(self).spec_actives()
            } else {
                old(self).spec_actives().push(profile_name@)
            },
            r is Ok ==> final(self).spec_profiles().len() == old(self).spec_profiles().len()
                && (forall|i: int|
                0 <= i < old(self).spec_profiles().len()
                    ==> (#[trigger] final(self).spec_profiles()[i]).spec_name()
                    == old(self).spec_profiles()[i].spec_name()
                    && final(self).spec_profiles()[i].spec_props()
                    == old(self).spec_profiles()[i].spec_props()),
            r matches Err(e) ==> final(self).spec_actives() == old(self).spec_actives()
                && final(self).spec_profiles() == old(self).spec_profiles() && e
                matches ContextError::ProfileNotFound { .. },
            final(self).override_views() == old(self).override_views(),
            final(self).source_maps() == old(self).source_maps(),
            final(self).spec_sources_len() == old(self).spec_sources_len(),
            final(self).cache_views().len() == 0,
    {
        self.cache = Vec::new();
        proof {
            assert(self.cache_views() =~= Seq::<(Seq<char>, ConfigData)>::empty());
        }
        let r = self.profile_manager.activate_profile(profile_name);
        r
    }

    /// Deactivates a profile by name. The cache is cleared.
    pub fn deactivate_profile(&mut self, profile_name: &str)
        requires
            old(self).wf(),
        ensures
            final(self).wf(),
            final(self).spec_actives() == crate::profile::names_without(
                old(self).spec_actives(),
                profile_name@,
            ),
            final(self).override_views() == old(self).override_views(),
            final(self).source_maps() == old(self).source_maps(),
            final(self).spec_sources_len() == old(self).spec_sources_len(),
            final(self).cache_views().len() == 0,
    {
        self.cache = Vec::new();
        proof {
            assert(self.cache_views() =~= Seq::<(Seq<char>, ConfigData)>::empty());
        }
        self.profile_manager.deactivate_profile(profile_name);
    }

    /// Resolves a key: overrides first, then active profiles (the one
    /// activated last first), then sources (the one added last first).
    /// The result is cached; the cache never outlives a change to any
    /// layer, so a lookup always reflects the current layers.
    #[verifier::loop_isolation(false)]
    pub fn get(&mut self, key: &str) -> (r: Option<ConfigValue>)
        requires
            old(self).wf(),
        ensures
            final(self).wf(),
            match r {
                Some(v) => old(self).spec_resolve(key@) == Some(v@),
                None => old(self).spec_resolve(key@) is None,
            },
            final(self).override_views() == old(self).override_views(),
            final(self).source_maps() == old(self).source_maps(),
            final(self).spec_profiles() == old(self).spec_profiles(),
            final(self).spec_actives() == old(self).spec_actives(),
            final(self).spec_sources_len() == old(self).spec_sources_len(),
            forall|k2: Seq<char>| final(self).spec_resolve(k2) == old(self).spec_resolve(k2),
    {
        proof {
            lemma_cv_pair_views_index(self.cache@);
        }
        // a cached entry answers directly
        let key_owned = key.to_owned();
        let cn = self.cache.len();
        let mut ci: usize = 0;
        while ci < cn
            invariant
                ci <= cn,
            decreases cn - ci,
        {
            if self.cache[ci].0 == key_owned {
                proof {
                    assert(self.cache_views()[ci as int].0 == key@);
                }
                return Some(self.cache[ci].1.duplicate());
            }
            ci += 1;
        }
        // resolve afresh: overrides, then profiles, then sources
        let resolved_value: Option<ConfigValue> = self.fresh_resolve(key);
        match resolved_value {
            Some(v) => {
                let ghost entry = *self;
                let cached = v.duplicate();
                self.cache.push((key.to_owned(), cached));
                proof {
                    assert(self.cache@.drop_last() =~= entry.cache@);
                    let cv = self.cache_views();
                    assert(cv.drop_last() =~= entry.cache_views());
                    assert(cv.last() == (key@, v@));
                    lemma_cv_pair_views_index(entry.cache@);
                    assert forall|i: int|
                        0 <= i < cv.len() implies self.spec_resolve((#[trigger] cv[i]).0) == Some(
                        cv[i].1,
                    ) by {
                        if i < cv.len() - 1 {
                            assert(cv[i] == entry.cache_views()[i]);
                            assert(entry.spec_resolve(cv[i].0) == Some(cv[i].1));
                        }
                    }
                }
                Some(v)
            },
            None => None,
        }
    }

    /// Resolves a key from the layers, without touching the cache.
    #[verifier::loop_isolation(false)]
    fn fresh_resolve(&self, key: &str) -> (r: Option<ConfigValue>)
        requires
            self.wf(),
        ensures
            match r {
                Some(v) => self.spec_resolve(key@) == Some(v@),
                None => self.spec_resolve(key@) is None,
            },
    {
        proof {
            lemma_cv_pair_views_index(self.overrides@);
        }
        let key_owned = key.to_owned();
        // overrides, the one set last first
        let on = self.overrides.len();
        proof {
            assert(self.override_views().take(on as int) =~= self.override_views());
        }
        let mut oi: usize = on;
        while oi > 0
            invariant
                oi <= on,
                data_lookup(self.override_views(), key@) == data_lookup(
                    self.override_views().take(oi as int),
                    key@,
                ),
            decreases oi,
        {
            oi -= 1;
            proof {
                assert(self.override_views().take(oi + 1).drop_last() =~= self.override_views()
                    .take(oi as int));
                assert(self.override_views().take(oi + 1).last() == self.override_views()[
                    oi as int]);
            }
            if self.overrides[oi].0 == key_owned {
                return Some(self.overrides[oi].1.duplicate());
            }
        }
        proof {
            assert(self.override_views().take(0) =~= Seq::<(Seq<char>, ConfigData)>::empty());
        }
        // active profiles, the one activated last first
        match self.profile_manager.get_property(key) {
            Some(text) => {
                return Some(ConfigValue::String(text.to_owned()));
            },
            None => {},
        }
        // sources, the one added last first
        let sn = self.resolved.len();
        proof {
            assert(self.source_maps().take(sn as int) =~= self.source_maps());
        }
        let mut si: usize = sn;
        while si > 0
            invariant
                si <= sn,
                sources_value(self.source_maps(), key@) == sources_value(
                    self.source_maps().take(si as int),
                    key@,
                ),
            decreases si,
        {
            si -= 1;
            proof {
                assert(self.source_maps().take(si + 1).drop_last() =~= self.source_maps().take(
                    si as int,
                ));
                assert(self.source_maps().take(si + 1).last() == self.source_maps()[si as int]);
            }
            match kv_get(&self.resolved[si], key) {
                Some(text) => {
                    return Some(ConfigValue::String(text));
                },
                None => {},
            }
        }
        proof {
            assert(self.source_maps().take(0) =~= Seq::<Seq<(Seq<char>, Seq<char>)>>::empty());
        }
        None
    }

    /// Resolves a key and coerces the value to text; a missing key, or a
    /// value with no text form, is a configuration-not-found error.
    pub fn get_string(&mut self, key: &str) -> (r: ContextResult<String>)
        requires
            old(self).wf(),
        ensures
            final(self).wf(),
            match r {
                Ok(s) => old(self).spec_resolve(key@) matches Some(d) && data_scalar_text(d)
                    == Some(s@),
                Err(e) => (match old(self).spec_resolve(key@) {
                    Some(d) => data_scalar_text(d) is None,
                    None => true,
                }) && (e matches ContextError::ConfigurationNotFound { key: k } && k@ == key@),
            },
            forall|k2: Seq<char>| final(self).spec_resolve(k2) == old(self).spec_resolve(k2),
            final(self).spec_actives() == old(self).spec_actives(),
            final(self).spec_profiles() == old(self).spec_profiles(),
            final(self).spec_sources_len() == old(self).spec_sources_len(),
    {
        match self.get(key) {
            Some(v) => match v.as_string() {
                Some(s) => Ok(s),
                None => Err(ContextError::configuration_not_found(key)),
            },
            None => Err(ContextError::configuration_not_found(key)),
        }
    }

    /// Resolves a key and coerces the value to an integer; a missing key,
    /// or a value with no integer form, is a configuration-not-found
    /// error.
    pub fn get_integer(&mut self, key: &str) -> (r: ContextResult<i64>)
        requires
            old(self).wf(),
        ensures
            final(self).wf(),
            match r {
                Ok(v) => old(self).spec_resolve(key@) matches Some(d) && data_integer(d) == Some(
                    v as int,
                ),
                Err(e) => (match old(self).spec_resolve(key@) {
                    Some(d) => data_integer(d) is None,
                    None => true,
                }) && (e matches ContextError::ConfigurationNotFound { key: k } && k@ == key@),
            },
            forall|k2: Seq<char>| final(self).spec_resolve(k2) == old(self).spec_resolve(k2),
            final(self).spec_actives() == old(self).spec_actives(),
            final(self).spec_profiles() == old(self).spec_profiles(),
            final(self).spec_sources_len() == old(self).spec_sources_len(),
    {
        match self.get(key) {
            Some(v) => match v.as_integer() {
                Some(n) => Ok(n),
                None => Err(ContextError::configuration_not_found(key)),
            },
            None => Err(ContextError::configuration_not_found(key)),
        }
    }

    /// Resolves a key and coerces the value to a boolean; a missing key,
    /// or a value with no boolean form, is a configuration-not-found
    /// error.
    pub fn get_boolean(&mut self, key: &str) -> (r: ContextResult<bool>)
        requires
            old(self).wf(),
        ensures
            final(self).wf(),
            match r {
                Ok(v) => old(self).spec_resolve(key@) matches Some(d) && data_boolean(d) == Some(
                    v,
                ),
                Err(e) => (match old(self).spec_resolve(key@) {
                    Some(d) => data_boolean(d) is None,
                    None => true,
                }) && (e matches ContextError::ConfigurationNotFound { key: k } && k@ == key@),
            },
            forall|k2: Seq<char>| final(self).spec_resolve(k2) == old(self).spec_resolve(k2),
            final(self).spec_actives() == old(self).spec_actives(),
            final(self).spec_profiles() == old(self).spec_profiles(),
            final(self).spec_sources_len() == old(self).spec_sources_len(),
    {
        match self.get(key) {
            Some(v) => match v.as_boolean() {
                Some(b) => Ok(b),
                None => Err(ContextError::configuration_not_found(key)),
            },
            None => Err(ContextError::configuration_not_found(key)),
        }
    }

    /// Resolves a key to text, or falls back to the given default.
    pub fn get_string_or_default(&mut self, key: &str, default: &str) -> (r: String)
        requires
            old(self).wf(),
        ensures
            final(self).wf(),
            r@ == match old(self).spec_resolve(key@) {
                Some(d) => match data_scalar_text(d) {
                    Some(t) => t,
                    None => default@,
                },
                None => default@,
            },
            forall|k2: Seq<char>| final(self).spec_resolve(k2) == old(self).spec_resolve(k2),
            final(self).spec_actives() == old(self).spec_actives(),
            final(self).spec_profiles() == old(self).spec_profiles(),
            final(self).spec_sources_len() == old(self).spec_sources_len(),
    {
        match self.get_string(key) {
            Ok(s) => s,
            Err(_) => default.to_owned(),
        }
    }

    /// Resolves a key to an integer, or falls back to the given default.
    pub fn get_integer_or_default(&mut self, key: &str, default: i64) -> (r: i64)
        requires
            old(self).wf(),
        ensures
            final(self).wf(),
            r as int == match old(self).spec_resolve(key@) {
                Some(d) => match data_integer(d) {
                    Some(v) => v,
                    None => default as int,
                },
                None => default as int,
            },
            forall|k2: Seq<char>| final(self).spec_resolve(k2) == old(self).spec_resolve(k2),
            final(self).spec_actives() == old(self).spec_actives(),
            final(self).spec_profiles() == old(self).spec_profiles(),
            final(self).spec_sources_len() == old(self).spec_sources_len(),
    {
        match self.get_integer(key) {
            Ok(v) => v,
            Err(_) => default,
        }
    }

    /// Resolves a key to a boolean, or falls back to the given default.
    pub fn get_boolean_or_default(&mut self, key: &str, default: bool) -> (r: bool)
        requires
            old(self).wf(),
        ensures
            final(self).wf(),
            r == match old(self).spec_resolve(key@) {
                Some(d) => match data_boolean(d) {
                    Some(v) => v,
                    None => default,
                },
                None => default,
            },
            forall|k2: Seq<char>| final(self).spec_resolve(k2) == old(self).spec_resolve(k2),
            final(self).spec_actives() == old(self).spec_actives(),
            final(self).spec_profiles() == old(self).spec_profiles(),
            final(self).spec_sources_len() == old(self).spec_sources_len(),
    {
        match self.get_boolean(key) {
            Ok(v) => v,
            Err(_) => default,
        }
    }

    /// Registers a TOML file source by path. The verified core performs
    /// no file reading: the source defines no entries until the embedding
    /// application attaches the file's content with
    /// [`Self::add_source_content`].
    pub fn load_from_toml_file(&mut self, path: &str) -> (r: ContextResult<()>)
        requires
            old(self).wf(),
        ensures
            final(self).wf(),
            r is Ok,
            final(self).spec_sources_len() == old(self).spec_sources_len() + 1,
    {
        self.add_source(ConfigSource::TomlFile(path.to_owned()))
    }

    /// Registers a YAML file source by path; see
    /// [`Self::load_from_toml_file`] on content.
    pub fn load_from_yaml_file(&mut self, path: &str) -> (r: ContextResult<()>)
        requires
            old(self).wf(),
        ensures
            final(self).wf(),
            r is Ok,
            final(self).spec_sources_len() == old(self).spec_sources_len() + 1,
    {
        self.add_source(ConfigSource::YamlFile(path.to_owned()))
    }

    /// Registers a properties file source by path; see
    /// [`Self::load_from_toml_file`] on content.
    pub fn load_from_properties_file(&mut self, path: &str) -> (r: ContextResult<()>)
        requires
            old(self).wf(),
        ensures
            final(self).wf(),
            r is Ok,
            final(self).spec_sources_len() == old(self).spec_sources_len() + 1,
    {
        self.add_source(ConfigSource::PropertiesFile(path.to_owned()))
    }

    /// Registers a format-detected file source by path; see
    /// [`Self::load_from_toml_file`] on content.
    pub fn load_from_config_file(&mut self, path: &str) -> (r: ContextResult<()>)
        requires
            old(self).wf(),
        ensures
            final(self).wf(),
            r is Ok,
            final(self).spec_sources_len() == old(self).spec_sources_len() + 1,
    {
        self.add_source(ConfigSource::ConfigFile(path.to_owned()))
    }
}


/// The law of source precedence: a key defined by the source added last
/// resolves to that source's value, whatever earlier sources say.
pub proof fn lemma_last_added_source_wins(
    maps: Seq<Seq<(Seq<char>, Seq<char>)>>,
    m: Seq<(Seq<char>, Seq<char>)>,
    key: Seq<char>,
)
    requires
        kv_lookup(m, key) is Some,
    ensures
        sources_value(maps.push(m), key) == kv_lookup(m, key),
{
    assert(maps.push(m).last() == m);
}

/// The law of profile precedence: a key defined by the profile activated
/// last resolves to that profile's value, whatever profiles activated
/// earlier say.
pub proof fn lemma_last_activated_profile_wins(
    profiles: Seq<Profile>,
    actives: Seq<Seq<char>>,
    name: Seq<char>,
    key: Seq<char>,
)
    requires
        crate::profile::has_profile(profiles, name),
        kv_lookup(crate::profile::profile_at(profiles, name).spec_props(), key) is Some,
    ensures
        active_value(profiles, actives.push(name), key) == kv_lookup(
            crate::profile::profile_at(profiles, name).spec_props(),
            key,
        ),
{
    assert(actives.push(name).last() == name);
}

/// Copies a list of key-value string pairs.
#[verifier::loop_isolation(false)]
fn copy_string_pairs(v: &Vec<(String, String)>) -> (r: Vec<(String, String)>)
    ensures
        kv_view(r@) == kv_view(v@),
{
    proof {
        lemma_kv_view_index(v@);
    }
    let n = v.len();
    let mut out: Vec<(String, String)> = Vec::new();
    let mut i: usize = 0;
    while i < n
        invariant
            i <= n,
            out@.len() == i,
            kv_view(out@) =~= kv_view(v@).take(i as int),
        decreases n - i,
    {
        let ghost before = out@;
        out.push((v[i].0.clone(), v[i].1.clone()));
        proof {
            assert(out@.drop_last() =~= before);
            assert(kv_view(out@) =~= kv_view(v@).take(i + 1));
        }
        i += 1;
    }
    proof {
        assert(kv_view(v@).take(n as int) =~= kv_view(v@));
    }
    out
}

/// Whether the characters end with the given text.
#[verifier::loop_isolation(false)]
fn chars_suffix_text(v: &Vec<char>, suffix: &str) -> (r: bool)
    ensures
        r == has_suffix(v@, suffix@),
{
    let sc = chars_of(suffix);
    let n = v.len();
    let m = sc.len();
    if n < m {
        return false;
    }
    let start = n - m;
    let mut i: usize = 0;
    while i < m
        invariant
            i <= m,
            n - m == start,
            m <= n,
            n == v@.len(),
            m == sc@.len(),
            sc@ == suffix@,
            forall|j: int| 0 <= j < i ==> v@[start + j] == suffix@[j],
        decreases m - i,
    {
        if v[start + i] != sc[i] {
            proof {
                assert(v@.skip(n - m)[i as int] == v@[start + i]);
            }
            return false;
        }
        i += 1;
    }
    proof {
        assert(v@.skip(n - m) =~= suffix@);
    }
    true
}

/// The environment variable name for a configuration key: ASCII letters
/// raised to upper case and dots replaced with underscores.
pub open spec fn env_name_of(key: Seq<char>) -> Seq<char> {
    key.map_values(
        |c: char|
            if c == '.' {
                '_'
            } else {
                ascii_upper_char(c)
            },
    )
}

/// The environment variable that backs a configuration key, by the
/// `A_B`-from-`a.b` rule.
#[verifier::loop_isolation(false)]
pub fn env_var_name(key: &str) -> (r: String)
    ensures
        r@ == env_name_of(key@),
{
    let cs = chars_of(key);
    let n = cs.len();
    let mut out: Vec<char> = Vec::new();
    let mut i: usize = 0;
    while i < n
        invariant
            i <= n,
            n == cs@.len(),
            cs@ == key@,
            out@ =~= env_name_of(key@).take(i as int),
        decreases n - i,
    {
        let c = cs[i];
        if c == '.' {
            out.push('_');
        } else {
            let u = c as u32;
            if 97 <= u && u <= 122 {
                out.push(((u - 32) as u8) as char);
            } else {
                out.push(c);
            }
        }
        proof {
            assert(out@ =~= env_name_of(key@).take(i + 1));
        }
        i += 1;
    }
    proof {
        assert(env_name_of(key@).take(n as int) =~= env_name_of(key@));
    }
    string_from_chars(&out)
}

} // verus!
