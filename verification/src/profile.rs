//! Environment profiles: named bundles of properties that can be
//! activated and deactivated, with the precedence rule that the profile
//! activated last wins a lookup.

use vstd::prelude::*;
use vstd::string::StringExecFns;
use crate::errors::{ContextError, ContextResult};
use crate::strutil::{kv_lookup, kv_view, lemma_kv_view_index};

verus! {

/// A named bundle of configuration properties with an active flag.
#[derive(Debug)]
pub struct Profile {
    /// The profile's name.
    name: String,
    /// The profile's properties.
    properties: Vec<(String, String)>,
    /// Whether the profile is currently active.
    active: bool,
}

impl Profile {
    /// The profile's name.
    pub closed spec fn spec_name(self) -> Seq<char> {
        self.name@
    }

    /// The profile's properties, as key-value texts in storage order.
    pub closed spec fn spec_props(self) -> Seq<(Seq<char>, Seq<char>)> {
        kv_view(self.properties@)
    }

    /// Whether the profile is active.
    pub closed spec fn spec_active(self) -> bool {
        self.active
    }

    /// Creates an inactive profile with the given name and properties.
    pub fn new(name: &str, properties: Vec<(String, String)>) -> (r: Self)
        ensures
            r.spec_name() == name@,
            r.spec_props() == kv_view(properties@),
            !r.spec_active(),
    {
        Profile { name: name.to_owned(), properties, active: false }
    }

    /// The profile's name.
    pub fn name(&self) -> (r: &str)
        ensures
            r@ == self.spec_name(),
    {
        self.name.as_str()
    }

    /// Whether the profile is active.
    pub fn is_active(&self) -> (r: bool)
        ensures
            r == self.spec_active(),
    {
        self.active
    }

    /// Sets whether the profile is active.
    pub fn set_active(&mut self, active: bool)
        ensures
            final(self).spec_active() == active,
            final(self).spec_name() == old(self).spec_name(),
            final(self).spec_props() == old(self).spec_props(),
    {
        self.active = active;
    }

    /// The value of a property, if the profile defines it.
    #[verifier::loop_isolation(false)]
    pub fn get_property(&self, key: &str) -> (r: Option<&str>)
        ensures
            match r {
                Some(s) => kv_lookup(self.spec_props(), key@) == Some(s@),
                None => kv_lookup(self.spec_props(), key@) is None,
            },
    {
        proof {
            lemma_kv_view_index(self.properties@);
        }
        let key_owned = key.to_owned();
        let n = self.properties.len();
        proof {
            assert(kv_view(self.properties@).take(n as int) =~= kv_view(self.properties@));
        }
        let mut i: usize = n;
        while i > 0
            invariant
                i <= n,
                key_owned@ == key@,
                kv_lookup(self.spec_props(), key@) == kv_lookup(
                    kv_view(self.properties@).take(i as int),
                    key@,
                ),
            decreases i,
        {
            i -= 1;
            proof {
                assert(kv_view(self.properties@).take(i + 1).drop_last() =~= kv_view(
                    self.properties@,
                ).take(i as int));
                assert(kv_view(self.properties@).take(i + 1).last() == kv_view(
                    self.properties@,
                )[i as int]);
            }
            if self.properties[i].0 == key_owned {
                return Some(self.properties[i].1.as_str());
            }
        }
        proof {
            assert(kv_view(self.properties@).take(0) =~= Seq::<(Seq<char>, Seq<char>)>::empty());
        }
        None
    }

    /// Sets a property: afterwards the key reads as the given value, and
    /// every other key reads as before.
    #[verifier::loop_isolation(false)]
    pub fn set_property(&mut self, key: &str, value: &str)
        ensures
            final(self).spec_name() == old(self).spec_name(),
            final(self).spec_active() == old(self).spec_active(),
            kv_lookup(final(self).spec_props(), key@) == Some(value@),
            forall|k2: Seq<char>|
                k2 != key@ ==> kv_lookup(final(self).spec_props(), k2) == kv_lookup(
                    old(self).spec_props(),
                    k2,
                ),
    {
        let ghost before = self.properties@;
        self.properties.push((key.to_owned(), value.to_owned()));
        proof {
            assert(self.properties@.drop_last() =~= before);
            let pv = kv_view(self.properties@);
            assert(pv.drop_last() =~= kv_view(before));
            assert(pv.last() == (key@, value@));
            assert forall|k2: Seq<char>| k2 != key@ implies kv_lookup(pv, k2) == kv_lookup(
                kv_view(before),
                k2,
            ) by {
                assert(pv.drop_last() == kv_view(before));
            }
        }
    }

    /// The profile's properties, as stored.
    pub fn properties(&self) -> (r: &Vec<(String, String)>)
        ensures
            kv_view(r@) == self.spec_props(),
    {
        &self.properties
    }

    /// Write access to the profile's properties, as stored.
    pub fn properties_mut(&mut self) -> &mut Vec<(String, String)> {
        &mut self.properties
    }
}

/// Whether some profile in the sequence has the given name.
pub open spec fn has_profile(profiles: Seq<Profile>, name: Seq<char>) -> bool {
    exists|i: int| 0 <= i < profiles.len() && profiles[i].spec_name() == name
}

/// The profile with the given name.
pub open spec fn profile_at(profiles: Seq<Profile>, name: Seq<char>) -> Profile {
    profiles[choose|i: int| 0 <= i < profiles.len() && profiles[i].spec_name() == name]
}

/// Whether no two profiles share a name.
pub open spec fn distinct_profile_names(profiles: Seq<Profile>) -> bool {
    forall|i: int, j: int|
        0 <= i < j < profiles.len() ==> profiles[i].spec_name() != profiles[j].spec_name()
}

/// The value a key resolves to through a list of active profile names,
/// where the name activated last wins.
pub open spec fn active_value(
    profiles: Seq<Profile>,
    actives: Seq<Seq<char>>,
    key: Seq<char>,
) -> Option<Seq<char>>
    decreases actives.len(),
{
    if actives.len() == 0 {
        None
    } else {
        let v = if has_profile(profiles, actives.last()) {
            kv_lookup(profile_at(profiles, actives.last()).spec_props(), key)
        } else {
            None
        };
        match v {
            Some(s) => Some(s),
            None => active_value(profiles, actives.drop_last(), key),
        }
    }
}

/// The names of a sequence, with the given one removed.
pub open spec fn names_without(actives: Seq<Seq<char>>, name: Seq<char>) -> Seq<Seq<char>>
    decreases actives.len(),
{
    if actives.len() == 0 {
        Seq::empty()
    } else if actives.last() == name {
        names_without(actives.drop_last(), name)
    } else {
        names_without(actives.drop_last(), name).push(actives.last())
    }
}

/// A collection of profiles and the names of the active ones, in
/// activation order.
#[derive(Debug)]
pub struct ProfileManager {
    /// All registered profiles; names are distinct.
    profiles: Vec<Profile>,
    /// The names of the active profiles, earliest activation first.
    active_profiles: Vec<String>,
}

impl ProfileManager {
    /// The registered profiles.
    pub closed spec fn spec_profiles(self) -> Seq<Profile> {
        self.profiles@
    }

    /// The names of the active profiles, earliest activation first.
    pub closed spec fn spec_actives(self) -> Seq<Seq<char>> {
        self.active_profiles@.map_values(|s: String| s@)
    }

    /// Validity: profile names are distinct and every active name has a
    /// profile.
    pub closed spec fn wf(self) -> bool {
        &&& distinct_profile_names(self.profiles@)
        &&& forall|i: int|
            0 <= i < self.spec_actives().len() ==> has_profile(
                self.profiles@,
                #[trigger] self.spec_actives()[i],
            )
    }

    /// Creates an empty profile manager.
    pub fn new() -> (r: Self)
        ensures
            r.wf(),
            r.spec_profiles().len() == 0,
            r.spec_actives().len() == 0,
    {
        ProfileManager { profiles: Vec::new(), active_profiles: Vec::new() }
    }

    /// Looks up the position of a profile by name.
    #[verifier::loop_isolation(false)]
    fn find_profile(&self, name: &str) -> (r: Option<usize>)
        requires
            distinct_profile_names(self.profiles@),
        ensures
            match r {
                Some(i) => i < self.profiles@.len() && self.profiles@[i as int].spec_name()
                    == name@ && has_profile(self.profiles@, name@) && self.profiles@[i as int]
                    == profile_at(self.profiles@, name@),
                None => !has_profile(self.profiles@, name@),
            },
    {
        let n = self.profiles.len();
        let mut i: usize = 0;
        while i < n
            invariant
                i <= n,
                forall|j: int| 0 <= j < i ==> self.profiles@[j].spec_name() != name@,
            decreases n - i,
        {
            let pname = self.profiles[i].name();
            if pname.to_owned() == name.to_owned() {
                proof {
                    assert(has_profile(self.profiles@, name@));
                    let j = choose|j: int|
                        0 <= j < self.profiles@.len() && self.profiles@[j].spec_name() == name@;
                    assert(j == i);
                }
                return Some(i);
            }
            i += 1;
        }
        None
    }

    /// Registers a profile. A profile whose name is already registered is
    /// rejected and leaves the manager unchanged.
    pub fn add_profile(&mut self, profile: Profile) -> (r: ContextResult<()>)
        requires
            old(self).wf(),
        ensures
            final(self).wf(),
            r is Ok <==> !has_profile(old(self).spec_profiles(), profile.spec_name()),
            r is Ok ==> final(self).spec_profiles() == old(self).spec_profiles().push(profile),
            r is Err ==> *final(self) == *old(self),
            r matches Err(e) ==> e matches ContextError::InvalidConfiguration { .. },
            final(self).spec_actives() == old(self).spec_actives(),
    {
        match self.find_profile(profile.name()) {
            Some(_) => {
                let key = "profile.".to_owned().concat(profile.name());
                Err(ContextError::invalid_configuration(key.as_str(), "Profile already exists"))
            },
            None => {
                let ghost before = self.profiles@;
                self.profiles.push(profile);
                proof {
                    assert forall|a: int, b: int|
                        0 <= a < b < self.profiles@.len() implies self.profiles@[a].spec_name()
                        != self.profiles@[b].spec_name() by {
                        if b == self.profiles@.len() - 1 {
                            assert(self.profiles@[a] == before[a]);
                        } else {
                            assert(self.profiles@[a] == before[a]);
                            assert(self.profiles@[b] == before[b]);
                        }
                    }
                    assert forall|i: int|
                        0 <= i < self.spec_actives().len() implies has_profile(
                        self.profiles@,
                        #[trigger] self.spec_actives()[i],
                    ) by {
                        assert(old(self).spec_actives()[i] == self.spec_actives()[i]);
                        assert(has_profile(before, self.spec_actives()[i]));
                        let j = choose|j: int|
                            0 <= j < before.len() && before[j].spec_name()
                                == self.spec_actives()[i];
                        assert(self.profiles@[j].spec_name() == self.spec_actives()[i]);
                    }
                }
                Ok(())
            },
        }
    }

    /// Whether a name is among the active names.
    #[verifier::loop_isolation(false)]
    fn active_contains(&self, name: &str) -> (r: bool)
        ensures
            r == self.spec_actives().contains(name@),
    {
        let n = self.active_profiles.len();
        let name_owned = name.to_owned();
        let mut i: usize = 0;
        while i < n
            invariant
                i <= n,
                name_owned@ == name@,
                forall|j: int| 0 <= j < i ==> self.spec_actives()[j] != name@,
            decreases n - i,
        {
            if self.active_profiles[i] == name_owned {
                proof {
                    assert(self.spec_actives()[i as int] == name@);
                }
                return true;
            }
            i += 1;
        }
        proof {
            if self.spec_actives().contains(name@) {
                let j = choose|j: int|
                    0 <= j < self.spec_actives().len() && self.spec_actives()[j] == name@;
            }
        }
        false
    }

    /// Activates a profile: marks it active and appends its name to the
    /// active list unless it is already there. A name with no profile is
    /// rejected and leaves the manager unchanged.
    pub fn activate_profile(&mut self, profile_name: &str) -> (r: ContextResult<()>)
        requires
            old(self).wf(),
        ensures
            final(self).wf(),
            r is Ok <==> has_profile(old(self).spec_profiles(), profile_name@),
            r matches Err(e) ==> *final(self) == *old(self) && (e
                matches ContextError::ProfileNotFound { profile } && profile@ == profile_name@),
            r is Ok ==> {
                &&& final(self).spec_actives() == if old(self).spec_actives().contains(
                    profile_name@,
                ) {
                    old(self).spec_actives()
                } else {
                    old(self).spec_actives().push(profile_name@)
                }
                &&& final(self).spec_profiles().len() == old(self).spec_profiles().len()
                &&& forall|i: int|
                    0 <= i < old(self).spec_profiles().len() ==> {
                        &&& (#[trigger] final(self).spec_profiles()[i]).spec_name() == old(
                            self,
                        ).spec_profiles()[i].spec_name()
                        &&& final(self).spec_profiles()[i].spec_props() == old(
                            self,
                        ).spec_profiles()[i].spec_props()
                        &&& final(self).spec_profiles()[i].spec_active() == (old(
                            self,
                        ).spec_profiles()[i].spec_active() || old(self).spec_profiles()[i]
                            .spec_name() == profile_name@)
                    }
            },
    {
        let found = self.find_profile(profile_name);
        match found {
            None => Err(ContextError::profile_not_found(profile_name)),
            Some(i) => {
                let ghost before = *self;
                self.profiles[i].set_active(true);
                proof {
                    assert forall|a: int, b: int|
                        0 <= a < b < self.profiles@.len() implies self.profiles@[a].spec_name()
                        != self.profiles@[b].spec_name() by {
                        assert(self.profiles@[a].spec_name() == before.profiles@[a].spec_name());
                        assert(self.profiles@[b].spec_name() == before.profiles@[b].spec_name());
                    }
                    assert forall|j: int|
                        0 <= j < self.spec_actives().len() implies has_profile(
                        self.profiles@,
                        #[trigger] self.spec_actives()[j],
                    ) by {
                        assert(before.spec_actives()[j] == self.spec_actives()[j]);
                        assert(has_profile(before.profiles@, self.spec_actives()[j]));
                        let k = choose|k: int|
                            0 <= k < before.profiles@.len() && before.profiles@[k].spec_name()
                                == self.spec_actives()[j];
                        assert(self.profiles@[k].spec_name() == self.spec_actives()[j]);
                    }
                }
                if !self.active_contains(profile_name) {
                    let ghost mid_actives = self.spec_actives();
                    self.active_profiles.push(profile_name.to_owned());
                    proof {
                        assert(self.spec_actives() =~= mid_actives.push(profile_name@));
                        assert forall|j: int|
                            0 <= j < self.spec_actives().len() implies has_profile(
                            self.profiles@,
                            #[trigger] self.spec_actives()[j],
                        ) by {
                            if j == self.spec_actives().len() - 1 {
                                assert(self.profiles@[i as int].spec_name() == profile_name@);
                            } else {
                                assert(self.spec_actives()[j] == mid_actives[j]);
                            }
                        }
                    }
                }
                Ok(())
            },
        }
    }

    /// Deactivates a profile: clears its active flag and removes its name
    /// from the active list. An unknown name changes nothing.
    #[verifier::loop_isolation(false)]
    pub fn deactivate_profile(&mut self, profile_name: &str)
        requires
            old(self).wf(),
        ensures
            final(self).wf(),
            final(self).spec_actives() == names_without(old(self).spec_actives(), profile_name@),
            final(self).spec_profiles().len() == old(self).spec_profiles().len(),
            forall|i: int|
                0 <= i < old(self).spec_profiles().len() ==> {
                    &&& (#[trigger] final(self).spec_profiles()[i]).spec_name() == old(
                        self,
                    ).spec_profiles()[i].spec_name()
                    &&& final(self).spec_profiles()[i].spec_props() == old(
                        self,
                    ).spec_profiles()[i].spec_props()
                    &&& final(self).spec_profiles()[i].spec_active() == (old(
                        self,
                    ).spec_profiles()[i].spec_active() && old(self).spec_profiles()[i].spec_name()
                        != profile_name@)
                },
    {
        let found = self.find_profile(profile_name);
        let ghost entry = *self;
        match found {
            Some(i) => {
                self.profiles[i].set_active(false);
                proof {
                    assert forall|a: int, b: int|
                        0 <= a < b < self.profiles@.len() implies self.profiles@[a].spec_name()
                        != self.profiles@[b].spec_name() by {
                        assert(self.profiles@[a].spec_name() == entry.profiles@[a].spec_name());
                        assert(self.profiles@[b].spec_name() == entry.profiles@[b].spec_name());
                    }
                    assert forall|i2: int|
                        0 <= i2 < entry.spec_profiles().len() implies {
                        &&& (#[trigger] self.profiles@[i2]).spec_name() == entry.profiles@[
                            i2].spec_name()
                        &&& self.profiles@[i2].spec_props() == entry.profiles@[i2].spec_props()
                        &&& self.profiles@[i2].spec_active() == (entry.profiles@[i2].spec_active()
                            && entry.profiles@[i2].spec_name() != profile_name@)
                    } by {
                        if i2 != i {
                            assert(entry.profiles@[i2].spec_name() != profile_name@);
                        }
                    }
                }
            },
            None => {
                proof {
                    assert forall|i2: int|
                        0 <= i2 < entry.spec_profiles().len() implies entry.profiles@[
                        i2].spec_name() != profile_name@ by {}
                }
            },
        }
        let ghost mid = *self;
        let n = self.active_profiles.len();
        let mut kept: Vec<String> = Vec::new();
        let mut i: usize = 0;
        let name_owned = profile_name.to_owned();
        while i < n
            invariant
                i <= n,
                name_owned@ == profile_name@,
                n == mid.active_profiles@.len(),
                self.active_profiles@ == mid.active_profiles@,
                self.profiles@ == mid.profiles@,
                kept@.map_values(|s: String| s@) == names_without(
                    mid.spec_actives().take(i as int),
                    profile_name@,
                ),
            decreases n - i,
        {
            proof {
                assert(mid.spec_actives().take(i + 1).drop_last() =~= mid.spec_actives().take(
                    i as int,
                ));
                assert(mid.spec_actives().take(i + 1).last() == mid.spec_actives()[i as int]);
            }
            if self.active_profiles[i] == name_owned {
                proof {
                    assert(mid.spec_actives()[i as int] == profile_name@);
                }
            } else {
                let ghost kept_before = kept@;
                kept.push(self.active_profiles[i].clone());
                proof {
                    assert(mid.spec_actives()[i as int] != profile_name@);
                    assert(kept@.drop_last() =~= kept_before);
                    assert(kept@.map_values(|s: String| s@) =~= kept_before.map_values(
                        |s: String| s@,
                    ).push(mid.spec_actives()[i as int]));
                }
            }
            i += 1;
        }
        proof {
            assert(mid.spec_actives().take(n as int) =~= mid.spec_actives());
        }
        self.active_profiles = kept;
        proof {
            assert(mid.spec_actives() == entry.spec_actives());
            assert forall|j: int|
                0 <= j < mid.spec_actives().len() implies has_profile(
                mid.profiles@,
                #[trigger] mid.spec_actives()[j],
            ) by {
                assert(has_profile(entry.profiles@, entry.spec_actives()[j]));
                let k = choose|k: int|
                    0 <= k < entry.profiles@.len() && entry.profiles@[k].spec_name()
                        == mid.spec_actives()[j];
                assert(mid.profiles@[k].spec_name() == mid.spec_actives()[j]);
            }
            assert(self.spec_actives() == names_without(mid.spec_actives(), profile_name@));
            assert forall|j: int|
                0 <= j < self.spec_actives().len() implies has_profile(
                self.profiles@,
                #[trigger] self.spec_actives()[j],
            ) by {
                lemma_names_without_sub(mid.spec_actives(), profile_name@);
                assert(names_without(mid.spec_actives(), profile_name@)[j]
                    == self.spec_actives()[j]);
                assert(names_without(mid.spec_actives(), profile_name@).contains(
                    self.spec_actives()[j],
                ));
                assert(mid.spec_actives().contains(self.spec_actives()[j]));
                let k = choose|k: int|
                    0 <= k < mid.spec_actives().len() && mid.spec_actives()[k]
                        == self.spec_actives()[j];
                assert(has_profile(mid.profiles@, mid.spec_actives()[k]));
            }
        }
    }

    /// How many properties a named profile holds, or zero for an unknown
    /// name.
    pub fn get_profile_properties_count(&self, profile_name: &str) -> (r: usize)
        requires
            distinct_profile_names(self.spec_profiles()),
        ensures
            r == if has_profile(self.spec_profiles(), profile_name@) {
                profile_at(self.spec_profiles(), profile_name@).spec_props().len()
            } else {
                0
            },
    {
        match self.find_profile(profile_name) {
            Some(i) => {
                let p = &self.profiles[i];
                proof {
                    lemma_kv_view_index(p.properties@);
                }
                p.properties.len()
            },
            None => 0,
        }
    }

    /// The value of a property, found in the active profiles, where the
    /// profile activated last wins.
    #[verifier::loop_isolation(false)]
    pub fn get_property(&self, key: &str) -> (r: Option<&str>)
        requires
            self.wf(),
        ensures
            match r {
                Some(s) => active_value(self.spec_profiles(), self.spec_actives(), key@) == Some(
                    s@,
                ),
                None => active_value(self.spec_profiles(), self.spec_actives(), key@) is None,
            },
    {
        let n = self.active_profiles.len();
        proof {
            assert(self.spec_actives().take(n as int) =~= self.spec_actives());
        }
        let mut i: usize = n;
        while i > 0
            invariant
                i <= n,
                active_value(self.spec_profiles(), self.spec_actives(), key@) == active_value(
                    self.spec_profiles(),
                    self.spec_actives().take(i as int),
                    key@,
                ),
            decreases i,
        {
            i -= 1;
            proof {
                assert(self.spec_actives().take(i + 1).drop_last() =~= self.spec_actives().take(
                    i as int,
                ));
                assert(self.spec_actives().take(i + 1).last() == self.spec_actives()[i as int]);
            }
            let name = &self.active_profiles[i];
            match self.find_profile(name.as_str()) {
                Some(pi) => {
                    match self.profiles[pi].get_property(key) {
                        Some(value) => {
                            return Some(value);
                        },
                        None => {},
                    }
                },
                None => {},
            }
        }
        proof {
            assert(self.spec_actives().take(0) =~= Seq::<Seq<char>>::empty());
        }
        None
    }

    /// The names of the active profiles, earliest activation first.
    pub fn active_profiles(&self) -> (r: &Vec<String>)
        ensures
            r@.map_values(|s: String| s@) == self.spec_actives(),
    {
        &self.active_profiles
    }

    /// The registered profiles, in registration order.
    pub fn profiles(&self) -> (r: &Vec<Profile>)
        ensures
            r@ == self.spec_profiles(),
    {
        &self.profiles
    }

    /// The profile with the given name, if registered.
    pub fn get_profile(&self, name: &str) -> (r: Option<&Profile>)
        requires
            distinct_profile_names(self.spec_profiles()),
        ensures
            match r {
                Some(p) => has_profile(self.spec_profiles(), name@) && *p == profile_at(
                    self.spec_profiles(),
                    name@,
                ),
                None => !has_profile(self.spec_profiles(), name@),
            },
    {
        match self.find_profile(name) {
            Some(i) => Some(&self.profiles[i]),
            None => None,
        }
    }

    /// Write access to the profile with the given name, if registered.
    pub fn get_profile_mut(&mut self, name: &str) -> Option<&mut Profile>
        requires
            distinct_profile_names(old(self).spec_profiles()),
    {
        match self.find_profile(name) {
            Some(i) => Some(&mut self.profiles[i]),
            None => None,
        }
    }
}

/// Every name kept by a removal was in the list before it.
proof fn lemma_names_without_sub(actives: Seq<Seq<char>>, name: Seq<char>)
    ensures
        forall|x: Seq<char>|
            #[trigger] names_without(actives, name).contains(x) ==> actives.contains(x),
    decreases actives.len(),
{
    if actives.len() > 0 {
        lemma_names_without_sub(actives.drop_last(), name);
        assert forall|x: Seq<char>|
            #[trigger] names_without(actives, name).contains(x) implies actives.contains(x) by {
            let w = names_without(actives, name);
            let i = choose|i: int| 0 <= i < w.len() && w[i] == x;
            if actives.last() != name && i == w.len() - 1 {
                assert(actives[actives.len() - 1] == x);
            } else {
                assert(names_without(actives.drop_last(), name).contains(x));
                let j = choose|j: int|
                    0 <= j < actives.drop_last().len() && actives.drop_last()[j] == x;
                assert(actives[j] == x);
            }
        }
    }
}

} // verus!
