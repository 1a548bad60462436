//! The configuration store: a set of uniquely named profiles with at
//! most one of them active.
//!
//! The store owns the in-memory view of all configurations and the
//! active marker; mutation goes through the store's operations, which
//! keep names unique and the active pointer consistent. Persistence is
//! a caller concern: the store is opened from plain name/content pairs
//! and read back out the same way.

use vstd::prelude::*;
use crate::error::{Error, ErrorView};
use crate::keyfile::{spec_parse, str_eq};
use crate::properties::{Properties, PropsView};

verus! {

// ---------------------------------------------------------------------------
// Names
// ---------------------------------------------------------------------------
/// Characters allowed in a configuration name: safe for use as a
/// filesystem segment.
pub open spec fn is_name_char(c: char) -> bool {
    ('a' <= c && c <= 'z') || ('A' <= c && c <= 'Z') || ('0' <= c && c <= '9') || c == '-' || c
        == '_'
}

/// A valid configuration name: non-empty, every character allowed.
pub open spec fn valid_name(n: Seq<char>) -> bool {
    n.len() > 0 && (forall|i: int| 0 <= i < n.len() ==> is_name_char(n[i]))
}

/// Decide name validity.
pub fn is_valid_name(name: &str) -> (r: bool)
    ensures
        r == valid_name(name@),
{
    let n = name.unicode_len();
    if n == 0 {
        return false;
    }
    let mut i: usize = 0;
    while i < n
        invariant
            0 <= i as int <= n as int,
            n as int == name@.len(),
            forall|j: int| 0 <= j < i as int ==> is_name_char(name@[j]),
        decreases n as int - i as int,
    {
        let c = name.get_char(i);
        let allowed = ('a' <= c && c <= 'z') || ('A' <= c && c <= 'Z') || ('0' <= c && c <= '9')
            || c == '-' || c == '_';
        if !allowed {
            return false;
        }
        i = i + 1;
    }
    true
}

// ---------------------------------------------------------------------------
// Policy enums
// ---------------------------------------------------------------------------
/// What a mutating operation does when its destination name already
/// exists.
#[derive(Clone, Copy, Debug, PartialEq, Eq, Structural)]
pub enum ConflictAction {
    /// Fail the operation with a `Conflict` error.
    Fail,
    /// Replace the existing configuration's properties.
    Overwrite,
}

/// Whether to activate a configuration right after creating it: a
/// caller-side convenience, not a store concept.
#[derive(Clone, Copy, Debug, PartialEq, Eq, Structural)]
pub enum PostCreation {
    /// Leave the new configuration inactive.
    Noop,
    /// Activate the new configuration.
    Activate,
}

impl From<bool> for PostCreation {
    fn from(value: bool) -> (r: Self) {
        if value {
            PostCreation::Activate
        } else {
            PostCreation::Noop
        }
    }
}

impl vstd::std_specs::convert::FromSpecImpl<bool> for PostCreation {
    open spec fn obeys_from_spec() -> bool {
        true
    }

    open spec fn from_spec(value: bool) -> Self {
        if value {
            PostCreation::Activate
        } else {
            PostCreation::Noop
        }
    }
}

// ---------------------------------------------------------------------------
// Configurations and the store view
// ---------------------------------------------------------------------------
/// Mathematical image of a [`Configuration`].
pub ghost struct ConfigView {
    pub name: Seq<char>,
    pub props: PropsView,
}

/// Mathematical image of a [`ConfigurationStore`]: the configurations
/// in their stable order, and the name of the active one, if any.
pub ghost struct StoreView {
    pub configs: Seq<ConfigView>,
    pub active: Option<Seq<char>>,
}

/// A named profile: a name unique within its store, and the properties
/// persisted under it.
#[derive(Debug)]
pub struct Configuration {
    name: String,
    properties: Properties,
}

impl View for Configuration {
    type V = ConfigView;

    closed spec fn view(&self) -> ConfigView {
        ConfigView { name: self.name@, props: self.properties@ }
    }
}

impl Clone for Configuration {
    fn clone(&self) -> (r: Self)
        ensures
            r@ == self@,
    {
        Self { name: self.name.clone(), properties: self.properties.clone() }
    }
}

impl Configuration {
    /// The configuration's name.
    pub fn name(&self) -> (r: &String)
        ensures
            r@ == self@.name,
    {
        &self.name
    }

    /// The configuration's properties.
    pub fn properties(&self) -> (r: &Properties)
        ensures
            r@ == self@.props,
    {
        &self.properties
    }
}

/// The views of a sequence of owned configurations.
pub open spec fn configs_of(v: Seq<Configuration>) -> Seq<ConfigView> {
    v.map_values(|c: Configuration| c@)
}

/// Appending a configuration appends its view.
proof fn lemma_configs_push(v: Seq<Configuration>, c: Configuration)
    ensures
        configs_of(v.push(c)) == configs_of(v).push(c@),
{
    assert(configs_of(v.push(c)) =~~= configs_of(v).push(c@));
}

/// Replacing a configuration replaces its view.
proof fn lemma_configs_update(v: Seq<Configuration>, i: int, c: Configuration)
    requires
        0 <= i < v.len(),
    ensures
        configs_of(v.update(i, c)) == configs_of(v).update(i, c@),
{
    assert(configs_of(v.update(i, c)) =~~= configs_of(v).update(i, c@));
}

/// Removing a configuration removes its view.
proof fn lemma_configs_remove(v: Seq<Configuration>, i: int)
    requires
        0 <= i < v.len(),
    ensures
        configs_of(v.remove(i)) == configs_of(v).remove(i),
{
    assert(configs_of(v.remove(i)) =~~= configs_of(v).remove(i));
}

/// Removing then re-inserting at the same index is an update.
proof fn lemma_remove_insert_is_update(v: Seq<Configuration>, i: int, c: Configuration)
    requires
        0 <= i < v.len(),
    ensures
        v.remove(i).insert(i, c) == v.update(i, c),
{
    assert(v.remove(i).insert(i, c) =~= v.update(i, c));
}

/// True iff some configuration in `cs` is named `name`.
pub open spec fn contains_name(cs: Seq<ConfigView>, name: Seq<char>) -> bool {
    exists|i: int| 0 <= i < cs.len() && cs[i].name == name
}

/// The index of the configuration named `name` (meaningful when names
/// are unique and `name` is present).
pub open spec fn index_of_name(cs: Seq<ConfigView>, name: Seq<char>) -> int {
    choose|i: int| 0 <= i < cs.len() && cs[i].name == name
}

/// The properties stored under `name` (meaningful when `name` is
/// present).
pub open spec fn props_at(cs: Seq<ConfigView>, name: Seq<char>) -> PropsView {
    cs[index_of_name(cs, name)].props
}

/// The properties stored under `name`, or `None` when absent.
pub open spec fn lookup(cs: Seq<ConfigView>, name: Seq<char>) -> Option<PropsView> {
    if contains_name(cs, name) {
        Some(props_at(cs, name))
    } else {
        None
    }
}

/// No two configurations share a name.
pub open spec fn unique_names(cs: Seq<ConfigView>) -> bool {
    forall|i: int, j: int| 0 <= i < j < cs.len() ==> cs[i].name != cs[j].name
}

/// The store's invariant: names unique and valid, and the active
/// marker, when set, names an existing configuration.
pub open spec fn store_wf(v: StoreView) -> bool {
    &&& unique_names(v.configs)
    &&& forall|i: int| 0 <= i < v.configs.len() ==> valid_name(#[trigger] v.configs[i].name)
    &&& match v.active {
        Some(n) => contains_name(v.configs, n),
        None => true,
    }
}

/// True iff `c` is the active configuration of `v`.
pub open spec fn is_active_in(v: StoreView, c: ConfigView) -> bool {
    v.active == Some(c.name)
}

// ---------------------------------------------------------------------------
// Transition models
// ---------------------------------------------------------------------------
/// Replace the properties of every configuration named `name`.
pub open spec fn overwrite_at(cs: Seq<ConfigView>, name: Seq<char>, p: PropsView) -> Seq<
    ConfigView,
> {
    Seq::new(
        cs.len(),
        |i: int|
            if cs[i].name == name {
                ConfigView { name: name, props: p }
            } else {
                cs[i]
            },
    )
}

/// Store `p` under `name`: replace in place when the name exists,
/// append otherwise.
pub open spec fn upsert(cs: Seq<ConfigView>, name: Seq<char>, p: PropsView) -> Seq<ConfigView> {
    if contains_name(cs, name) {
        overwrite_at(cs, name, p)
    } else {
        cs.push(ConfigView { name: name, props: p })
    }
}

/// Remove the configuration named `name`, if present.
pub open spec fn remove_name(cs: Seq<ConfigView>, name: Seq<char>) -> Seq<ConfigView> {
    if contains_name(cs, name) {
        cs.remove(index_of_name(cs, name))
    } else {
        cs
    }
}

/// Give every configuration named `oldn` the name `newn`, in place.
pub open spec fn rename_at(cs: Seq<ConfigView>, oldn: Seq<char>, newn: Seq<char>) -> Seq<
    ConfigView,
> {
    Seq::new(
        cs.len(),
        |i: int|
            if cs[i].name == oldn {
                ConfigView { name: newn, props: cs[i].props }
            } else {
                cs[i]
            },
    )
}

/// The configurations after renaming `oldn` to `newn`: any
/// configuration already named `newn` is removed first, then `oldn` is
/// renamed in place; renaming a configuration onto its own name
/// changes nothing.
pub open spec fn rename_model(cs: Seq<ConfigView>, oldn: Seq<char>, newn: Seq<char>) -> Seq<
    ConfigView,
> {
    if oldn == newn {
        cs
    } else {
        rename_at(remove_name(cs, newn), oldn, newn)
    }
}

/// The active marker after renaming `oldn` to `newn`.
pub open spec fn renamed_active(
    active: Option<Seq<char>>,
    oldn: Seq<char>,
    newn: Seq<char>,
) -> Option<Seq<char>> {
    if active == Some(oldn) {
        Some(newn)
    } else {
        active
    }
}

/// The active marker after deleting `name`.
pub open spec fn deleted_active(active: Option<Seq<char>>, name: Seq<char>) -> Option<Seq<char>> {
    if active == Some(name) {
        None
    } else {
        active
    }
}

/// Removing a configuration keeps the store well formed, with the
/// active marker cleared exactly when the removed one was active.
proof fn lemma_remove_wf(pre: StoreView, n: Seq<char>)
    requires
        store_wf(pre),
        contains_name(pre.configs, n),
    ensures
        store_wf(
            StoreView {
                configs: remove_name(pre.configs, n),
                active: deleted_active(pre.active, n),
            },
        ),
{
    let k = index_of_name(pre.configs, n);
    assert(0 <= k < pre.configs.len() && pre.configs[k].name == n);
    let rem = pre.configs.remove(k);
    assert forall|i: int| 0 <= i < rem.len() implies valid_name(#[trigger] rem[i].name) by {
        if i < k {
            assert(rem[i] == pre.configs[i]);
        } else {
            assert(rem[i] == pre.configs[i + 1]);
        }
    }
    assert forall|i: int, j: int| 0 <= i < j < rem.len() implies rem[i].name != rem[j].name by {
        if i < k {
            assert(rem[i] == pre.configs[i]);
        } else {
            assert(rem[i] == pre.configs[i + 1]);
        }
        if j < k {
            assert(rem[j] == pre.configs[j]);
        } else {
            assert(rem[j] == pre.configs[j + 1]);
        }
    }
    match pre.active {
        Some(m) => {
            if m != n {
                let w = choose|w: int|
                    0 <= w < pre.configs.len() && pre.configs[w].name == m;
                assert(pre.configs[w].name == m);
                assert(w != k);
                if w < k {
                    assert(rem[w] == pre.configs[w]);
                } else {
                    assert(rem[w - 1] == pre.configs[w]);
                }
                assert(contains_name(rem, m));
            }
        },
        None => {},
    }
}

/// What survives removing the configuration named `newn` from a well
/// formed store: names stay unique and valid, no remaining
/// configuration is named `newn`, and every other name is still
/// present.
proof fn lemma_mid_facts(pre: StoreView, newn: Seq<char>)
    requires
        store_wf(pre),
    ensures
        unique_names(remove_name(pre.configs, newn)),
        forall|x: int|
            0 <= x < remove_name(pre.configs, newn).len() ==> valid_name(
                #[trigger] remove_name(pre.configs, newn)[x].name,
            ),
        forall|x: int|
            0 <= x < remove_name(pre.configs, newn).len() ==> #[trigger] remove_name(
                pre.configs,
                newn,
            )[x].name != newn,
        forall|m: Seq<char>|
            m != newn && contains_name(pre.configs, m) ==> #[trigger] contains_name(
                remove_name(pre.configs, newn),
                m,
            ),
{
    let cs = pre.configs;
    let rem = remove_name(cs, newn);
    if contains_name(cs, newn) {
        let k = index_of_name(cs, newn);
        assert(0 <= k < cs.len() && cs[k].name == newn);
        assert forall|x: int| 0 <= x < rem.len() implies valid_name(#[trigger] rem[x].name)
            && rem[x].name != newn by {
            if x < k {
                assert(rem[x] == cs[x]);
            } else {
                assert(rem[x] == cs[x + 1]);
            }
        }
        assert forall|i: int, j: int| 0 <= i < j < rem.len() implies rem[i].name != rem[j].name by {
            if i < k {
                assert(rem[i] == cs[i]);
            } else {
                assert(rem[i] == cs[i + 1]);
            }
            if j < k {
                assert(rem[j] == cs[j]);
            } else {
                assert(rem[j] == cs[j + 1]);
            }
        }
        assert forall|m: Seq<char>| m != newn && contains_name(cs, m) implies #[trigger]
            contains_name(rem, m) by {
            let w = choose|w: int| 0 <= w < cs.len() && cs[w].name == m;
            assert(cs[w].name == m);
            assert(w != k);
            if w < k {
                assert(rem[w] == cs[w]);
            } else {
                assert(rem[w - 1] == cs[w]);
            }
        }
    } else {
        assert(rem == cs);
        assert forall|x: int| 0 <= x < rem.len() implies #[trigger] rem[x].name != newn by {
            if rem[x].name == newn {
                assert(contains_name(cs, newn));
            }
        }
    }
}

/// Renaming the single configuration named `oldn` to the fresh name
/// `newn` keeps names unique and valid.
proof fn lemma_rename_wf(mid: Seq<ConfigView>, oldn: Seq<char>, newn: Seq<char>, i2: int)
    requires
        unique_names(mid),
        forall|x: int| 0 <= x < mid.len() ==> valid_name(#[trigger] mid[x].name),
        forall|x: int| 0 <= x < mid.len() ==> #[trigger] mid[x].name != newn,
        0 <= i2 < mid.len(),
        mid[i2].name == oldn,
        valid_name(newn),
    ensures
        unique_names(rename_at(mid, oldn, newn)),
        forall|x: int|
            0 <= x < rename_at(mid, oldn, newn).len() ==> valid_name(
                #[trigger] rename_at(mid, oldn, newn)[x].name,
            ),
{
    let rn = rename_at(mid, oldn, newn);
    assert forall|x: int| 0 <= x < rn.len() implies valid_name(#[trigger] rn[x].name) by {
        if mid[x].name != oldn {
            assert(rn[x] == mid[x]);
        }
    }
    assert forall|i: int, j: int| 0 <= i < j < rn.len() implies rn[i].name != rn[j].name by {
        if i != i2 {
            assert(mid[i].name != oldn);
            assert(rn[i] == mid[i]);
        }
        if j != i2 {
            assert(mid[j].name != oldn);
            assert(rn[j] == mid[j]);
        }
    }
}

// ---------------------------------------------------------------------------
// The store
// ---------------------------------------------------------------------------
/// The root aggregate: all configurations, in stable order, and the
/// name of the active one, if any.
#[derive(Debug)]
pub struct ConfigurationStore {
    configurations: Vec<Configuration>,
    active: Option<String>,
}

impl View for ConfigurationStore {
    type V = StoreView;

    closed spec fn view(&self) -> StoreView {
        StoreView {
            configs: configs_of(self.configurations@),
            active: match self.active {
                Some(ref s) => Some(s@),
                None => None,
            },
        }
    }
}

impl ConfigurationStore {
    /// Build a store from the raw persisted state: one (name, key-file
    /// text) pair per configuration file, in discovery order, plus the
    /// contents of the active marker, if present. Names are distinct,
    /// as files found in one directory are. Fails with `InvalidName`
    /// on a name unusable as a configuration name, with
    /// `SerializationError` on malformed key-file text (a corrupt
    /// profile is surfaced, never skipped), and with `CorruptState`
    /// when the marker names a configuration that does not exist.
    pub fn open(entries: Vec<(String, String)>, marker: Option<String>) -> (r: Result<
        ConfigurationStore,
        Error,
    >)
        requires
            forall|i: int, j: int|
                0 <= i < j < entries@.len() ==> entries@[i].0@ != entries@[j].0@,
        ensures
            (r is Ok) == ((forall|i: int|
                0 <= i < entries@.len() ==> valid_name(#[trigger] entries@[i].0@)) && (forall|
                i: int,
            |
                0 <= i < entries@.len() ==> (#[trigger] spec_parse(entries@[i].1@)) is Some) && (
            match marker {
                Some(m) => exists|i: int| 0 <= i < entries@.len() && #[trigger] entries@[i].0@
                    == m@,
                None => true,
            })),
            r matches Ok(s) ==> store_wf(s@) && s@.configs.len() == entries@.len() && (forall|
                i: int,
            |
                0 <= i < entries@.len() ==> (#[trigger] s@.configs[i]).name == entries@[i].0@
                    && Some(s@.configs[i].props) == spec_parse(entries@[i].1@)) && s@.active == (
            match marker {
                Some(m) => Some(m@),
                None => None::<Seq<char>>,
            }),
            r matches Err(e) ==> (e@ matches ErrorView::InvalidName(n) ==> exists|i: int|
                0 <= i < entries@.len() && #[trigger] entries@[i].0@ == n && !valid_name(n)),
            r matches Err(e) ==> (e@ matches ErrorView::SerializationError(_) ==> exists|i: int|
                0 <= i < entries@.len() && (#[trigger] spec_parse(entries@[i].1@)) is None),
            r matches Err(e) ==> (e@ matches ErrorView::CorruptState(m) ==> marker matches Some(mm)
                && mm@ == m && !(exists|i: int|
                0 <= i < entries@.len() && #[trigger] entries@[i].0@ == m)),
            r matches Err(e) ==> (e@ matches ErrorView::InvalidName(_) || e@
                matches ErrorView::SerializationError(_) || e@ matches ErrorView::CorruptState(_)),
    {
        let n = entries.len();
        let mut configurations: Vec<Configuration> = Vec::new();
        let mut i: usize = 0;
        while i < n
            invariant
                0 <= i as int <= n as int,
                n as int == entries@.len(),
                forall|x: int, y: int|
                    0 <= x < y < entries@.len() ==> entries@[x].0@ != entries@[y].0@,
                configurations@.len() == i as int,
                forall|j: int|
                    0 <= j < i as int ==> (#[trigger] configs_of(configurations@)[j]).name
                        == entries@[j].0@ && Some(configs_of(configurations@)[j].props)
                        == spec_parse(entries@[j].1@) && valid_name(entries@[j].0@),
            decreases n as int - i as int,
        {
            let name = entries[i].0.clone();
            if !is_valid_name(name.as_str()) {
                return Err(Error::InvalidName(name));
            }
            let properties = match Properties::deserialize(entries[i].1.as_str()) {
                Ok(p) => p,
                Err(e) => {
                    return Err(e);
                },
            };
            let c = Configuration { name, properties };
            proof {
                lemma_configs_push(configurations@, c);
            }
            configurations.push(c);
            i = i + 1;
        }
        let mut store = ConfigurationStore { configurations, active: None };
        proof {
            assert(store@.configs == configs_of(store.configurations@));
            assert(unique_names(store@.configs));
            assert(store_wf(store@));
            assert forall|x: int|
                0 <= x < entries@.len() implies valid_name(#[trigger] entries@[x].0@) by {
                assert(configs_of(store.configurations@)[x].name == entries@[x].0@);
            }
            assert forall|x: int|
                0 <= x < entries@.len() implies (#[trigger] spec_parse(entries@[x].1@)) is Some by {
                assert(configs_of(store.configurations@)[x].name == entries@[x].0@);
            }
        }
        match marker {
            Some(m) => {
                match store.find_index(m.as_str()) {
                    Some(k) => {
                        proof {
                            assert(configs_of(store.configurations@)[k as int].name == entries@[
                                k as int
                            ].0@);
                            assert(entries@[k as int].0@ == m@);
                        }
                        store.active = Some(m);
                        Ok(store)
                    },
                    None => {
                        proof {
                            assert forall|x: int|
                                0 <= x < entries@.len() implies #[trigger] entries@[x].0@
                                != m@ by {
                                if entries@[x].0@ == m@ {
                                    assert(configs_of(store.configurations@)[x].name == m@);
                                    assert(contains_name(store@.configs, m@));
                                }
                            }
                        }
                        Err(Error::CorruptState(m))
                    },
                }
            },
            None => Ok(store),
        }
    }

    /// The index of the configuration named `name`, scanning in order.
    fn find_index(&self, name: &str) -> (r: Option<usize>)
        ensures
            match r {
                Some(i) => i < self@.configs.len() && self@.configs[i as int].name == name@,
                None => !contains_name(self@.configs, name@),
            },
    {
        let n = self.configurations.len();
        let mut i: usize = 0;
        while i < n
            invariant
                0 <= i as int <= n as int,
                n as int == self@.configs.len(),
                self@.configs == configs_of(self.configurations@),
                forall|j: int| 0 <= j < i as int ==> self@.configs[j].name != name@,
            decreases n as int - i as int,
        {
            proof {
                assert(configs_of(self.configurations@)[i as int] == self.configurations@[i as int]@);
            }
            if str_eq(self.configurations[i].name().as_str(), name) {
                return Some(i);
            }
            i = i + 1;
        }
        None
    }

    /// All configurations, in stable (discovery) order.
    pub fn configurations(&self) -> (r: &Vec<Configuration>)
        ensures
            configs_of(r@) == self@.configs,
    {
        &self.configurations
    }

    /// True iff `config` is the active configuration.
    pub fn is_active(&self, config: &Configuration) -> (r: bool)
        ensures
            r == is_active_in(self@, config@),
    {
        match &self.active {
            Some(a) => str_eq(a.as_str(), config.name().as_str()),
            None => false,
        }
    }

    /// The name of the active configuration; fails with
    /// `NoActiveConfiguration` when none is set.
    pub fn active(&self) -> (r: Result<String, Error>)
        ensures
            match r {
                Ok(n) => self@.active == Some(n@),
                Err(e) => self@.active is None && e@ == ErrorView::NoActiveConfiguration,
            },
    {
        match &self.active {
            Some(a) => Ok(a.clone()),
            None => Err(Error::NoActiveConfiguration),
        }
    }

    /// The configuration named `name`, if any.
    pub fn find_by_name(&self, name: &str) -> (r: Option<&Configuration>)
        requires
            store_wf(self@),
        ensures
            match r {
                Some(c) => c@.name == name@ && lookup(self@.configs, name@) == Some(c@.props),
                None => !contains_name(self@.configs, name@),
            },
    {
        match self.find_index(name) {
            Some(i) => {
                proof {
                    assert(configs_of(self.configurations@)[i as int] == self.configurations@[
                        i as int
                    ]@);
                    let k = index_of_name(self@.configs, name@);
                    assert(self@.configs[k].name == name@);
                    assert(k == i as int);
                }
                Some(&self.configurations[i])
            },
            None => None,
        }
    }

    /// Create a configuration named `name` with the given properties.
    /// An invalid name fails with `InvalidName`. When the name already
    /// exists the conflict policy decides: `Fail` fails with `Conflict`
    /// and changes nothing, `Overwrite` replaces the existing
    /// configuration's properties in place. The active marker is never
    /// changed, so an overwritten configuration keeps its
    /// active/inactive status.
    pub fn create(&mut self, name: &str, properties: &Properties, conflict: ConflictAction) -> (r:
        Result<(), Error>)
        requires
            store_wf(old(self)@),
        ensures
            store_wf(final(self)@),
            !valid_name(name@) ==> (r matches Err(e) && e@ == ErrorView::InvalidName(name@)
                && final(self)@ == old(self)@),
            valid_name(name@) && contains_name(old(self)@.configs, name@) && conflict
                is Fail ==> (r matches Err(e) && e@ == ErrorView::Conflict(name@) && final(self)@
                == old(self)@),
            valid_name(name@) && (conflict is Overwrite || !contains_name(
                old(self)@.configs,
                name@,
            )) ==> r is Ok && final(self)@.configs == upsert(
                old(self)@.configs,
                name@,
                properties@,
            ) && final(self)@.active == old(self)@.active,
    {
        let ghost pre = self@;
        if !is_valid_name(name) {
            return Err(Error::InvalidName(name.to_owned()));
        }
        match self.find_index(name) {
            Some(i) => {
                match conflict {
                    ConflictAction::Fail => Err(Error::Conflict(name.to_owned())),
                    ConflictAction::Overwrite => {
                        let c = Configuration {
                            name: name.to_owned(),
                            properties: properties.clone(),
                        };
                        self.configurations.remove(i);
                        self.configurations.insert(i, c);
                        proof {
                            lemma_remove_insert_is_update(
                                old(self).configurations@,
                                i as int,
                                c,
                            );
                            lemma_configs_update(old(self).configurations@, i as int, c);
                            assert forall|k: int|
                                0 <= k < pre.configs.len() implies #[trigger] self@.configs[k]
                                == overwrite_at(pre.configs, name@, properties@)[k] by {
                                if k != i as int {
                                    assert(pre.configs[k].name != name@);
                                }
                            }
                            assert(self@.configs =~~= overwrite_at(pre.configs, name@, properties@));
                            assert(contains_name(pre.configs, name@));
                            assert forall|k: int| 0 <= k < self@.configs.len() implies #[trigger]
                                self@.configs[k].name == pre.configs[k].name by {}
                            match pre.active {
                                Some(m) => {
                                    let w = choose|w: int|
                                        0 <= w < pre.configs.len() && pre.configs[w].name == m;
                                    assert(self@.configs[w].name == m);
                                },
                                None => {},
                            }
                            assert(store_wf(self@));
                        }
                        Ok(())
                    },
                }
            },
            None => {
                let c = Configuration { name: name.to_owned(), properties: properties.clone() };
                self.configurations.push(c);
                proof {
                    lemma_configs_push(old(self).configurations@, c);
                    assert(self@.configs == pre.configs.push(c@));
                    assert forall|x: int|
                        0 <= x < pre.configs.len() implies #[trigger] pre.configs[x].name
                        != name@ by {}
                    assert(unique_names(self@.configs));
                    match pre.active {
                        Some(m) => {
                            let w = choose|w: int|
                                0 <= w < pre.configs.len() && pre.configs[w].name == m;
                            assert(self@.configs[w].name == m);
                        },
                        None => {},
                    }
                    assert(store_wf(self@));
                }
                Ok(())
            },
        }
    }

    /// Set the active marker to `name`; fails with `NotFound` when no
    /// such configuration exists. The configurations themselves are
    /// untouched.
    pub fn activate(&mut self, name: &str) -> (r: Result<(), Error>)
        requires
            store_wf(old(self)@),
        ensures
            store_wf(final(self)@),
            match r {
                Ok(_) => contains_name(old(self)@.configs, name@) && final(self)@.configs == old(
                    self,
                )@.configs && final(self)@.active == Some(name@),
                Err(e) => !contains_name(old(self)@.configs, name@) && e@ == ErrorView::NotFound(
                    name@,
                ) && final(self)@ == old(self)@,
            },
    {
        match self.find_index(name) {
            Some(_) => {
                self.active = Some(name.to_owned());
                Ok(())
            },
            None => Err(Error::NotFound(name.to_owned())),
        }
    }

    /// Duplicate the configuration named `src_name` under `dest_name`.
    /// Fails with `NotFound` when the source is absent; a collision on
    /// the destination is governed by the conflict policy exactly as
    /// in [`Self::create`]. The active marker is never changed.
    pub fn copy(&mut self, src_name: &str, dest_name: &str, conflict: ConflictAction) -> (r:
        Result<(), Error>)
        requires
            store_wf(old(self)@),
        ensures
            store_wf(final(self)@),
            !contains_name(old(self)@.configs, src_name@) ==> (r matches Err(e) && e@
                == ErrorView::NotFound(src_name@) && final(self)@ == old(self)@),
            contains_name(old(self)@.configs, src_name@) && !valid_name(dest_name@) ==> (r matches
            Err(e) && e@ == ErrorView::InvalidName(dest_name@) && final(self)@ == old(self)@),
            contains_name(old(self)@.configs, src_name@) && valid_name(dest_name@)
                && contains_name(old(self)@.configs, dest_name@) && conflict is Fail ==> (r matches
            Err(e) && e@ == ErrorView::Conflict(dest_name@) && final(self)@ == old(self)@),
            contains_name(old(self)@.configs, src_name@) && valid_name(dest_name@) && (conflict
                is Overwrite || !contains_name(old(self)@.configs, dest_name@)) ==> r is Ok
                && final(self)@.configs == upsert(
                old(self)@.configs,
                dest_name@,
                props_at(old(self)@.configs, src_name@),
            ) && final(self)@.active == old(self)@.active,
    {
        let p = match self.find_index(src_name) {
            Some(i) => {
                proof {
                    let k = index_of_name(self@.configs, src_name@);
                    assert(self@.configs[k].name == src_name@);
                    assert(k == i as int);
                    assert(configs_of(self.configurations@)[i as int] == self.configurations@[
                        i as int
                    ]@);
                }
                self.configurations[i].properties().clone()
            },
            None => {
                return Err(Error::NotFound(src_name.to_owned()));
            },
        };
        self.create(dest_name, &p, conflict)
    }

    /// Rename the configuration `old_name` to `new_name`, keeping its
    /// properties and position. Fails with `NotFound` when `old_name`
    /// is absent and with `InvalidName` when `new_name` is invalid.
    /// When a configuration named `new_name` already exists (renaming
    /// onto the own name included), the conflict policy decides:
    /// `Fail` fails with `Conflict`, `Overwrite` replaces it. If
    /// `old_name` was active, the active marker follows to `new_name`.
    pub fn rename(&mut self, old_name: &str, new_name: &str, conflict: ConflictAction) -> (r:
        Result<(), Error>)
        requires
            store_wf(old(self)@),
        ensures
            store_wf(final(self)@),
            !contains_name(old(self)@.configs, old_name@) ==> (r matches Err(e) && e@
                == ErrorView::NotFound(old_name@) && final(self)@ == old(self)@),
            contains_name(old(self)@.configs, old_name@) && !valid_name(new_name@) ==> (r matches
            Err(e) && e@ == ErrorView::InvalidName(new_name@) && final(self)@ == old(self)@),
            contains_name(old(self)@.configs, old_name@) && valid_name(new_name@)
                && contains_name(old(self)@.configs, new_name@) && conflict is Fail ==> (r matches
            Err(e) && e@ == ErrorView::Conflict(new_name@) && final(self)@ == old(self)@),
            contains_name(old(self)@.configs, old_name@) && valid_name(new_name@)
                && (!contains_name(old(self)@.configs, new_name@) || conflict
                is Overwrite) ==> r is Ok && final(self)@.configs == rename_model(
                old(self)@.configs,
                old_name@,
                new_name@,
            ) && final(self)@.active == renamed_active(old(self)@.active, old_name@, new_name@),
    {
        let ghost pre = self@;
        let ghost oldn = old_name@;
        let ghost newn = new_name@;
        if self.find_index(old_name).is_none() {
            return Err(Error::NotFound(old_name.to_owned()));
        }
        if !is_valid_name(new_name) {
            return Err(Error::InvalidName(new_name.to_owned()));
        }
        if str_eq(old_name, new_name) {
            match conflict {
                ConflictAction::Fail => Err(Error::Conflict(new_name.to_owned())),
                ConflictAction::Overwrite => {
                    proof {
                        assert(renamed_active(pre.active, oldn, newn) == pre.active);
                    }
                    Ok(())
                },
            }
        } else {
            let ghost mid = remove_name(pre.configs, newn);
            match self.find_index(new_name) {
                Some(j) => {
                    match conflict {
                        ConflictAction::Fail => {
                            return Err(Error::Conflict(new_name.to_owned()));
                        },
                        ConflictAction::Overwrite => {
                            self.configurations.remove(j);
                            proof {
                                let k = index_of_name(pre.configs, newn);
                                assert(pre.configs[k].name == newn);
                                assert(k == j as int);
                                lemma_configs_remove(old(self).configurations@, j as int);
                                assert(self@.configs == mid);
                            }
                        },
                    }
                },
                None => {
                    proof {
                        assert(self@.configs == mid);
                    }
                },
            }
            proof {
                lemma_mid_facts(pre, newn);
                assert(unique_names(mid));
                assert(contains_name(mid, oldn)) by {
                    let w = choose|w: int|
                        0 <= w < pre.configs.len() && pre.configs[w].name == oldn;
                    if contains_name(pre.configs, newn) {
                        let k = index_of_name(pre.configs, newn);
                        if w < k {
                            assert(mid[w] == pre.configs[w]);
                        } else {
                            assert(w != k);
                            assert(mid[w - 1] == pre.configs[w]);
                        }
                    } else {
                        assert(mid[w] == pre.configs[w]);
                    }
                }
            }
            let ghost vmid = self.configurations@;
            match self.find_index(old_name) {
                Some(i2) => {
                    let mut c = self.configurations.remove(i2);
                    c.name = new_name.to_owned();
                    self.configurations.insert(i2, c);
                    let move_active = match &self.active {
                        Some(a) => str_eq(a.as_str(), old_name),
                        None => false,
                    };
                    if move_active {
                        self.active = Some(new_name.to_owned());
                    }
                    proof {
                        lemma_remove_insert_is_update(vmid, i2 as int, c);
                        lemma_configs_update(vmid, i2 as int, c);
                        assert(c@ == (ConfigView { name: newn, props: mid[i2 as int].props }));
                        assert(self@.configs == mid.update(
                            i2 as int,
                            ConfigView { name: newn, props: mid[i2 as int].props },
                        ));
                        assert forall|x: int| 0 <= x < mid.len() implies #[trigger] self@.configs[x]
                            == rename_at(mid, oldn, newn)[x] by {
                            if x != i2 as int {
                                assert(mid[x].name != oldn);
                            }
                        }
                        assert(self@.configs =~~= rename_at(mid, oldn, newn));
                        assert(self@.configs == rename_model(pre.configs, oldn, newn));
                        lemma_rename_wf(mid, oldn, newn, i2 as int);
                        assert(self@.active == renamed_active(pre.active, oldn, newn));
                        match self@.active {
                            Some(m) => {
                                if m == newn {
                                    assert(self@.configs[i2 as int].name == newn);
                                } else {
                                    assert(pre.active == Some(m));
                                    assert(m != oldn);
                                    assert(contains_name(pre.configs, m));
                                    assert(contains_name(mid, m));
                                    let w = choose|w: int|
                                        0 <= w < mid.len() && mid[w].name == m;
                                    assert(mid[w].name == m);
                                    assert(mid[w].name != oldn);
                                    assert(self@.configs[w].name == m);
                                }
                            },
                            None => {},
                        }
                        assert(store_wf(self@));
                    }
                    Ok(())
                },
                None => {
                    proof {
                        assert(false);
                    }
                    Err(Error::NotFound(old_name.to_owned()))
                },
            }
        }
    }

    /// Remove the configuration named `name`; fails with `NotFound`
    /// when it does not exist. Deleting the active configuration
    /// clears the active marker: no configuration remains active.
    pub fn delete(&mut self, name: &str) -> (r: Result<(), Error>)
        requires
            store_wf(old(self)@),
        ensures
            store_wf(final(self)@),
            match r {
                Ok(_) => contains_name(old(self)@.configs, name@) && final(self)@.configs
                    == remove_name(old(self)@.configs, name@) && final(self)@.active
                    == deleted_active(old(self)@.active, name@),
                Err(e) => !contains_name(old(self)@.configs, name@) && e@ == ErrorView::NotFound(
                    name@,
                ) && final(self)@ == old(self)@,
            },
    {
        let ghost pre = self@;
        match self.find_index(name) {
            Some(i) => {
                self.configurations.remove(i);
                let clear = match &self.active {
                    Some(a) => str_eq(a.as_str(), name),
                    None => false,
                };
                if clear {
                    self.active = None;
                }
                proof {
                    let k = index_of_name(pre.configs, name@);
                    assert(pre.configs[k].name == name@);
                    assert(k == i as int);
                    lemma_configs_remove(old(self).configurations@, i as int);
                    assert(self@.configs == remove_name(pre.configs, name@));
                    lemma_remove_wf(pre, name@);
                    assert(self@.active == deleted_active(pre.active, name@));
                }
                Ok(())
            },
            None => Err(Error::NotFound(name.to_owned())),
        }
    }

    /// The properties of the configuration named `name`; fails with
    /// `NotFound` when it does not exist.
    pub fn describe(&self, name: &str) -> (r: Result<Properties, Error>)
        requires
            store_wf(self@),
        ensures
            match r {
                Ok(p) => lookup(self@.configs, name@) == Some(p@),
                Err(e) => !contains_name(self@.configs, name@) && e@ == ErrorView::NotFound(name@),
            },
    {
        match self.find_by_name(name) {
            Some(c) => Ok(c.properties().clone()),
            None => Err(Error::NotFound(name.to_owned())),
        }
    }
}

// ---------------------------------------------------------------------------
// Laws
// ---------------------------------------------------------------------------
/// Storing under a name makes that name retrievable with exactly the
/// stored properties.
pub proof fn lemma_lookup_upsert_same(cs: Seq<ConfigView>, n: Seq<char>, p: PropsView)
    ensures
        lookup(upsert(cs, n, p), n) == Some(p),
{
    let up = upsert(cs, n, p);
    if contains_name(cs, n) {
        let w = index_of_name(cs, n);
        assert(cs[w].name == n);
        assert(up[w].name == n);
        assert(contains_name(up, n));
        let k = index_of_name(up, n);
        assert(up[k].name == n);
        assert(cs[k].name == n);
        assert(up[k].props == p);
    } else {
        assert(up[cs.len() as int].name == n);
        assert(contains_name(up, n));
        let k = index_of_name(up, n);
        assert(up[k].name == n);
        if k < cs.len() {
            assert(cs[k].name == n);
            assert(contains_name(cs, n));
        }
        assert(k == cs.len());
    }
}

/// Storing under one name leaves what every other name retrieves
/// untouched: no cross-contamination.
pub proof fn lemma_lookup_upsert_other(
    cs: Seq<ConfigView>,
    n: Seq<char>,
    p: PropsView,
    m: Seq<char>,
)
    requires
        unique_names(cs),
        m != n,
    ensures
        lookup(upsert(cs, n, p), m) == lookup(cs, m),
{
    let up = upsert(cs, n, p);
    if contains_name(cs, n) {
        assert forall|x: int| 0 <= x < cs.len() implies #[trigger] up[x].name == cs[x].name by {}
        if contains_name(cs, m) {
            let w = index_of_name(cs, m);
            assert(cs[w].name == m);
            assert(up[w].name == m);
            assert(contains_name(up, m));
            let k = index_of_name(up, m);
            assert(up[k].name == m);
            assert(cs[k].name == m);
            assert(k == w);
            assert(up[k] == cs[k]);
        } else {
            assert forall|x: int| 0 <= x < up.len() implies #[trigger] up[x].name != m by {
                if up[x].name == m {
                    assert(contains_name(cs, m));
                }
            }
            assert(!contains_name(up, m));
        }
    } else {
        if contains_name(cs, m) {
            let w = index_of_name(cs, m);
            assert(cs[w].name == m);
            assert(up[w].name == m);
            assert(contains_name(up, m));
            let k = index_of_name(up, m);
            assert(up[k].name == m);
            assert(k < cs.len());
            assert(cs[k].name == m);
            assert(k == w);
        } else {
            assert forall|x: int| 0 <= x < up.len() implies #[trigger] up[x].name != m by {
                if x < cs.len() {
                    assert(up[x] == cs[x]);
                    if up[x].name == m {
                        assert(contains_name(cs, m));
                    }
                }
            }
            assert(!contains_name(up, m));
        }
    }
}

/// Upserting never breaks name uniqueness.
pub proof fn lemma_upsert_unique(cs: Seq<ConfigView>, n: Seq<char>, p: PropsView)
    requires
        unique_names(cs),
    ensures
        unique_names(upsert(cs, n, p)),
{
    let up = upsert(cs, n, p);
    if contains_name(cs, n) {
        assert forall|i: int, j: int| 0 <= i < j < up.len() implies up[i].name != up[j].name by {
            assert(up[i].name == cs[i].name);
            assert(up[j].name == cs[j].name);
        }
    } else {
        assert forall|i: int, j: int| 0 <= i < j < up.len() implies up[i].name != up[j].name by {
            if j < cs.len() {
            } else {
                assert(up[i].name == cs[i].name);
                if cs[i].name == n {
                    assert(contains_name(cs, n));
                }
            }
        }
    }
}

/// Creating configurations under two distinct names leaves both
/// retrievable independently, each with its own properties.
pub proof fn lemma_distinct_creates_independent(
    cs: Seq<ConfigView>,
    n1: Seq<char>,
    p1: PropsView,
    n2: Seq<char>,
    p2: PropsView,
)
    requires
        unique_names(cs),
        n1 != n2,
    ensures
        lookup(upsert(upsert(cs, n1, p1), n2, p2), n1) == Some(p1),
        lookup(upsert(upsert(cs, n1, p1), n2, p2), n2) == Some(p2),
{
    lemma_lookup_upsert_same(cs, n1, p1);
    lemma_upsert_unique(cs, n1, p1);
    lemma_lookup_upsert_same(upsert(cs, n1, p1), n2, p2);
    lemma_lookup_upsert_other(upsert(cs, n1, p1), n2, p2, n1);
}

/// At most one configuration is active at a time: two active ones are
/// the same configuration.
pub proof fn lemma_at_most_one_active(v: StoreView, i: int, j: int)
    requires
        store_wf(v),
        0 <= i < v.configs.len(),
        0 <= j < v.configs.len(),
        is_active_in(v, v.configs[i]),
        is_active_in(v, v.configs[j]),
    ensures
        i == j,
{
    assert(v.configs[i].name == v.configs[j].name);
    if i < j {
        assert(false);
    } else if j < i {
        assert(false);
    }
}

/// When the active marker is set on a well formed store, some
/// configuration is reported active.
pub proof fn lemma_active_exists(v: StoreView, n: Seq<char>)
    requires
        store_wf(v),
        v.active == Some(n),
    ensures
        exists|i: int| 0 <= i < v.configs.len() && is_active_in(v, #[trigger] v.configs[i]),
{
    let w = choose|w: int| 0 <= w < v.configs.len() && v.configs[w].name == n;
    assert(is_active_in(v, v.configs[w]));
}

/// Renaming the active configuration moves the active marker: after a
/// successful rename of the active `oldn` to `newn`, the store's
/// active configuration is `newn`, not `oldn`.
pub proof fn lemma_rename_moves_active(
    pre: StoreView,
    post: StoreView,
    oldn: Seq<char>,
    newn: Seq<char>,
)
    requires
        pre.active == Some(oldn),
        post.active == renamed_active(pre.active, oldn, newn),
    ensures
        post.active == Some(newn),
{
}

/// Deleting the active configuration clears the active marker: no
/// configuration remains active.
pub proof fn lemma_delete_clears_active(pre: StoreView, post: StoreView, n: Seq<char>)
    requires
        pre.active == Some(n),
        post.active == deleted_active(pre.active, n),
    ensures
        post.active is None,
{
}

} // verus!
