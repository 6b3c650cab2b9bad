//! Per-port preferences and the store that looks them up by port name or by alias.

use vstd::prelude::*;

verus! {

/// The direction a configured port can carry messages in.
#[derive(Debug, Clone, Copy, PartialEq, Eq, Structural)]
pub enum PortDir {
    Duplex,
    Input,
    Output,
}

impl Default for PortDir {
    fn default() -> (r: PortDir)
        ensures
            r == PortDir::Duplex,
    {
        PortDir::Duplex
    }
}

/// A routing behaviour declared for a port.
#[derive(Debug, Clone, Copy, PartialEq, Eq, Structural)]
pub enum DeviceRole {
    /// Send to every other port.
    Broadcast,
    /// Receive from every other port.
    Monitor,
}

/// The declared configuration of one port.
#[derive(Debug, Clone, PartialEq)]
pub struct DevicePrefs {
    pub port_name: String,
    pub port_dir: PortDir,
    pub alias: Option<String>,
    pub roles: Vec<DeviceRole>,
}

/// The entry that is synthesized for a live port that has no configuration.
pub open spec fn is_default_for(d: DevicePrefs, name: Seq<char>) -> bool {
    &&& d.port_name@ == name
    &&& d.port_dir == PortDir::Duplex
    &&& d.alias is None
    &&& d.roles@.len() == 0
}

impl DevicePrefs {
    /// Default preferences for the named port: duplex, no alias, no roles.
    pub fn from_port(port_name: String) -> (r: DevicePrefs)
        ensures
            is_default_for(r, port_name@),
    {
        DevicePrefs { port_name, port_dir: PortDir::Duplex, alias: None, roles: Vec::new() }
    }
}

/// The configuration document: an ordered list of device entries.
#[derive(Debug, Clone, PartialEq)]
pub struct PrefsModel {
    pub devices: Vec<DevicePrefs>,
}

impl Default for PrefsModel {
    fn default() -> (r: PrefsModel)
        ensures
            r.devices@.len() == 0,
    {
        PrefsModel { devices: Vec::new() }
    }
}

/// The index of the last entry that satisfies `pred`, or -1 if none does.
pub open spec fn last_index_where<T>(devs: Seq<T>, pred: spec_fn(T) -> bool) -> int
    decreases devs.len(),
{
    if devs.len() == 0 {
        -1
    } else if pred(devs.last()) {
        devs.len() - 1
    } else {
        last_index_where(devs.drop_last(), pred)
    }
}

pub open spec fn named(name: Seq<char>) -> spec_fn(DevicePrefs) -> bool {
    |d: DevicePrefs| d.port_name@ == name
}

pub open spec fn aliased(alias: Seq<char>) -> spec_fn(DevicePrefs) -> bool {
    |d: DevicePrefs|
        match d.alias {
            Some(a) => a@ == alias,
            None => false,
        }
}

/// The entry of a port: when the document names a port more than once, the last entry wins.
pub open spec fn lookup(devs: Seq<DevicePrefs>, name: Seq<char>) -> Option<DevicePrefs> {
    let k = last_index_where(devs, named(name));
    if k >= 0 {
        Some(devs[k])
    } else {
        None
    }
}

/// The configured alias of a port, or the name itself.
pub open spec fn alias_of(devs: Seq<DevicePrefs>, name: Seq<char>) -> Seq<char> {
    match lookup(devs, name) {
        Some(d) => match d.alias {
            Some(a) => a@,
            None => name,
        },
        None => name,
    }
}

/// The port that carries an alias (the last entry that declares it), or the input itself.
pub open spec fn portname_of(devs: Seq<DevicePrefs>, alias: Seq<char>) -> Seq<char> {
    let k = last_index_where(devs, aliased(alias));
    if k >= 0 {
        devs[k].port_name@
    } else {
        alias
    }
}

/// `last_index_where` is the largest index whose entry satisfies the predicate.
pub proof fn lemma_last_index_where<T>(devs: Seq<T>, pred: spec_fn(T) -> bool)
    ensures
        -1 <= last_index_where(devs, pred) < devs.len(),
        last_index_where(devs, pred) >= 0 ==> pred(devs[last_index_where(devs, pred)]),
        forall|j: int| last_index_where(devs, pred) < j < devs.len() ==> !pred(#[trigger] devs[j]),
    decreases devs.len(),
{
    if devs.len() > 0 && !pred(devs.last()) {
        lemma_last_index_where(devs.drop_last(), pred);
        assert forall|j: int| last_index_where(devs, pred) < j < devs.len() implies !pred(
            #[trigger] devs[j],
        ) by {
            if j < devs.len() - 1 {
                assert(devs.drop_last()[j] == devs[j]);
            }
        }
    }
}

/// The preference store: the document, looked up by port name and by alias.
#[derive(Debug, Clone)]
pub struct UserPrefs {
    pub prefs_model: PrefsModel,
}

impl Default for UserPrefs {
    fn default() -> (r: UserPrefs)
        ensures
            r.prefs_model.devices@.len() == 0,
    {
        UserPrefs { prefs_model: PrefsModel::default() }
    }
}

impl UserPrefs {
    pub open spec fn devices(&self) -> Seq<DevicePrefs> {
        self.prefs_model.devices@
    }

    /// A store over a loaded document.
    pub fn new(prefs_model: PrefsModel) -> (r: UserPrefs)
        ensures
            r.prefs_model == prefs_model,
    {
        UserPrefs { prefs_model }
    }

    fn find_named(&self, name: &str) -> (r: Option<usize>)
        ensures
            match r {
                Some(k) => k == last_index_where(self.devices(), named(name@)) && k < self.devices().len(),
                None => last_index_where(self.devices(), named(name@)) == -1,
            },
    {
        let key = name.to_owned();
        let devs = &self.prefs_model.devices;
        let mut i: usize = devs.len();
        while i > 0
            invariant
                i <= devs@.len(),
                devs@ == self.devices(),
                key@ == name@,
                forall|j: int| i <= j < devs@.len() ==> !named(name@)(#[trigger] devs@[j]),
            decreases i,
        {
            if devs[i - 1].port_name == key {
                proof {
                    lemma_last_index_where(devs@, named(name@));
                    let k = last_index_where(devs@, named(name@));
                    assert(named(name@)(devs@[i - 1]));
                    if k >= 0 {
                        assert(named(name@)(devs@[k]));
                    }
                    assert(k == i - 1);
                }
                return Some(i - 1);
            }
            i = i - 1;
        }
        proof {
            lemma_last_index_where(devs@, named(name@));
        }
        None
    }

    fn find_aliased(&self, alias: &str) -> (r: Option<usize>)
        ensures
            match r {
                Some(k) => k == last_index_where(self.devices(), aliased(alias@)) && k
                    < self.devices().len(),
                None => last_index_where(self.devices(), aliased(alias@)) == -1,
            },
    {
        let key = alias.to_owned();
        let devs = &self.prefs_model.devices;
        let mut i: usize = devs.len();
        while i > 0
            invariant
                i <= devs@.len(),
                devs@ == self.devices(),
                key@ == alias@,
                forall|j: int| i <= j < devs@.len() ==> !aliased(alias@)(#[trigger] devs@[j]),
            decreases i,
        {
            let found = match &devs[i - 1].alias {
                Some(a) => *a == key,
                None => false,
            };
            if found {
                proof {
                    lemma_last_index_where(devs@, aliased(alias@));
                    let k = last_index_where(devs@, aliased(alias@));
                    assert(aliased(alias@)(devs@[i - 1]));
                    if k >= 0 {
                        assert(aliased(alias@)(devs@[k]));
                    }
                    assert(k == i - 1);
                }
                return Some(i - 1);
            }
            i = i - 1;
        }
        proof {
            lemma_last_index_where(devs@, aliased(alias@));
        }
        None
    }

    /// The entry configured for a port, if any.
    pub fn get_port_prefs(&self, port_name: &str) -> (r: Option<&DevicePrefs>)
        ensures
            match r {
                Some(d) => lookup(self.devices(), port_name@) == Some(*d),
                None => lookup(self.devices(), port_name@) is None,
            },
    {
        match self.find_named(port_name) {
            Some(k) => Some(&self.prefs_model.devices[k]),
            None => None,
        }
    }

    /// The configured alias of a port, or the name unchanged.
    pub fn resolve_to_alias(&self, name: &str) -> (r: String)
        ensures
            r@ == alias_of(self.devices(), name@),
    {
        match self.get_port_prefs(name) {
            Some(d) => match &d.alias {
                Some(a) => a.clone(),
                None => name.to_owned(),
            },
            None => name.to_owned(),
        }
    }

    /// The port name behind an alias, or the input unchanged.
    pub fn resolve_to_portname(&self, name: &str) -> (r: String)
        ensures
            r@ == portname_of(self.devices(), name@),
    {
        match self.find_aliased(name) {
            Some(k) => self.prefs_model.devices[k].port_name.clone(),
            None => name.to_owned(),
        }
    }
}

/// For a port whose entry carries an alias that no other entry carries, resolving the alias of
/// the name gives the name back.
pub proof fn lemma_alias_round_trip(devs: Seq<DevicePrefs>, name: Seq<char>)
    requires
        lookup(devs, name) matches Some(d) && d.alias is Some,
        forall|i: int, j: int|
            0 <= i < devs.len() && 0 <= j < devs.len() && #[trigger] aliased(alias_of(devs, name))(
                devs[i],
            ) && #[trigger] aliased(alias_of(devs, name))(devs[j]) ==> i == j,
    ensures
        portname_of(devs, alias_of(devs, name)) == name,
{
    lemma_last_index_where(devs, named(name));
    let k = last_index_where(devs, named(name));
    let al = alias_of(devs, name);
    assert(aliased(al)(devs[k]));
    lemma_last_index_where(devs, aliased(al));
    let m = last_index_where(devs, aliased(al));
    if m < k {
        assert(!aliased(al)(devs[k]));
    }
    assert(aliased(al)(devs[m]));
    assert(m == k);
}

} // verus!
