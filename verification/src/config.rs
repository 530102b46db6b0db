//! The settings the server runs with: devices, download paths and the rules
//! that turn a work's fandoms into the single fandom it is filed under.

use vstd::prelude::*;

use crate::common::DownloadFormat;
use crate::strset::views;
use indexmap::IndexMap;

verus! {

// ---------------------------------------------------------------------------
// Upload clients
#[derive(Clone, Copy, Debug)]
pub struct Crosspoint {}

#[derive(Clone, Copy, Debug)]
pub struct Sftp {}

/// How a device receives files.
#[derive(Clone, Copy, Debug)]
pub enum Clients {
    Crosspoint(Crosspoint),
    Sftp(Sftp),
}

/// The client that a device's `client` setting names.
pub open spec fn client_named(name: Seq<char>) -> Option<Clients> {
    if name == "sftp"@ {
        Some(Clients::Sftp(Sftp {  }))
    } else if name == "crosspoint"@ {
        Some(Clients::Crosspoint(Crosspoint {  }))
    } else {
        None
    }
}

/// The error text for a `client` setting that names no client.
pub open spec fn invalid_client_message(name: Seq<char>) -> Seq<char> {
    "invalid client: '"@ + name + "'"@
}

/// Reads a device's `client` setting: `"sftp"` or `"crosspoint"`.
pub fn client_from_name(name: &str) -> (r: Result<Clients, String>)
    ensures
        client_named(name@) matches Some(c) ==> r == Ok::<Clients, String>(c),
        client_named(name@) is None ==> (r matches Err(m) && m@ == invalid_client_message(name@)),
{
    if crate::strset::str_is(name, "sftp") {
        Ok(Clients::Sftp(Sftp {  }))
    } else if crate::strset::str_is(name, "crosspoint") {
        Ok(Clients::Crosspoint(Crosspoint {  }))
    } else {
        let mut m = crate::text::owned("invalid client: '");
        crate::text::push_str(&mut m, name);
        crate::text::push_str(&mut m, "'");
        Err(m)
    }
}

// ---------------------------------------------------------------------------
// Devices
#[derive(Clone, Debug)]
pub struct Device {
    pub name: String,
    pub ip: String,
    pub port: u16,
    pub username: String,
    pub password: String,
    pub download_folder: String,
    pub uses_koreader: Option<bool>,
    pub client: Clients,
}

/// The index of the first device called `name`.
pub open spec fn first_device_named(devices: Seq<Device>, name: Seq<char>) -> Option<int> {
    if exists|i: int| 0 <= i < devices.len() && (#[trigger] devices[i]).name@ == name {
        Some(
            choose|i: int|
                0 <= i < devices.len() && (#[trigger] devices[i]).name@ == name && forall|k: int|
                    0 <= k < i ==> (#[trigger] devices[k]).name@ != name,
        )
    } else {
        None
    }
}

proof fn lemma_first_device_named(devices: Seq<Device>, name: Seq<char>, i: int)
    requires
        0 <= i < devices.len(),
        devices[i].name@ == name,
        forall|k: int| 0 <= k < i ==> (#[trigger] devices[k]).name@ != name,
    ensures
        first_device_named(devices, name) == Some(i),
{
    let j = choose|j: int|
        0 <= j < devices.len() && (#[trigger] devices[j]).name@ == name && forall|k: int|
            0 <= k < j ==> (#[trigger] devices[k]).name@ != name;
    if j < i {
        assert(devices[j].name@ != name);
    }
    if i < j {
        assert(devices[i].name@ != name);
    }
}

/// The index of the first name in `names` that no device carries.
pub open spec fn first_unknown_name(devices: Seq<Device>, names: Seq<Seq<char>>) -> Option<int> {
    if exists|i: int| 0 <= i < names.len() && first_device_named(devices, #[trigger] names[i]) is None {
        Some(
            choose|i: int|
                0 <= i < names.len() && first_device_named(devices, #[trigger] names[i]) is None
                    && forall|k: int|
                    0 <= k < i ==> first_device_named(devices, #[trigger] names[k]) is Some,
        )
    } else {
        None
    }
}

// ---------------------------------------------------------------------------
// The fandom map
/// Pairs read in order, a later pair for the same key replacing an earlier one.
pub open spec fn pairs_map(s: Seq<(String, String)>) -> Map<Seq<char>, Seq<char>>
    decreases s.len(),
{
    if s.len() == 0 {
        Map::empty()
    } else {
        pairs_map(s.drop_last()).insert(s.last().0@, s.last().1@)
    }
}

pub open spec fn keys_distinct(s: Seq<(String, String)>) -> bool {
    forall|i: int, j: int| 0 <= i < j < s.len() ==> (#[trigger] s[i]).0@ != (#[trigger] s[j]).0@
}

proof fn lemma_pairs_map(s: Seq<(String, String)>)
    requires
        keys_distinct(s),
    ensures
        forall|i: int|
            0 <= i < s.len() ==> pairs_map(s).contains_key(#[trigger] s[i].0@) && pairs_map(s)[s[i].0@]
                == s[i].1@,
        forall|k: Seq<char>|
            #[trigger] pairs_map(s).contains_key(k) ==> exists|i: int| 0 <= i < s.len() && s[i].0@ == k,
    decreases s.len(),
{
    if s.len() > 0 {
        let t = s.drop_last();
        assert(keys_distinct(t)) by {
            assert forall|i: int, j: int| 0 <= i < j < t.len() implies (#[trigger] t[i]).0@ != (
            #[trigger] t[j]).0@ by {
                assert(t[i] == s[i] && t[j] == s[j]);
            }
        }
        lemma_pairs_map(t);
        assert forall|i: int| 0 <= i < s.len() implies pairs_map(s).contains_key(#[trigger] s[i].0@) && pairs_map(s)[s[i].0@] == s[i].1@ by {
            if i < s.len() - 1 {
                assert(t[i] == s[i]);
                assert(s[i].0@ != s[s.len() - 1].0@);
                assert(pairs_map(t).contains_key(t[i].0@));
            }
        }
        assert forall|k: Seq<char>| #[trigger] pairs_map(s).contains_key(k) implies exists|i: int|
            0 <= i < s.len() && s[i].0@ == k by {
            if k != s.last().0@ {
                assert(pairs_map(t).contains_key(k));
                let i = choose|i: int| 0 <= i < t.len() && t[i].0@ == k;
                assert(s[i] == t[i]);
            } else {
                assert(s[s.len() - 1].0@ == k);
            }
        }
    }
}

/// A map from fandom names to the names they are filed under
/// (a `HashMap<String, String>` held as pairs, each key once).
pub struct FandomMap {
    entries: Vec<(String, String)>,
}

impl FandomMap {
    #[verifier::type_invariant]
    spec fn keys_unique(self) -> bool {
        keys_distinct(self.entries@)
    }

    pub closed spec fn as_map(self) -> Map<Seq<char>, Seq<char>> {
        pairs_map(self.entries@)
    }

    pub fn new() -> (m: FandomMap)
        ensures
            m@ == Map::<Seq<char>, Seq<char>>::empty(),
    {
        FandomMap { entries: Vec::new() }
    }

    /// The index of the entry for `key`.
    fn find(&self, key: &String) -> (r: Option<usize>)
        ensures
            r matches Some(i) ==> i < self.entries.len() && self.entries@[i as int].0@ == key@,
            r is None ==> forall|i: int|
                0 <= i < self.entries.len() ==> self.entries@[i].0@ != key@,
    {
        let mut i: usize = 0;
        while i < self.entries.len()
            invariant
                0 <= i <= self.entries.len(),
                forall|k: int| 0 <= k < i ==> self.entries@[k].0@ != key@,
            decreases self.entries.len() - i,
        {
            if crate::strset::strings_equal(&self.entries[i].0, key) {
                return Some(i);
            }
            i = i + 1;
        }
        None
    }

    /// The name that `key` is filed under, if the map has one.
    pub fn get(&self, key: &String) -> (r: Option<&String>)
        ensures
            r matches Some(v) ==> self@.contains_key(key@) && self@[key@] == v@,
            r is None ==> !self@.contains_key(key@),
    {
        proof {
            use_type_invariant(self);
            lemma_pairs_map(self.entries@);
        }
        match self.find(key) {
            Some(i) => Some(&self.entries[i].1),
            None => None,
        }
    }

    /// Files `key` under `value`, replacing what it was filed under before.
    pub fn insert(&mut self, key: String, value: String)
        ensures
            final(self)@ == old(self)@.insert(key@, value@),
    {
        proof {
            use_type_invariant(&*self);
        }
        let mut entries: Vec<(String, String)> = Vec::new();
        std::mem::swap(&mut entries, &mut self.entries);
        let ghost old_entries = entries@;
        proof {
            lemma_pairs_map(old_entries);
        }
        let mut kept: Vec<(String, String)> = Vec::new();
        let mut i: usize = 0;
        while i < entries.len()
            invariant
                0 <= i <= entries.len(),
                entries@ == old_entries,
                keys_distinct(old_entries),
                keys_distinct(kept@),
                forall|k: int| 0 <= k < kept.len() ==> (#[trigger] kept@[k]).0@ != key@,
                forall|k: int|
                    0 <= k < kept.len() ==> exists|j: int|
                        0 <= j < i && old_entries[j] == #[trigger] kept@[k],
                forall|j: int|
                    0 <= j < i && old_entries[j].0@ != key@ ==> exists|k: int|
                        0 <= k < kept.len() && #[trigger] kept@[k] == old_entries[j],
            decreases entries.len() - i,
        {
            if !crate::strset::strings_equal(&entries[i].0, &key) {
                let ghost before = kept@;
                let e = (entries[i].0.clone(), entries[i].1.clone());
                kept.push(e);
                proof {
                    assert(kept@[before.len() as int] == old_entries[i as int]);
                    assert forall|a: int, b: int| 0 <= a < b < kept.len() implies (
                    #[trigger] kept@[a]).0@ != (#[trigger] kept@[b]).0@ by {
                        if b == before.len() {
                            let ja = choose|j: int| 0 <= j < i && old_entries[j] == before[a];
                            assert(kept@[a] == before[a]);
                            assert(old_entries[ja].0@ != old_entries[i as int].0@);
                        } else {
                            assert(kept@[a] == before[a] && kept@[b] == before[b]);
                        }
                    }
                    assert forall|k: int| 0 <= k < kept.len() implies exists|j: int|
                        0 <= j < i + 1 && old_entries[j] == #[trigger] kept@[k] by {
                        if k < before.len() {
                            assert(kept@[k] == before[k]);
                            let j = choose|j: int| 0 <= j < i && old_entries[j] == before[k];
                        } else {
                            assert(old_entries[i as int] == kept@[k]);
                        }
                    }
                    assert forall|j: int| 0 <= j < i + 1 && old_entries[j].0@ != key@ implies exists|
                        k: int,
                    | 0 <= k < kept.len() && #[trigger] kept@[k] == old_entries[j] by {
                        if j < i {
                            let k = choose|k: int| 0 <= k < before.len() && before[k] == old_entries[j];
                            assert(kept@[k] == before[k]);
                        } else {
                            assert(kept@[before.len() as int] == old_entries[j]);
                        }
                    }
                }
            }
            i = i + 1;
        }
        let ghost before = kept@;
        kept.push((key, value));
        proof {
            assert(kept@[before.len() as int].0@ == key@);
            assert forall|a: int, b: int| 0 <= a < b < kept.len() implies (#[trigger] kept@[a]).0@ != (
            #[trigger] kept@[b]).0@ by {
                if b == before.len() {
                    assert(kept@[a] == before[a]);
                } else {
                    assert(kept@[a] == before[a] && kept@[b] == before[b]);
                }
            }
            lemma_pairs_map(kept@);
            assert(kept@.drop_last() =~= before);
            lemma_pairs_map(before);
            assert forall|x: Seq<char>| pairs_map(kept@).contains_key(x) <==> pairs_map(
                old_entries,
            ).insert(key@, value@).contains_key(x) by {
                if x != key@ {
                    if pairs_map(before).contains_key(x) {
                        let k = choose|k: int| 0 <= k < before.len() && before[k].0@ == x;
                        let j = choose|j: int| 0 <= j < old_entries.len() && old_entries[j] == before[k];
                        assert(old_entries[j].0@ == x);
                    }
                    if pairs_map(old_entries).contains_key(x) {
                        let j = choose|j: int| 0 <= j < old_entries.len() && old_entries[j].0@ == x;
                        let k = choose|k: int| 0 <= k < before.len() && before[k] == old_entries[j];
                        assert(before[k].0@ == x);
                    }
                }
            }
            assert forall|x: Seq<char>| #[trigger] pairs_map(kept@).contains_key(x) && x != key@ implies
                pairs_map(kept@)[x] == pairs_map(old_entries)[x] by {
                let k = choose|k: int| 0 <= k < before.len() && before[k].0@ == x;
                let j = choose|j: int| 0 <= j < old_entries.len() && old_entries[j] == before[k];
                assert(kept@[k] == before[k]);
            }
            assert(pairs_map(kept@) =~= pairs_map(old_entries).insert(key@, value@));
        }
        self.entries = kept;
    }

    /// The map built from `pairs` read in order, as `HashMap::from` builds it.
    pub fn from_pairs(pairs: Vec<(String, String)>) -> (m: FandomMap)
        ensures
            m@ == pairs_map(pairs@),
    {
        let mut m = FandomMap::new();
        let mut i: usize = 0;
        assert(pairs@.take(0) =~= Seq::<(String, String)>::empty());
        while i < pairs.len()
            invariant
                0 <= i <= pairs.len(),
                m@ == pairs_map(pairs@.take(i as int)),
            decreases pairs.len() - i,
        {
            let k = pairs[i].0.clone();
            let v = pairs[i].1.clone();
            m.insert(k, v);
            assert(pairs@.take(i + 1).drop_last() =~= pairs@.take(i as int));
            i = i + 1;
        }
        assert(pairs@.take(i as int) =~= pairs@);
        m
    }
}

impl FandomMap {
    /// The map's entries as pairs, each key once.
    pub fn to_pairs(&self) -> (r: Vec<(String, String)>)
        ensures
            pairs_map(r@) == self@,
            keys_distinct(r@),
    {
        proof {
            use_type_invariant(self);
        }
        let mut r: Vec<(String, String)> = Vec::new();
        let mut i: usize = 0;
        while i < self.entries.len()
            invariant
                0 <= i <= self.entries.len(),
                r.len() == i,
                keys_distinct(self.entries@),
                forall|j: int| 0 <= j < i ==> (#[trigger] r@[j]).0@ == self.entries@[j].0@ && r@[j].1@ == self.entries@[j].1@,
            decreases self.entries.len() - i,
        {
            let e = (self.entries[i].0.clone(), self.entries[i].1.clone());
            r.push(e);
            proof {
                assert forall|j: int| 0 <= j < i + 1 implies (#[trigger] r@[j]).0@ == self.entries@[j].0@ && r@[j].1@ == self.entries@[j].1@ by {
                    if j == i {
                        assert(r@[j] == e);
                    }
                }
            }
            i = i + 1;
        }
        proof {
            lemma_pairs_map_views(r@, self.entries@);
            assert forall|a: int, b: int| 0 <= a < b < r@.len() implies (#[trigger] r@[a]).0@ != (#[trigger] r@[b]).0@ by {
                assert(self.entries@[a].0@ != self.entries@[b].0@);
            }
        }
        r
    }
}

proof fn lemma_pairs_map_views(a: Seq<(String, String)>, b: Seq<(String, String)>)
    requires
        a.len() == b.len(),
        forall|j: int| 0 <= j < a.len() ==> (#[trigger] a[j]).0@ == b[j].0@ && a[j].1@ == b[j].1@,
    ensures
        pairs_map(a) == pairs_map(b),
    decreases a.len(),
{
    if a.len() > 0 {
        assert forall|j: int| 0 <= j < a.drop_last().len() implies (#[trigger] a.drop_last()[j]).0@ == b.drop_last()[j].0@
            && a.drop_last()[j].1@ == b.drop_last()[j].1@ by {
            assert(a.drop_last()[j] == a[j] && b.drop_last()[j] == b[j]);
        }
        lemma_pairs_map_views(a.drop_last(), b.drop_last());
        assert(a.last() == a[a.len() - 1]);
    }
}

impl View for FandomMap {
    type V = Map<Seq<char>, Seq<char>>;

    open spec fn view(&self) -> Map<Seq<char>, Seq<char>> {
        self.as_map()
    }
}

// ---------------------------------------------------------------------------
// The fandom filters
#[verifier::external_type_specification]
#[verifier::external_body]
#[verifier::reject_recursive_types(K)]
#[verifier::reject_recursive_types(V)]
#[verifier::reject_recursive_types(S)]
pub struct ExIndexMap<K, V, S>(IndexMap<K, V, S>);

/// What an `IndexMap` of fandom filters holds: its entries, in the map's order.
pub uninterp spec fn fandom_filter_entries(m: IndexMap<String, Vec<String>>) -> Seq<(Seq<char>, Seq<Seq<char>>)>;

/// The character sequences of a list of fandom filters.
pub open spec fn filter_list_view(s: Seq<(String, Vec<String>)>) -> Seq<(Seq<char>, Seq<Seq<char>>)> {
    s.map_values(|e: (String, Vec<String>)| (e.0@, views(e.1@)))
}

/// `IndexMap::iter` over the fandom filters, each entry copied out in the
/// map's order. The map's keys are unique, as indexmap documents.
#[verifier::external_body]
fn fandom_filter_list(m: &IndexMap<String, Vec<String>>) -> (r: Vec<(String, Vec<String>)>)
    ensures
        filter_list_view(r@) == fandom_filter_entries(*m),
        forall|i: int, j: int|
            0 <= i < j < r.len() ==> (#[trigger] r@[i]).0@ != (#[trigger] r@[j]).0@,
{
    m.iter().map(|(k, v)| (k.clone(), v.clone())).collect()
}

/// `IndexMap::new`: a map with no entries.
#[verifier::external_body]
fn empty_fandom_filter() -> (r: IndexMap<String, Vec<String>>)
    ensures
        fandom_filter_entries(r) == Seq::<(Seq<char>, Seq<Seq<char>>)>::empty(),
{
    IndexMap::new()
}

// ---------------------------------------------------------------------------
// The configuration
pub struct Config {
    pub port: u16,
    pub download_path: String,
    pub db_path: String,
    pub ao3_username: Option<String>,
    pub ao3_password: Option<String>,
    pub default_format: DownloadFormat,
    pub devices: Vec<Device>,
    pub fandom_map: FandomMap,
    pub fandom_filter: IndexMap<String, Vec<String>>,
}

impl Default for Config {
    /// A configuration with nothing set: no devices, no fandom rules, EPUB downloads.
    fn default() -> (c: Config)
        ensures
            c.port == 0,
            c.download_path@.len() == 0,
            c.db_path@.len() == 0,
            c.ao3_username is None,
            c.ao3_password is None,
            c.default_format == DownloadFormat::Epub,
            c.devices@.len() == 0,
            c.fandom_map@ == Map::<Seq<char>, Seq<char>>::empty(),
            c.filters() == Seq::<(Seq<char>, Seq<Seq<char>>)>::empty(),
    {
        Config {
            port: 0,
            download_path: String::new(),
            db_path: String::new(),
            ao3_username: None,
            ao3_password: None,
            default_format: DownloadFormat::Epub,
            devices: Vec::new(),
            fandom_map: FandomMap::new(),
            fandom_filter: empty_fandom_filter(),
        }
    }
}

impl Config {
    /// The fandom filters in their order.
    pub open spec fn filters(self) -> Seq<(Seq<char>, Seq<Seq<char>>)> {
        fandom_filter_entries(self.fandom_filter)
    }

    /// The fandom filters, copied out in their order.
    pub fn fandom_filter_list(&self) -> (r: Vec<(String, Vec<String>)>)
        ensures
            filter_list_view(r@) == self.filters(),
    {
        fandom_filter_list(&self.fandom_filter)
    }

    /// The first device called `name`.
    pub fn get_device_by_name(&self, name: &str) -> (r: Option<&Device>)
        ensures
            first_device_named(self.devices@, name@) matches Some(i) ==> r == Some(&self.devices@[i]),
            first_device_named(self.devices@, name@) is None ==> r is None,
    {
        let mut i: usize = 0;
        while i < self.devices.len()
            invariant
                0 <= i <= self.devices.len(),
                forall|k: int| 0 <= k < i ==> (#[trigger] self.devices@[k]).name@ != name@,
            decreases self.devices.len() - i,
        {
            if crate::strset::str_is(self.devices[i].name.as_str(), name) {
                proof {
                    lemma_first_device_named(self.devices@, name@, i as int);
                }
                return Some(&self.devices[i]);
            }
            i = i + 1;
        }
        None
    }

    /// The devices called `names`, in that order, or the first name that no device carries.
    pub fn get_devices(&self, names: Vec<String>) -> (r: Result<Vec<&Device>, String>)
        ensures
            first_unknown_name(self.devices@, views(names@)) matches Some(i) ==> r == Err::<
                Vec<&Device>,
                String,
            >(names@[i]),
            first_unknown_name(self.devices@, views(names@)) is None ==> (r matches Ok(ds) && ds.len()
                == names.len() && forall|k: int|
                0 <= k < names.len() ==> is_first_named(self.devices@, names@[k]@, *(#[trigger] ds@[k]))),
    {
        let ghost ns = views(names@);
        let mut ds: Vec<&Device> = Vec::new();
        let mut i: usize = 0;
        while i < names.len()
            invariant
                0 <= i <= names.len(),
                ds.len() == i,
                ns == views(names@),
                forall|k: int| 0 <= k < i ==> first_device_named(self.devices@, #[trigger] ns[k]) is Some,
                forall|k: int| 0 <= k < i ==> is_first_named(self.devices@, names@[k]@, *(#[trigger] ds@[k])),
            decreases names.len() - i,
        {
            assert(ns[i as int] == names@[i as int]@);
            match self.get_device_by_name(names[i].as_str()) {
                Some(d) => {
                    ds.push(d);
                },
                None => {
                    proof {
                        lemma_first_unknown_name(self.devices@, ns, i as int);
                    }
                    return Err(names[i].clone());
                },
            }
            i = i + 1;
        }
        proof {
            if first_unknown_name(self.devices@, ns) is Some {
                let j = first_unknown_name(self.devices@, ns)->0;
                assert(first_device_named(self.devices@, ns[j]) is Some);
            }
        }
        Ok(ds)
    }
}

/// `d` is the first device called `name`.
pub open spec fn is_first_named(devices: Seq<Device>, name: Seq<char>, d: Device) -> bool {
    first_device_named(devices, name) matches Some(j) && devices[j] == d
}

proof fn least_unknown(devices: Seq<Device>, names: Seq<Seq<char>>, i0: int) -> (m: int)
    requires
        0 <= i0 < names.len(),
        first_device_named(devices, names[i0]) is None,
    ensures
        0 <= m <= i0,
        first_device_named(devices, names[m]) is None,
        forall|k: int| 0 <= k < m ==> first_device_named(devices, #[trigger] names[k]) is Some,
    decreases i0,
{
    if exists|k: int| 0 <= k < i0 && first_device_named(devices, #[trigger] names[k]) is None {
        let k = choose|k: int| 0 <= k < i0 && first_device_named(devices, #[trigger] names[k]) is None;
        least_unknown(devices, names, k)
    } else {
        i0
    }
}

/// The first unknown name, where there is one, is a name no device carries,
/// and every name before it is known.
pub proof fn lemma_first_unknown_in_range(devices: Seq<Device>, names: Seq<Seq<char>>)
    ensures
        first_unknown_name(devices, names) matches Some(i) ==> 0 <= i < names.len() && first_device_named(devices, names[i]) is None,
{
    if exists|i: int| 0 <= i < names.len() && first_device_named(devices, #[trigger] names[i]) is None {
        let i0 = choose|i: int| 0 <= i < names.len() && first_device_named(devices, #[trigger] names[i]) is None;
        let m = least_unknown(devices, names, i0);
        lemma_first_unknown_name(devices, names, m);
    }
}

proof fn lemma_first_unknown_name(devices: Seq<Device>, names: Seq<Seq<char>>, i: int)
    requires
        0 <= i < names.len(),
        first_device_named(devices, names[i]) is None,
        forall|k: int| 0 <= k < i ==> first_device_named(devices, #[trigger] names[k]) is Some,
    ensures
        first_unknown_name(devices, names) == Some(i),
{
    let j = choose|j: int|
        0 <= j < names.len() && first_device_named(devices, #[trigger] names[j]) is None && forall|
            k: int,
        | 0 <= k < j ==> first_device_named(devices, #[trigger] names[k]) is Some;
    if j < i {
        assert(first_device_named(devices, names[j]) is Some);
    }
    if i < j {
        assert(first_device_named(devices, names[i]) is Some);
    }
}

} // verus!
