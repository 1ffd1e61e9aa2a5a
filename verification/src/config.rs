//! Instance bookkeeping: the metadata kept per instance, the configuration
//! that maps names to it, and where an instance's files live.

use vstd::prelude::*;
use crate::paths::{join, join_path};
use crate::text::{decimal, owned, u64_to_decimal, concat2};

verus! {

/// How an instance's data directory is initialised.
#[derive(Clone, Copy, Debug, PartialEq, Eq, Structural)]
pub enum InitMode {
    /// The official postgres entrypoint initialises the data directory.
    Standard,
    /// An explicit `initdb` step, then `postgres -D ...` (CloudNativePG-style
    /// images).
    Cnpg,
}

impl Default for InitMode {
    fn default() -> (r: InitMode)
        ensures
            r == InitMode::Standard,
    {
        InitMode::Standard
    }
}

/// What is remembered about one managed instance.
#[derive(Clone, Debug)]
pub struct InstanceMetadata {
    pub name: String,
    pub version: String,
    pub port: u16,
    pub container_id: Option<String>,
    pub data_subdir: Option<String>,
    pub image: Option<String>,
    pub init_mode: InitMode,
    pub shared_preload_libraries: Option<String>,
}

/// The characters of an optional string.
pub open spec fn opt_text(o: Option<String>) -> Option<Seq<char>> {
    match o {
        Some(s) => Some(s@),
        None => None,
    }
}

/// A copy of an optional string.
pub fn copy_opt(o: &Option<String>) -> (r: Option<String>)
    ensures
        r == *o,
{
    match o {
        Some(s) => Some(s.clone()),
        None => None,
    }
}

/// The image an instance runs: its own, or `postgres:<version>`.
pub open spec fn resolved_image_text(m: InstanceMetadata) -> Seq<char> {
    match m.image {
        Some(i) => i@,
        None => "postgres:"@ + m.version@,
    }
}

/// The superuser password each init mode sets up.
pub open spec fn default_password_text(mode: InitMode) -> Seq<char> {
    match mode {
        InitMode::Standard => "password"@,
        InitMode::Cnpg => "postgres"@,
    }
}

/// The connection string of an instance.
pub open spec fn connection_string_text(m: InstanceMetadata) -> Seq<char> {
    "postgresql://postgres:"@ + default_password_text(m.init_mode) + "@localhost:"@
        + decimal(m.port as nat) + "/postgres"@
}

impl InstanceMetadata {
    /// A field-by-field copy.
    pub fn duplicate(&self) -> (r: InstanceMetadata)
        ensures
            r == *self,
    {
        InstanceMetadata {
            name: self.name.clone(),
            version: self.version.clone(),
            port: self.port,
            container_id: copy_opt(&self.container_id),
            data_subdir: copy_opt(&self.data_subdir),
            image: copy_opt(&self.image),
            init_mode: self.init_mode,
            shared_preload_libraries: copy_opt(&self.shared_preload_libraries),
        }
    }

    /// The image the instance runs: its own, or `postgres:<version>`.
    pub fn resolved_image(&self) -> (r: String)
        ensures
            r@ == resolved_image_text(*self),
    {
        match &self.image {
            Some(i) => i.clone(),
            None => concat2("postgres:", self.version.as_str()),
        }
    }

    /// The superuser password of the instance's init mode.
    pub fn default_password(&self) -> (r: &'static str)
        ensures
            r@ == default_password_text(self.init_mode),
    {
        match self.init_mode {
            InitMode::Standard => "password",
            InitMode::Cnpg => "postgres",
        }
    }

    /// `postgresql://postgres:<password>@localhost:<port>/postgres`.
    pub fn connection_string(&self) -> (r: String)
        ensures
            r@ == connection_string_text(*self),
    {
        let mut r = owned("postgresql://postgres:");
        r.push_str(self.default_password());
        r.push_str("@localhost:");
        let port = u64_to_decimal(self.port as u64);
        r.push_str(port.as_str());
        r.push_str("/postgres");
        r
    }
}

/// A compaction job registered with the OS scheduler.
#[derive(Clone, Debug)]
pub struct CompactSchedule {
    /// The instance it compacts, or `None` for all instances.
    pub instance: Option<String>,
    pub cron: String,
    pub retain: String,
    pub strict: bool,
}

impl CompactSchedule {
    /// A field-by-field copy.
    pub fn duplicate(&self) -> (r: CompactSchedule)
        ensures
            r == *self,
    {
        CompactSchedule {
            instance: copy_opt(&self.instance),
            cron: self.cron.clone(),
            retain: self.retain.clone(),
            strict: self.strict,
        }
    }
}

/// The map a list of entries denotes, later entries overriding earlier ones
/// with the same key.
pub open spec fn entries_map<V>(entries: Seq<(String, V)>) -> Map<Seq<char>, V>
    decreases entries.len(),
{
    if entries.len() == 0 {
        Map::empty()
    } else {
        entries_map(entries.drop_last()).insert(entries.last().0@, entries.last().1)
    }
}

/// Whether no two entries share a key.
pub open spec fn keys_unique<V>(entries: Seq<(String, V)>) -> bool {
    forall|i: int, j: int| 0 <= i < j < entries.len() ==> entries[i].0@ != entries[j].0@
}

/// A map from names to values; each name occurs once.
///
/// The entries are kept as a vector of pairs rather than in a
/// `HashMap<String, V>`: vstd specifies `HashMap` operations only for key
/// types it knows to obey its key model (`obeys_key_model`), which it
/// establishes for integer and `bool` keys but not for `String`, and that
/// fact cannot be supplied here without an assumption. Entry order is not
/// part of the map's view; nothing that uses it depends on that order.
pub struct NameMap<V> {
    entries: Vec<(String, V)>,
}

proof fn lemma_entries_map_dom<V>(entries: Seq<(String, V)>)
    ensures
        forall|k: Seq<char>| #[trigger] entries_map(entries).dom().contains(k) <==> exists|i: int|
            0 <= i < entries.len() && entries[i].0@ == k,
    decreases entries.len(),
{
    if entries.len() > 0 {
        let d = entries.drop_last();
        lemma_entries_map_dom(d);
        let last = entries.last();
        assert(entries_map(entries) == entries_map(d).insert(last.0@, last.1));
        assert forall|k: Seq<char>| #[trigger] entries_map(entries).dom().contains(k) <==> exists|i: int|
            0 <= i < entries.len() && entries[i].0@ == k by {
            if entries_map(entries).dom().contains(k) {
                if k == last.0@ {
                    assert(entries[entries.len() - 1].0@ == k);
                } else {
                    assert(entries_map(d).dom().contains(k));
                    let i = choose|i: int| 0 <= i < d.len() && d[i].0@ == k;
                    assert(entries[i] == d[i]);
                }
            }
            if exists|i: int| 0 <= i < entries.len() && entries[i].0@ == k {
                let i = choose|i: int| 0 <= i < entries.len() && entries[i].0@ == k;
                if i < entries.len() - 1 {
                    assert(d[i].0@ == k);
                    assert(entries_map(d).dom().contains(k));
                }
            }
        }
    }
}

proof fn lemma_entries_map_value<V>(entries: Seq<(String, V)>, i: int)
    requires
        keys_unique(entries),
        0 <= i < entries.len(),
    ensures
        entries_map(entries).dom().contains(entries[i].0@),
        entries_map(entries)[entries[i].0@] == entries[i].1,
    decreases entries.len(),
{
    lemma_entries_map_dom(entries);
    if i < entries.len() - 1 {
        let d = entries.drop_last();
        assert(d[i] == entries[i]);
        assert(keys_unique(d));
        lemma_entries_map_value(d, i);
        assert(entries.last().0@ != entries[i].0@);
    }
}

proof fn lemma_entries_map_push<V>(entries: Seq<(String, V)>, k: String, v: V)
    ensures
        entries_map(entries.push((k, v))) == entries_map(entries).insert(k@, v),
{
    assert(entries.push((k, v)).drop_last() =~= entries);
}

proof fn lemma_entries_map_update<V>(entries: Seq<(String, V)>, i: int, k: String, v: V)
    requires
        keys_unique(entries),
        0 <= i < entries.len(),
        entries[i].0@ == k@,
    ensures
        entries_map(entries.update(i, (k, v))) =~= entries_map(entries).insert(k@, v),
        keys_unique(entries.update(i, (k, v))),
{
    let u = entries.update(i, (k, v));
    lemma_entries_map_dom(entries);
    lemma_entries_map_dom(u);
    assert forall|x: Seq<char>| #[trigger] entries_map(u).dom().contains(x) <==> entries_map(entries).insert(k@, v).dom().contains(x) by {
        if exists|j: int| 0 <= j < u.len() && u[j].0@ == x {
            let j = choose|j: int| 0 <= j < u.len() && u[j].0@ == x;
            if j != i {
                assert(entries[j].0@ == x);
            }
        }
        if exists|j: int| 0 <= j < entries.len() && entries[j].0@ == x {
            let j = choose|j: int| 0 <= j < entries.len() && entries[j].0@ == x;
            if j != i {
                assert(u[j].0@ == x);
            } else {
                assert(u[i].0@ == x);
            }
        }
        if x == k@ {
            assert(u[i].0@ == x);
        }
    }
    assert(keys_unique(u));
    assert forall|x: Seq<char>| #[trigger] entries_map(u).dom().contains(x) implies entries_map(u)[x] == entries_map(entries).insert(k@, v)[x] by {
        let j = choose|j: int| 0 <= j < u.len() && u[j].0@ == x;
        lemma_entries_map_value(u, j);
        if j != i {
            lemma_entries_map_value(entries, j);
        }
    }
}

proof fn lemma_entries_map_remove<V>(entries: Seq<(String, V)>, i: int)
    requires
        keys_unique(entries),
        0 <= i < entries.len(),
    ensures
        entries_map(entries.remove(i)) =~= entries_map(entries).remove(entries[i].0@),
        keys_unique(entries.remove(i)),
{
    let r = entries.remove(i);
    let k = entries[i].0@;
    lemma_entries_map_dom(entries);
    lemma_entries_map_dom(r);
    assert forall|a: int, b: int| 0 <= a < b < r.len() implies r[a].0@ != r[b].0@ by {
        let a2 = if a < i { a } else { a + 1 };
        let b2 = if b < i { b } else { b + 1 };
        assert(r[a] == entries[a2]);
        assert(r[b] == entries[b2]);
    }
    assert forall|x: Seq<char>| #[trigger] entries_map(r).dom().contains(x) <==> entries_map(entries).remove(k).dom().contains(x) by {
        if exists|j: int| 0 <= j < r.len() && r[j].0@ == x {
            let j = choose|j: int| 0 <= j < r.len() && r[j].0@ == x;
            let j2 = if j < i { j } else { j + 1 };
            assert(r[j] == entries[j2]);
            assert(entries[j2].0@ == x);
            assert(x != k);
        }
        if x != k && exists|j: int| 0 <= j < entries.len() && entries[j].0@ == x {
            let j = choose|j: int| 0 <= j < entries.len() && entries[j].0@ == x;
            assert(j != i);
            let j2 = if j < i { j } else { j - 1 };
            assert(r[j2] == entries[j]);
        }
    }
    assert forall|x: Seq<char>| #[trigger] entries_map(r).dom().contains(x) implies entries_map(r)[x] == entries_map(entries).remove(k)[x] by {
        let j = choose|j: int| 0 <= j < r.len() && r[j].0@ == x;
        lemma_entries_map_value(r, j);
        let j2 = if j < i { j } else { j + 1 };
        assert(r[j] == entries[j2]);
        lemma_entries_map_value(entries, j2);
    }
}

impl<V> NameMap<V> {
    #[verifier::type_invariant]
    spec fn unique(&self) -> bool {
        keys_unique(self.entries@)
    }

    /// The names and their values.
    pub closed spec fn view(&self) -> Map<Seq<char>, V> {
        entries_map(self.entries@)
    }

    /// An empty map.
    pub fn new() -> (r: NameMap<V>)
        ensures
            r.view() == Map::<Seq<char>, V>::empty(),
    {
        NameMap { entries: Vec::new() }
    }

    fn find(&self, key: &str) -> (r: Option<usize>)
        ensures
            r matches Some(i) ==> i < self.entries@.len() && self.entries@[i as int].0@ == key@,
            r is None ==> forall|j: int| 0 <= j < self.entries@.len() ==> self.entries@[j].0@ != key@,
    {
        let n: usize = self.entries.len();
        let mut i: usize = 0;
        while i < n
            invariant
                n == self.entries@.len(),
                i <= n,
                forall|j: int| 0 <= j < i ==> self.entries@[j].0@ != key@,
            decreases n - i,
        {
            if crate::text::str_eq(self.entries[i].0.as_str(), key) {
                return Some(i);
            }
            i = i + 1;
        }
        None
    }

    /// Whether `key` is present.
    pub fn contains_key(&self, key: &str) -> (r: bool)
        ensures
            r == self.view().dom().contains(key@),
    {
        proof {
            lemma_entries_map_dom(self.entries@);
        }
        match self.find(key) {
            Some(i) => true,
            None => false,
        }
    }

    /// The value stored under `key`.
    pub fn get(&self, key: &str) -> (r: Option<&V>)
        ensures
            r is Some <==> self.view().dom().contains(key@),
            r matches Some(v) ==> *v == self.view()[key@],
    {
        proof {
            use_type_invariant(self);
            lemma_entries_map_dom(self.entries@);
        }
        match self.find(key) {
            Some(i) => {
                proof {
                    lemma_entries_map_value(self.entries@, i as int);
                }
                Some(&self.entries[i].1)
            },
            None => None,
        }
    }

    /// Stores `value` under `key`, replacing what was there.
    pub fn insert(&mut self, key: String, value: V)
        ensures
            final(self).view() == old(self).view().insert(key@, value),
    {
        proof {
            use_type_invariant(&*self);
        }
        match self.find(key.as_str()) {
            Some(i) => {
                let ghost before = self.entries@;
                let mut entries: Vec<(String, V)> = Vec::new();
                std::mem::swap(&mut entries, &mut self.entries);
                assert(entries@ == before);
                proof {
                    lemma_entries_map_update(before, i as int, key, value);
                }
                entries.set(i, (key, value));
                self.entries = entries;
            },
            None => {
                let ghost before = self.entries@;
                let mut entries: Vec<(String, V)> = Vec::new();
                std::mem::swap(&mut entries, &mut self.entries);
                proof {
                    lemma_entries_map_push(before, key, value);
                }
                entries.push((key, value));
                assert(keys_unique(entries@)) by {
                    assert forall|a: int, b: int| 0 <= a < b < entries@.len() implies entries@[a].0@ != entries@[b].0@ by {
                        if b == entries@.len() - 1 {
                            assert(before[a].0@ != key@);
                        } else {
                            assert(before[a] == entries@[a] && before[b] == entries@[b]);
                        }
                    }
                }
                self.entries = entries;
            },
        }
    }

    /// Removes `key`; returns whether it was present.
    pub fn remove(&mut self, key: &str) -> (r: bool)
        ensures
            r == old(self).view().dom().contains(key@),
            final(self).view() == old(self).view().remove(key@),
    {
        proof {
            use_type_invariant(&*self);
            lemma_entries_map_dom(self.entries@);
        }
        match self.find(key) {
            Some(i) => {
                let ghost before = self.entries@;
                let mut entries: Vec<(String, V)> = Vec::new();
                std::mem::swap(&mut entries, &mut self.entries);
                proof {
                    lemma_entries_map_remove(before, i as int);
                }
                let _ = entries.remove(i);
                self.entries = entries;
                true
            },
            None => {
                assert(self.view().remove(key@) =~= self.view());
                false
            },
        }
    }

    /// The names, in the order they were first stored.
    pub fn keys(&self) -> (r: Vec<String>)
        ensures
            r@.len() == self.view().dom().len(),
            forall|i: int| 0 <= i < r@.len() ==> self.view().dom().contains(#[trigger] r@[i]@),
            forall|k: Seq<char>| #[trigger] self.view().dom().contains(k) ==> exists|i: int| 0 <= i < r@.len() && r@[i]@ == k,
            forall|i: int, j: int| 0 <= i < j < r@.len() ==> r@[i]@ != r@[j]@,
    {
        proof {
            use_type_invariant(self);
            lemma_entries_map_dom(self.entries@);
        }
        let n: usize = self.entries.len();
        let mut r: Vec<String> = Vec::new();
        let mut i: usize = 0;
        while i < n
            invariant
                n == self.entries@.len(),
                keys_unique(self.entries@),
                i <= n,
                r@.len() == i,
                forall|j: int| 0 <= j < i ==> #[trigger] r@[j]@ == self.entries@[j].0@,
            decreases n - i,
        {
            r.push(self.entries[i].0.clone());
            i = i + 1;
        }
        proof {
            lemma_unique_keys_dom_len(self.entries@);
            assert forall|k: Seq<char>| #[trigger] self.view().dom().contains(k) implies exists|i: int| 0 <= i < r@.len() && r@[i]@ == k by {
                let i = choose|i: int| 0 <= i < self.entries@.len() && self.entries@[i].0@ == k;
                assert(r@[i]@ == k);
            }
        }
        r
    }
}

proof fn lemma_unique_keys_dom_len<V>(entries: Seq<(String, V)>)
    requires
        keys_unique(entries),
    ensures
        entries_map(entries).dom().len() == entries.len(),
        entries_map(entries).dom().finite(),
    decreases entries.len(),
{
    if entries.len() > 0 {
        let d = entries.drop_last();
        assert(keys_unique(d));
        lemma_unique_keys_dom_len(d);
        lemma_entries_map_dom(d);
        assert(!entries_map(d).dom().contains(entries.last().0@)) by {
            if entries_map(d).dom().contains(entries.last().0@) {
                let i = choose|i: int| 0 <= i < d.len() && d[i].0@ == entries.last().0@;
                assert(entries[i].0@ == entries[entries.len() - 1].0@);
            }
        }
    }
}

/// Why an instance could not be looked up.
#[derive(Clone, Debug, PartialEq, Eq)]
pub enum ConfigError {
    /// `Instance '<name>' not found`.
    NotFound(String),
}

/// The managed instances and the compaction schedules.
pub struct Config {
    pub instances: NameMap<InstanceMetadata>,
    pub compact_schedules: NameMap<CompactSchedule>,
}

impl Config {
    /// A configuration with no instances and no schedules.
    pub fn empty() -> (r: Config)
        ensures
            r.instances.view() == Map::<Seq<char>, InstanceMetadata>::empty(),
            r.compact_schedules.view() == Map::<Seq<char>, CompactSchedule>::empty(),
    {
        Config { instances: NameMap::new(), compact_schedules: NameMap::new() }
    }
}

/// Where everything is stored: a base directory (`~/.paagan`).
pub struct ConfigManager {
    pub base_dir: String,
}

impl ConfigManager {
    /// The manager for the home directory `home_dir`: its base directory is
    /// `<home>/.paagan`.
    pub fn new(home_dir: &str) -> (r: ConfigManager)
        ensures
            r.base_dir@ == join(home_dir@, ".paagan"@),
    {
        ConfigManager { base_dir: join_path(home_dir, ".paagan") }
    }

    /// `<base>/instances`.
    pub fn instances_dir(&self) -> (r: String)
        ensures
            r@ == join(self.base_dir@, "instances"@),
    {
        join_path(self.base_dir.as_str(), "instances")
    }

    /// `<base>/instances.json`, the configuration file.
    pub fn config_path(&self) -> (r: String)
        ensures
            r@ == join(self.base_dir@, "instances.json"@),
    {
        join_path(self.base_dir.as_str(), "instances.json")
    }

    /// `<base>/logs`, where scheduled jobs write their output.
    pub fn logs_dir(&self) -> (r: String)
        ensures
            r@ == join(self.base_dir@, "logs"@),
    {
        join_path(self.base_dir.as_str(), "logs")
    }

    /// `<base>/instances/<name>`, the directory of an instance's files.
    pub fn get_instance_dir(&self, name: &str) -> (r: String)
        ensures
            r@ == join(join(self.base_dir@, "instances"@), name@),
    {
        let dir = self.instances_dir();
        join_path(dir.as_str(), name)
    }

    /// Records `metadata` under its name, replacing an earlier record.
    pub fn add_instance(&self, config: &mut Config, metadata: InstanceMetadata)
        ensures
            final(config).instances.view() == old(config).instances.view().insert(metadata.name@, metadata),
            final(config).compact_schedules.view() == old(config).compact_schedules.view(),
    {
        let key = metadata.name.clone();
        config.instances.insert(key, metadata);
    }

    /// The record of the instance called `name`.
    pub fn get_instance(&self, config: &Config, name: &str) -> (r: Result<InstanceMetadata, ConfigError>)
        ensures
            config.instances.view().dom().contains(name@) ==> r == Ok::<InstanceMetadata, ConfigError>(config.instances.view()[name@]),
            !config.instances.view().dom().contains(name@) ==> (r matches Err(ConfigError::NotFound(n)) && n@ == name@),
    {
        match config.instances.get(name) {
            Some(m) => Ok(m.duplicate()),
            None => Err(ConfigError::NotFound(owned(name))),
        }
    }

    /// Forgets the instance called `name`.
    pub fn remove_instance(&self, config: &mut Config, name: &str)
        ensures
            final(config).instances.view() == old(config).instances.view().remove(name@),
            final(config).compact_schedules.view() == old(config).compact_schedules.view(),
    {
        let _ = config.instances.remove(name);
    }
}

/// Reading an instance back after recording it gives the record; records of
/// other instances are untouched; after forgetting a name it is not found.
pub proof fn law_instance_record_roundtrip(
    instances: Map<Seq<char>, InstanceMetadata>,
    metadata: InstanceMetadata,
    other: Seq<char>,
)
    requires
        other != metadata.name@,
    ensures
        instances.insert(metadata.name@, metadata).dom().contains(metadata.name@),
        instances.insert(metadata.name@, metadata)[metadata.name@] == metadata,
        instances.insert(metadata.name@, metadata).dom().contains(other) == instances.dom().contains(other),
        instances.dom().contains(other) ==> instances.insert(metadata.name@, metadata)[other] == instances[other],
        !instances.remove(metadata.name@).dom().contains(metadata.name@),
{
}

/// Instances live in directories of their own: two different relative
/// instance names give different instance directories under one base.
pub proof fn law_instance_dirs_distinct(base_dir: Seq<char>, a: Seq<char>, b: Seq<char>)
    requires
        a != b,
        !(a.len() > 0 && a[0] == '/'),
        !(b.len() > 0 && b[0] == '/'),
    ensures
        join(join(base_dir, "instances"@), a) != join(join(base_dir, "instances"@), b),
{
    reveal_strlit("instances");
    let d = join(base_dir, "instances"@);
    assert(d.len() > 0 && d.last() == 's');
    let pa = d + seq!['/'] + a;
    let pb = d + seq!['/'] + b;
    if pa == pb {
        assert(pa.skip(d.len() + 1int) =~= a);
        assert(pb.skip(d.len() + 1int) =~= b);
    }
}

} // verus!
