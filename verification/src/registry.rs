//! The install registry: which version of which package is installed, where,
//! and what launches it. The registry holds at most one record per package
//! id; it is read whole before a change and written whole after it.

use crate::text::same_text;
use vstd::prelude::*;
use vstd::string::*;

verus! {

/// What is installed for one package.
#[derive(Debug)]
pub struct InstallRecord {
    pub package_id: String,
    pub version: String,
    pub install_dir: String,
    pub executable_rel_path: String,
}

/// The mathematical content of an [`InstallRecord`].
pub struct InstallRecordView {
    pub package_id: Seq<char>,
    pub version: Seq<char>,
    pub install_dir: Seq<char>,
    pub executable_rel_path: Seq<char>,
}

impl View for InstallRecord {
    type V = InstallRecordView;

    open spec fn view(&self) -> InstallRecordView {
        InstallRecordView {
            package_id: self.package_id@,
            version: self.version@,
            install_dir: self.install_dir@,
            executable_rel_path: self.executable_rel_path@,
        }
    }
}

impl Clone for InstallRecord {
    fn clone(&self) -> (copy: InstallRecord)
        ensures
            copy@ == self@,
    {
        InstallRecord {
            package_id: self.package_id.clone(),
            version: self.version.clone(),
            install_dir: self.install_dir.clone(),
            executable_rel_path: self.executable_rel_path.clone(),
        }
    }
}

/// What the backing file of a registry held when it was read.
#[derive(Debug)]
pub enum RegistrySource {
    /// There is no backing file.
    Missing,
    /// The file exists and could not be read or parsed.
    Corrupt { reason: String },
    /// The records that the file holds, in its order.
    Records { records: Vec<InstallRecord> },
}

/// Why a registry could not be loaded.
#[derive(Debug)]
pub enum RegistryError {
    /// The backing file exists and could not be read or parsed.
    Corrupt { reason: String },
}

/// The views of a list of records, one by one.
pub open spec fn record_views(records: Seq<InstallRecord>) -> Seq<InstallRecordView> {
    records.map_values(|r: InstallRecord| r@)
}

/// Some record of the list is for package `id`.
pub open spec fn holds(records: Seq<InstallRecordView>, id: Seq<char>) -> bool {
    exists|i: int| 0 <= i < records.len() && (#[trigger] records[i]).package_id == id
}

/// A position at which the list holds a record for package `id`.
pub open spec fn slot(records: Seq<InstallRecordView>, id: Seq<char>) -> int {
    choose|i: int| 0 <= i < records.len() && (#[trigger] records[i]).package_id == id
}

/// No two records of the list are for the same package.
pub open spec fn unique_ids(records: Seq<InstallRecordView>) -> bool {
    forall|i: int, j: int|
        0 <= i < records.len() && 0 <= j < records.len() && i != j ==> (#[trigger] records[i]).package_id
            != (#[trigger] records[j]).package_id
}

/// The record for package `id`, if the list holds one.
pub open spec fn lookup(records: Seq<InstallRecordView>, id: Seq<char>) -> Option<
    InstallRecordView,
> {
    if holds(records, id) {
        Some(records[slot(records, id)])
    } else {
        None
    }
}

/// The list after `record` has replaced the record of its package, or has
/// been added where the list held none.
pub open spec fn upserted(
    records: Seq<InstallRecordView>,
    record: InstallRecordView,
) -> Seq<InstallRecordView> {
    if holds(records, record.package_id) {
        records.update(slot(records, record.package_id), record)
    } else {
        records.push(record)
    }
}

/// The list that results from upserting the records of `source` one after
/// another into an empty list.
pub open spec fn collected(source: Seq<InstallRecordView>) -> Seq<InstallRecordView>
    decreases source.len(),
{
    if source.len() == 0 {
        Seq::empty()
    } else {
        upserted(collected(source.drop_last()), source.last())
    }
}

/// The mapping from package id to record that a list stands for.
pub open spec fn mapping_of(records: Seq<InstallRecordView>) -> Map<Seq<char>, InstallRecordView> {
    Map::new(|id: Seq<char>| holds(records, id), |id: Seq<char>| records[slot(records, id)])
}

/// How many records of the list are for package `id`.
pub open spec fn occurrences(records: Seq<InstallRecordView>, id: Seq<char>) -> nat
    decreases records.len(),
{
    if records.len() == 0 {
        0
    } else if records.last().package_id == id {
        occurrences(records.drop_last(), id) + 1
    } else {
        occurrences(records.drop_last(), id)
    }
}

/// In a list without repeated ids, a record's position is determined by its id.
pub proof fn lemma_slot_is_position(records: Seq<InstallRecordView>, at: int)
    requires
        unique_ids(records),
        0 <= at < records.len(),
    ensures
        holds(records, records[at].package_id),
        slot(records, records[at].package_id) == at,
{
    let id = records[at].package_id;
    let found = slot(records, id);
    assert(records[found].package_id == id);
}

/// An upsert keeps ids unique, changes the length only when the package is
/// new, and leaves every other package's record as it was.
pub proof fn lemma_upserted(records: Seq<InstallRecordView>, record: InstallRecordView)
    requires
        unique_ids(records),
    ensures
        unique_ids(upserted(records, record)),
        holds(records, record.package_id) ==> upserted(records, record).len() == records.len(),
        !holds(records, record.package_id) ==> upserted(records, record).len() == records.len() + 1,
        lookup(upserted(records, record), record.package_id) == Some(record),
        forall|id: Seq<char>|
            id != record.package_id ==> lookup(upserted(records, record), id) == lookup(records, id),
        forall|id: Seq<char>|
            holds(upserted(records, record), id) <==> (id == record.package_id || holds(
                records,
                id,
            )),
{
    let after = upserted(records, record);
    let key = record.package_id;
    if holds(records, key) {
        let at = slot(records, key);
        assert(records[at].package_id == key);
        assert forall|i: int, j: int|
            0 <= i < after.len() && 0 <= j < after.len() && i != j implies (#[trigger] after[i]).package_id
            != (#[trigger] after[j]).package_id by {
            assert(after[i].package_id == records[i].package_id);
            assert(after[j].package_id == records[j].package_id);
        }
        assert(after[at].package_id == key);
        lemma_slot_is_position(after, at);
        assert forall|id: Seq<char>| holds(after, id) <==> (id == key || holds(records, id)) by {
            if holds(after, id) {
                let i = slot(after, id);
                assert(after[i].package_id == records[i].package_id);
            }
            if holds(records, id) {
                let i = slot(records, id);
                assert(after[i].package_id == records[i].package_id);
            }
        }
        assert forall|id: Seq<char>| id != key implies lookup(after, id) == lookup(records, id) by {
            if holds(records, id) {
                let i = slot(records, id);
                assert(after[i].package_id == id);
                lemma_slot_is_position(after, i);
            }
        }
    } else {
        let at = records.len() as int;
        assert forall|i: int, j: int|
            0 <= i < after.len() && 0 <= j < after.len() && i != j implies (#[trigger] after[i]).package_id
            != (#[trigger] after[j]).package_id by {
            if i < at {
                assert(after[i] == records[i]);
            }
            if j < at {
                assert(after[j] == records[j]);
            }
        }
        assert(after[at].package_id == key);
        lemma_slot_is_position(after, at);
        assert forall|id: Seq<char>| holds(after, id) <==> (id == key || holds(records, id)) by {
            if holds(after, id) {
                let i = slot(after, id);
                if i < at {
                    assert(after[i] == records[i]);
                }
            }
            if holds(records, id) {
                let i = slot(records, id);
                assert(after[i] == records[i]);
            }
        }
        assert forall|id: Seq<char>| id != key implies lookup(after, id) == lookup(records, id) by {
            if holds(records, id) {
                let i = slot(records, id);
                assert(after[i] == records[i]);
                lemma_slot_is_position(after, i);
            }
        }
    }
}

/// As a mapping, an upsert is an insertion under the record's package id.
pub proof fn lemma_upsert_is_insert(records: Seq<InstallRecordView>, record: InstallRecordView)
    requires
        unique_ids(records),
    ensures
        mapping_of(upserted(records, record)) == mapping_of(records).insert(
            record.package_id,
            record,
        ),
{
    lemma_upserted(records, record);
    let after = upserted(records, record);
    let left = mapping_of(after);
    let right = mapping_of(records).insert(record.package_id, record);
    assert forall|id: Seq<char>| left.dom().contains(id) <==> right.dom().contains(id) by {}
    assert forall|id: Seq<char>| #[trigger] left.dom().contains(id) implies left[id] == right[id] by {
        if id == record.package_id {
            assert(lookup(after, id) == Some(record));
        } else {
            assert(lookup(after, id) == lookup(records, id));
        }
    }
    assert(left =~= right);
}

/// In a list without repeated ids, a package that the list holds occurs in
/// it exactly once, and one that it does not hold occurs in it not at all.
pub proof fn lemma_unique_occurs_once(records: Seq<InstallRecordView>, id: Seq<char>)
    requires
        unique_ids(records),
    ensures
        occurrences(records, id) == if holds(records, id) {
            1nat
        } else {
            0nat
        },
    decreases records.len(),
{
    if records.len() > 0 {
        let rest = records.drop_last();
        let last = records.len() - 1;
        assert forall|i: int, j: int|
            0 <= i < rest.len() && 0 <= j < rest.len() && i != j implies (#[trigger] rest[i]).package_id
            != (#[trigger] rest[j]).package_id by {
            assert(rest[i] == records[i]);
            assert(rest[j] == records[j]);
        }
        lemma_unique_occurs_once(rest, id);
        if records.last().package_id == id {
            assert(records[last].package_id == id);
            if holds(rest, id) {
                let i = slot(rest, id);
                assert(rest[i] == records[i]);
                assert(false);
            }
        } else {
            if holds(records, id) {
                let i = slot(records, id);
                assert(i != last);
                assert(rest[i] == records[i]);
            }
            if holds(rest, id) {
                let i = slot(rest, id);
                assert(rest[i] == records[i]);
            }
        }
    }
}

/// Installing the same package twice in a row leaves exactly one record
/// for it: the second one. The second install does not lengthen the list.
pub proof fn lemma_reinstall_leaves_one_record(
    records: Seq<InstallRecordView>,
    first: InstallRecordView,
    second: InstallRecordView,
)
    requires
        unique_ids(records),
        first.package_id == second.package_id,
    ensures
        ({
            let once = upserted(records, first);
            let twice = upserted(once, second);
            &&& twice.len() == once.len()
            &&& occurrences(twice, second.package_id) == 1
            &&& lookup(twice, second.package_id) == Some(second)
            &&& mapping_of(twice) == mapping_of(records).insert(second.package_id, second)
            &&& first == second ==> twice == once
        }),
{
    let once = upserted(records, first);
    lemma_upserted(records, first);
    lemma_upsert_is_insert(records, first);
    let twice = upserted(once, second);
    lemma_upserted(once, second);
    lemma_upsert_is_insert(once, second);
    lemma_unique_occurs_once(twice, second.package_id);
    assert(mapping_of(records).insert(first.package_id, first).insert(second.package_id, second)
        =~= mapping_of(records).insert(second.package_id, second));
    if first == second {
        assert(lookup(once, first.package_id) == Some(first));
        assert(twice =~= once);
    }
}

/// Collecting records one by one never yields a repeated id.
pub proof fn lemma_collected_is_unique(source: Seq<InstallRecordView>)
    ensures
        unique_ids(collected(source)),
    decreases source.len(),
{
    if source.len() > 0 {
        lemma_collected_is_unique(source.drop_last());
        lemma_upserted(collected(source.drop_last()), source.last());
    }
}

/// What a corrupt backing file is reported as.
pub open spec fn corrupt_message(reason: Seq<char>) -> Seq<char> {
    "Install registry is corrupt: "@ + reason
}

/// What the backing file holds after `record` has been written into a
/// registry that was read from `source`, or why nothing may be written.
pub open spec fn written_through(
    source: RegistrySource,
    record: InstallRecordView,
) -> Result<Seq<InstallRecordView>, Seq<char>> {
    match source {
        RegistrySource::Missing => Ok(seq![record]),
        RegistrySource::Corrupt { reason } => Err(reason@),
        RegistrySource::Records { records } => Ok(
            upserted(collected(record_views(records@)), record),
        ),
    }
}

impl RegistryError {
    /// The error in words.
    pub fn message(&self) -> (text: String)
        ensures
            self matches RegistryError::Corrupt { reason } && text@ == corrupt_message(reason@),
    {
        match self {
            RegistryError::Corrupt { reason } => {
                let mut text = String::from_str("Install registry is corrupt: ");
                text.append(reason.as_str());
                text
            },
        }
    }
}

/// One whole read-modify-write of the registry: loads what the backing
/// file held, writes `record` into it, and hands out everything that the
/// file is to hold afterwards. A corrupt file is left as it is.
pub fn write_through(source: RegistrySource, record: InstallRecord) -> (result: Result<
    Vec<InstallRecord>,
    RegistryError,
>)
    ensures
        match result {
            Ok(records) => written_through(source, record@) == Ok::<
                Seq<InstallRecordView>,
                Seq<char>,
            >(record_views(records@)) && unique_ids(record_views(records@)),
            Err(RegistryError::Corrupt { reason }) => written_through(source, record@) == Err::<
                Seq<InstallRecordView>,
                Seq<char>,
            >(reason@),
        },
{
    match Registry::load(source) {
        Ok(registry) => {
            let mut registry = registry;
            registry.upsert(record);
            proof {
                assert(upserted(Seq::<InstallRecordView>::empty(), record@) =~= seq![record@]);
            }
            Ok(registry.snapshot())
        },
        Err(error) => Err(error),
    }
}

/// The persisted mapping from package id to install record.
pub struct Registry {
    entries: Vec<InstallRecord>,
}

impl View for Registry {
    type V = Map<Seq<char>, InstallRecordView>;

    closed spec fn view(&self) -> Map<Seq<char>, InstallRecordView> {
        mapping_of(self.records())
    }
}

impl Registry {
    /// The records in the order in which they are persisted.
    pub closed spec fn records(&self) -> Seq<InstallRecordView> {
        record_views(self.entries@)
    }

    #[verifier::type_invariant]
    spec fn holds_each_package_once(&self) -> bool {
        unique_ids(record_views(self.entries@))
    }

    /// No two records are for the same package.
    pub open spec fn wf(&self) -> bool {
        unique_ids(self.records())
    }


    /// The registry's mapping is the one that its records stand for.
    pub proof fn lemma_view(&self)
        ensures
            self@ == mapping_of(self.records()),
    {
    }

    /// A registry in which nothing is installed.
    pub fn new() -> (registry: Registry)
        ensures
            registry.wf(),
            registry.records() == Seq::<InstallRecordView>::empty(),
            registry@ == Map::<Seq<char>, InstallRecordView>::empty(),
    {
        let registry = Registry { entries: Vec::new() };
        proof {
            assert(registry.records() =~= Seq::<InstallRecordView>::empty());
            assert(registry@ =~= Map::<Seq<char>, InstallRecordView>::empty());
        }
        registry
    }

    /// Builds the registry from what its backing file held. A missing file
    /// is an empty registry; a file that could not be read or parsed is an
    /// error, never an empty registry. Where the file names a package more
    /// than once, the last record counts.
    pub fn load(source: RegistrySource) -> (result: Result<Registry, RegistryError>)
        ensures
            match source {
                RegistrySource::Missing => result matches Ok(registry) && registry.wf()
                    && registry.records() == Seq::<InstallRecordView>::empty(),
                RegistrySource::Corrupt { reason } => result matches Err(
                    RegistryError::Corrupt { reason: told },
                ) && told@ == reason@,
                RegistrySource::Records { records } => result matches Ok(registry) && registry.wf()
                    && registry.records() == collected(record_views(records@)),
            },
    {
        match source {
            RegistrySource::Missing => Ok(Registry::new()),
            RegistrySource::Corrupt { reason } => Err(RegistryError::Corrupt { reason }),
            RegistrySource::Records { records } => {
                let mut registry = Registry::new();
                let mut records = records;
                let ghost all = record_views(records@);
                let mut i: usize = 0;
                proof {
                    assert(all.take(0) =~= Seq::<InstallRecordView>::empty());
                }
                while i < records.len()
                    invariant
                        i <= records.len(),
                        all == record_views(records@),
                        registry.wf(),
                        registry.records() == collected(all.take(i as int)),
                    decreases records.len() - i,
                {
                    proof {
                        assert(all.take(i + 1).drop_last() =~= all.take(i as int));
                        assert(all.take(i + 1).last() == records[i as int]@);
                    }
                    registry.upsert(records[i].clone());
                    i += 1;
                }
                proof {
                    assert(all.take(records.len() as int) =~= all);
                }
                Ok(registry)
            },
        }
    }

    /// The number of installed packages.
    pub fn len(&self) -> (n: usize)
        ensures
            n == self.records().len(),
    {
        self.entries.len()
    }

    /// Whether nothing is installed.
    pub fn is_empty(&self) -> (empty: bool)
        ensures
            empty == (self.records().len() == 0),
    {
        self.entries.len() == 0
    }

    /// The position of the record for package `id`.
    fn find(&self, id: &str) -> (found: Option<usize>)
        ensures
            match found {
                Some(at) => at < self.records().len() && self.records()[at as int].package_id
                    == id@,
                None => !holds(self.records(), id@),
            },
    {
        let mut i: usize = 0;
        while i < self.entries.len()
            invariant
                i <= self.entries.len(),
                forall|j: int| 0 <= j < i ==> (#[trigger] self.records()[j]).package_id != id@,
            decreases self.entries.len() - i,
        {
            assert(self.records()[i as int] == self.entries[i as int]@);
            if same_text(self.entries[i].package_id.as_str(), id) {
                return Some(i);
            }
            i += 1;
        }
        None
    }

    /// The record of package `id`, if it is installed.
    pub fn get(&self, id: &str) -> (found: Option<&InstallRecord>)
        ensures
            match found {
                Some(record) => lookup(self.records(), id@) == Some(record@),
                None => lookup(self.records(), id@) is None,
            },
            found is Some <==> self@.contains_key(id@),
            found matches Some(record) ==> self@[id@] == record@,
    {
        proof {
            use_type_invariant(self);
        }
        match self.find(id) {
            Some(at) => {
                proof {
                    lemma_slot_is_position(self.records(), at as int);
                    assert(self.records()[at as int] == self.entries[at as int]@);
                }
                Some(&self.entries[at])
            },
            None => None,
        }
    }

    /// Whether package `id` is installed.
    pub fn contains(&self, id: &str) -> (installed: bool)
        ensures
            installed == holds(self.records(), id@),
            installed == self@.contains_key(id@),
    {
        self.find(id).is_some()
    }

    /// The installed version of package `id`, if it is installed.
    pub fn installed_version(&self, id: &str) -> (version: Option<String>)
        ensures
            match version {
                Some(v) => lookup(self.records(), id@) matches Some(record) && record.version
                    == v@,
                None => lookup(self.records(), id@) is None,
            },
    {
        match self.get(id) {
            Some(record) => Some(record.version.clone()),
            None => None,
        }
    }

    /// Writes the record of a package: over the one that the registry holds
    /// for it, or as a new one.
    pub fn upsert(&mut self, record: InstallRecord)
        ensures
            final(self).wf(),
            final(self).records() == upserted(old(self).records(), record@),
            final(self)@ == old(self)@.insert(record@.package_id, record@),
            occurrences(final(self).records(), record@.package_id) == 1,
            final(self).records().len() == if holds(old(self).records(), record@.package_id) {
                old(self).records().len()
            } else {
                old(self).records().len() + 1
            },
    {
        let ghost before = self.records();
        let ghost incoming = record@;
        proof {
            use_type_invariant(&*self);
            lemma_upserted(before, incoming);
            lemma_upsert_is_insert(before, incoming);
            lemma_unique_occurs_once(upserted(before, incoming), incoming.package_id);
        }
        match self.find(record.package_id.as_str()) {
            Some(at) => {
                proof {
                    lemma_slot_is_position(before, at as int);
                }
                let mut entries: Vec<InstallRecord> = Vec::new();
                std::mem::swap(&mut self.entries, &mut entries);
                entries.set(at, record);
                assert(record_views(entries@) =~= before.update(at as int, incoming));
                self.entries = entries;
            },
            None => {
                let mut entries: Vec<InstallRecord> = Vec::new();
                std::mem::swap(&mut self.entries, &mut entries);
                entries.push(record);
                assert(record_views(entries@) =~= before.push(incoming));
                self.entries = entries;
            },
        }
    }

    /// Removes the record of package `id`, if there is one, and hands it out.
    pub fn remove(&mut self, id: &str) -> (removed: Option<InstallRecord>)
        ensures
            final(self).wf(),
            !holds(final(self).records(), id@),
            final(self)@ == old(self)@.remove(id@),
            match removed {
                Some(record) => lookup(old(self).records(), id@) == Some(record@) && final(self).records() == old(self).records().remove(slot(old(self).records(), id@)),
                None => !holds(old(self).records(), id@) && final(self).records() == old(self).records(),
            },
    {
        let ghost before = self.records();
        proof {
            use_type_invariant(&*self);
        }
        match self.find(id) {
            Some(at) => {
                proof {
                    lemma_slot_is_position(before, at as int);
                }
                let mut entries: Vec<InstallRecord> = Vec::new();
                std::mem::swap(&mut self.entries, &mut entries);
                let record = entries.remove(at);
                proof {
                    let after = record_views(entries@);
                    assert(after =~= before.remove(at as int));
                    assert forall|i: int, j: int|
                        0 <= i < after.len() && 0 <= j < after.len() && i != j implies (
                        #[trigger] after[i]).package_id != (#[trigger] after[j]).package_id by {
                        let from_i = if i < at { i } else { i + 1 };
                        let from_j = if j < at { j } else { j + 1 };
                        assert(after[i] == before[from_i]);
                        assert(after[j] == before[from_j]);
                    }
                    assert forall|key: Seq<char>| holds(after, key) <==> (key != id@ && holds(
                        before,
                        key,
                    )) by {
                        if holds(after, key) {
                            let i = slot(after, key);
                            let from_i = if i < at { i } else { i + 1 };
                            assert(after[i] == before[from_i]);
                        }
                        if key != id@ && holds(before, key) {
                            let i = slot(before, key);
                            let to_i = if i < at { i } else { i - 1 };
                            assert(after[to_i] == before[i]);
                        }
                    }
                    assert forall|key: Seq<char>| #[trigger] holds(after, key) implies after[slot(
                        after,
                        key,
                    )] == before[slot(before, key)] by {
                        let i = slot(after, key);
                        let from_i = if i < at { i } else { i + 1 };
                        assert(after[i] == before[from_i]);
                        lemma_slot_is_position(before, from_i);
                    }
                    assert(mapping_of(after) =~= mapping_of(before).remove(id@));
                }
                self.entries = entries;
                Some(record)
            },
            None => {
                proof {
                    assert(self@ =~= old(self)@.remove(id@));
                }
                None
            },
        }
    }

    /// A copy of every record, in the order in which they are persisted.
    pub fn snapshot(&self) -> (copies: Vec<InstallRecord>)
        ensures
            record_views(copies@) == self.records(),
    {
        let mut copies: Vec<InstallRecord> = Vec::new();
        let mut i: usize = 0;
        while i < self.entries.len()
            invariant
                i <= self.entries.len(),
                copies.len() == i,
                forall|j: int| 0 <= j < i ==> (#[trigger] copies[j])@ == self.entries[j]@,
            decreases self.entries.len() - i,
        {
            copies.push(self.entries[i].clone());
            i += 1;
        }
        assert(record_views(copies@) =~= self.records());
        copies
    }
}

} // verus!
