//! The records read from `.DS_Store` files: per file name, per field code, a number; and
//! a cache of them per `.DS_Store` file.
use vstd::prelude::*;
use vstd::string::*;
use crate::keyed_list::{Entry, KeyedList};
use crate::ds_parser::{
    all_kept, field_modd, field_modd2, field_ph1s, field_phys, is_kept_record, law_only_sizes_and_dates,
    law_subtree_only_sizes_and_dates, spec_b_tree,
    records_view, spec_parse_ds_store, DsRecord, RecordValue, SpecRecord, SpecValue,
};
use crate::text::spec_utf8_lossy;

verus! {

/// The properties of the files named in one `.DS_Store`: per file name, per key, a value.
#[derive(Debug, Clone)]
pub struct ResultData {
    files: KeyedList<KeyedList<u64>>,
}

/// The map that a list of file entries stands for.
pub open spec fn files_map(e: Seq<Entry<KeyedList<u64>>>) -> Map<Seq<char>, Map<Seq<char>, u64>> {
    Map::new(
        |k: Seq<char>| crate::keyed_list::entries_map(e).contains_key(k),
        |k: Seq<char>| crate::keyed_list::entries_map(e)[k]@,
    )
}

/// The properties of `file` in `m`, none when it has none.
pub open spec fn file_properties(m: Map<Seq<char>, Map<Seq<char>, u64>>, file: Seq<char>) -> Map<
    Seq<char>,
    u64,
> {
    if m.contains_key(file) {
        m[file]
    } else {
        Map::empty()
    }
}

/// `m` after setting the property `key` of `file` to `value`.
pub open spec fn spec_add_record(
    m: Map<Seq<char>, Map<Seq<char>, u64>>,
    file: Seq<char>,
    key: Seq<char>,
    value: u64,
) -> Map<Seq<char>, Map<Seq<char>, u64>> {
    m.insert(file, file_properties(m, file).insert(key, value))
}

/// The property `key` of `file` in `m`, reinterpreted as `i64`, or why it is missing.
pub open spec fn spec_file_property(
    m: Map<Seq<char>, Map<Seq<char>, u64>>,
    file: Seq<char>,
    key: Seq<char>,
) -> Result<i64, Seq<char>> {
    if !m.contains_key(file) {
        Err("folder not found"@)
    } else if !m[file].contains_key(key) {
        Err("Key not found"@)
    } else {
        Ok(m[file][key] as i64)
    }
}

/// The value recorded for the record `r`: its size, or `date` for a date.
pub open spec fn record_value(r: SpecRecord, date: u64) -> u64 {
    match r.value {
        SpecValue::Size(v) => v,
        SpecValue::Date(_) => date,
    }
}

/// `m` after adding, in order, the first `k` of `recs`, the `i`-th with the value
/// `record_value(recs[i], dates[i])`.
pub open spec fn fold_records(
    m: Map<Seq<char>, Map<Seq<char>, u64>>,
    recs: Seq<SpecRecord>,
    dates: Seq<u64>,
    k: nat,
) -> Map<Seq<char>, Map<Seq<char>, u64>>
    decreases k,
{
    if k == 0 {
        m
    } else {
        let r = recs[k - 1];
        spec_add_record(
            fold_records(m, recs, dates, (k - 1) as nat),
            r.name,
            r.field,
            record_value(r, dates[k - 1]),
        )
    }
}

impl ResultData {
    /// Per file name, per key, the value.
    pub closed spec fn view(&self) -> Map<Seq<char>, Map<Seq<char>, u64>> {
        Map::new(|k: Seq<char>| self.files@.contains_key(k), |k: Seq<char>| self.files@[k]@)
    }

    /// No file name and no key of a file occurs twice.
    pub closed spec fn wf(&self) -> bool {
        &&& self.files.wf()
        &&& forall|k: Seq<char>| #[trigger] self.files@.contains_key(k) ==> self.files@[k].wf()
    }

    /// No properties.
    pub fn new() -> (res: Self)
        ensures
            res.wf(),
            res@ == Map::<Seq<char>, Map<Seq<char>, u64>>::empty(),
    {
        let res = ResultData { files: KeyedList::new() };
        assert(res@ =~= Map::<Seq<char>, Map<Seq<char>, u64>>::empty());
        res
    }

    /// The value of `key` for `file`: `"folder not found"` when `file` has no properties,
    /// `"Key not found"` when it lacks `key`, else the value reinterpreted as `i64`.
    pub fn get_file_property(&self, file: &str, key: &str) -> (res: Result<i64, String>)
        requires
            self.wf(),
        ensures
            match spec_file_property(self@, file@, key@) {
                Ok(v) => res == Ok::<i64, String>(v),
                Err(msg) => res is Err && res->Err_0@ == msg,
            },
    {
        let file_s = file.to_owned();
        let key_s = key.to_owned();
        match self.files.get(&file_s) {
            None => Err(String::from_str("folder not found")),
            Some(props) => {
                assert(self.files@[file@].wf());
                match props.get(&key_s) {
                    Some(v) => Ok(*v as i64),
                    None => Err(String::from_str("Key not found")),
                }
            },
        }
    }

    /// The files and their properties, in no particular order.
    pub fn get_files(&self) -> (res: &Vec<Entry<KeyedList<u64>>>)
        requires
            self.wf(),
        ensures
            crate::keyed_list::distinct_keys(res@),
            files_map(res@) == self@,
    {
        proof {
            self.files.lemma_view();
        }
        let res = self.files.entries();
        assert(files_map(res@) =~= self@);
        res
    }

    /// Sets the property `key` of `file` to `value`.
    pub fn add_record(&mut self, file: &str, key: &str, value: u64)
        requires
            old(self).wf(),
        ensures
            final(self).wf(),
            final(self)@ == spec_add_record(old(self)@, file@, key@, value),
    {
        let file_s = file.to_owned();
        let key_s = key.to_owned();
        let mut props = match self.files.take(&file_s) {
            Some(p) => p,
            None => KeyedList::new(),
        };
        props.insert(key_s, value);
        self.files.insert(file_s, props);
        assert(self@ =~= spec_add_record(old(self)@, file@, key@, value));
    }
}

impl ResultData {
    /// Adds the records read from a `.DS_Store`, in order: a size as it is, a date as the
    /// value given for it at the same position of `date_values` (the timestamp that the
    /// caller computed from its bytes).
    pub fn add_records(&mut self, records: &Vec<DsRecord>, date_values: &Vec<u64>)
        requires
            old(self).wf(),
            date_values@.len() == records@.len(),
        ensures
            final(self).wf(),
            final(self)@ == fold_records(
                old(self)@,
                records_view(records@),
                date_values@,
                records@.len(),
            ),
    {
        let ghost recs = records_view(records@);
        let mut i: usize = 0;
        while i < records.len()
            invariant
                i <= records@.len(),
                date_values@.len() == records@.len(),
                recs == records_view(records@),
                self.wf(),
                self@ == fold_records(old(self)@, recs, date_values@, i as nat),
            decreases records@.len() - i,
        {
            let r = &records[i];
            assert(recs[i as int] == r.view());
            let value = match &r.value {
                RecordValue::Size(v) => *v,
                RecordValue::Date(_) => date_values[i],
            };
            self.add_record(r.name.as_str(), r.field.as_str(), value);
            i = i + 1;
        }
    }
}

/// What a cache lookup answers for a property: its value on a hit, `"Key not found"` on a
/// miss, and `None` when the `.DS_Store` still has to be read.
pub fn cached_value(status: CacheStatus) -> (res: Option<Result<i64, String>>)
    ensures
        match status {
            CacheStatus::CacheHit(v) => res == Some(Ok::<i64, String>(v)),
            CacheStatus::CacheMiss => res is Some && res->0 is Err && res->0->Err_0@
                == "Key not found"@,
            CacheStatus::NotFound => res is None,
        },
{
    match status {
        CacheStatus::CacheHit(v) => Some(Ok(v)),
        CacheStatus::CacheMiss => Some(Err(String::from_str("Key not found"))),
        CacheStatus::NotFound => None,
    }
}

impl Default for ResultData {
    fn default() -> (res: Self)
        ensures
            res.wf(),
            res@ == Map::<Seq<char>, Map<Seq<char>, u64>>::empty(),
    {
        ResultData::new()
    }
}

/// Whether a property was found in the cache.
#[derive(Debug, Clone, Copy, PartialEq, Eq, Structural)]
pub enum CacheStatus {
    /// The `.DS_Store` was read and holds the property, with this value.
    CacheHit(i64),
    /// The `.DS_Store` was read but lacks the file or the property.
    CacheMiss,
    /// The `.DS_Store` was not read yet.
    NotFound,
}

/// The properties read so far, per `.DS_Store` file.
#[derive(Debug, Clone)]
pub struct ResultDataManager {
    dsfiles: KeyedList<ResultData>,
}

impl ResultDataManager {
    /// Per `.DS_Store` path, the properties read from it.
    pub closed spec fn view(&self) -> Map<Seq<char>, Map<Seq<char>, Map<Seq<char>, u64>>> {
        Map::new(|k: Seq<char>| self.dsfiles@.contains_key(k), |k: Seq<char>| self.dsfiles@[k]@)
    }

    /// No path occurs twice and each cached result is well formed.
    pub closed spec fn wf(&self) -> bool {
        &&& self.dsfiles.wf()
        &&& forall|k: Seq<char>| #[trigger] self.dsfiles@.contains_key(k) ==> self.dsfiles@[k].wf()
    }

    /// An empty cache.
    pub fn new() -> (res: Self)
        ensures
            res.wf(),
            res@ == Map::<Seq<char>, Map<Seq<char>, Map<Seq<char>, u64>>>::empty(),
    {
        let res = ResultDataManager { dsfiles: KeyedList::new() };
        assert(res@ =~= Map::<Seq<char>, Map<Seq<char>, Map<Seq<char>, u64>>>::empty());
        res
    }
}

impl Default for ResultDataManager {
    fn default() -> (res: Self)
        ensures
            res.wf(),
            res@ == Map::<Seq<char>, Map<Seq<char>, Map<Seq<char>, u64>>>::empty(),
    {
        ResultDataManager::new()
    }
}

/// Caches `result_dat` as what was read from the `.DS_Store` at `dsfile`.
pub fn save_result_data(manager: &mut ResultDataManager, dsfile: &str, result_dat: ResultData)
    requires
        old(manager).wf(),
        result_dat.wf(),
    ensures
        final(manager).wf(),
        final(manager)@ == old(manager)@.insert(dsfile@, result_dat@),
{
    let ghost r = result_dat@;
    manager.dsfiles.insert(dsfile.to_owned(), result_dat);
    assert(manager@ =~= old(manager)@.insert(dsfile@, r));
}

/// The status of the property `key` of `path` in what `m` holds for the `.DS_Store` `dsfile`.
pub open spec fn spec_cached_property(
    m: Map<Seq<char>, Map<Seq<char>, Map<Seq<char>, u64>>>,
    dsfile: Seq<char>,
    path: Seq<char>,
    key: Seq<char>,
) -> CacheStatus {
    if !m.contains_key(dsfile) {
        CacheStatus::NotFound
    } else {
        match spec_file_property(m[dsfile], path, key) {
            Ok(v) => CacheStatus::CacheHit(v),
            Err(_) => CacheStatus::CacheMiss,
        }
    }
}

/// Looks up the property `key` of `path` in what was cached for the `.DS_Store` at `dsfile`.
pub fn get_cached_property(manager: &ResultDataManager, dsfile: &str, path: &str, key: &str) -> (res:
    Result<CacheStatus, String>)
    requires
        manager.wf(),
    ensures
        res == Ok::<CacheStatus, String>(spec_cached_property(manager@, dsfile@, path@, key@)),
{
    match manager.dsfiles.get(&dsfile.to_owned()) {
        Some(value) => {
            assert(manager.dsfiles@[dsfile@].wf());
            match value.get_file_property(path, key) {
                Ok(val) => Ok(CacheStatus::CacheHit(val)),
                Err(_) => Ok(CacheStatus::CacheMiss),
            }
        },
        None => Ok(CacheStatus::NotFound),
    }
}


// ---------------------------------------------------------------- laws

/// A property set by `add_record` is what `get_file_property` then reads back.
pub proof fn law_add_record_then_get(
    m: Map<Seq<char>, Map<Seq<char>, u64>>,
    file: Seq<char>,
    key: Seq<char>,
    value: u64,
)
    ensures
        spec_file_property(spec_add_record(m, file, key, value), file, key) == Ok::<
            i64,
            Seq<char>,
        >(value as i64),
{
}

/// Setting one property leaves every other property, of this file and of the others, as
/// it was.
pub proof fn law_add_record_keeps_others(
    m: Map<Seq<char>, Map<Seq<char>, u64>>,
    file: Seq<char>,
    key: Seq<char>,
    value: u64,
    other_file: Seq<char>,
    other_key: Seq<char>,
)
    requires
        other_file != file || other_key != key,
    ensures
        spec_file_property(spec_add_record(m, file, key, value), other_file, other_key) == (
        if other_file == file && !m.contains_key(file) {
            Err::<i64, Seq<char>>("Key not found"@)
        } else {
            spec_file_property(m, other_file, other_key)
        }),
{
}

/// What is cached for a `.DS_Store` answers lookups as its properties do: a hit with the
/// value where the property exists, a miss otherwise.
pub proof fn law_save_then_lookup(
    m: Map<Seq<char>, Map<Seq<char>, Map<Seq<char>, u64>>>,
    dsfile: Seq<char>,
    data: Map<Seq<char>, Map<Seq<char>, u64>>,
    path: Seq<char>,
    key: Seq<char>,
)
    ensures
        spec_cached_property(m.insert(dsfile, data), dsfile, path, key) == match spec_file_property(
            data,
            path,
            key,
        ) {
            Ok(v) => CacheStatus::CacheHit(v),
            Err(_) => CacheStatus::CacheMiss,
        },
{
}

/// Caching one `.DS_Store` leaves the lookups in every other one as they were.
pub proof fn law_save_keeps_others(
    m: Map<Seq<char>, Map<Seq<char>, Map<Seq<char>, u64>>>,
    dsfile: Seq<char>,
    data: Map<Seq<char>, Map<Seq<char>, u64>>,
    other: Seq<char>,
    path: Seq<char>,
    key: Seq<char>,
)
    requires
        other != dsfile,
    ensures
        spec_cached_property(m.insert(dsfile, data), other, path, key) == spec_cached_property(
            m,
            other,
            path,
            key,
        ),
{
}

/// After adding records in order, a file's property holds the value of the last record
/// of that file and field: later records replace earlier ones, and records of other files
/// or fields leave it alone.
pub proof fn law_last_record_wins(
    m: Map<Seq<char>, Map<Seq<char>, u64>>,
    recs: Seq<SpecRecord>,
    dates: Seq<u64>,
    j: nat,
    k: nat,
)
    requires
        j < k <= recs.len(),
        forall|i: int|
            j < i < k ==> !(#[trigger] recs[i].name == recs[j as int].name && recs[i].field
                == recs[j as int].field),
    ensures
        spec_file_property(fold_records(m, recs, dates, k), recs[j as int].name, recs[j as int].field)
            == Ok::<i64, Seq<char>>(record_value(recs[j as int], dates[j as int]) as i64),
    decreases k,
{
    let r = recs[j as int];
    if k == j + 1 {
        law_add_record_then_get(
            fold_records(m, recs, dates, j),
            r.name,
            r.field,
            record_value(r, dates[j as int]),
        );
    } else {
        let k1 = (k - 1) as nat;
        law_last_record_wins(m, recs, dates, j, k1);
        let last = recs[k1 as int];
        assert(!(last.name == r.name && last.field == r.field));
        law_add_record_keeps_others(
            fold_records(m, recs, dates, k1),
            last.name,
            last.field,
            record_value(last, dates[k1 as int]),
            r.name,
            r.field,
        );
    }
}

/// Whether `m` gives `file` the property `key`.
pub open spec fn has_property(m: Map<Seq<char>, Map<Seq<char>, u64>>, file: Seq<char>, key: Seq<char>) -> bool {
    m.contains_key(file) && m[file].contains_key(key)
}

/// Whether `key` is the text of a field the `.DS_Store` reader keeps.
pub open spec fn is_kept_field(key: Seq<char>) -> bool {
    key == spec_utf8_lossy(field_ph1s()) || key == spec_utf8_lossy(field_phys()) || key
        == spec_utf8_lossy(field_modd()) || key == spec_utf8_lossy(field_modd2())
}

/// Whether `after` keeps every property of `before`, and every property that it adds or
/// changes is a kept field.
pub open spec fn grows_by_kept_fields(
    before: Map<Seq<char>, Map<Seq<char>, u64>>,
    after: Map<Seq<char>, Map<Seq<char>, u64>>,
) -> bool {
    &&& forall|f: Seq<char>, k: Seq<char>|
        #[trigger] has_property(before, f, k) ==> has_property(after, f, k)
    &&& forall|f: Seq<char>, k: Seq<char>|
        #[trigger] has_property(after, f, k) && !(has_property(before, f, k) && after[f][k]
            == before[f][k]) ==> is_kept_field(k)
}

proof fn lemma_fold_grows(
    m: Map<Seq<char>, Map<Seq<char>, u64>>,
    recs: Seq<SpecRecord>,
    dates: Seq<u64>,
    k: nat,
)
    requires
        k <= recs.len(),
        all_kept(recs),
    ensures
        grows_by_kept_fields(m, fold_records(m, recs, dates, k)),
    decreases k,
{
    if k > 0 {
        let k1 = (k - 1) as nat;
        lemma_fold_grows(m, recs, dates, k1);
        let prev = fold_records(m, recs, dates, k1);
        let next = fold_records(m, recs, dates, k);
        let r = recs[k1 as int];
        assert(is_kept_record(r));
        assert(is_kept_field(r.field));
        assert forall|f: Seq<char>, key: Seq<char>| #[trigger]
            has_property(m, f, key) implies has_property(next, f, key) by {
            assert(has_property(prev, f, key));
        }
        assert forall|f: Seq<char>, key: Seq<char>|
            #[trigger] has_property(next, f, key) && !(has_property(m, f, key) && next[f][key]
                == m[f][key]) implies is_kept_field(key) by {
            if !(f == r.name && key == r.field) {
                assert(has_property(prev, f, key));
                assert(next[f][key] == prev[f][key]);
            }
        }
    }
}

/// Adding the records of a `.DS_Store` to the properties read so far keeps every file and
/// every property already there, and adds or changes only properties of the fields the
/// reader keeps (`ph1S`, `phyS`, `moDD`, `modD`).
pub proof fn law_records_add_only_kept_fields(
    m: Map<Seq<char>, Map<Seq<char>, u64>>,
    d: Seq<u8>,
    dates: Seq<u64>,
)
    ensures
        grows_by_kept_fields(
            m,
            fold_records(
                m,
                spec_parse_ds_store(d).records,
                dates,
                spec_parse_ds_store(d).records.len(),
            ),
        ),
{
    law_only_sizes_and_dates(d);
    lemma_fold_grows(m, spec_parse_ds_store(d).records, dates, spec_parse_ds_store(d).records.len());
}

/// Adding the records that one read of a subtree of the `.DS_Store` tree appends (see
/// `parse_b_tree`) keeps every file and every property already there, and adds or changes
/// only properties of the fields the reader keeps.
pub proof fn law_subtree_records_add_only_kept_fields(
    m: Map<Seq<char>, Map<Seq<char>, u64>>,
    d: Seq<u8>,
    offs: Seq<u32>,
    node: u32,
    depth: nat,
    dates: Seq<u64>,
)
    ensures
        grows_by_kept_fields(
            m,
            fold_records(
                m,
                spec_b_tree(d, offs, node, depth).records,
                dates,
                spec_b_tree(d, offs, node, depth).records.len(),
            ),
        ),
{
    law_subtree_only_sizes_and_dates(d, offs, node, depth);
    lemma_fold_grows(m, spec_b_tree(d, offs, node, depth).records, dates, spec_b_tree(d, offs, node, depth).records.len());
}

/// After adding records in order, the last record of a file and field has set that
/// property, to the value it was added with.
proof fn lemma_last_record_value(
    m: Map<Seq<char>, Map<Seq<char>, u64>>,
    recs: Seq<SpecRecord>,
    dates: Seq<u64>,
    j: nat,
    k: nat,
)
    requires
        j < k <= recs.len(),
        forall|i: int|
            j < i < k ==> !(#[trigger] recs[i].name == recs[j as int].name && recs[i].field
                == recs[j as int].field),
    ensures
        has_property(fold_records(m, recs, dates, k), recs[j as int].name, recs[j as int].field),
        fold_records(m, recs, dates, k)[recs[j as int].name][recs[j as int].field] == record_value(
            recs[j as int],
            dates[j as int],
        ),
    decreases k,
{
    if k > j + 1 {
        let k1 = (k - 1) as nat;
        lemma_last_record_value(m, recs, dates, j, k1);
        let last = recs[k1 as int];
        assert(!(last.name == recs[j as int].name && last.field == recs[j as int].field));
    }
}

/// Adding the records of a `.DS_Store` in order, a size record whose file and field no
/// later record repeats leaves that property holding exactly its size, the whole `u64`;
/// a date record leaves it holding the value given for that date.
pub proof fn law_added_record_reads_back(
    m: Map<Seq<char>, Map<Seq<char>, u64>>,
    recs: Seq<SpecRecord>,
    dates: Seq<u64>,
    j: nat,
)
    requires
        j < recs.len(),
        forall|i: int|
            j < i < recs.len() ==> !(#[trigger] recs[i].name == recs[j as int].name
                && recs[i].field == recs[j as int].field),
    ensures
        has_property(
            fold_records(m, recs, dates, recs.len()),
            recs[j as int].name,
            recs[j as int].field,
        ),
        recs[j as int].value matches SpecValue::Size(v) ==> fold_records(m, recs, dates, recs.len())[
            recs[j as int].name][recs[j as int].field] == v,
        recs[j as int].value matches SpecValue::Size(v) ==> spec_file_property(
            fold_records(m, recs, dates, recs.len()),
            recs[j as int].name,
            recs[j as int].field,
        ) == Ok::<i64, Seq<char>>(v as i64),
        recs[j as int].value is Date ==> fold_records(m, recs, dates, recs.len())[
            recs[j as int].name][recs[j as int].field] == dates[j as int],
{
    lemma_last_record_value(m, recs, dates, j, recs.len());
}

} // verus!
