//! Records: where an insert goes, the identifier it gets, and how a record
//! is found again by its identifier.
//!
//! A record's identifier is `"{shard}.{uuid}"`: the decimal index of the
//! shard that stores it, a period, and a random version-4 UUID.
use vstd::prelude::*;
use crate::json::{Json, lookup, lookup_str, find_key, without_key, lemma_lookup_push};
use crate::tables::{State, TableMetadata, first_free, placed_counts, lemma_first_free};
use crate::text::{
    decimal, index_value, id_prefix, id_text, is_index_text, find_dot,
    parse_decimal, to_decimal, lemma_decimal_digits, lemma_id_prefix,
};

verus! {

/// What can go wrong while inserting or reading records.
#[derive(Debug, PartialEq, Eq)]
pub enum RowError {
    TableDoesntExist,
    FailedInsert,
    /// The read request lacks a member: its key and the type it should have.
    ReadMissingKey(String, String),
    MalformedID,
    FailedRead,
    FailedToFindRecord,
    /// A shard holds something other than records with a string `_id`.
    CorruptShard,
    /// The table's shard metadata is not a well-formed record of its shards.
    InconsistentMetadata,
}

/// The description of a record error.
pub open spec fn row_error_text(e: RowError) -> Seq<char> {
    match e {
        RowError::TableDoesntExist => "Tried to operate on a table that does not exist"@,
        RowError::FailedInsert => "Failed insert row"@,
        RowError::MalformedID => "Provided ID was not valid"@,
        RowError::FailedRead => "Failed to read data from the db"@,
        RowError::FailedToFindRecord => "Failed to find a row with the given criteria"@,
        RowError::CorruptShard => "A shard of the table is corrupt"@,
        RowError::InconsistentMetadata => "The shard metadata of the table is inconsistent"@,
        RowError::ReadMissingKey(key, key_type) => "Attempted to read record while missing '"@ + key@
            + "' "@ + key_type@ + " field"@,
    }
}

impl RowError {
    /// A sentence that describes the error.
    pub fn message(&self) -> (r: String)
        ensures
            r@ == row_error_text(*self),
    {
        match self {
            RowError::TableDoesntExist => String::from_str(
                "Tried to operate on a table that does not exist",
            ),
            RowError::FailedInsert => String::from_str("Failed insert row"),
            RowError::ReadMissingKey(key, key_type) => {
                let mut m = String::from_str("Attempted to read record while missing '");
                m.append(key.as_str());
                m.append("' ");
                m.append(key_type.as_str());
                m.append(" field");
                m
            },
            RowError::MalformedID => String::from_str("Provided ID was not valid"),
            RowError::FailedRead => String::from_str("Failed to read data from the db"),
            RowError::FailedToFindRecord => String::from_str(
                "Failed to find a row with the given criteria",
            ),
            RowError::CorruptShard => String::from_str("A shard of the table is corrupt"),
            RowError::InconsistentMetadata => String::from_str(
                "The shard metadata of the table is inconsistent",
            ),
        }
    }
}

/// A lower-case hexadecimal digit.
pub open spec fn hex_char(c: char) -> bool {
    ('0' <= c && c <= '9') || ('a' <= c && c <= 'f')
}

/// The hyphenated lower-case text of a version-4 UUID: 36 characters,
/// hyphens at 8, 13, 18 and 23, hex digits elsewhere, the version digit `4`
/// at 14 and a variant digit in `8`..`b` at 19.
pub open spec fn is_uuid_v4_text(u: Seq<char>) -> bool {
    &&& u.len() == 36
    &&& forall|i: int|
        0 <= i < 36 ==> (if i == 8 || i == 13 || i == 18 || i == 23 {
            #[trigger] u[i] == '-'
        } else {
            hex_char(u[i])
        })
    &&& u[14] == '4'
    &&& (u[19] == '8' || u[19] == '9' || u[19] == 'a' || u[19] == 'b')
}

/// Relies on `uuid::Uuid::new_v4` for a random version-4 UUID, and on its
/// `Display`, which writes the hyphenated lower-case form.
#[verifier::external_body]
fn new_uuid() -> (r: String)
    ensures
        is_uuid_v4_text(r@),
{
    uuid::Uuid::new_v4().to_string()
}

/// The identifier of a record in shard `sub_table_index`, distinguished by `tag`.
pub fn make_id(sub_table_index: usize, tag: &str) -> (r: String)
    ensures
        r@ == id_text(sub_table_index as nat, tag@),
{
    let mut r = to_decimal(sub_table_index);
    r.append(".");
    r.append(tag);
    proof {
        reveal_strlit(".");
    }
    r
}

/// `data` with its `_id` member set to `id`: every other member keeps its value.
pub open spec fn with_id(record: Seq<(String, Json)>, data: Seq<(String, Json)>, id: Seq<char>) -> bool {
    &&& lookup_str(record, "_id"@) == Some(id)
    &&& forall|k: Seq<char>| k != "_id"@ ==> #[trigger] lookup(record, k) == lookup(data, k)
}

/// Sets the `_id` member of a record.
pub fn inject_id(data: Vec<(String, Json)>, id: String) -> (r: Vec<(String, Json)>)
    ensures
        with_id(r@, data@, id@),
{
    let key = String::from_str("_id");
    let ghost d = data@;
    let mut r = without_key(data, &key);
    let ghost before = r@;
    let entry = (key, Json::Str(id));
    let ghost x = entry;
    r.push(entry);
    proof {
        lemma_lookup_push(before, x, "_id"@);
        assert forall|k: Seq<char>| k != "_id"@ implies #[trigger] lookup(r@, k) == lookup(d, k) by {
            lemma_lookup_push(before, x, k);
        }
    }
    r
}

/// What an insert writes: the record with its identifier, the shard it goes
/// to, and the shard metadata after it.
#[derive(Debug)]
pub struct InsertPlan {
    pub id: String,
    pub sub_table_index: usize,
    /// Whether the shard is new, and its file must be created first.
    pub new_sub_table: bool,
    pub metadata: TableMetadata,
    pub record: Vec<(String, Json)>,
}

/// The plan of an insert that succeeds on a table whose metadata was `m`.
pub open spec fn placed_plan(p: InsertPlan, m: TableMetadata, data: Seq<(String, Json)>) -> bool {
    &&& p.sub_table_index == first_free(m.sub_tables@, m.records_per_sub_table)
    &&& p.new_sub_table <==> p.sub_table_index == m.sub_tables@.len()
    &&& p.metadata.records_per_sub_table == m.records_per_sub_table
    &&& p.metadata.sub_tables@ == placed_counts(m.sub_tables@, m.records_per_sub_table)
    &&& p.metadata.wf()
    &&& id_prefix(p.id@) == decimal(p.sub_table_index as nat)
    &&& with_id(p.record@, data, p.id@)
}

/// Succeeds exactly when the catalog holds `table_name`; checked before any
/// file of the table is read or written.
pub fn require_table(state: &State, table_name: &str) -> (r: Result<(), RowError>)
    ensures
        state.has_table(table_name@) <==> r is Ok,
        r matches Err(e) ==> e == RowError::TableDoesntExist,
{
    let name = String::from_str(table_name);
    if state.contains(&name) {
        Ok(())
    } else {
        Err(RowError::TableDoesntExist)
    }
}

/// Plans the insert of `data` into `table_name`, whose shard metadata is
/// `metadata`, under the identifier made from `tag`.
pub fn plan_insert(
    state: &State,
    table_name: &str,
    data: Vec<(String, Json)>,
    metadata: TableMetadata,
    tag: &str,
) -> (r: Result<InsertPlan, RowError>)
    ensures
        !state.has_table(table_name@) ==> r == Err::<InsertPlan, RowError>(
            RowError::TableDoesntExist,
        ),
        state.has_table(table_name@) && !metadata.wf() ==> r == Err::<InsertPlan, RowError>(
            RowError::InconsistentMetadata,
        ),
        state.has_table(table_name@) && metadata.wf() ==> (r matches Ok(p) && placed_plan(
            p,
            metadata,
            data@,
        )),
        r matches Ok(p) ==> p.id@ == id_text(p.sub_table_index as nat, tag@),
{
    let name = String::from_str(table_name);
    if !state.contains(&name) {
        return Err(RowError::TableDoesntExist);
    }
    if !metadata.is_consistent() {
        return Err(RowError::InconsistentMetadata);
    }
    let mut metadata = metadata;
    let (index, created) = metadata.place_record();
    let id = make_id(index, tag);
    proof {
        lemma_id_prefix(index as nat, tag@);
    }
    let record = inject_id(data, id.clone());
    Ok(InsertPlan { id, sub_table_index: index, new_sub_table: created, metadata, record })
}

/// Plans the insert of `data` into `table_name` under a fresh identifier.
pub fn insert_data(
    state: &State,
    table_name: &str,
    data: Vec<(String, Json)>,
    metadata: TableMetadata,
) -> (r: Result<InsertPlan, RowError>)
    ensures
        !state.has_table(table_name@) ==> r == Err::<InsertPlan, RowError>(
            RowError::TableDoesntExist,
        ),
        state.has_table(table_name@) && !metadata.wf() ==> r == Err::<InsertPlan, RowError>(
            RowError::InconsistentMetadata,
        ),
        state.has_table(table_name@) && metadata.wf() ==> (r matches Ok(p) && placed_plan(
            p,
            metadata,
            data@,
        )),
        r matches Ok(p) ==> exists|u: Seq<char>|
            is_uuid_v4_text(u) && p.id@ == id_text(p.sub_table_index as nat, u),
{
    let tag = new_uuid();
    let r = plan_insert(state, table_name, data, metadata, tag.as_str());
    proof {
        if r is Ok {
            assert(is_uuid_v4_text(tag@) && r->Ok_0.id@ == id_text(r->Ok_0.sub_table_index as nat, tag@));
        }
    }
    r
}

/// Where a read looks: the identifier asked for and the shard it names.
#[derive(Debug)]
pub struct ReadTarget {
    pub id: String,
    pub sub_table_index: usize,
}

/// Finds which record a read request asks for, and in which shard it is.
pub fn read_target(state: &State, table_name: &str, data: &Vec<(String, Json)>) -> (r: Result<
    ReadTarget,
    RowError,
>)
    ensures
        !state.has_table(table_name@) ==> r == Err::<ReadTarget, RowError>(
            RowError::TableDoesntExist,
        ),
        state.has_table(table_name@) && lookup_str(data@, "_id"@) is None ==> (r matches Err(
            RowError::ReadMissingKey(k, t),
        ) && k@ == "_id"@ && t@ == "string"@),
        state.has_table(table_name@) ==> (lookup_str(data@, "_id"@) matches Some(id) ==> {
            &&& !is_index_text(id_prefix(id)) ==> r == Err::<ReadTarget, RowError>(
                RowError::MalformedID,
            )
            &&& is_index_text(id_prefix(id)) ==> (r matches Ok(t) && t.id@ == id
                && t.sub_table_index == index_value(id_prefix(id)))
        }),
{
    let name = String::from_str(table_name);
    if !state.contains(&name) {
        return Err(RowError::TableDoesntExist);
    }
    let key = String::from_str("_id");
    let target_id = match find_key(data, &key) {
        Some(i) => match &data[i].1 {
            Json::Str(s) => s,
            _ => {
                return Err(
                    RowError::ReadMissingKey(String::from_str("_id"), String::from_str("string")),
                )
            },
        },
        None => {
            return Err(
                RowError::ReadMissingKey(String::from_str("_id"), String::from_str("string")),
            )
        },
    };
    let k = find_dot(target_id.as_str());
    let prefix = target_id.as_str().substring_char(0, k);
    proof {
        assert(prefix@ =~= id_prefix(target_id@));
    }
    match parse_decimal(prefix) {
        Some(index) => Ok(ReadTarget { id: target_id.clone(), sub_table_index: index }),
        None => Err(RowError::MalformedID),
    }
}

/// The identifier of a stored record: its `_id` member, which must be a string.
pub open spec fn record_id(j: Json) -> Option<Seq<char>> {
    match j {
        Json::Object(e) => lookup_str(e@, "_id"@),
        _ => None,
    }
}

/// The outcome of scanning a shard's records, in order, for identifier `id`.
pub open spec fn scan(items: Seq<Json>, id: Seq<char>) -> Result<Json, RowError>
    decreases items.len(),
{
    if items.len() == 0 {
        Err(RowError::FailedToFindRecord)
    } else {
        match record_id(items[0]) {
            None => Err(RowError::CorruptShard),
            Some(s) => if s == id {
                Ok(items[0])
            } else {
                scan(items.drop_first(), id)
            },
        }
    }
}

/// The outcome of reading record `id` from a shard whose contents are `contents`.
pub open spec fn read_spec(contents: Json, id: Seq<char>) -> Result<Json, RowError> {
    match contents {
        Json::Array(items) => scan(items@, id),
        _ => Err(RowError::CorruptShard),
    }
}

/// The `_id` text of a stored record.
fn stored_id(j: &Json) -> (r: Option<&String>)
    ensures
        r is Some <==> record_id(*j) is Some,
        r matches Some(s) ==> record_id(*j) == Some(s@),
{
    match j {
        Json::Object(e) => {
            let key = String::from_str("_id");
            match find_key(e, &key) {
                Some(i) => match &e[i].1 {
                    Json::Str(s) => Some(s),
                    _ => None,
                },
                None => None,
            }
        },
        _ => None,
    }
}

/// Reads the record that `target` names from the contents of its shard: the
/// first record whose `_id` is the identifier asked for. A shard that is not
/// a list of records with a string `_id` is corrupt.
pub fn read_data_by_id(target: &ReadTarget, contents: Json) -> (r: Result<Json, RowError>)
    ensures
        r == read_spec(contents, target.id@),
{
    let ghost expected = read_spec(contents, target.id@);
    match contents {
        Json::Array(items) => {
            let mut items = items;
            let ghost all = items@;
            let mut i: usize = 0;
            assert(all.subrange(0, all.len() as int) =~= all);
            while i < items.len()
                invariant
                    items@ == all,
                    expected == scan(all, target.id@),
                    expected == read_spec(contents, target.id@),
                    i <= all.len(),
                    scan(all, target.id@) == scan(all.subrange(i as int, all.len() as int), target.id@),
                decreases all.len() - i,
            {
                proof {
                    assert(all.subrange(i as int, all.len() as int)[0] == all[i as int]);
                    assert(all.subrange(i as int, all.len() as int).drop_first() =~= all.subrange(
                        i as int + 1,
                        all.len() as int,
                    ));
                }
                let ghost rest = all.subrange(i as int, all.len() as int);
                let found = match stored_id(&items[i]) {
                    Some(s) => *s == target.id,
                    None => {
                        assert(scan(rest, target.id@) == Err::<Json, RowError>(RowError::CorruptShard));
                        return Err(RowError::CorruptShard);
                    },
                };
                if found {
                    assert(scan(rest, target.id@) == Ok::<Json, RowError>(all[i as int]));
                    return Ok(items.remove(i));
                }
                i = i + 1;
            }
            Err(RowError::FailedToFindRecord)
        },
        _ => Err(RowError::CorruptShard),
    }
}

/// Scanning past records with other identifiers reaches a record appended
/// at the end.
proof fn lemma_scan_appended(items: Seq<Json>, x: Json, id: Seq<char>)
    requires
        record_id(x) == Some(id),
        forall|i: int| 0 <= i < items.len() ==> (#[trigger] record_id(items[i])) is Some
            && record_id(items[i]) != Some(id),
    ensures
        scan(items.push(x), id) == Ok::<Json, RowError>(x),
    decreases items.len(),
{
    let all = items.push(x);
    if items.len() == 0 {
        assert(all[0] == x);
    } else {
        assert(all[0] == items[0]);
        assert(record_id(items[0]) is Some);
        assert(all.drop_first() =~= items.drop_first().push(x));
        assert forall|i: int| 0 <= i < items.drop_first().len() implies (#[trigger] record_id(
            items.drop_first()[i],
        )) is Some && record_id(items.drop_first()[i]) != Some(id) by {
            assert(items.drop_first()[i] == items[i + 1]);
        }
        lemma_scan_appended(items.drop_first(), x, id);
    }
}

/// Round trip: once the record of an insert is appended to the shard the
/// insert chose, its identifier names that shard, and reading the identifier
/// from the shard gives back the record, which holds the inserted data plus
/// its `_id`. The shard's earlier records are well-formed and carry other
/// identifiers.
pub proof fn lemma_round_trip(
    m: TableMetadata,
    data: Seq<(String, Json)>,
    p: InsertPlan,
    before: Seq<Json>,
    after: Vec<Json>,
)
    requires
        placed_plan(p, m, data),
        forall|i: int| 0 <= i < before.len() ==> (#[trigger] record_id(before[i])) is Some
            && record_id(before[i]) != Some(p.id@),
        after@ == before.push(Json::Object(p.record)),
    ensures
        is_index_text(id_prefix(p.id@)),
        index_value(id_prefix(p.id@)) == p.sub_table_index,
        read_spec(Json::Array(after), p.id@) == Ok::<Json, RowError>(Json::Object(p.record)),
        with_id(p.record@, data, p.id@),
{
    lemma_decimal_digits(p.sub_table_index as nat);
    lemma_scan_appended(before, Json::Object(p.record), p.id@);
}

/// The shard files after a record is stored in shard `i` (a new one when `i`
/// is past the last).
pub open spec fn stored_after(shards: Seq<Seq<Json>>, i: nat, record: Json) -> Seq<Seq<Json>> {
    if i < shards.len() {
        shards.update(i as int, shards[i as int].push(record))
    } else {
        shards.push(seq![record])
    }
}

/// Shard files `shards` hold as many records as `counts` says, and no count
/// exceeds `cap`.
pub open spec fn counts_fit(counts: Seq<usize>, cap: usize, shards: Seq<Seq<Json>>) -> bool {
    &&& shards.len() == counts.len()
    &&& forall|i: int| 0 <= i < shards.len() ==> (#[trigger] shards[i]).len() == counts[i]
    &&& forall|i: int| 0 <= i < counts.len() ==> #[trigger] counts[i] <= cap
}

/// Every shard file holds as many records as its count says, and no count
/// exceeds capacity.
pub open spec fn counts_match(m: TableMetadata, shards: Seq<Seq<Json>>) -> bool {
    &&& m.wf()
    &&& counts_fit(m.sub_tables@, m.records_per_sub_table, shards)
}

/// Placing one record and storing it in the chosen shard keeps the counts
/// fitting the shard files.
proof fn lemma_counts_step(counts: Seq<usize>, cap: usize, shards: Seq<Seq<Json>>, record: Json)
    requires
        cap > 0,
        counts_fit(counts, cap, shards),
    ensures
        counts_fit(
            placed_counts(counts, cap),
            cap,
            stored_after(shards, first_free(counts, cap), record),
        ),
{
    let i = first_free(counts, cap);
    lemma_first_free(counts, cap);
    let s2 = stored_after(shards, i, record);
    let c2 = placed_counts(counts, cap);
    assert forall|j: int| 0 <= j < s2.len() implies (#[trigger] s2[j]).len() == c2[j] by {
    }
    assert forall|j: int| 0 <= j < c2.len() implies #[trigger] c2[j] <= cap by {
    }
}

/// Capacity invariant, one step: placing a record and storing it in the
/// chosen shard keeps each shard's record count equal to its fill count, and
/// within capacity.
pub proof fn lemma_capacity_invariant(
    m: TableMetadata,
    shards: Seq<Seq<Json>>,
    record: Json,
    after: TableMetadata,
)
    requires
        counts_match(m, shards),
        after.records_per_sub_table == m.records_per_sub_table,
        after.sub_tables@ == placed_counts(m.sub_tables@, m.records_per_sub_table),
    ensures
        counts_match(
            after,
            stored_after(shards, first_free(m.sub_tables@, m.records_per_sub_table), record),
        ),
{
    lemma_counts_step(m.sub_tables@, m.records_per_sub_table, shards, record);
}

/// The fill counts and shard files of a new table with capacity `cap` after
/// `records` are inserted into it in order.
pub open spec fn inserts_from_new(cap: usize, records: Seq<Json>) -> (Seq<usize>, Seq<Seq<Json>>)
    decreases records.len(),
{
    if records.len() == 0 {
        (seq![0usize], seq![Seq::<Json>::empty()])
    } else {
        let (c, sh) = inserts_from_new(cap, records.drop_last());
        (placed_counts(c, cap), stored_after(sh, first_free(c, cap), records.last()))
    }
}

/// Capacity invariant: after any sequence of inserts into a new table, every
/// shard file holds as many records as its fill count says, and no fill count
/// exceeds the table's capacity.
pub proof fn lemma_capacity_after_inserts(cap: usize, records: Seq<Json>)
    requires
        cap > 0,
    ensures
        counts_fit(inserts_from_new(cap, records).0, cap, inserts_from_new(cap, records).1),
    decreases records.len(),
{
    if records.len() > 0 {
        lemma_capacity_after_inserts(cap, records.drop_last());
        let (c, sh) = inserts_from_new(cap, records.drop_last());
        lemma_counts_step(c, cap, sh, records.last());
    } else {
        let c = seq![0usize];
        let sh = seq![Seq::<Json>::empty()];
        assert(counts_fit(c, cap, sh));
    }
}

/// A new table starts with its counts matching its one empty shard file.
pub proof fn lemma_new_table_counts(m: TableMetadata)
    requires
        m.wf(),
        m.sub_tables@ == seq![0usize],
    ensures
        counts_match(m, seq![Seq::<Json>::empty()]),
{
}

/// Distinct shards or distinct UUIDs give distinct identifiers.
pub proof fn lemma_id_injective(a: nat, t: Seq<char>, b: nat, u: Seq<char>)
    requires
        id_text(a, t) == id_text(b, u),
    ensures
        a == b,
        t == u,
{
    lemma_id_prefix(a, t);
    lemma_id_prefix(b, u);
    lemma_decimal_digits(a);
    lemma_decimal_digits(b);
    let n = decimal(a).len() + 1;
    assert(id_text(a, t).skip(n as int) =~= t);
    assert(id_text(b, u).skip(n as int) =~= u);
}

} // verus!
