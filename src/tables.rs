//! Table descriptors, per-table shard metadata, and the catalog of tables.
use vstd::prelude::*;
use crate::json::{Json, lookup, lookup_str, find_key};
use crate::frame::Frame;
use crate::text::{decimal, index_value, is_index_text, parse_decimal, to_decimal, lemma_decimal_digits};

verus! {

/// How many records a shard of a new table may hold.
pub const DEFAULT_RECORDS_PER_SHARD: usize = 1000;

/// What can go wrong while creating, storing or loading tables.
#[derive(Debug, PartialEq, Eq)]
pub enum TableError {
    FailedOpenTableFile,
    FailedDiskRead,
    FailedDiskWrite,
    TableAlreadyExists,
    FailedCreateDir,
    /// A table's shard metadata is not a well-formed record of its shards.
    InconsistentMetadata,
}

/// The description of a table error.
pub open spec fn table_error_text(e: TableError) -> Seq<char> {
    match e {
        TableError::FailedOpenTableFile => "Failed to read or create the table file"@,
        TableError::FailedDiskWrite => "Failed to write table data to disk"@,
        TableError::FailedDiskRead => "Failed to read tables from disk"@,
        TableError::TableAlreadyExists => "Tried to create a table which already exists"@,
        TableError::FailedCreateDir => "Failed to create a directory for table"@,
        TableError::InconsistentMetadata => "The shard metadata of the table is inconsistent"@,
    }
}

impl TableError {
    /// A sentence that describes the error.
    pub fn message(&self) -> (r: String)
        ensures
            r@ == table_error_text(*self),
    {
        match self {
            TableError::FailedOpenTableFile => String::from_str(
                "Failed to read or create the table file",
            ),
            TableError::FailedDiskWrite => String::from_str("Failed to write table data to disk"),
            TableError::FailedDiskRead => String::from_str("Failed to read tables from disk"),
            TableError::TableAlreadyExists => String::from_str(
                "Tried to create a table which already exists",
            ),
            TableError::FailedCreateDir => String::from_str("Failed to create a directory for table"),
            TableError::InconsistentMetadata => String::from_str(
                "The shard metadata of the table is inconsistent",
            ),
        }
    }
}

/// A declared field of a table (not enforced on records).
#[derive(Debug)]
pub struct Field {
    pub name: String,
    pub field_type: Json,
}

/// A declared constraint on a field (not enforced on records).
#[derive(Debug)]
pub struct Constraint {
    pub field: String,
}

/// A table descriptor, as the catalog holds it.
#[derive(Debug)]
pub struct Table {
    pub name: String,
    pub fields: Vec<Field>,
    pub constraints: Vec<Constraint>,
}

/// A stored field declaration: `{"name": string, "field_type": any}`.
pub open spec fn field_shape(j: Json) -> bool {
    j matches Json::Object(e) && lookup_str(e@, "name"@) is Some && lookup(e@, "field_type"@) is Some
}

/// A stored constraint: `{"field": string}`.
pub open spec fn constraint_shape(j: Json) -> bool {
    j matches Json::Object(e) && lookup_str(e@, "field"@) is Some
}

/// The members of a JSON object (none for any other value).
pub open spec fn members(j: Json) -> Seq<(String, Json)> {
    match j {
        Json::Object(e) => e@,
        _ => Seq::empty(),
    }
}

/// The items of a JSON array (none for any other value).
pub open spec fn items(j: Json) -> Seq<Json> {
    match j {
        Json::Array(a) => a@,
        _ => Seq::empty(),
    }
}

/// A stored table descriptor: `{"name": string, "fields": [field], "constraints": [constraint]}`.
pub open spec fn table_shape(j: Json) -> bool {
    &&& j is Object
    &&& lookup_str(members(j), "name"@) is Some
    &&& lookup(members(j), "fields"@) matches Some(f) && f is Array && forall|i: int|
        0 <= i < items(f).len() ==> field_shape(#[trigger] items(f)[i])
    &&& lookup(members(j), "constraints"@) matches Some(c) && c is Array && forall|i: int|
        0 <= i < items(c).len() ==> constraint_shape(#[trigger] items(c)[i])
}

impl Field {
    /// Reads a stored field declaration.
    pub fn from_json(value: Json) -> (r: Option<Field>)
        ensures
            r is Some <==> field_shape(value),
            r matches Some(f) ==> Some(f.name@) == lookup_str(members(value), "name"@) && Some(
                f.field_type,
            ) == lookup(members(value), "field_type"@),
    {
        match value {
            Json::Object(mut e) => {
                let nk = String::from_str("name");
                let tk = String::from_str("field_type");
                let name = match find_key(&e, &nk) {
                    Some(i) => match &e[i].1 {
                        Json::Str(s) => s.clone(),
                        _ => return None,
                    },
                    None => return None,
                };
                match find_key(&e, &tk) {
                    Some(i) => {
                        let m = e.remove(i);
                        Some(Field { name, field_type: m.1 })
                    },
                    None => None,
                }
            },
            _ => None,
        }
    }
}

impl Field {
    /// The stored form of the declaration.
    pub fn to_json(self) -> (r: Json)
        ensures
            field_shape(r),
            lookup_str(members(r), "name"@) == Some(self.name@),
            lookup(members(r), "field_type"@) == Some(self.field_type),
    {
        let nk = String::from_str("name");
        let tk = String::from_str("field_type");
        proof {
            reveal_strlit("name");
            reveal_strlit("field_type");
            assert(nk@.len() != tk@.len());
        }
        let mut e: Vec<(String, Json)> = Vec::new();
        e.push((nk, Json::Str(self.name)));
        e.push((tk, self.field_type));
        proof {
            assert(e@.drop_first()[0] == e@[1]);
            assert(lookup(e@.drop_first(), "field_type"@) == Some(e@[1].1));
        }
        Json::Object(e)
    }
}

impl Constraint {
    /// The stored form of the constraint.
    pub fn to_json(self) -> (r: Json)
        ensures
            constraint_shape(r),
            lookup_str(members(r), "field"@) == Some(self.field@),
    {
        let fk = String::from_str("field");
        let mut e: Vec<(String, Json)> = Vec::new();
        e.push((fk, Json::Str(self.field)));
        Json::Object(e)
    }
}

impl Constraint {
    /// Reads a stored constraint.
    pub fn from_json(value: Json) -> (r: Option<Constraint>)
        ensures
            r is Some <==> constraint_shape(value),
            r matches Some(c) ==> Some(c.field@) == lookup_str(members(value), "field"@),
    {
        match value {
            Json::Object(e) => {
                let fk = String::from_str("field");
                match find_key(&e, &fk) {
                    Some(i) => match &e[i].1 {
                        Json::Str(s) => Some(Constraint { field: s.clone() }),
                        _ => None,
                    },
                    None => None,
                }
            },
            _ => None,
        }
    }
}

impl Table {
    /// Reads a stored table descriptor; anything else is a failed read.
    #[verifier::loop_isolation(false)]
    pub fn from_json(value: Json) -> (r: Result<Table, TableError>)
        ensures
            r is Ok <==> table_shape(value),
            r matches Err(err) ==> err == TableError::FailedDiskRead,
            r matches Ok(t) ==> {
                &&& Some(t.name@) == lookup_str(members(value), "name"@)
                &&& t.fields@.len() == items(lookup(members(value), "fields"@).unwrap()).len()
                &&& forall|i: int| 0 <= i < t.fields@.len() ==> Some((#[trigger] t.fields@[i]).name@)
                    == lookup_str(members(items(lookup(members(value), "fields"@).unwrap())[i]), "name"@)
                &&& t.constraints@.len() == items(lookup(members(value), "constraints"@).unwrap()).len()
                &&& forall|i: int| 0 <= i < t.constraints@.len() ==> Some((#[trigger] t.constraints@[i]).field@)
                    == lookup_str(members(items(lookup(members(value), "constraints"@).unwrap())[i]), "field"@)
            },
    {
        let mut e = match value {
            Json::Object(e) => e,
            _ => return Err(TableError::FailedDiskRead),
        };
        let nk = String::from_str("name");
        let fk = String::from_str("fields");
        let ck = String::from_str("constraints");
        let name = match find_key(&e, &nk) {
            Some(i) => match &e[i].1 {
                Json::Str(s) => s.clone(),
                _ => return Err(TableError::FailedDiskRead),
            },
            None => return Err(TableError::FailedDiskRead),
        };
        let fi = match find_key(&e, &fk) {
            Some(i) => i,
            None => return Err(TableError::FailedDiskRead),
        };
        let ci = match find_key(&e, &ck) {
            Some(i) => i,
            None => return Err(TableError::FailedDiskRead),
        };
        proof {
            reveal_strlit("fields");
            reveal_strlit("constraints");
            assert(fk@.len() != ck@.len());
        }
        assert(fi != ci);
        let ghost fj = e@[fi as int].1;
        let ghost cj = e@[ci as int].1;
        // Take the later member out first so that the earlier index stays put.
        let (fm, cm) = if fi > ci {
            let f = e.remove(fi);
            let c = e.remove(ci);
            (f.1, c.1)
        } else {
            let c = e.remove(ci);
            let f = e.remove(fi);
            (f.1, c.1)
        };
        assert(fm == fj && cm == cj);
        let mut f_items = match fm {
            Json::Array(a) => a,
            _ => return Err(TableError::FailedDiskRead),
        };
        let mut c_items = match cm {
            Json::Array(a) => a,
            _ => return Err(TableError::FailedDiskRead),
        };
        let ghost fs = f_items@;
        let ghost cs = c_items@;
        let mut fields: Vec<Field> = Vec::new();
        while f_items.len() > 0
            invariant
                fs.len() >= f_items@.len(),
                f_items@ =~= fs.subrange(fs.len() - f_items@.len(), fs.len() as int),
                fields@.len() == fs.len() - f_items@.len(),
                forall|j: int| 0 <= j < fields@.len() ==> field_shape(#[trigger] fs[j]),
                forall|j: int| 0 <= j < fields@.len() ==> Some((#[trigger] fields@[j]).name@)
                    == lookup_str(members(fs[j]), "name"@),
            decreases f_items@.len(),
        {
            let ghost n = fields@.len();
            let item = f_items.remove(0);
            assert(item == fs[n as int]);
            match Field::from_json(item) {
                Some(f) => fields.push(f),
                None => return Err(TableError::FailedDiskRead),
            }
        }
        let mut constraints: Vec<Constraint> = Vec::new();
        while c_items.len() > 0
            invariant
                cs.len() >= c_items@.len(),
                c_items@ =~= cs.subrange(cs.len() - c_items@.len(), cs.len() as int),
                constraints@.len() == cs.len() - c_items@.len(),
                forall|j: int| 0 <= j < constraints@.len() ==> constraint_shape(#[trigger] cs[j]),
                forall|j: int| 0 <= j < constraints@.len() ==> Some((#[trigger] constraints@[j]).field@)
                    == lookup_str(members(cs[j]), "field"@),
            decreases c_items@.len(),
        {
            let ghost n = constraints@.len();
            let item = c_items.remove(0);
            assert(item == cs[n as int]);
            match Constraint::from_json(item) {
                Some(c) => constraints.push(c),
                None => return Err(TableError::FailedDiskRead),
            }
        }
        Ok(Table { name, fields, constraints })
    }

    /// The stored form of the descriptor.
    pub fn to_json(self) -> (r: Json)
        ensures
            table_shape(r),
            lookup_str(members(r), "name"@) == Some(self.name@),
            items(lookup(members(r), "fields"@).unwrap()).len() == self.fields@.len(),
            forall|i: int| 0 <= i < self.fields@.len() ==> lookup_str(
                members(#[trigger] items(lookup(members(r), "fields"@).unwrap())[i]),
                "name"@,
            ) == Some(self.fields@[i].name@),
            items(lookup(members(r), "constraints"@).unwrap()).len() == self.constraints@.len(),
            forall|i: int| 0 <= i < self.constraints@.len() ==> lookup_str(
                members(#[trigger] items(lookup(members(r), "constraints"@).unwrap())[i]),
                "field"@,
            ) == Some(self.constraints@[i].field@),
    {
        let Table { name, fields, constraints } = self;
        let ghost fs = fields@;
        let ghost cs = constraints@;
        let mut fields = fields;
        let mut constraints = constraints;
        let mut fa: Vec<Json> = Vec::new();
        while fields.len() > 0
            invariant
                fs.len() >= fields@.len(),
                fields@ =~= fs.subrange(fs.len() - fields@.len(), fs.len() as int),
                fa@.len() == fs.len() - fields@.len(),
                forall|j: int| 0 <= j < fa@.len() ==> field_shape(#[trigger] fa@[j]),
                forall|j: int| 0 <= j < fa@.len() ==> lookup_str(members(#[trigger] fa@[j]), "name"@)
                    == Some(fs[j].name@),
            decreases fields@.len(),
        {
            let ghost n = fa@.len();
            let f = fields.remove(0);
            assert(f == fs[n as int]);
            fa.push(f.to_json());
        }
        let mut ca: Vec<Json> = Vec::new();
        while constraints.len() > 0
            invariant
                cs.len() >= constraints@.len(),
                constraints@ =~= cs.subrange(cs.len() - constraints@.len(), cs.len() as int),
                ca@.len() == cs.len() - constraints@.len(),
                forall|j: int| 0 <= j < ca@.len() ==> constraint_shape(#[trigger] ca@[j]),
                forall|j: int| 0 <= j < ca@.len() ==> lookup_str(members(#[trigger] ca@[j]), "field"@)
                    == Some(cs[j].field@),
            decreases constraints@.len(),
        {
            let ghost n = ca@.len();
            let c = constraints.remove(0);
            assert(c == cs[n as int]);
            ca.push(c.to_json());
        }
        let nk = String::from_str("name");
        let fk = String::from_str("fields");
        let ck = String::from_str("constraints");
        proof {
            reveal_strlit("name");
            reveal_strlit("fields");
            reveal_strlit("constraints");
            assert(nk@.len() != fk@.len() && nk@.len() != ck@.len() && fk@.len() != ck@.len());
        }
        let mut e: Vec<(String, Json)> = Vec::new();
        e.push((nk, Json::Str(name)));
        e.push((fk, Json::Array(fa)));
        e.push((ck, Json::Array(ca)));
        proof {
            let s = e@;
            assert(s.drop_first()[0] == s[1]);
            assert(s.drop_first().drop_first()[0] == s[2]);
            assert(lookup(s.drop_first().drop_first(), "constraints"@) == Some(s[2].1));
            assert(lookup(s.drop_first(), "constraints"@) == Some(s[2].1));
            assert(lookup(s.drop_first(), "fields"@) == Some(s[1].1));
            assert(lookup(s, "fields"@) == Some(s[1].1));
            assert(lookup(s, "constraints"@) == Some(s[2].1));
        }
        Json::Object(e)
    }

    /// The descriptor of a new table named by the request, unless the
    /// catalog already holds a table of that name.
    pub fn create_table(state: &State, frame: &Frame) -> (r: Result<Table, TableError>)
        ensures
            state.has_table(frame.table@) <==> r == Err::<Table, TableError>(
                TableError::TableAlreadyExists,
            ),
            !state.has_table(frame.table@) ==> r is Ok,
            r matches Ok(t) ==> t.name@ == frame.table@ && t.fields@.len() == 0
                && t.constraints@.len() == 0,
    {
        if state.contains(&frame.table) {
            return Err(TableError::TableAlreadyExists);
        }
        Ok(Table { name: frame.table.clone(), fields: Vec::new(), constraints: Vec::new() })
    }
}

/// How full each shard of a table is.
#[derive(Debug, PartialEq, Eq)]
pub struct TableMetadata {
    /// The most records a shard may hold.
    pub records_per_sub_table: usize,
    /// The number of records in each shard, by shard index.
    pub sub_tables: Vec<usize>,
}

/// Index of the first shard with room below `cap`, or the number of shards
/// when all are full.
pub open spec fn first_free(counts: Seq<usize>, cap: usize) -> nat
    decreases counts.len(),
{
    if counts.len() == 0 {
        0
    } else if counts[0] < cap {
        0
    } else {
        1 + first_free(counts.drop_first(), cap)
    }
}

/// The shard counts after one record is placed in the first shard with room,
/// or in a new trailing shard.
pub open spec fn placed_counts(counts: Seq<usize>, cap: usize) -> Seq<usize> {
    let i = first_free(counts, cap);
    if i < counts.len() {
        counts.update(i as int, (counts[i as int] + 1) as usize)
    } else {
        counts.push(1)
    }
}

/// `first_free` is the least index with room.
pub proof fn lemma_first_free(counts: Seq<usize>, cap: usize)
    ensures
        first_free(counts, cap) <= counts.len(),
        first_free(counts, cap) < counts.len() ==> counts[first_free(counts, cap) as int] < cap,
        forall|j: int| 0 <= j < first_free(counts, cap) ==> #[trigger] counts[j] >= cap,
    decreases counts.len(),
{
    if counts.len() > 0 && counts[0] >= cap {
        let t = counts.drop_first();
        lemma_first_free(t, cap);
        assert forall|j: int| 0 <= j < first_free(counts, cap) implies #[trigger] counts[j] >= cap by {
            if j > 0 {
                assert(counts[j] == t[j - 1]);
            }
        }
    }
}

impl TableMetadata {
    /// Every shard is within capacity, and capacity is positive.
    pub open spec fn wf(&self) -> bool {
        &&& self.records_per_sub_table > 0
        &&& forall|i: int|
            0 <= i < self.sub_tables@.len() ==> #[trigger] self.sub_tables@[i]
                <= self.records_per_sub_table
    }

    /// Whether every shard is within capacity, and capacity is positive.
    pub fn is_consistent(&self) -> (r: bool)
        ensures
            r == self.wf(),
    {
        if self.records_per_sub_table == 0 {
            return false;
        }
        let mut i: usize = 0;
        while i < self.sub_tables.len()
            invariant
                i <= self.sub_tables@.len(),
                forall|j: int| 0 <= j < i ==> #[trigger] self.sub_tables@[j] <= self.records_per_sub_table,
            decreases self.sub_tables@.len() - i,
        {
            if self.sub_tables[i] > self.records_per_sub_table {
                return false;
            }
            i = i + 1;
        }
        true
    }

    /// The metadata of a new table: one empty shard.
    pub fn new_table() -> (r: TableMetadata)
        ensures
            r.wf(),
            r.records_per_sub_table == DEFAULT_RECORDS_PER_SHARD,
            r.sub_tables@ == seq![0usize],
    {
        let mut v: Vec<usize> = Vec::new();
        v.push(0);
        TableMetadata { records_per_sub_table: DEFAULT_RECORDS_PER_SHARD, sub_tables: v }
    }

    /// Index of the first shard with room, if any.
    pub fn first_available(&self) -> (r: Option<usize>)
        ensures
            r is Some <==> first_free(self.sub_tables@, self.records_per_sub_table)
                < self.sub_tables@.len(),
            r matches Some(i) ==> i == first_free(self.sub_tables@, self.records_per_sub_table),
    {
        let cap = self.records_per_sub_table;
        let mut i: usize = 0;
        proof {
            lemma_first_free(self.sub_tables@, cap);
        }
        while i < self.sub_tables.len()
            invariant
                cap == self.records_per_sub_table,
                i <= self.sub_tables@.len(),
                i <= first_free(self.sub_tables@, cap),
                first_free(self.sub_tables@, cap) <= self.sub_tables@.len(),
                first_free(self.sub_tables@, cap) < self.sub_tables@.len() ==> self.sub_tables@[first_free(self.sub_tables@, cap) as int] < cap,
                forall|j: int| 0 <= j < first_free(self.sub_tables@, cap) ==> #[trigger] self.sub_tables@[j] >= cap,
            decreases self.sub_tables@.len() - i,
        {
            if self.sub_tables[i] < cap {
                assert(self.sub_tables@[i as int] < cap);
                return Some(i);
            }
            i = i + 1;
        }
        None
    }

    /// Places one record: in the first shard with room, or in a new trailing
    /// shard when every shard is full. Returns the shard's index and whether
    /// the shard is new.
    pub fn place_record(&mut self) -> (r: (usize, bool))
        requires
            old(self).wf(),
        ensures
            final(self).wf(),
            final(self).records_per_sub_table == old(self).records_per_sub_table,
            r.0 == first_free(old(self).sub_tables@, old(self).records_per_sub_table),
            r.0 <= old(self).sub_tables@.len(),
            r.1 <==> r.0 == old(self).sub_tables@.len(),
            final(self).sub_tables@ == placed_counts(
                old(self).sub_tables@,
                old(self).records_per_sub_table,
            ),
            forall|j: int| 0 <= j < r.0 ==> #[trigger] old(self).sub_tables@[j]
                >= old(self).records_per_sub_table,
            r.0 < old(self).sub_tables@.len() ==> old(self).sub_tables@[r.0 as int]
                < old(self).records_per_sub_table,
    {
        proof {
            lemma_first_free(self.sub_tables@, self.records_per_sub_table);
        }
        match self.first_available() {
            Some(i) => {
                let c = self.sub_tables[i];
                self.sub_tables.set(i, c + 1);
                (i, false)
            },
            None => {
                let n = self.sub_tables.len();
                self.sub_tables.push(1);
                (n, true)
            },
        }
    }
}

/// The count that a JSON number denotes, when it is a plain decimal numeral
/// that fits in a `usize`.
pub open spec fn count_of(j: Json) -> Option<nat> {
    match j {
        Json::Number(t) => if is_index_text(t@) {
            Some(index_value(t@))
        } else {
            None
        },
        _ => None,
    }
}

/// The JSON number of a count.
pub open spec fn count_json(j: Json, n: nat) -> bool {
    j matches Json::Number(t) && t@ == decimal(n)
}

/// A stored metadata record: a positive capacity and a list of counts, each
/// within it.
pub open spec fn metadata_members(e: Seq<(String, Json)>) -> bool {
    &&& lookup(e, "records_per_sub_table"@) matches Some(c) && count_of(c) matches Some(n) && n > 0
    &&& lookup(e, "sub_tables"@) matches Some(Json::Array(a)) && forall|i: int|
        0 <= i < a@.len() ==> ((#[trigger] count_of(a@[i])) matches Some(k) && k <= count_of(
            lookup(e, "records_per_sub_table"@).unwrap(),
        ).unwrap())
}

/// `j` is the stored form of `m`: an object of two members, the capacity and
/// the list of counts, each as a decimal number.
pub open spec fn metadata_json(j: Json, m: TableMetadata) -> bool {
    j matches Json::Object(e) && e@.len() == 2 && {
        &&& lookup(e@, "records_per_sub_table"@) matches Some(c) && count_json(
            c,
            m.records_per_sub_table as nat,
        )
        &&& lookup(e@, "sub_tables"@) matches Some(Json::Array(a)) && a@.len()
            == m.sub_tables@.len() && forall|i: int|
            0 <= i < a@.len() ==> count_json(#[trigger] a@[i], m.sub_tables@[i] as nat)
    }
}

/// Metadata survives storage: the stored form of well-formed metadata reads
/// back as a consistent record with the same capacity and the same counts.
pub proof fn lemma_metadata_round_trip(m: TableMetadata, j: Json)
    requires
        m.wf(),
        metadata_json(j, m),
    ensures
        j is Object,
        metadata_members(members(j)),
        count_of(lookup(members(j), "records_per_sub_table"@).unwrap()) == Some(
            m.records_per_sub_table as nat,
        ),
        items(lookup(members(j), "sub_tables"@).unwrap()).len() == m.sub_tables@.len(),
        forall|i: int|
            0 <= i < m.sub_tables@.len() ==> count_of(
                #[trigger] items(lookup(members(j), "sub_tables"@).unwrap())[i],
            ) == Some(m.sub_tables@[i] as nat),
{
    let e = members(j);
    lemma_decimal_digits(m.records_per_sub_table as nat);
    let a = items(lookup(e, "sub_tables"@).unwrap());
    assert forall|i: int| 0 <= i < a.len() implies count_of(#[trigger] a[i]) == Some(
        m.sub_tables@[i] as nat,
    ) by {
        lemma_decimal_digits(m.sub_tables@[i] as nat);
    }
}

impl TableMetadata {
    /// The stored form: `{"records_per_sub_table": N, "sub_tables": [counts]}`.
    pub fn to_json(&self) -> (r: Json)
        ensures
            metadata_json(r, *self),
    {
        let mut a: Vec<Json> = Vec::new();
        let mut i: usize = 0;
        while i < self.sub_tables.len()
            invariant
                i <= self.sub_tables@.len(),
                a@.len() == i,
                forall|j: int| 0 <= j < i ==> count_json(#[trigger] a@[j], self.sub_tables@[j] as nat),
            decreases self.sub_tables@.len() - i,
        {
            a.push(Json::Number(to_decimal(self.sub_tables[i])));
            i = i + 1;
        }
        let k1 = String::from_str("records_per_sub_table");
        let k2 = String::from_str("sub_tables");
        proof {
            reveal_strlit("records_per_sub_table");
            reveal_strlit("sub_tables");
            assert(k1@ != k2@) by {
                assert(k1@.len() != k2@.len());
            }
        }
        let mut e: Vec<(String, Json)> = Vec::new();
        e.push((k1, Json::Number(to_decimal(self.records_per_sub_table))));
        e.push((k2, Json::Array(a)));
        proof {
            assert(e@.drop_first()[0] == e@[1]);
            assert(lookup(e@, "records_per_sub_table"@) == Some(e@[0].1));
            assert(lookup(e@.drop_first(), "sub_tables"@) == Some(e@[1].1));
            assert(lookup(e@, "sub_tables"@) == Some(e@[1].1));
        }
        Json::Object(e)
    }

    /// Reads a stored metadata record; anything but a positive capacity and
    /// counts within it is inconsistent.
    #[verifier::loop_isolation(false)]
    pub fn from_json(value: &Json) -> (r: Result<TableMetadata, TableError>)
        ensures
            r is Ok <==> (value matches Json::Object(e) && metadata_members(e@)),
            r matches Err(err) ==> err == TableError::InconsistentMetadata,
            r matches Ok(m) ==> m.wf() && (value matches Json::Object(e) && {
                &&& count_of(lookup(e@, "records_per_sub_table"@).unwrap()) == Some(
                    m.records_per_sub_table as nat,
                )
                &&& lookup(e@, "sub_tables"@) matches Some(Json::Array(a)) && a@.len()
                    == m.sub_tables@.len() && forall|i: int|
                    0 <= i < a@.len() ==> count_of(#[trigger] a@[i]) == Some(
                        m.sub_tables@[i] as nat,
                    )
            }),
    {
        let e = match value {
            Json::Object(e) => e,
            _ => return Err(TableError::InconsistentMetadata),
        };
        let k1 = String::from_str("records_per_sub_table");
        let k2 = String::from_str("sub_tables");
        let cap = match find_key(e, &k1) {
            Some(i) => match count_in(&e[i].1) {
                Some(n) => n,
                None => return Err(TableError::InconsistentMetadata),
            },
            None => return Err(TableError::InconsistentMetadata),
        };
        if cap == 0 {
            return Err(TableError::InconsistentMetadata);
        }
        let a = match find_key(e, &k2) {
            Some(i) => match &e[i].1 {
                Json::Array(a) => a,
                _ => return Err(TableError::InconsistentMetadata),
            },
            None => return Err(TableError::InconsistentMetadata),
        };
        let mut counts: Vec<usize> = Vec::new();
        let mut i: usize = 0;
        while i < a.len()
            invariant
                i <= a@.len(),
                counts@.len() == i,
                forall|j: int| 0 <= j < i ==> count_of(#[trigger] a@[j]) == Some(counts@[j] as nat),
                forall|j: int| 0 <= j < i ==> #[trigger] counts@[j] <= cap,
            decreases a@.len() - i,
        {
            match count_in(&a[i]) {
                Some(n) => {
                    if n > cap {
                        return Err(TableError::InconsistentMetadata);
                    }
                    counts.push(n);
                },
                None => return Err(TableError::InconsistentMetadata),
            }
            i = i + 1;
        }
        Ok(TableMetadata { records_per_sub_table: cap, sub_tables: counts })
    }
}

/// The count that a JSON value denotes.
fn count_in(j: &Json) -> (r: Option<usize>)
    ensures
        r is Some <==> count_of(*j) is Some,
        r matches Some(n) ==> count_of(*j) == Some(n as nat),
{
    match j {
        Json::Number(t) => parse_decimal(t.as_str()),
        _ => None,
    }
}

/// The catalog: every table that exists, by name.
///
/// The tables are held in a list whose names are distinct (`wf`), rather than
/// in a map keyed by name: the catalog is small, is looked up by a linear
/// scan, and a list lets the uniqueness of names be stated and proved here.
#[derive(Debug)]
pub struct State {
    pub tables: Vec<Table>,
}

impl State {
    /// No two tables share a name.
    pub open spec fn wf(&self) -> bool {
        forall|i: int, j: int|
            0 <= i < j < self.tables@.len() ==> #[trigger] self.tables@[i].name@
                != #[trigger] self.tables@[j].name@
    }

    /// Whether a table named `name` exists.
    pub open spec fn has_table(&self, name: Seq<char>) -> bool {
        exists|i: int| 0 <= i < self.tables@.len() && #[trigger] self.tables@[i].name@ == name
    }

    /// A catalog that holds no table.
    pub fn new() -> (r: State)
        ensures
            r.wf(),
            forall|n: Seq<char>| !#[trigger] r.has_table(n),
    {
        State { tables: Vec::new() }
    }

    /// Position of the table named `name`, if it exists.
    fn position(&self, name: &String) -> (r: Option<usize>)
        ensures
            r is Some <==> self.has_table(name@),
            r matches Some(i) ==> i < self.tables@.len() && self.tables@[i as int].name@ == name@,
    {
        let mut i: usize = 0;
        while i < self.tables.len()
            invariant
                i <= self.tables@.len(),
                forall|j: int| 0 <= j < i ==> #[trigger] self.tables@[j].name@ != name@,
            decreases self.tables@.len() - i,
        {
            if self.tables[i].name == *name {
                return Some(i);
            }
            i = i + 1;
        }
        None
    }

    /// Whether a table named `name` exists.
    pub fn contains(&self, name: &String) -> (r: bool)
        ensures
            r == self.has_table(name@),
    {
        self.position(name).is_some()
    }

    /// The descriptor of the table named `name`, if it exists.
    pub fn get(&self, name: &String) -> (r: Option<&Table>)
        ensures
            r is Some <==> self.has_table(name@),
            r matches Some(t) ==> t.name@ == name@,
    {
        match self.position(name) {
            Some(i) => Some(&self.tables[i]),
            None => None,
        }
    }

    /// Adds a table whose name is not yet taken.
    pub fn register_table(&mut self, table: Table)
        requires
            old(self).wf(),
            !old(self).has_table(table.name@),
        ensures
            final(self).wf(),
            final(self).tables@ == old(self).tables@.push(table),
            forall|n: Seq<char>| #[trigger] final(self).has_table(n) <==> (old(self).has_table(n) || n
                == table.name@),
    {
        let ghost name = table.name@;
        let ghost before = self.tables@;
        self.tables.push(table);
        proof {
            assert(self.tables@[before.len() as int].name@ == name);
            assert forall|n: Seq<char>| #[trigger] self.has_table(n) <==> (old(self).has_table(n) || n
                == name) by {
                if old(self).has_table(n) {
                    let i = choose|i: int| 0 <= i < before.len() && #[trigger] before[i].name@ == n;
                    assert(self.tables@[i] == before[i]);
                }
                if self.has_table(n) {
                    let i = choose|i: int| 0 <= i < self.tables@.len() && #[trigger] self.tables@[i].name@ == n;
                    if i < before.len() {
                        assert(self.tables@[i] == before[i]);
                    }
                }
            }
        }
    }
}

/// The name of a stored table descriptor.
pub open spec fn name_of(j: Json) -> Seq<char> {
    lookup_str(members(j), "name"@).unwrap()
}

/// A stored catalog: a list of table descriptors.
pub open spec fn catalog_shape(j: Json) -> bool {
    &&& j is Array
    &&& forall|i: int| 0 <= i < items(j).len() ==> table_shape(#[trigger] items(j)[i])
}

impl State {
    /// Adds a table, in place of the one of the same name if there is one.
    fn put_table(&mut self, table: Table)
        requires
            old(self).wf(),
        ensures
            final(self).wf(),
            forall|n: Seq<char>| #[trigger] final(self).has_table(n) <==> (old(self).has_table(n) || n
                == table.name@),
    {
        match self.position(&table.name) {
            Some(i) => {
                let ghost before = self.tables@;
                let ghost name = table.name@;
                self.tables.set(i, table);
                proof {
                    assert forall|a: int, b: int|
                        0 <= a < b < self.tables@.len() implies #[trigger] self.tables@[a].name@
                        != #[trigger] self.tables@[b].name@ by {
                        if a == i {
                            assert(before[a].name@ == name);
                        } else if b == i {
                            assert(before[b].name@ == name);
                        }
                    }
                    assert forall|n: Seq<char>| #[trigger] self.has_table(n) <==> (old(self).has_table(n)
                        || n == name) by {
                        if old(self).has_table(n) {
                            let j = choose|j: int| 0 <= j < before.len() && #[trigger] before[j].name@ == n;
                            if j == i {
                                assert(self.tables@[j].name@ == n);
                            } else {
                                assert(self.tables@[j] == before[j]);
                            }
                        }
                        if n == name {
                            assert(self.tables@[i as int].name@ == n);
                        }
                        if self.has_table(n) {
                            let j = choose|j: int| 0 <= j < self.tables@.len() && #[trigger] self.tables@[j].name@ == n;
                            if j != i {
                                assert(self.tables@[j] == before[j]);
                            }
                        }
                    }
                }
            },
            None => self.register_table(table),
        }
    }

    /// The catalog that a stored list of table descriptors records. A
    /// descriptor that does not read is a failed read; where a name comes
    /// more than once, the later descriptor is kept.
    #[verifier::loop_isolation(false)]
    pub fn from_json(value: Json) -> (r: Result<State, TableError>)
        ensures
            r is Ok <==> catalog_shape(value),
            r matches Err(err) ==> err == TableError::FailedDiskRead,
            r matches Ok(s) ==> s.wf() && forall|n: Seq<char>| #[trigger] s.has_table(n) <==> exists|i: int|
                0 <= i < items(value).len() && name_of(#[trigger] items(value)[i]) == n,
    {
        let mut list = match value {
            Json::Array(a) => a,
            _ => return Err(TableError::FailedDiskRead),
        };
        let ghost all = list@;
        let mut state = State::new();
        while list.len() > 0
            invariant
                all.len() >= list@.len(),
                list@ =~= all.subrange(all.len() - list@.len(), all.len() as int),
                state.wf(),
                forall|j: int| 0 <= j < all.len() - list@.len() ==> table_shape(#[trigger] all[j]),
                forall|n: Seq<char>| #[trigger] state.has_table(n) <==> exists|i: int|
                    0 <= i < all.len() - list@.len() && name_of(#[trigger] all[i]) == n,
            decreases list@.len(),
        {
            let ghost k = all.len() - list@.len();
            let item = list.remove(0);
            assert(item == all[k]);
            let table = match Table::from_json(item) {
                Ok(t) => t,
                Err(e) => {
                    assert(items(value) == all);
                    assert(!table_shape(items(value)[k]));
                    return Err(e);
                },
            };
            assert(table.name@ == name_of(all[k]));
            let ghost nm = table.name@;
            let ghost before = state;
            state.put_table(table);
            proof {
                assert forall|n: Seq<char>| #[trigger] state.has_table(n) <==> exists|i: int|
                    0 <= i < k + 1 && name_of(#[trigger] all[i]) == n by {
                    if n == nm {
                        assert(name_of(all[k]) == n);
                    }
                    if exists|i: int| 0 <= i < k + 1 && name_of(#[trigger] all[i]) == n {
                        let i = choose|i: int| 0 <= i < k + 1 && name_of(#[trigger] all[i]) == n;
                        if i < k {
                            assert(exists|i2: int| 0 <= i2 < k && name_of(#[trigger] all[i2]) == n);
                            assert(before.has_table(n));
                        }
                    }
                }
            }
        }
        assert(all.len() - list@.len() == all.len());
        assert(items(value) == all);
        assert forall|n: Seq<char>| #[trigger] state.has_table(n) <==> exists|i: int|
            0 <= i < items(value).len() && name_of(#[trigger] items(value)[i]) == n by {
            if state.has_table(n) {
                let i = choose|i: int| 0 <= i < all.len() && name_of(#[trigger] all[i]) == n;
                assert(name_of(items(value)[i]) == n);
            }
            if exists|i: int| 0 <= i < items(value).len() && name_of(#[trigger] items(value)[i]) == n {
                let i = choose|i: int| 0 <= i < items(value).len() && name_of(#[trigger] items(value)[i]) == n;
                assert(name_of(all[i]) == n);
            }
        }
        Ok(state)
    }
}

} // verus!
