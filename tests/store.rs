use etchdb::file_reader::{
    append_to_list, create_table_file, create_table_sub_table, get_metadata_path,
    get_sub_table_path, get_table_file_path,
};
use etchdb::frame::{Command, Frame};
use etchdb::json::Json;
use etchdb::rows::{insert_data, plan_insert, read_data_by_id, read_target, make_id, RowError};
use etchdb::tables::{State, Table, TableError, TableMetadata};

fn s(t: &str) -> String {
    t.to_string()
}

fn frame(table: &str) -> Frame {
    Frame { command: Command::CreateTable, table: s(table), data: vec![] }
}

fn state_with(table: &str) -> State {
    let mut st = State::new();
    let t = Table::create_table(&st, &frame(table)).unwrap();
    st.register_table(t);
    st
}

fn meta(cap: usize, counts: Vec<usize>) -> TableMetadata {
    TableMetadata { records_per_sub_table: cap, sub_tables: counts }
}

fn record_with_id(id: &str) -> Json {
    Json::Object(vec![(s("_id"), Json::Str(s(id))), (s("k"), Json::Number(s("1")))])
}

fn id_of(fields: &[(String, Json)]) -> Option<String> {
    fields.iter().find(|(k, _)| k == "_id").and_then(|(_, v)| match v {
        Json::Str(t) => Some(t.clone()),
        _ => None,
    })
}

#[test]
fn create_table_registers_name() {
    let st = state_with("orders");
    assert!(st.contains(&s("orders")));
    assert!(!st.contains(&s("users")));
    assert_eq!(st.get(&s("orders")).unwrap().name, "orders");
}

#[test]
fn duplicate_table_fails() {
    let st = state_with("orders");
    let r = Table::create_table(&st, &frame("orders"));
    assert!(matches!(r, Err(TableError::TableAlreadyExists)));
    assert_eq!(st.tables.len(), 1);
    assert_eq!(st.tables[0].name, "orders");
}

#[test]
fn new_table_metadata() {
    let m = TableMetadata::new_table();
    assert_eq!(m, meta(1000, vec![0]));
}

#[test]
fn placement_takes_first_shard_with_room() {
    let mut m = meta(2, vec![2, 1, 0]);
    assert_eq!(m.first_available(), Some(1));
    assert_eq!(m.place_record(), (1, false));
    assert_eq!(m.sub_tables, vec![2, 2, 0]);
    assert_eq!(m.place_record(), (2, false));
    assert_eq!(m.place_record(), (2, false));
    assert_eq!(m.place_record(), (3, true));
    assert_eq!(m.sub_tables, vec![2, 2, 2, 1]);
}

#[test]
fn shard_rollover_prefixes() {
    let st = state_with("t");
    let mut m = meta(2, vec![0]);
    let mut prefixes = vec![];
    for _ in 0..3 {
        let p = plan_insert(&st, "t", vec![], m, "tag").unwrap();
        prefixes.push(p.id.split('.').next().unwrap().to_string());
        m = p.metadata;
    }
    assert_eq!(prefixes, vec!["0", "0", "1"]);
    assert_eq!(m.sub_tables, vec![2, 1]);
}

#[test]
fn insert_plan_injects_id() {
    let st = state_with("users");
    let data = vec![(s("name"), Json::Str(s("Ada"))), (s("_id"), Json::Str(s("forged")))];
    let p = plan_insert(&st, "users", data, TableMetadata::new_table(), "abc").unwrap();
    assert_eq!(p.id, "0.abc");
    assert_eq!(p.sub_table_index, 0);
    assert!(!p.new_sub_table);
    assert_eq!(p.metadata.sub_tables, vec![1]);
    assert_eq!(
        p.record,
        vec![(s("name"), Json::Str(s("Ada"))), (s("_id"), Json::Str(s("0.abc")))]
    );
}

#[test]
fn insert_into_unknown_table_fails() {
    let st = State::new();
    let r = insert_data(&st, "ghost", vec![], TableMetadata::new_table());
    assert!(matches!(r, Err(RowError::TableDoesntExist)));
}

#[test]
fn insert_with_inconsistent_metadata_fails() {
    let st = state_with("t");
    let r = insert_data(&st, "t", vec![], meta(2, vec![3]));
    assert!(matches!(r, Err(RowError::InconsistentMetadata)));
    let r = insert_data(&st, "t", vec![], meta(0, vec![]));
    assert!(matches!(r, Err(RowError::InconsistentMetadata)));
}

#[test]
fn insert_data_uses_fresh_uuid() {
    let st = state_with("t");
    let a = insert_data(&st, "t", vec![], TableMetadata::new_table()).unwrap();
    let b = insert_data(&st, "t", vec![], TableMetadata::new_table()).unwrap();
    assert_eq!(a.id.len(), 2 + 36);
    assert!(a.id.starts_with("0."));
    let tail = &a.id[2..];
    assert_eq!(tail.matches('-').count(), 4);
    for i in [8, 13, 18, 23] {
        assert_eq!(tail.as_bytes()[i], b'-');
    }
    assert_eq!(tail.as_bytes()[14], b'4');
    assert!(b"89ab".contains(&tail.as_bytes()[19]));
    assert!(tail.chars().all(|c| c == '-' || c.is_ascii_digit() || ('a'..='f').contains(&c)));
    assert_ne!(a.id, b.id);
    assert_eq!(id_of(&a.record), Some(a.id.clone()));
}

#[test]
fn make_id_joins_shard_and_tag() {
    assert_eq!(make_id(12, "x-y"), "12.x-y");
}

#[test]
fn read_round_trip() {
    let st = state_with("users");
    let data = vec![(s("name"), Json::Str(s("Ada")))];
    let p = plan_insert(&st, "users", data, TableMetadata::new_table(), "u1").unwrap();
    let query = vec![(s("_id"), Json::Str(p.id.clone()))];
    let target = read_target(&st, "users", &query).unwrap();
    assert_eq!(target.sub_table_index, p.sub_table_index);
    let shard = Json::Array(vec![record_with_id("0.other"), Json::Object(p.record)]);
    let found = read_data_by_id(&target, shard).unwrap();
    assert_eq!(
        found,
        Json::Object(vec![(s("name"), Json::Str(s("Ada"))), (s("_id"), Json::Str(s("0.u1")))])
    );
}

#[test]
fn read_malformed_identifier_fails() {
    let st = state_with("t");
    let query = vec![(s("_id"), Json::Str(s("not-a-number.xyz")))];
    assert!(matches!(read_target(&st, "t", &query), Err(RowError::MalformedID)));
    let query = vec![(s("_id"), Json::Str(s(".xyz")))];
    assert!(matches!(read_target(&st, "t", &query), Err(RowError::MalformedID)));
}

#[test]
fn read_target_accepts_plus_sign() {
    let st = state_with("t");
    let query = vec![(s("_id"), Json::Str(s("+3.abc")))];
    assert_eq!(read_target(&st, "t", &query).unwrap().sub_table_index, 3);
    let query = vec![(s("_id"), Json::Str(s("+.abc")))];
    assert!(matches!(read_target(&st, "t", &query), Err(RowError::MalformedID)));
}

#[test]
fn read_target_parses_shard() {
    let st = state_with("t");
    let query = vec![(s("_id"), Json::Str(s("17.abc.def")))];
    let t = read_target(&st, "t", &query).unwrap();
    assert_eq!(t.sub_table_index, 17);
    assert_eq!(t.id, "17.abc.def");
    let query = vec![(s("_id"), Json::Str(s("5")))];
    assert_eq!(read_target(&st, "t", &query).unwrap().sub_table_index, 5);
}

#[test]
fn read_missing_key_fails() {
    let st = state_with("t");
    let query = vec![(s("id"), Json::Str(s("0.a")))];
    match read_target(&st, "t", &query) {
        Err(RowError::ReadMissingKey(k, t)) => {
            assert_eq!(k, "_id");
            assert_eq!(t, "string");
        }
        other => panic!("unexpected {:?}", other),
    }
    let query = vec![(s("_id"), Json::Number(s("3")))];
    assert!(matches!(read_target(&st, "t", &query), Err(RowError::ReadMissingKey(_, _))));
}

#[test]
fn read_unknown_table_fails() {
    let st = State::new();
    let query = vec![(s("_id"), Json::Str(s("0.a")))];
    assert!(matches!(read_target(&st, "ghost", &query), Err(RowError::TableDoesntExist)));
}

#[test]
fn read_absent_record_fails() {
    let st = state_with("t");
    let query = vec![(s("_id"), Json::Str(s("0.zzz")))];
    let target = read_target(&st, "t", &query).unwrap();
    let shard = Json::Array(vec![record_with_id("0.a"), record_with_id("0.b")]);
    assert_eq!(read_data_by_id(&target, shard), Err(RowError::FailedToFindRecord));
    assert_eq!(read_data_by_id(&target, Json::Array(vec![])), Err(RowError::FailedToFindRecord));
}

#[test]
fn read_corrupt_shard_fails() {
    let st = state_with("t");
    let query = vec![(s("_id"), Json::Str(s("0.b")))];
    let target = read_target(&st, "t", &query).unwrap();
    let shard = Json::Array(vec![Json::Null, record_with_id("0.b")]);
    assert_eq!(read_data_by_id(&target, shard), Err(RowError::CorruptShard));
    let shard = Json::Array(vec![Json::Object(vec![(s("_id"), Json::Bool(true))])]);
    assert_eq!(read_data_by_id(&target, shard), Err(RowError::CorruptShard));
    assert_eq!(read_data_by_id(&target, Json::Null), Err(RowError::CorruptShard));
}

#[test]
fn read_stops_at_first_match() {
    let st = state_with("t");
    let query = vec![(s("_id"), Json::Str(s("0.b")))];
    let target = read_target(&st, "t", &query).unwrap();
    let shard = Json::Array(vec![record_with_id("0.a"), record_with_id("0.b"), Json::Null]);
    assert_eq!(read_data_by_id(&target, shard), Ok(record_with_id("0.b")));
}

#[test]
fn capacity_counts_follow_inserts() {
    let st = state_with("t");
    let mut m = meta(3, vec![0]);
    let mut shards: Vec<Vec<Json>> = vec![vec![]];
    for i in 0..8 {
        let p = plan_insert(&st, "t", vec![], m, &format!("r{}", i)).unwrap();
        if p.new_sub_table {
            shards.push(vec![]);
        }
        shards[p.sub_table_index].push(Json::Object(p.record));
        m = p.metadata;
    }
    let lens: Vec<usize> = shards.iter().map(|v| v.len()).collect();
    assert_eq!(lens, m.sub_tables);
    assert!(m.sub_tables.iter().all(|c| *c <= 3));
    assert_eq!(m.sub_tables, vec![3, 3, 2]);
}

#[test]
fn metadata_json_round_trip() {
    let m = meta(1000, vec![1000, 7]);
    let j = m.to_json();
    assert_eq!(
        j,
        Json::Object(vec![
            (s("records_per_sub_table"), Json::Number(s("1000"))),
            (s("sub_tables"), Json::Array(vec![Json::Number(s("1000")), Json::Number(s("7"))])),
        ])
    );
    assert_eq!(TableMetadata::from_json(&j), Ok(meta(1000, vec![1000, 7])));
}

#[test]
fn metadata_json_inconsistent() {
    let over = Json::Object(vec![
        (s("records_per_sub_table"), Json::Number(s("2"))),
        (s("sub_tables"), Json::Array(vec![Json::Number(s("3"))])),
    ]);
    assert_eq!(TableMetadata::from_json(&over), Err(TableError::InconsistentMetadata));
    let frac = Json::Object(vec![
        (s("records_per_sub_table"), Json::Number(s("2.5"))),
        (s("sub_tables"), Json::Array(vec![])),
    ]);
    assert_eq!(TableMetadata::from_json(&frac), Err(TableError::InconsistentMetadata));
    assert_eq!(TableMetadata::from_json(&Json::Null), Err(TableError::InconsistentMetadata));
}

#[test]
fn table_json_round_trip() {
    let st = State::new();
    let t = Table::create_table(&st, &frame("users")).unwrap();
    let j = t.to_json();
    assert_eq!(
        j,
        Json::Object(vec![
            (s("name"), Json::Str(s("users"))),
            (s("fields"), Json::Array(vec![])),
            (s("constraints"), Json::Array(vec![])),
        ])
    );
    let back = Table::from_json(j).unwrap();
    assert_eq!(back.name, "users");
    assert!(back.fields.is_empty() && back.constraints.is_empty());
}

#[test]
fn catalog_from_json() {
    let desc = |n: &str| {
        Json::Object(vec![
            (s("name"), Json::Str(s(n))),
            (s("fields"), Json::Array(vec![Json::Object(vec![
                (s("name"), Json::Str(s("age"))),
                (s("field_type"), Json::Str(s("int"))),
            ])])),
            (s("constraints"), Json::Array(vec![])),
        ])
    };
    let st = State::from_json(Json::Array(vec![desc("a"), desc("b")])).unwrap();
    assert!(st.contains(&s("a")) && st.contains(&s("b")) && !st.contains(&s("c")));
    assert_eq!(st.get(&s("a")).unwrap().fields[0].name, "age");
    assert_eq!(st.get(&s("a")).unwrap().fields[0].field_type, Json::Str(s("int")));
    let dup = State::from_json(Json::Array(vec![desc("a"), desc("b"), desc("a")])).unwrap();
    assert_eq!(dup.tables.len(), 2);
    assert!(dup.contains(&s("a")) && dup.contains(&s("b")));
    let bad = State::from_json(Json::Array(vec![Json::Null]));
    assert!(matches!(bad, Err(TableError::FailedDiskRead)));
    assert!(State::from_json(Json::Array(vec![])).unwrap().tables.is_empty());
}

#[test]
fn file_paths() {
    assert_eq!(get_table_file_path("/db"), "/db/tables.etch");
    assert_eq!(get_metadata_path("/db", "users"), "/db/users/metadata.etch");
    assert_eq!(get_sub_table_path("/db", "users", 12), "/db/users/sub_table_12.etch");
    let f = create_table_file("/db");
    assert_eq!(f.path, "/db/tables.etch");
    assert_eq!(f.contents, b"[]".to_vec());
    let f = create_table_sub_table("/db", "users", 0);
    assert_eq!(f.path, "/db/users/sub_table_0.etch");
    assert_eq!(f.contents, b"[]".to_vec());
}

#[test]
fn append_to_stored_list() {
    let once = append_to_list(b"[]", b"{\"a\":1}").unwrap();
    assert_eq!(once, b"[{\"a\":1}]".to_vec());
    let twice = append_to_list(&once, b"2").unwrap();
    assert_eq!(twice, b"[{\"a\":1}, 2]".to_vec());
    assert_eq!(append_to_list(b"[", b"1"), Err(TableError::FailedDiskRead));
    assert_eq!(append_to_list(b"[1,", b"1"), Err(TableError::FailedDiskRead));
}

#[test]
fn error_messages() {
    assert_eq!(RowError::MalformedID.message(), "Provided ID was not valid");
    assert_eq!(
        RowError::ReadMissingKey(s("_id"), s("string")).message(),
        "Attempted to read record while missing '_id' string field"
    );
    assert_eq!(TableError::FailedCreateDir.message(), "Failed to create a directory for table");
    assert_eq!(
        TableError::TableAlreadyExists.message(),
        "Tried to create a table which already exists"
    );
}
