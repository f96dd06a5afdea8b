use etchdb::dispatch::{
    create_table_response, frame_error_response, insert_response, not_implemented_response,
    read_response,
};
use etchdb::frame::{Command, Frame};
use etchdb::json::Json;
use etchdb::rows::{insert_data, read_data_by_id, read_target, RowError};
use etchdb::tables::{State, Table, TableError, TableMetadata};
use etchdb::tcp::TCPError;

fn s(t: &str) -> String {
    t.to_string()
}

fn member<'a>(j: &'a Json, key: &str) -> &'a Json {
    match j {
        Json::Object(e) => &e.iter().find(|(k, _)| k == key).unwrap().1,
        _ => panic!("not an object"),
    }
}

fn code(j: &Json) -> String {
    match member(j, "code") {
        Json::Number(n) => n.clone(),
        _ => panic!("code is not a number"),
    }
}

#[test]
fn end_to_end_users() {
    let mut st = State::new();
    let create = Frame { command: Command::CreateTable, table: s("users"), data: vec![] };
    let t = Table::create_table(&st, &create);
    let created = t.map(|t| st.register_table(t));
    let r = create_table_response(created);
    assert_eq!(code(&r), "201");
    assert_eq!(member(&r, "data"), &Json::Object(vec![]));

    let m = TableMetadata::new_table();
    assert_eq!(m.records_per_sub_table, 1000);
    let plan = insert_data(&st, "users", vec![(s("name"), Json::Str(s("Ada")))], m).unwrap();
    let id = plan.id.clone();
    let r = insert_response(Ok(id.clone()));
    assert_eq!(code(&r), "201");
    assert!(id.starts_with("0."));
    assert_eq!(member(member(&r, "data"), "id"), &Json::Str(id.clone()));

    let query = vec![(s("_id"), Json::Str(id.clone()))];
    let target = read_target(&st, "users", &query).unwrap();
    let shard = Json::Array(vec![Json::Object(plan.record)]);
    let r = read_response(read_data_by_id(&target, shard));
    assert_eq!(code(&r), "200");
    assert_eq!(
        member(&r, "data"),
        &Json::Object(vec![(s("name"), Json::Str(s("Ada"))), (s("_id"), Json::Str(id))])
    );
}

#[test]
fn error_statuses() {
    assert_eq!(code(&insert_response(Err(RowError::TableDoesntExist))), "404");
    assert_eq!(code(&read_response(Err(RowError::FailedToFindRecord))), "404");
    assert_eq!(code(&read_response(Err(RowError::MalformedID))), "400");
    assert_eq!(code(&read_response(Err(RowError::CorruptShard))), "500");
    assert_eq!(code(&create_table_response(Err(TableError::TableAlreadyExists))), "409");
    assert_eq!(code(&create_table_response(Err(TableError::FailedDiskWrite))), "500");
    let r = insert_response(Err(RowError::TableDoesntExist));
    assert_eq!(
        member(member(&r, "data"), "msg"),
        &Json::Str(s("Tried to operate on a table that does not exist"))
    );
}

fn msg(r: &Json) -> &Json {
    member(member(r, "data"), "msg")
}

#[test]
fn distinct_causes_distinct_bodies() {
    let a = read_response(Err(RowError::TableDoesntExist));
    let b = read_response(Err(RowError::FailedToFindRecord));
    assert_eq!(code(&a), code(&b));
    assert_ne!(msg(&a), msg(&b));
    assert_eq!(msg(&b), &Json::Str(RowError::FailedToFindRecord.message()));
}

#[test]
fn unimplemented_commands() {
    for c in [Command::Update, Command::Delete, Command::DropTable] {
        let r = not_implemented_response(c);
        assert_eq!(code(&r), "501");
        assert!(matches!(member(member(&r, "data"), "msg"), Json::Str(_)));
    }
}

#[test]
fn bad_frame_response() {
    let r = frame_error_response(&TCPError::MalformedPacket);
    assert_eq!(code(&r), "400");
}
