//! Responses: each outcome of a request becomes `{"code": status, "data": body}`.
use vstd::prelude::*;
use crate::frame::Command;
use crate::json::{Json, lookup, lookup_str};
use crate::rows::{RowError, row_error_text};
use crate::tables::{TableError, count_json, members, table_error_text};
use crate::tcp::{TCPError, tcp_error_text};
use crate::text::to_decimal;

verus! {

/// `r` is the response with status `code` and body `data`.
pub open spec fn responds(r: Json, code: nat, data: Json) -> bool {
    &&& r is Object
    &&& lookup(members(r), "code"@) matches Some(c) && count_json(c, code)
    &&& lookup(members(r), "data"@) == Some(data)
}

/// `data` is an error body: an object whose `msg` is a description.
pub open spec fn error_body(data: Json) -> bool {
    data is Object && lookup_str(members(data), "msg"@) is Some
}

/// The status of a failed insert or read.
pub open spec fn row_error_code(e: RowError) -> nat {
    match e {
        RowError::TableDoesntExist => 404,
        RowError::FailedToFindRecord => 404,
        RowError::MalformedID => 400,
        RowError::ReadMissingKey(_, _) => 400,
        _ => 500,
    }
}

/// The status of a failed table creation.
pub open spec fn table_error_code(e: TableError) -> nat {
    match e {
        TableError::TableAlreadyExists => 409,
        _ => 500,
    }
}

/// The response with status `code` and body `data`.
pub fn respond_with(code: usize, data: Json) -> (r: Json)
    ensures
        responds(r, code as nat, data),
{
    let ck = String::from_str("code");
    let dk = String::from_str("data");
    proof {
        reveal_strlit("code");
        reveal_strlit("data");
        assert(ck@[0] != dk@[0]);
    }
    let mut e: Vec<(String, Json)> = Vec::new();
    e.push((ck, Json::Number(to_decimal(code))));
    e.push((dk, data));
    proof {
        assert(e@.drop_first()[0] == e@[1]);
        assert(lookup(e@.drop_first(), "data"@) == Some(e@[1].1));
    }
    Json::Object(e)
}

/// The body `{"msg": msg}`.
fn message_body(msg: String) -> (r: Json)
    ensures
        error_body(r),
        lookup_str(members(r), "msg"@) == Some(msg@),
{
    let mut e: Vec<(String, Json)> = Vec::new();
    e.push((String::from_str("msg"), Json::Str(msg)));
    Json::Object(e)
}

/// The response to an insert: 201 with `{"id": id}`, or the error's status
/// with its description.
pub fn insert_response(result: Result<String, RowError>) -> (r: Json)
    ensures
        result matches Ok(id) ==> (exists|d: Json| responds(r, 201, d) && lookup_str(members(d), "id"@)
            == Some(id@)),
        result matches Err(e) ==> (exists|d: Json| responds(r, row_error_code(e), d) && error_body(d)
            && lookup_str(members(d), "msg"@) == Some(row_error_text(e))),
{
    match result {
        Ok(id) => {
            let mut e: Vec<(String, Json)> = Vec::new();
            e.push((String::from_str("id"), Json::Str(id)));
            let d = Json::Object(e);
            let ghost dd = d;
            let r = respond_with(201, d);
            assert(responds(r, 201, dd));
            r
        },
        Err(err) => {
            let code: usize = match err {
                RowError::TableDoesntExist => 404,
                RowError::FailedToFindRecord => 404,
                RowError::MalformedID => 400,
                RowError::ReadMissingKey(_, _) => 400,
                _ => 500,
            };
            let d = message_body(err.message());
            let ghost dd = d;
            let r = respond_with(code, d);
            assert(responds(r, row_error_code(err), dd));
            r
        },
    }
}

/// The response to a read: 200 with the record, or the error's status with
/// its description.
pub fn read_response(result: Result<Json, RowError>) -> (r: Json)
    ensures
        result matches Ok(record) ==> responds(r, 200, record),
        result matches Err(e) ==> (exists|d: Json| responds(r, row_error_code(e), d) && error_body(d)
            && lookup_str(members(d), "msg"@) == Some(row_error_text(e))),
{
    match result {
        Ok(record) => respond_with(200, record),
        Err(err) => {
            let code: usize = match err {
                RowError::TableDoesntExist => 404,
                RowError::FailedToFindRecord => 404,
                RowError::MalformedID => 400,
                RowError::ReadMissingKey(_, _) => 400,
                _ => 500,
            };
            let d = message_body(err.message());
            let ghost dd = d;
            let r = respond_with(code, d);
            assert(responds(r, row_error_code(err), dd));
            r
        },
    }
}

/// The response to a table creation: 201 with an empty body, or the error's
/// status with its description.
pub fn create_table_response(result: Result<(), TableError>) -> (r: Json)
    ensures
        result is Ok ==> (exists|d: Json| responds(r, 201, d) && d is Object && members(d).len() == 0),
        result matches Err(e) ==> (exists|d: Json| responds(r, table_error_code(e), d) && error_body(d)
            && lookup_str(members(d), "msg"@) == Some(table_error_text(e))),
{
    match result {
        Ok(()) => {
            let d = Json::Object(Vec::new());
            let ghost dd = d;
            let r = respond_with(201, d);
            assert(responds(r, 201, dd));
            r
        },
        Err(err) => {
            let code: usize = match err {
                TableError::TableAlreadyExists => 409,
                _ => 500,
            };
            let d = message_body(err.message());
            let ghost dd = d;
            let r = respond_with(code, d);
            assert(responds(r, table_error_code(err), dd));
            r
        },
    }
}

/// The response to a command this store does not carry out: 501.
pub fn not_implemented_response(command: Command) -> (r: Json)
    ensures
        exists|d: Json| responds(r, 501, d) && error_body(d),
{
    let msg = match command {
        Command::Update => String::from_str("The update command is not implemented"),
        Command::Delete => String::from_str("The delete command is not implemented"),
        Command::DropTable => String::from_str("The drop_table command is not implemented"),
        _ => String::from_str("The command is not implemented"),
    };
    let d = message_body(msg);
    let ghost dd = d;
    let r = respond_with(501, d);
    assert(responds(r, 501, dd));
    r
}

/// The response to a request that could not be read: 400.
pub fn frame_error_response(error: &TCPError) -> (r: Json)
    ensures
        exists|d: Json| responds(r, 400, d) && error_body(d) && lookup_str(members(d), "msg"@) == Some(
            tcp_error_text(*error),
        ),
{
    let d = message_body(error.message());
    let ghost dd = d;
    let r = respond_with(400, d);
    assert(responds(r, 400, dd));
    r
}

} // verus!
