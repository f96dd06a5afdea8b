//! Requests: the command, the table it names, and the data it carries.
use vstd::prelude::*;
use crate::json::{Json, lookup, find_key};
use crate::tcp::TCPError;

verus! {

/// The operations a request can ask for.
#[derive(Debug, PartialEq, Eq, Clone, Copy)]
pub enum Command {
    Insert,
    Read,
    Update,
    Delete,
    CreateTable,
    DropTable,
}

/// The command that the text `s` names on the wire.
pub open spec fn command_named(s: Seq<char>) -> Option<Command> {
    if s == "insert"@ {
        Some(Command::Insert)
    } else if s == "read"@ {
        Some(Command::Read)
    } else if s == "update"@ {
        Some(Command::Update)
    } else if s == "delete"@ {
        Some(Command::Delete)
    } else if s == "create_table"@ {
        Some(Command::CreateTable)
    } else if s == "drop_table"@ {
        Some(Command::DropTable)
    } else {
        None
    }
}

/// The command that a JSON value names, if it names one.
pub open spec fn command_of(v: Json) -> Option<Command> {
    match v {
        Json::Str(s) => command_named(s@),
        _ => None,
    }
}

/// Whether `s` holds the text `lit`.
pub fn text_is(s: &String, lit: &str) -> (r: bool)
    ensures
        r == (s@ == lit@),
{
    *s == String::from_str(lit)
}

impl Command {
    /// The command that a JSON value names.
    pub fn from_value(value: &Json) -> (r: Result<Self, TCPError>)
        ensures
            command_of(*value) matches Some(c) ==> r == Ok::<Command, TCPError>(c),
            value is Str && command_of(*value) is None ==> (r matches Err(TCPError::ParseFrame(m))
                && m@ == "Command was not a valid value"@),
            !(value is Str) ==> (r matches Err(TCPError::ParseFrame(m)) && m@
                == "Command was not a string"@),
    {
        match value {
            Json::Str(s) => {
                if text_is(s, "insert") {
                    Ok(Command::Insert)
                } else if text_is(s, "read") {
                    Ok(Command::Read)
                } else if text_is(s, "update") {
                    Ok(Command::Update)
                } else if text_is(s, "delete") {
                    Ok(Command::Delete)
                } else if text_is(s, "create_table") {
                    Ok(Command::CreateTable)
                } else if text_is(s, "drop_table") {
                    Ok(Command::DropTable)
                } else {
                    Err(TCPError::ParseFrame(String::from_str("Command was not a valid value")))
                }
            },
            _ => Err(TCPError::ParseFrame(String::from_str("Command was not a string"))),
        }
    }
}

/// A request as it arrives: which operation, on which table, with what data.
#[derive(Debug)]
pub struct Frame {
    pub command: Command,
    pub table: String,
    pub data: Vec<(String, Json)>,
}

/// The members of a well-shaped request: exactly `command` (a known
/// command name), `table` (a string) and `data` (an object).
pub open spec fn request_members(e: Seq<(String, Json)>) -> bool {
    &&& e.len() == 3
    &&& lookup(e, "command"@) matches Some(c) && command_of(c) is Some
    &&& lookup(e, "table"@) matches Some(Json::Str(_))
    &&& lookup(e, "data"@) matches Some(Json::Object(_))
}

pub open spec fn is_request(value: Json) -> bool {
    value matches Json::Object(e) && request_members(e@)
}

impl Frame {
    /// The request that a JSON value states, or `ParseFrame` with the reason
    /// it is not one.
    pub fn from_json(value: Json) -> (r: Result<Self, TCPError>)
        ensures
            is_request(value) <==> r is Ok,
            r matches Err(e) ==> e is ParseFrame,
            r matches Ok(f) ==> value matches Json::Object(e) && {
                &&& lookup(e@, "command"@) matches Some(c) && command_of(c) == Some(f.command)
                &&& lookup(e@, "table"@) matches Some(Json::Str(t)) && f.table@ == t@
                &&& lookup(e@, "data"@) == Some(Json::Object(f.data))
            },
    {
        match value {
            Json::Object(mut e) => {
                let ck = String::from_str("command");
                let tk = String::from_str("table");
                let dk = String::from_str("data");
                let ci = match find_key(&e, &ck) {
                    Some(i) => i,
                    None => {
                        return Err(
                            TCPError::ParseFrame(String::from_str("Frame did not have a 'command' key")),
                        )
                    },
                };
                let command = match Command::from_value(&e[ci].1) {
                    Ok(c) => c,
                    Err(err) => return Err(err),
                };
                let ti = match find_key(&e, &tk) {
                    Some(i) => i,
                    None => {
                        return Err(
                            TCPError::ParseFrame(String::from_str("Frame did not have a 'table' key")),
                        )
                    },
                };
                let table = match &e[ti].1 {
                    Json::Str(t) => t.clone(),
                    _ => {
                        return Err(
                            TCPError::ParseFrame(String::from_str("Frame 'table' key was not a string")),
                        )
                    },
                };
                let di = match find_key(&e, &dk) {
                    Some(i) => i,
                    None => {
                        return Err(
                            TCPError::ParseFrame(String::from_str("Frame did not have a 'data' key")),
                        )
                    },
                };
                if e.len() != 3 {
                    return Err(
                        TCPError::ParseFrame(String::from_str("Frame had members besides 'command', 'table' and 'data'")),
                    );
                }
                let member = e.remove(di);
                match member.1 {
                    Json::Object(data) => Ok(Frame { command, table, data }),
                    _ => Err(
                        TCPError::ParseFrame(String::from_str("Frame 'data' key was not an object")),
                    ),
                }
            },
            _ => Err(TCPError::ParseFrame(String::from_str("Frame's top level was not a dict object"))),
        }
    }
}

} // verus!
