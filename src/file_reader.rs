//! The persisted layout: where each file of the store lives, what a new file
//! holds, and how a record is appended to a stored list. Reading and writing
//! the files is left to the caller.
use vstd::prelude::*;
use crate::tables::TableError;
use crate::text::{decimal, to_decimal};

verus! {

/// A file to be written whole: its path and its bytes.
#[derive(Debug)]
pub struct FileWrite {
    pub path: String,
    pub contents: Vec<u8>,
}

/// The bytes of an empty JSON list, `[]`.
pub open spec fn empty_list() -> Seq<u8> {
    seq![91u8, 93u8]
}

fn empty_list_bytes() -> (r: Vec<u8>)
    ensures
        r@ == empty_list(),
{
    let mut v: Vec<u8> = Vec::new();
    v.push(91);
    v.push(93);
    assert(v@ =~= empty_list());
    v
}

/// `root/table_name`: the directory of a table.
pub open spec fn table_dir(root: Seq<char>, table_name: Seq<char>) -> Seq<char> {
    root + "/"@ + table_name
}

/// The path of the catalog file under the storage root.
pub fn get_table_file_path(root: &str) -> (r: String)
    ensures
        r@ == root@ + "/tables.etch"@,
{
    let mut p = String::from_str(root);
    p.append("/tables.etch");
    p
}

/// The directory of a table under the storage root.
pub fn get_table_dir_path(root: &str, table_name: &str) -> (r: String)
    ensures
        r@ == table_dir(root@, table_name@),
{
    let mut p = String::from_str(root);
    p.append("/");
    p.append(table_name);
    p
}

/// The path of a table's shard metadata file.
pub fn get_metadata_path(root: &str, table_name: &str) -> (r: String)
    ensures
        r@ == table_dir(root@, table_name@) + "/metadata.etch"@,
{
    let mut p = get_table_dir_path(root, table_name);
    p.append("/metadata.etch");
    p
}

/// The path of shard `num` of a table.
pub fn get_sub_table_path(root: &str, table_name: &str, num: usize) -> (r: String)
    ensures
        r@ == table_dir(root@, table_name@) + "/sub_table_"@ + decimal(num as nat) + ".etch"@,
{
    let mut p = get_table_dir_path(root, table_name);
    p.append("/sub_table_");
    let n = to_decimal(num);
    p.append(n.as_str());
    p.append(".etch");
    p
}

/// The catalog file of a new store: an empty list of tables.
pub fn create_table_file(root: &str) -> (r: FileWrite)
    ensures
        r.path@ == root@ + "/tables.etch"@,
        r.contents@ == empty_list(),
{
    FileWrite { path: get_table_file_path(root), contents: empty_list_bytes() }
}

/// The file of a new, empty shard `num` of a table.
pub fn create_table_sub_table(root: &str, table_name: &str, num: usize) -> (r: FileWrite)
    ensures
        r.path@ == table_dir(root@, table_name@) + "/sub_table_"@ + decimal(num as nat) + ".etch"@,
        r.contents@ == empty_list(),
{
    FileWrite { path: get_sub_table_path(root, table_name, num), contents: empty_list_bytes() }
}

/// A stored JSON list with one more item: the closing `]` gives way to the
/// item (after `, ` unless the list was the empty `[]`) and a new `]`.
pub open spec fn appended(old: Seq<u8>, item: Seq<u8>) -> Seq<u8> {
    let head = old.take(old.len() - 1);
    if old.len() == 2 {
        head + item + seq![93u8]
    } else {
        head + seq![44u8, 32u8] + item + seq![93u8]
    }
}

/// Appends the serialized `item` to the stored list `old`, keeping every
/// earlier byte. A stored list shorter than `[]` or not ending in `]` is a
/// failed read.
pub fn append_to_list(old: &[u8], item: &[u8]) -> (r: Result<Vec<u8>, TableError>)
    ensures
        old@.len() >= 2 && old@.last() == 93u8 ==> r == Ok::<Vec<u8>, TableError>(r->Ok_0) && r->Ok_0@
            == appended(old@, item@),
        !(old@.len() >= 2 && old@.last() == 93u8) ==> r == Err::<Vec<u8>, TableError>(
            TableError::FailedDiskRead,
        ),
{
    let n = old.len();
    if n < 2 || old[n - 1] != 93 {
        return Err(TableError::FailedDiskRead);
    }
    let mut out: Vec<u8> = Vec::new();
    let mut i: usize = 0;
    while i < n - 1
        invariant
            n == old@.len(),
            n >= 2,
            i <= n - 1,
            out@ =~= old@.take(i as int),
        decreases n - 1 - i,
    {
        out.push(old[i]);
        i = i + 1;
    }
    if n != 2 {
        out.push(44);
        out.push(32);
    }
    let ghost mid = out@;
    let m = item.len();
    let mut j: usize = 0;
    while j < m
        invariant
            m == item@.len(),
            j <= m,
            out@ =~= mid + item@.take(j as int),
        decreases m - j,
    {
        out.push(item[j]);
        j = j + 1;
    }
    out.push(93);
    proof {
        assert(item@.take(m as int) =~= item@);
        if n == 2 {
            assert(out@ =~= appended(old@, item@));
        } else {
            assert(out@ =~= appended(old@, item@));
        }
    }
    Ok(out)
}

} // verus!
