//! A small document store: length-prefixed wire frames carrying JSON commands,
//! tables sharded into fixed-capacity segments, and records addressed by
//! `"{shard}.{uuid}"` identifiers.
use vstd::prelude::*;

pub mod dispatch;
pub mod file_reader;
pub mod frame;
pub mod json;
pub mod rows;
pub mod tables;
pub mod tcp;
pub mod text;

verus! {

} // verus!
