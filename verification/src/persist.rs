//! Persistence of the visit database: the compact binary encoding under
//! which it is stored, and the round trip through it.
use vstd::prelude::*;

use crate::JumpError;
use crate::db::Database;
use crate::db::count_of;
use crate::db::entry_views;
use crate::db::map_of;
use crate::db::nonneg_counts;
use crate::db::record_visit_step;

verus! {

/// The binary encoding of an entry sequence.
pub uninterp spec fn db_encoding(entries: Seq<(Seq<char>, i32)>) -> Seq<u8>;

/// Relies on `bincode::serialize`: the bytes are a function of the entry
/// sequence alone, and serializing a vector of string/integer pairs into a
/// growable in-memory buffer, with no size limit set, does not fail.
#[verifier::external_body]
fn bincode_encode(db: &Database) -> (r: Vec<u8>)
    ensures
        r@ == db_encoding(db.entries_seq()),
{
    bincode::serialize(&db.entries).unwrap()
}

/// Relies on `bincode::deserialize`: it inverts `bincode::serialize`, so on
/// the exact encoding of an entry sequence it returns that sequence.
#[verifier::external_body]
fn bincode_decode(bytes: &Vec<u8>) -> (r: Option<Vec<(String, i32)>>)
    ensures
        forall|s: Seq<(Seq<char>, i32)>|
            bytes@ == db_encoding(s) ==> r is Some && entry_views((r->Some_0)@) == s,
{
    bincode::deserialize(bytes.as_slice()).ok()
}

/// Encodes the whole database as the bytes under which it is persisted.
pub fn save_database(db: &Database) -> (r: Vec<u8>)
    ensures
        r@ == db_encoding(db.entries_seq()),
{
    bincode_encode(db)
}

/// Decodes persisted bytes into a database.
///
/// On the encoding of any entry sequence without negative counters it
/// succeeds with exactly the mapping that sequence denotes; bytes that do
/// not decode, or decode to a negative counter, are corrupt.
pub fn load_database(bytes: &Vec<u8>) -> (r: Result<Database, JumpError>)
    ensures
        r is Ok ==> (r->Ok_0).wf(),
        r is Err ==> r->Err_0 == JumpError::CorruptDatabase,
        forall|s: Seq<(Seq<char>, i32)>|
            bytes@ == db_encoding(s) && nonneg_counts(s) ==> r is Ok && (r->Ok_0)@ == map_of(s),
{
    match bincode_decode(bytes) {
        Option::Some(entries) => {
            match Database::from_entries(&entries) {
                Result::Ok(d) => Ok(d),
                Result::Err(e) => Err(e),
            }
        },
        Option::None => Err(JumpError::CorruptDatabase),
    }
}

/// Records a visit to `dir` and hands back the bytes under which the
/// updated database is persisted.
pub fn ch_dir(dir: &str, db: &mut Database) -> (r: Vec<u8>)
    requires
        old(db).wf(),
        count_of(old(db)@, dir@) < i32::MAX as int,
    ensures
        final(db).wf(),
        final(db)@ == record_visit_step(old(db)@, dir@),
        r@ == db_encoding(final(db).entries_seq()),
{
    db.record_visit(dir);
    save_database(db)
}

/// Round trip: loading what `save_database` produced yields a database with
/// an equal mapping, for any well-formed database, the empty one included.
pub fn save_then_load(db: &Database) -> (r: Result<Database, JumpError>)
    requires
        db.wf(),
    ensures
        r is Ok,
        (r->Ok_0).wf(),
        (r->Ok_0)@ == db@,
{
    let bytes = save_database(db);
    load_database(&bytes)
}

/// Resetting, then saving, then loading yields an empty database.
pub fn reset_save_load(db: &mut Database) -> (r: Result<Database, JumpError>)
    requires
        old(db).wf(),
    ensures
        final(db).wf(),
        final(db)@ == Map::<Seq<char>, int>::empty(),
        r is Ok,
        (r->Ok_0)@ == Map::<Seq<char>, int>::empty(),
{
    db.reset();
    save_then_load(db)
}

} // verus!
