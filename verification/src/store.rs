//! The persisted key-value store backing the ledger, as sled provides it.

use vstd::prelude::*;
use crate::errors::Error;

verus! {

#[verifier::external_type_specification]
#[verifier::external_body]
pub struct ExDb(sled::Db);

/// What the store holds: the map from keys to values that sled's tree
/// answers lookups from.
pub uninterp spec fn store_view(db: sled::Db) -> Map<Seq<u8>, Seq<u8>>;

/// Relies on sled::Tree::insert: on success the tree maps the key to the
/// value and every other key is untouched. On failure nothing is claimed
/// about the tree.
#[verifier::external_body]
pub(crate) fn store_put(db: &mut sled::Db, key: &[u8], value: &[u8]) -> (r: Result<(), Error>)
    ensures
        (match r {
            Ok(_) => store_view(*final(db)) == store_view(*old(db)).insert(key@, value@),
            Err(e) => e == Error::Storage,
        }),
{
    match db.insert(key, value) {
        Ok(_) => Ok(()),
        Err(_) => Err(Error::Storage),
    }
}

/// Relies on sled::Tree::get: on success, answers exactly what the tree
/// maps the key to, or nothing when the key is absent.
#[verifier::external_body]
pub(crate) fn store_get(db: &sled::Db, key: &[u8]) -> (r: Result<Option<Vec<u8>>, Error>)
    ensures
        (match r {
            Ok(Some(v)) => store_view(*db).contains_key(key@) && v@ == store_view(*db)[key@],
            Ok(None) => !store_view(*db).contains_key(key@),
            Err(e) => e == Error::Storage,
        }),
{
    match db.get(key) {
        Ok(Some(v)) => Ok(Some(v.to_vec())),
        Ok(None) => Ok(None),
        Err(_) => Err(Error::Storage),
    }
}

/// Relies on sled::Tree::flush: pushes buffered writes to durable storage
/// and leaves the tree's contents as they are.
#[verifier::external_body]
pub(crate) fn store_flush(db: &sled::Db) -> (r: Result<(), Error>)
    ensures
        (match r {
            Ok(_) => true,
            Err(e) => e == Error::Storage,
        }),
{
    match db.flush() {
        Ok(_) => Ok(()),
        Err(_) => Err(Error::Storage),
    }
}

} // verus!
