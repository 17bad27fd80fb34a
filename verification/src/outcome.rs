//! Translation of raw store outcomes into data-access results.
//!
//! Every store call ends in a plain outcome: success with a value, or a
//! [`StoreError`]. The data-access layer collapses each outcome into its own
//! binary result, success or an opaque [`DataError`] that carries no cause.

use crate::json::opt_views;
use crate::json::render_model;
use crate::json::render_payloads;
use vstd::prelude::*;

verus! {

/// A failure reported by the record store. Opaque: the layer does not
/// distinguish why the store failed.
#[derive(Clone, Copy, Debug, PartialEq, Eq, Structural)]
pub struct StoreError;

/// The data-access layer's own failure value. Opaque by design: callers can
/// branch only on the presence of an error, never on its kind.
#[derive(Clone, Copy, Debug, PartialEq, Eq, Structural)]
pub struct DataError;

/// Collapses the outcome of a store write: success passes through, any store
/// failure becomes the opaque `DataError`.
pub fn put_outcome(r: Result<(), StoreError>) -> (d: Result<(), DataError>)
    ensures
        d == (match r {
            Ok(u) => Ok::<(), DataError>(()),
            Err(e) => Err::<(), DataError>(DataError),
        }),
{
    match r {
        Ok(_) => Ok(()),
        Err(_) => Err(DataError),
    }
}

/// Collapses the outcome of a store point lookup. Absence of a record is
/// folded into the same opaque failure as a store error: only a lookup that
/// found a payload succeeds, and it returns that payload unchanged.
pub fn get_outcome(r: Result<Option<String>, StoreError>) -> (d: Result<String, DataError>)
    ensures
        d == (match r {
            Ok(Some(p)) => Ok::<String, DataError>(p),
            Ok(None) => Err::<String, DataError>(DataError),
            Err(e) => Err::<String, DataError>(DataError),
        }),
{
    match r {
        Ok(Some(p)) => Ok(p),
        Ok(None) => Err(DataError),
        Err(_) => Err(DataError),
    }
}

/// Collapses the outcome of a full scan: a failed scan is the only failure;
/// a successful one renders the scanned payloads as a JSON array string,
/// dropping malformed entries silently, so an empty or fully filtered scan
/// still succeeds.
pub fn scan_outcome(r: Result<Vec<Option<String>>, StoreError>) -> (d: Result<String, DataError>)
    ensures
        r matches Ok(ps) ==> d matches Ok(s) && s@ == render_model(opt_views(ps@)),
        r is Err ==> d == Err::<String, DataError>(DataError),
{
    match r {
        Ok(ps) => Ok(render_payloads(&ps)),
        Err(_) => Err(DataError),
    }
}

/// Collapses the outcome of a store removal: like a write, success passes
/// through whether or not the key existed, so removal is idempotent.
pub fn delete_outcome(r: Result<(), StoreError>) -> (d: Result<(), DataError>)
    ensures
        d == (match r {
            Ok(u) => Ok::<(), DataError>(()),
            Err(e) => Err::<(), DataError>(DataError),
        }),
{
    match r {
        Ok(_) => Ok(()),
        Err(_) => Err(DataError),
    }
}

} // verus!
