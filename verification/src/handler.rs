//! Request-boundary decisions.
//!
//! A request handler extracts an ISBN and/or a body from an inbound request,
//! calls one data-access operation, and maps the result to a status code and
//! body. The decisions are all here, over plain values: requiring the ISBN
//! path parameter (a request without one is answered 400 and never reaches
//! the data-access layer), and mapping each operation's result to its reply.
//! The transport itself stays outside this crate.

use crate::access::DataAccess;
use crate::json::render_model;
use crate::model::create_model;
use crate::model::delete_model;
use crate::model::get_model;
use crate::model::listed_payloads;
use crate::model::records_listing;
use crate::outcome::DataError;
use vstd::prelude::*;

verus! {

/// A transport-level reply: a status code and a body.
pub struct HttpResponse {
    pub status: u16,
    pub body: String,
}

/// Requires the ISBN path parameter. A request that carries one passes it
/// through; one without is rejected at the boundary with status 400, before
/// any data-access operation is invoked.
pub fn require_isbn(isbn: Option<String>) -> (r: Result<String, HttpResponse>)
    ensures
        isbn matches Some(s) ==> (r matches Ok(t) && t@ == s@),
        isbn is None ==> (r matches Err(resp) && resp.status == 400 && resp.body@
            == "isbn is required"@),
{
    match isbn {
        Some(s) => Ok(s),
        None => Err(
            HttpResponse { status: 400, body: String::from_str("isbn is required") },
        ),
    }
}

/// The reply to a create: 201 on success, 500 on failure.
pub fn create_response(r: Result<(), DataError>) -> (resp: HttpResponse)
    ensures
        r is Ok ==> resp.status == 201 && resp.body@ == "item saved"@,
        r is Err ==> resp.status == 500 && resp.body@ == "internal error"@,
{
    match r {
        Ok(_) => HttpResponse { status: 201, body: String::from_str("item saved") },
        Err(_) => HttpResponse { status: 500, body: String::from_str("internal error") },
    }
}

/// The reply to a get: 200 with the stored payload unchanged, or 500.
pub fn get_response(r: Result<String, DataError>) -> (resp: HttpResponse)
    ensures
        r matches Ok(p) ==> resp.status == 200 && resp.body@ == p@,
        r is Err ==> resp.status == 500 && resp.body@ == "internal error"@,
{
    match r {
        Ok(p) => HttpResponse { status: 200, body: p },
        Err(_) => HttpResponse { status: 500, body: String::from_str("internal error") },
    }
}

/// The reply to a list: 200 with the JSON array string, or 500.
pub fn list_response(r: Result<String, DataError>) -> (resp: HttpResponse)
    ensures
        r matches Ok(s) ==> resp.status == 200 && resp.body@ == s@,
        r is Err ==> resp.status == 500 && resp.body@ == "internal error"@,
{
    match r {
        Ok(s) => HttpResponse { status: 200, body: s },
        Err(_) => HttpResponse { status: 500, body: String::from_str("internal error") },
    }
}

/// The reply to a delete: 204 on success, 500 on failure.
pub fn delete_response(r: Result<(), DataError>) -> (resp: HttpResponse)
    ensures
        r is Ok ==> resp.status == 204 && resp.body@ == "item deleted"@,
        r is Err ==> resp.status == 500 && resp.body@ == "internal error"@,
{
    match r {
        Ok(_) => HttpResponse { status: 204, body: String::from_str("item deleted") },
        Err(_) => HttpResponse { status: 500, body: String::from_str("internal error") },
    }
}

/// The create handler's decisions: without an ISBN the request is answered
/// 400 and the backend is left untouched; with one, the record is written
/// and the reply is 201, or the failure surfaces as 500 with the records
/// unchanged.
pub fn handle_create<T: DataAccess>(store: &mut T, isbn: Option<String>, body: String) -> (resp:
    HttpResponse)
    requires
        old(store).wf(),
    ensures
        final(store).wf(),
        isbn is None ==> resp.status == 400 && resp.body@ == "isbn is required"@ && *final(store)
            == *old(store),
        isbn matches Some(s) ==> {
            ||| resp.status == 201 && resp.body@ == "item saved"@ && final(store).records()
                == create_model(old(store).records(), s@, body@)
            ||| resp.status == 500 && resp.body@ == "internal error"@ && final(store).records()
                == old(store).records()
        },
{
    match require_isbn(isbn) {
        Ok(key) => {
            let r = store.create(key, body);
            create_response(r)
        },
        Err(resp) => resp,
    }
}

/// The get handler's decisions: 400 without an ISBN, otherwise the stored
/// payload under status 200, or 500 when the lookup failed or found nothing.
pub fn handle_get<T: DataAccess>(store: &mut T, isbn: Option<String>) -> (resp: HttpResponse)
    requires
        old(store).wf(),
    ensures
        final(store).wf(),
        final(store).records() == old(store).records(),
        isbn is None ==> resp.status == 400 && resp.body@ == "isbn is required"@ && *final(store)
            == *old(store),
        isbn matches Some(s) ==> {
            ||| resp.status == 200 && get_model(old(store).records(), s@) == Some(resp.body@)
            ||| resp.status == 500 && resp.body@ == "internal error"@
        },
{
    match require_isbn(isbn) {
        Ok(key) => {
            let r = store.get(key);
            get_response(r)
        },
        Err(resp) => resp,
    }
}

/// The list handler's decisions: it needs no input; the rendered array comes
/// back under status 200, or a scan failure surfaces as 500.
pub fn handle_list<T: DataAccess>(store: &mut T) -> (resp: HttpResponse)
    requires
        old(store).wf(),
    ensures
        final(store).wf(),
        final(store).records() == old(store).records(),
        ({
            ||| resp.status == 200 && exists|es: Seq<(Seq<char>, Seq<char>)>|
                #[trigger] records_listing(old(store).records(), es) && resp.body@ == render_model(
                    listed_payloads(es),
                )
            ||| resp.status == 500 && resp.body@ == "internal error"@
        }),
{
    let r = store.list();
    list_response(r)
}

/// The delete handler's decisions: 400 without an ISBN; otherwise the record
/// is removed (idempotently) under status 204, or the failure surfaces as
/// 500 with the records unchanged.
pub fn handle_delete<T: DataAccess>(store: &mut T, isbn: Option<String>) -> (resp: HttpResponse)
    requires
        old(store).wf(),
    ensures
        final(store).wf(),
        isbn is None ==> resp.status == 400 && resp.body@ == "isbn is required"@ && *final(store)
            == *old(store),
        isbn matches Some(s) ==> {
            ||| resp.status == 204 && resp.body@ == "item deleted"@ && final(store).records()
                == delete_model(old(store).records(), s@)
            ||| resp.status == 500 && resp.body@ == "internal error"@ && final(store).records()
                == old(store).records()
        },
{
    match require_isbn(isbn) {
        Ok(key) => {
            let r = store.delete(key);
            delete_response(r)
        },
        Err(resp) => resp,
    }
}

} // verus!
