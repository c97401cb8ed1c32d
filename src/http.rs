use vstd::prelude::*;
use crate::link::Link;
use crate::store::StoreError;

verus! {

/// The status code of a permanent redirect ("Moved Permanently").
pub const MOVED_PERMANENTLY: u16 = 301;

/// The status code of a request for a record that is not there.
pub const NOT_FOUND: u16 = 404;

/// The status code of a request that failed in the table.
pub const INTERNAL_SERVER_ERROR: u16 = 500;

/// A redirect reply: its status code and the target of its `Location`
/// header.
pub struct Redirect {
    pub status: u16,
    pub location: String,
}

/// The permanent redirect to `url`, which is taken as it stands: it is
/// neither checked nor normalised.
pub fn permanent_redirect(url: &String) -> (r: Redirect)
    ensures
        r.status == MOVED_PERMANENTLY,
        r.location@ == url@,
{
    Redirect { status: MOVED_PERMANENTLY, location: url.clone() }
}

/// The last step of a resolution, which read `read` and then tried to add
/// to its counter with outcome `incremented`: the permanent redirect to the
/// destination that was read, or the increment's error.
pub fn finish_resolve(read: &Link, incremented: Result<(), StoreError>) -> (r: Result<
    Redirect,
    StoreError,
>)
    ensures
        r is Ok <==> incremented is Ok,
        match r {
            Ok(d) => d.status == MOVED_PERMANENTLY && d.location@ == read.link@,
            Err(e) => incremented == Err::<(), StoreError>(e),
        },
{
    match incremented {
        Ok(()) => Ok(permanent_redirect(&read.link)),
        Err(e) => Err(e),
    }
}

/// The status code of the reply to a request that failed with `e`: a
/// missing record is told apart as "Not Found", every other failure is an
/// internal error.
pub fn failure_status(e: StoreError) -> (r: u16)
    ensures
        r == (if e == StoreError::NotFound { NOT_FOUND } else { INTERNAL_SERVER_ERROR }),
{
    match e {
        StoreError::NotFound => NOT_FOUND,
        _ => INTERNAL_SERVER_ERROR,
    }
}

} // verus!
