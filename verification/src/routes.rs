//! What the HTTP handlers answer, given what the database and the scanner
//! reported.

use vstd::prelude::*;
use crate::api::{ApiResponse, is_success, is_refusal};
use crate::media::{EncodeJob, EncodeRequest, MediaFile};
use crate::jobs::{start_job, is_accepted_job, no_id_message, no_clock_message};
use crate::ids::rfc3339_text;

verus! {

/// `DB error: ` followed by the database's message.
pub open spec fn spec_db_error(e: Seq<char>) -> Seq<char> {
    "DB error: "@ + e
}

/// The message for a failed database call.
pub fn db_error(e: &str) -> (r: String)
    ensures
        r@ == spec_db_error(e@),
{
    let mut m = "DB error: ".to_string();
    m.append(e);
    m
}

/// Answer of the health check: success with `ok`.
pub fn health() -> (r: ApiResponse<String>)
    ensures
        r.success,
        r.data matches Some(d) && d@ == "ok"@,
        r.error.is_none(),
{
    ApiResponse::ok("ok".to_string())
}

/// Answer to a listing: the rows, or the database error.
pub fn list_response<T>(r: Result<Vec<T>, String>) -> (resp: ApiResponse<Vec<T>>)
    ensures
        match r {
            Ok(items) => is_success(resp, items),
            Err(e) => is_refusal(resp, spec_db_error(e@)),
        },
{
    match r {
        Ok(items) => ApiResponse::ok(items),
        Err(e) => ApiResponse::err(db_error(e.as_str())),
    }
}

/// Answer to a lookup by identifier: the record, `missing` when there is
/// none, or the database error.
pub fn lookup_response<T>(r: Result<Option<T>, String>, missing: &str) -> (resp: ApiResponse<T>)
    ensures
        match r {
            Ok(Some(item)) => is_success(resp, item),
            Ok(None) => is_refusal(resp, missing@),
            Err(e) => is_refusal(resp, spec_db_error(e@)),
        },
{
    match r {
        Ok(Some(item)) => ApiResponse::ok(item),
        Ok(None) => ApiResponse::err(missing.to_string()),
        Err(e) => ApiResponse::err(db_error(e.as_str())),
    }
}

/// Answer to a file deletion: `true` when a row went, `File not found` when
/// none did, or the database error.
pub fn delete_response(r: Result<bool, String>) -> (resp: ApiResponse<bool>)
    ensures
        match r {
            Ok(true) => is_success(resp, true),
            Ok(false) => is_refusal(resp, "File not found"@),
            Err(e) => is_refusal(resp, spec_db_error(e@)),
        },
{
    match r {
        Ok(true) => ApiResponse::ok(true),
        Ok(false) => ApiResponse::err("File not found".to_string()),
        Err(e) => ApiResponse::err(db_error(e.as_str())),
    }
}

/// The file of a successful probe.
pub open spec fn ok_value(x: Result<MediaFile, String>) -> Option<MediaFile> {
    match x {
        Ok(m) => Some(m),
        Err(_) => None,
    }
}

/// The files of a scan that could be probed, in scan order; the others are
/// skipped.
pub fn probed_files(results: Vec<Result<MediaFile, String>>) -> (r: Vec<MediaFile>)
    ensures
        r@ == results@.filter_map(|x: Result<MediaFile, String>| ok_value(x)),
{
    let ghost f = |x: Result<MediaFile, String>| ok_value(x);
    let ghost all = results@;
    let mut rest = results;
    let mut out: Vec<MediaFile> = Vec::new();
    let n = rest.len();
    let mut i: usize = 0;
    while i < n
        invariant
            n == all.len(),
            i <= n,
            rest@ == all.skip(i as int),
            f == (|x: Result<MediaFile, String>| ok_value(x)),
            out@ == all.take(i as int).filter_map(f),
        decreases n - i,
    {
        let x = rest.remove(0);
        assert(x == all[i as int]);
        assert(rest@ =~= all.skip(i + 1));
        proof {
            all.lemma_filter_map_take_succ(f, i as int);
        }
        match x {
            Ok(m) => {
                assert(f(all[i as int]) == Some(m));
                out.push(m);
            },
            Err(e) => {
                assert(f(all[i as int]) == None::<MediaFile>);
            },
        }
        assert(out@ =~= all.take(i + 1).filter_map(f));
        i = i + 1;
    }
    assert(all.take(n as int) =~= all);
    out
}

/// Answer to a scan request whose directory check failed or whose listing
/// failed; `None` when the scan goes on.
pub fn scan_refusal(is_dir: bool, listing_error: Option<String>) -> (r: Option<ApiResponse<Vec<MediaFile>>>)
    ensures
        !is_dir ==> (r matches Some(resp) && is_refusal(resp, "Path is not a valid directory"@)),
        is_dir ==> match listing_error {
            Some(e) => r matches Some(resp) && is_refusal(resp, e@),
            None => r.is_none(),
        },
{
    if !is_dir {
        return Some(ApiResponse::err("Path is not a valid directory".to_string()));
    }
    match listing_error {
        Some(e) => Some(ApiResponse::err(e)),
        None => None,
    }
}

/// Accepts an encode request given the lookup of its source file: the source
/// and the new job, or the answer refusing it (`Source file not found`, the
/// database error, or the message of a missing identifier or clock).
pub fn begin_encode(lookup: Result<Option<MediaFile>, String>, req: &EncodeRequest)
    -> (r: Result<(MediaFile, EncodeJob), ApiResponse<EncodeJob>>)
    ensures
        match lookup {
            Ok(Some(f)) => match r {
                Ok((src, job)) => src == f && is_accepted_job(job, f, *req)
                    && exists|secs: i64, nanos: u32| rfc3339_text(secs, nanos) == Some(job.created_at@),
                Err(resp) => is_refusal(resp, no_id_message()) || is_refusal(resp, no_clock_message()),
            },
            Ok(None) => r matches Err(resp) && is_refusal(resp, "Source file not found"@),
            Err(e) => r matches Err(resp) && is_refusal(resp, spec_db_error(e@)),
        },
{
    match lookup {
        Ok(Some(f)) => match start_job(&f, req) {
            Ok(job) => Ok((f, job)),
            Err(m) => Err(ApiResponse::err(m)),
        },
        Ok(None) => Err(ApiResponse::err("Source file not found".to_string())),
        Err(e) => Err(ApiResponse::err(db_error(e.as_str()))),
    }
}

} // verus!
