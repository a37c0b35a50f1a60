//! Edit submission: validation, truncation and the enriched record handed
//! to the upstream ingestion sink.

use vstd::prelude::*;
use crate::limits::RateLimitSet;

verus! {

/// Ids must lie below this bound; the bound itself is rejected.
pub const EDIT_ID_LIMIT: i64 = 1_040_000_000;

/// A submitted value is kept only up to this many characters.
pub const RAW_VALUE_CHAR_LIMIT: usize = 64;

/// A client address is kept only up to this many characters.
pub const IP_CHAR_LIMIT: usize = 45;

/// An incoming edit, as the client submits it.
#[derive(Debug)]
pub struct UpdateRequest {
    pub id: i64,
    pub raw_value: String,
    pub background: i32,
}

/// The enriched record forwarded to the upstream ingestion sink.
#[derive(Debug)]
pub struct UpdatePayload {
    pub id: i64,
    pub raw_value: String,
    pub background: i32,
    pub ip: String,
    pub ts: String,
}

/// Why a submission was refused.
#[derive(Debug, Clone, Copy, PartialEq, Eq, Structural)]
pub enum EditError {
    /// The client's address is over the rate limit.
    RateLimited,
    /// The id lies outside the address space.
    InvalidId,
}

/// The first `n` characters of `s`, or all of it if it is no longer.
pub open spec fn clipped(s: Seq<char>, n: int) -> Seq<char> {
    if s.len() <= n { s } else { s.take(n) }
}

/// Truncates to the first `n` characters.
pub fn take_chars(s: &str, n: usize) -> (r: String)
    ensures
        r@ == clipped(s@, n as int),
{
    let len = s.unicode_len();
    if len <= n {
        s.to_owned()
    } else {
        s.substring_char(0, n).to_owned()
    }
}

/// Relies on `chrono::Utc::now` and its formatter for the submission
/// timestamp: the current UTC time in the fixed layout
/// `%Y-%m-%d %H:%M:%S%.3f`, millisecond precision.
#[verifier::external_body]
fn now_utc_string() -> String {
    chrono::Utc::now().format("%Y-%m-%d %H:%M:%S%.3f").to_string()
}

/// Decides one edit submission.
///
/// The client address is clipped first; a clipped address in the
/// rate-limit set is refused, then an id outside `[0, EDIT_ID_LIMIT)` is
/// refused; every other submission is accepted, its value truncated to
/// `RAW_VALUE_CHAR_LIMIT` characters and stamped with the current UTC
/// time.
pub fn handle_edit(limits: &RateLimitSet, client_ip: &str, req: UpdateRequest) -> (r: Result<
    UpdatePayload,
    EditError,
>)
    ensures
        ({
            let ip = clipped(client_ip@, IP_CHAR_LIMIT as int);
            if limits.spec_contains(ip) {
                r == Err::<UpdatePayload, EditError>(EditError::RateLimited)
            } else if !(0 <= req.id < EDIT_ID_LIMIT) {
                r == Err::<UpdatePayload, EditError>(EditError::InvalidId)
            } else {
                r matches Ok(p)
                    && p.id == req.id
                    && p.raw_value@ == clipped(req.raw_value@, RAW_VALUE_CHAR_LIMIT as int)
                    && p.background == req.background
                    && p.ip@ == ip
            }
        }),
{
    let ip = take_chars(client_ip, IP_CHAR_LIMIT);
    if limits.contains(ip.as_str()) {
        return Err(EditError::RateLimited);
    }
    if !(0 <= req.id && req.id < EDIT_ID_LIMIT) {
        return Err(EditError::InvalidId);
    }
    let raw_value = take_chars(req.raw_value.as_str(), RAW_VALUE_CHAR_LIMIT);
    Ok(UpdatePayload {
        id: req.id,
        raw_value,
        background: req.background,
        ip,
        ts: now_utc_string(),
    })
}

/// The response body for an accepted submission.
pub fn success_body() -> (r: String)
    ensures
        r@ == "{\"success\":true}"@,
{
    String::from_str("{\"success\":true}")
}

/// The response body for a refused submission.
pub fn error_body(e: EditError) -> (r: String)
    ensures
        e == EditError::RateLimited ==> r@ == "{\"error\":\"API limit exceeded\"}"@,
        e == EditError::InvalidId ==> r@ == "{\"error\":\"Invalid cell ID\"}"@,
{
    match e {
        EditError::RateLimited => String::from_str("{\"error\":\"API limit exceeded\"}"),
        EditError::InvalidId => String::from_str("{\"error\":\"Invalid cell ID\"}"),
    }
}

} // verus!
