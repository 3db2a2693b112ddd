//! The fetch state machine: the single fetch slot, the rule that decides
//! when a region fetch may be (re)issued, and the settlement of a finished
//! fetch into the next slot status.

use vstd::prelude::*;

use crate::components::PixelRectangle;
use crate::components::PixelRectRequestStatus;
use crate::grains::PixelGrainDto;
use crate::wire::parse_batch;
use crate::wire::parse_batch_exec;
use crate::wire::parse_pixel_response;
use crate::wire::parse_pixel_response_exec;
use crate::wire::region_query;
use crate::wire::region_query_spec;
use crate::wire::views_of;

verus! {

/// Decides whether a fetch for `region` may be issued while the slot holds
/// `status`:
/// - while a fetch is outstanding, never (no double fetch, whatever the
///   region);
/// - after a failure, always (immediate retry on the next tick);
/// - after a success, exactly when the region differs from the one the last
///   success covered.
pub fn should_fetch(status: &PixelRectRequestStatus, region: &PixelRectangle) -> (r: bool)
    ensures
        status is InProgress ==> !r,
        status is Failed ==> r,
        forall|last: PixelRectangle| *status == PixelRectRequestStatus::Success(last) ==> (r
            <==> last != *region),
{
    match status {
        PixelRectRequestStatus::InProgress => false,
        PixelRectRequestStatus::Failed => true,
        PixelRectRequestStatus::Success(last) => !(*last == *region),
    }
}

/// One scheduler tick of the fetch slot. If `should_fetch` allows a fetch of
/// `region`, the slot moves to `InProgress` — synchronously, before any
/// request is put on the wire, so a second tick can never observe a stale
/// non-`InProgress` slot — and the caller is told to issue the request.
/// Otherwise the slot is left exactly as it was.
pub fn schedule_fetch(status: &mut PixelRectRequestStatus, region: &PixelRectangle) -> (issue:
    bool)
    ensures
        *old(status) is InProgress ==> !issue && *final(status) == *old(status),
        *old(status) is Failed ==> issue,
        forall|last: PixelRectangle| *old(status) == PixelRectRequestStatus::Success(last) ==> (
        issue <==> last != *region),
        issue ==> *final(status) == PixelRectRequestStatus::InProgress,
        !issue ==> *final(status) == *old(status),
{
    let issue = should_fetch(status, region);
    if issue {
        *status = PixelRectRequestStatus::InProgress;
    }
    issue
}

/// One full scheduler tick: decides whether the visible region needs a
/// fetch and, when it does, moves the slot to `InProgress` and hands back
/// the exact path-and-query bytes of the GET to issue. A `None` means the
/// tick is a no-op and the slot is untouched.
pub fn tick_region_fetch(status: &mut PixelRectRequestStatus, region: &PixelRectangle) -> (r:
    Option<Vec<u8>>)
    ensures
        *old(status) is InProgress ==> r is None && *final(status) == *old(status),
        *old(status) is Failed ==> r is Some,
        forall|last: PixelRectangle| *old(status) == PixelRectRequestStatus::Success(last) ==> (r
            is Some <==> last != *region),
        r matches Some(q) ==> *final(status) == PixelRectRequestStatus::InProgress && q@
            == region_query_spec(
            region.top_left.x as int,
            region.top_left.y as int,
            region.bottom_right.x as int,
            region.bottom_right.y as int,
        ),
        r is None ==> *final(status) == *old(status),
{
    if schedule_fetch(status, region) {
        Some(region_query(region))
    } else {
        None
    }
}

/// The status a completed region fetch settles to: `Success(region)` when
/// the transport reported success and the body decoded, `Failed` on any
/// transport error, non-success HTTP status, undecodable body, or failure to
/// deliver the decoded batch.
pub fn settle_status(region: &PixelRectangle, fetched: bool) -> (s: PixelRectRequestStatus)
    ensures
        fetched ==> s == PixelRectRequestStatus::Success(*region),
        !fetched ==> s == PixelRectRequestStatus::Failed,
{
    if fetched {
        PixelRectRequestStatus::Success(*region)
    } else {
        PixelRectRequestStatus::Failed
    }
}

/// Settles a finished region fetch: when the transport reported success
/// and the body parses as a batch of pixel records, the slot status becomes
/// `Success(region)` and the records are handed back for reconciliation; on
/// a transport error, a non-success HTTP status, or a malformed body, the
/// status becomes `Failed` and nothing is applied.
pub fn settle_region_fetch(region: &PixelRectangle, transport_ok: bool, body: &[u8]) -> (r: (
    PixelRectRequestStatus,
    Option<Vec<PixelGrainDto>>,
))
    ensures
        forall|rs: Seq<crate::grains::GrainRecordV>|
            parse_batch(body@) == Some(rs) && transport_ok ==> r.0
                == PixelRectRequestStatus::Success(*region) && (r.1 matches Some(v) && views_of(v@)
                == rs),
        !(transport_ok && parse_batch(body@) is Some) ==> r.0 == PixelRectRequestStatus::Failed
            && r.1 is None,
{
    if !transport_ok {
        return (PixelRectRequestStatus::Failed, None);
    }
    match parse_batch_exec(body) {
        Some(v) => (PixelRectRequestStatus::Success(*region), Some(v)),
        None => (PixelRectRequestStatus::Failed, None),
    }
}

/// Settles a finished pixel edit: when the transport reported success and
/// the body echoes one pixel record, that record comes back as a
/// one-element batch to merge; any failure yields nothing — a pixel edit is
/// fire-and-forget and is not retried.
pub fn settle_pixel_edit(transport_ok: bool, body: &[u8]) -> (r: Option<Vec<PixelGrainDto>>)
    ensures
        forall|rec: crate::grains::GrainRecordV|
            parse_pixel_response(body@) == Some(rec) && transport_ok ==> (r matches Some(v)
                && v@.len() == 1 && v@[0]@ == rec),
        !(transport_ok && parse_pixel_response(body@) is Some) ==> r is None,
{
    if !transport_ok {
        return None;
    }
    match parse_pixel_response_exec(body) {
        Some(dto) => {
            let mut v: Vec<PixelGrainDto> = Vec::new();
            v.push(dto);
            Some(v)
        },
        None => None,
    }
}

/// Drains the status messages one tick pulled off the status queue, in
/// arrival order: each message overwrites the slot, so the slot ends at the
/// last message, or stays put when none arrived.
pub fn apply_status_messages(status: &mut PixelRectRequestStatus, messages: Vec<
    PixelRectRequestStatus,
>) -> (n: usize)
    ensures
        n == messages@.len(),
        messages@.len() == 0 ==> *final(status) == *old(status),
        messages@.len() > 0 ==> *final(status) == messages@.last(),
{
    let n = messages.len();
    let mut i: usize = 0;
    while i < n
        invariant
            n == messages@.len(),
            0 <= i <= n,
            i == 0 ==> *status == *old(status),
            i > 0 ==> *status == messages@[i - 1],
        decreases n - i,
    {
        *status = messages[i];
        i = i + 1;
    }
    n
}

} // verus!
