//! The request-level face of the server: validation that must happen before
//! any transaction opens, the end-to-end handling of one extension request,
//! and the mapping of outcomes to the wire protocol's status codes and header
//! names.

use vstd::prelude::*;
use crate::ids::{ClientId, VersionId, NO_VERSION_ID};
use crate::storage::{InMemoryStorage, Client};
use crate::server::{add_version, AddVersionResult, head_of, accept_model};
use crate::strutil::str_eq;

verus! {

/// Max history segment size: 100 MiB.
pub const MAX_SIZE: usize = 100 * 1024 * 1024;

/// The media type a history segment must be posted with.
pub open spec fn history_segment_content_type_spec() -> Seq<char> {
    "application/vnd.taskchampion.history-segment"@
}

/// The media type a history segment must be posted with.
pub fn history_segment_content_type() -> (r: &'static str)
    ensures
        r@ == history_segment_content_type_spec(),
{
    "application/vnd.taskchampion.history-segment"
}

/// The response header carrying the new version id of an accepted extension.
pub fn version_id_header() -> (r: &'static str)
    ensures
        r@ == "X-Version-Id"@,
{
    "X-Version-Id"
}

/// The response header carrying the expected parent reported on a conflict.
pub fn parent_version_id_header() -> (r: &'static str)
    ensures
        r@ == "X-Parent-Version-Id"@,
{
    "X-Parent-Version-Id"
}

/// Why a request was rejected before any transaction was opened.
#[derive(Debug, PartialEq, Eq, Structural)]
pub enum BadRequestReason {
    /// The declared content type is not the history-segment media type.
    WrongContentType,
    /// The payload is empty.
    EmptyBody,
    /// The payload exceeds [`MAX_SIZE`].
    BodyTooLarge,
}

/// What one extension request comes to.
#[derive(Debug, PartialEq, Eq, Structural)]
pub enum ApiOutcome {
    /// The extension was accepted; answered 200 with the new version id in
    /// the version-id header.
    Accepted { version_id: VersionId },
    /// The claimed parent was stale; answered 409 with the actual head in
    /// the parent-version-id header.
    Conflict { expected_parent_version_id: VersionId },
    /// The request was rejected before any transaction was opened; answered
    /// 400.
    BadRequest { reason: BadRequestReason },
}

/// The status code each outcome is answered with.
pub fn status_code(r: &ApiOutcome) -> (s: u16)
    ensures
        s == (match *r {
            ApiOutcome::Accepted { .. } => 200u16,
            ApiOutcome::Conflict { .. } => 409u16,
            ApiOutcome::BadRequest { .. } => 400u16,
        }),
{
    match r {
        ApiOutcome::Accepted { .. } => 200,
        ApiOutcome::Conflict { .. } => 409,
        ApiOutcome::BadRequest { .. } => 400,
    }
}

/// Account one more payload chunk while a request body is being read: the
/// running total grows by the chunk's length, or the body has just exceeded
/// [`MAX_SIZE`] and must be rejected.
pub fn accept_chunk(total: usize, chunk: usize) -> (r: Option<usize>)
    requires
        total <= MAX_SIZE,
    ensures
        match r {
            Some(t) => t == total + chunk && t <= MAX_SIZE,
            None => total + chunk > MAX_SIZE,
        },
{
    if chunk <= MAX_SIZE - total {
        Some(total + chunk)
    } else {
        None
    }
}

/// Handle one extension request, the payload already fully buffered: validate
/// the declared content type and the payload size without touching the store;
/// then, within one transaction, look up or create the client record and run
/// the extension algorithm.
///
/// A wrong content type is rejected without inspecting the payload at all; an
/// empty or oversized payload is rejected next; only a valid request opens a
/// transaction, and only an accepted extension changes the store.
pub fn service(
    storage: &mut InMemoryStorage,
    client_id: ClientId,
    parent_version_id: VersionId,
    content_type: &str,
    body: Vec<u8>,
) -> (r: ApiOutcome)
    requires
        old(storage).wf(),
    ensures
        final(storage).wf(),
        content_type@ != history_segment_content_type_spec() ==> r == (ApiOutcome::BadRequest {
            reason: BadRequestReason::WrongContentType,
        }) && *final(storage) == *old(storage),
        content_type@ == history_segment_content_type_spec() && body@.len() == 0 ==> r == (
        ApiOutcome::BadRequest { reason: BadRequestReason::EmptyBody }) && *final(storage) == *old(
            storage,
        ),
        content_type@ == history_segment_content_type_spec() && body@.len() > MAX_SIZE ==> r == (
        ApiOutcome::BadRequest { reason: BadRequestReason::BodyTooLarge }) && *final(storage)
            == *old(storage),
        content_type@ == history_segment_content_type_spec() && 0 < body@.len() <= MAX_SIZE
            && parent_version_id == head_of(old(storage)@, client_id) ==> (match r {
            ApiOutcome::Accepted { version_id } => {
                &&& version_id != NO_VERSION_ID
                &&& !old(storage)@.has_version(version_id)
                &&& final(storage)@ == accept_model(
                    old(storage)@,
                    client_id,
                    version_id,
                    parent_version_id,
                    body@,
                )
            },
            _ => false,
        }),
        content_type@ == history_segment_content_type_spec() && 0 < body@.len() <= MAX_SIZE
            && parent_version_id != head_of(old(storage)@, client_id) ==> r == (
        ApiOutcome::Conflict {
            expected_parent_version_id: head_of(old(storage)@, client_id),
        }) && *final(storage) == *old(storage),
{
    if !str_eq(content_type, history_segment_content_type()) {
        return ApiOutcome::BadRequest { reason: BadRequestReason::WrongContentType };
    }
    if body.len() == 0 {
        return ApiOutcome::BadRequest { reason: BadRequestReason::EmptyBody };
    }
    if body.len() > MAX_SIZE {
        return ApiOutcome::BadRequest { reason: BadRequestReason::BodyTooLarge };
    }
    // The transaction opens only after the payload has been validated, and
    // the client record is created inside it, so a racing bootstrap on the
    // same id cannot produce two records.
    let mut txn = storage.txn();
    let client = match txn.get_client(client_id) {
        Some(c) => c,
        None => {
            let created = txn.new_client(client_id, NO_VERSION_ID);
            proof {
                assert(created is Ok);
            }
            match txn.get_client(client_id) {
                Some(c) => c,
                None => {
                    proof {
                        assert(false);
                    }
                    Client { latest_version_id: NO_VERSION_ID }
                },
            }
        },
    };
    let result = add_version(txn, storage, client_id, client, parent_version_id, body);
    match result {
        AddVersionResult::Accepted(version_id) => ApiOutcome::Accepted { version_id },
        AddVersionResult::Conflict(expected) => ApiOutcome::Conflict {
            expected_parent_version_id: expected,
        },
    }
}

} // verus!
