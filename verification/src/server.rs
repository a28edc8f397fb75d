//! The version-chain extension algorithm.
//!
//! Given a claimed parent and a payload, atomically accept-and-append or
//! reject-with-conflict: compare-and-swap over the client's latest-version
//! pointer, executed inside one storage transaction.

use vstd::prelude::*;
use crate::ids::{ClientId, VersionId, NO_VERSION_ID};
use crate::storage::{InMemoryStorage, Txn, Client, VersionView, LedgerView, seq_has_version};

verus! {

/// The outcome of one extension attempt.
#[derive(Debug, PartialEq, Eq, Structural)]
pub enum AddVersionResult {
    /// The claimed parent matched the chain head: the version was appended
    /// and carries this fresh id.
    Accepted(VersionId),
    /// The claimed parent was stale: nothing changed, and the client must
    /// rebase on top of this version, the actual chain head.
    Conflict(VersionId),
}

/// The chain head a client would have to name as parent: its latest-version
/// pointer, or `NO_VERSION_ID` for a client with no record yet.
pub open spec fn head_of(m: LedgerView, c: ClientId) -> VersionId {
    if m.clients.contains_key(c) {
        m.clients[c]
    } else {
        NO_VERSION_ID
    }
}

/// The ledger with a record for `c` present: created empty if absent.
pub open spec fn ensure_client(m: LedgerView, c: ClientId) -> LedgerView {
    if m.clients.contains_key(c) {
        m
    } else {
        m.with_client(c)
    }
}

/// The ledger after an accepted extension for `c`: the client record exists,
/// the version record is appended and the head pointer advances to `vid`.
pub open spec fn accept_model(
    m: LedgerView,
    c: ClientId,
    vid: VersionId,
    parent: VersionId,
    seg: Seq<u8>,
) -> LedgerView {
    ensure_client(m, c).with_version(
        VersionView { version_id: vid, client_id: c, parent_version_id: parent, history_segment: seg },
    )
}

/// Relies on `uuid::Uuid::new_v4`: a random (version 4) UUID, returned as its
/// 128-bit value. The generator always sets the version and variant bits, so
/// the value is never zero; nothing else can be promised of a random draw.
#[verifier::external_body]
fn random_version_id() -> (r: VersionId)
    ensures
        r != 0u128,
{
    uuid::Uuid::new_v4().as_u128()
}

/// Draw a version id that is fresh for this transaction's ledger: a random
/// id or, in the (negligibly likely) case of a collision, the first unused
/// id found by a scan — with `n` versions recorded, one of the `n + 1` ids
/// `1 ..= n + 1` is always unused.
fn fresh_version_id(txn: &Txn) -> (vid: VersionId)
    requires
        txn.wf(),
    ensures
        vid != NO_VERSION_ID,
        !txn@.has_version(vid),
{
    let r = random_version_id();
    if !txn.contains_version(r) {
        return r;
    }
    let n = txn.num_versions();
    let bound: u128 = (n as u128) + 1;
    let mut c: u128 = 1;
    while c <= bound
        invariant
            txn.wf(),
            bound == txn@.versions.len() + 1,
            bound < 0x1_0000_0000_0000_0000_0000u128,
            1 <= c <= bound + 1,
            forall|x: u128| 1 <= x < c ==> txn@.has_version(x),
        decreases bound + 1 - c,
    {
        if !txn.contains_version(c) {
            return c;
        }
        c += 1;
    }
    proof {
        lemma_free_id_exists(txn@.versions);
        let xf = choose|x: u128|
            1 <= x <= txn@.versions.len() + 1 && !seq_has_version(txn@.versions, x);
        assert(1 <= xf < c);
        assert(txn@.has_version(xf));
        assert(!txn@.has_version(xf));
        assert(false);
    }
    1
}

/// Pigeonhole: with `n` version records present, the ids `1 ..= n + 1`
/// cannot all be in use, so one of them is free.
proof fn lemma_free_id_exists(vs: Seq<VersionView>)
    requires
        vs.len() + 2 < 0x1_0000_0000_0000_0000_0000_0000_0000_0000,
    ensures
        exists|x: u128| 1 <= x <= vs.len() + 1 && !seq_has_version(vs, x),
{
    broadcast use vstd::seq_lib::seq_to_set_is_finite;

    if forall|x: u128| 1 <= x <= vs.len() + 1 ==> #[trigger] seq_has_version(vs, x) {
        let ids = vs.map_values(|v: VersionView| v.version_id as int);
        let used = ids.to_set();
        let candidates = vstd::set_lib::set_int_range(1, vs.len() as int + 2);
        assert forall|x: int| candidates.contains(x) implies used.contains(x) by {
            let xv = x as u128;
            assert(xv as int == x);
            assert(1 <= xv <= vs.len() + 1);
            assert(seq_has_version(vs, xv));
            let i = choose|i: int| 0 <= i < vs.len() && (#[trigger] vs[i]).version_id == xv;
            assert(ids[i] == x);
        }
        ids.lemma_cardinality_of_set();
        vstd::set_lib::lemma_int_range(1, vs.len() as int + 2);
        vstd::set_lib::lemma_len_subset(candidates, used);
        assert(false);
    }
}

/// Extend `client_id`'s chain: if the claimed `parent_version_id` equals the
/// client's current head, append a version with a fresh id and commit the
/// transaction; otherwise change nothing (the transaction is discarded) and
/// report the actual head for the client to rebase on.
pub fn add_version(
    txn: Txn,
    storage: &mut InMemoryStorage,
    client_id: ClientId,
    client: Client,
    parent_version_id: VersionId,
    history_segment: Vec<u8>,
) -> (r: AddVersionResult)
    requires
        txn.wf(),
        old(storage)@ == txn.base(),
        txn@.clients.contains_key(client_id),
        client.latest_version_id == txn@.clients[client_id],
    ensures
        match r {
            AddVersionResult::Accepted(vid) => {
                &&& parent_version_id == client.latest_version_id
                &&& vid != NO_VERSION_ID
                &&& !txn@.has_version(vid)
                &&& final(storage).wf()
                &&& final(storage)@ == txn@.with_version(
                    VersionView {
                        version_id: vid,
                        client_id,
                        parent_version_id,
                        history_segment: history_segment@,
                    },
                )
            },
            AddVersionResult::Conflict(expected) => {
                &&& parent_version_id != client.latest_version_id
                &&& expected == client.latest_version_id
                &&& *final(storage) == *old(storage)
            },
        },
{
    if client.latest_version_id != parent_version_id {
        return AddVersionResult::Conflict(client.latest_version_id);
    }
    let version_id = fresh_version_id(&txn);
    let mut txn = txn;
    txn.add_version(client_id, version_id, parent_version_id, history_segment);
    txn.commit(storage);
    AddVersionResult::Accepted(version_id)
}

} // verus!
