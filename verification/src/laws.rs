//! The protocol's guarantees, proved once and for all over the ledger model.
//!
//! The storage contract makes concurrent extension calls for one client
//! externally equivalent to some serial order, so each guarantee is stated
//! over sequential compositions of the one-call transition [`step_model`] /
//! [`step_result`], which the contracts of [`crate::server::add_version`] and
//! [`crate::api::service`] tie to the executable code.

use vstd::prelude::*;
use crate::ids::{ClientId, VersionId, NO_VERSION_ID};
use crate::server::{AddVersionResult, head_of, ensure_client, accept_model};
use crate::storage::{
    LedgerView, VersionView, chain_ok, lemma_accept_wf, lemma_head_is_version,
    lemma_new_client_wf, lemma_restrict_push,
};

verus! {

/// The decision rule: a call is accepted exactly when the claimed parent
/// equals the client's current chain head.
pub open spec fn accepts(m: LedgerView, c: ClientId, parent: VersionId) -> bool {
    parent == head_of(m, c)
}

/// An id an accepted call may stamp on the new version: real, and not yet
/// the id of any recorded version.
pub open spec fn fresh_id(m: LedgerView, vid: VersionId) -> bool {
    vid != NO_VERSION_ID && !m.has_version(vid)
}

/// The ledger after one extension call for `c` claiming `parent`: on a match
/// the version is appended under the fresh id `vid`, otherwise nothing
/// changes.
pub open spec fn step_model(
    m: LedgerView,
    c: ClientId,
    parent: VersionId,
    vid: VersionId,
    seg: Seq<u8>,
) -> LedgerView {
    if accepts(m, c, parent) {
        accept_model(m, c, vid, parent, seg)
    } else {
        m
    }
}

/// The outcome of that call: `Accepted` with the new id, or `Conflict`
/// naming the actual head.
pub open spec fn step_result(
    m: LedgerView,
    c: ClientId,
    parent: VersionId,
    vid: VersionId,
) -> AddVersionResult {
    if accepts(m, c, parent) {
        AddVersionResult::Accepted(vid)
    } else {
        AddVersionResult::Conflict(head_of(m, c))
    }
}

/// One call preserves the data-model invariant; an accepted call appends
/// exactly one record to its client's chain and advances that head to the
/// new id, and no other client's head or chain moves.
pub proof fn lemma_step_wf(m: LedgerView, c: ClientId, parent: VersionId, vid: VersionId, seg: Seq<u8>)
    requires
        m.wf(),
        fresh_id(m, vid),
    ensures
        step_model(m, c, parent, vid, seg).wf(),
        accepts(m, c, parent) ==> {
            let after = step_model(m, c, parent, vid, seg);
            &&& head_of(after, c) == vid
            &&& after.chain(c) == m.chain(c).push(
                VersionView {
                    version_id: vid,
                    client_id: c,
                    parent_version_id: parent,
                    history_segment: seg,
                },
            )
            &&& chain_ok(after.chain(c), vid)
        },
        !accepts(m, c, parent) ==> step_model(m, c, parent, vid, seg) == m,
        forall|c2: ClientId|
            c2 != c ==> #[trigger] head_of(step_model(m, c, parent, vid, seg), c2) == head_of(m, c2),
        forall|c2: ClientId|
            c2 != c ==> #[trigger] step_model(m, c, parent, vid, seg).chain(c2) == m.chain(c2),
{
    if accepts(m, c, parent) {
        let base = ensure_client(m, c);
        if !m.clients.contains_key(c) {
            lemma_new_client_wf(m, c);
        }
        let vv = VersionView {
            version_id: vid,
            client_id: c,
            parent_version_id: parent,
            history_segment: seg,
        };
        lemma_accept_wf(base, vv);
        let after = step_model(m, c, parent, vid, seg);
        assert(after.chain(c) == base.chain(c).push(vv));
        assert(base.chain(c) == m.chain(c));
        assert(chain_ok(after.chain(c), vid));
        assert forall|c2: ClientId| c2 != c implies #[trigger] after.chain(c2) == m.chain(c2) by {
            lemma_restrict_push(m.versions, c2, vv);
        }
    }
}

/// Chain growth: in any well-formed ledger, a call that names the client's
/// current head as parent is accepted; the client's chain grows by exactly
/// one record, the head advances to the returned fresh id, and the chain's
/// parent pointers still trace back to `NO_VERSION_ID`.
pub proof fn lemma_chain_growth(m: LedgerView, c: ClientId, vid: VersionId, seg: Seq<u8>)
    requires
        m.wf(),
        fresh_id(m, vid),
    ensures
        accepts(m, c, head_of(m, c)),
        step_result(m, c, head_of(m, c), vid) == AddVersionResult::Accepted(vid),
        step_model(m, c, head_of(m, c), vid, seg).wf(),
        head_of(step_model(m, c, head_of(m, c), vid, seg), c) == vid,
        step_model(m, c, head_of(m, c), vid, seg).chain(c).len() == m.chain(c).len() + 1,
        chain_ok(step_model(m, c, head_of(m, c), vid, seg).chain(c), vid),
{
    lemma_step_wf(m, c, head_of(m, c), vid, seg);
}

/// The ledger after a sequence of calls for `c`, each naming as parent the
/// head the previous call left — i.e. each call stacked on the previous
/// call's returned id.
pub open spec fn chained_run_model(
    m: LedgerView,
    c: ClientId,
    vids: Seq<VersionId>,
    segs: Seq<Seq<u8>>,
) -> LedgerView
    decreases vids.len(),
{
    if vids.len() == 0 {
        m
    } else {
        chained_run_model(
            step_model(m, c, head_of(m, c), vids[0], segs[0]),
            c,
            vids.drop_first(),
            segs.drop_first(),
        )
    }
}

/// Chain growth over a whole sequence: stacking each call on the previous
/// call's returned id always succeeds — the client's chain grows by one
/// record per call, the head ends at the last returned id, and the chain's
/// parent pointers still trace back to `NO_VERSION_ID`.
pub proof fn lemma_chain_growth_seq(
    m: LedgerView,
    c: ClientId,
    vids: Seq<VersionId>,
    segs: Seq<Seq<u8>>,
)
    requires
        m.wf(),
        segs.len() == vids.len(),
        forall|i: int| 0 <= i < vids.len() ==> fresh_id(m, #[trigger] vids[i]),
        forall|i: int, j: int| 0 <= i < j < vids.len() ==> vids[i] != vids[j],
    ensures
        ({
            let f = chained_run_model(m, c, vids, segs);
            &&& f.wf()
            &&& f.chain(c).len() == m.chain(c).len() + vids.len()
            &&& (vids.len() > 0 ==> head_of(f, c) == vids.last() && chain_ok(
                f.chain(c),
                vids.last(),
            ))
        }),
    decreases vids.len(),
{
    if vids.len() > 0 {
        let m1 = step_model(m, c, head_of(m, c), vids[0], segs[0]);
        lemma_step_wf(m, c, head_of(m, c), vids[0], segs[0]);
        assert forall|i: int| 0 <= i < vids.drop_first().len() implies fresh_id(
            m1,
            #[trigger] vids.drop_first()[i],
        ) by {
            assert(vids.drop_first()[i] == vids[i + 1]);
            assert(fresh_id(m, vids[i + 1]));
            assert(vids[i + 1] != vids[0]);
            let base = ensure_client(m, c);
            assert(m1.versions == base.versions.push(
                VersionView {
                    version_id: vids[0],
                    client_id: c,
                    parent_version_id: head_of(m, c),
                    history_segment: segs[0],
                },
            ));
            assert(!m1.has_version(vids[i + 1])) by {
                if m1.has_version(vids[i + 1]) {
                    let k = choose|k: int|
                        0 <= k < m1.versions.len() && (#[trigger] m1.versions[k]).version_id
                            == vids[i + 1];
                    assert(k < base.versions.len());
                    assert(m.has_version(vids[i + 1]));
                }
            }
        }
        lemma_chain_growth_seq(m1, c, vids.drop_first(), segs.drop_first());
        let f = chained_run_model(m, c, vids, segs);
        if vids.len() == 1 {
            assert(f == m1);
            assert(head_of(f, c) == vids[0]);
        } else {
            assert(vids.drop_first().last() == vids.last());
        }
    }
}

/// A fresh id can never equal the head a call had to name: the head is
/// either the sentinel or the id of a recorded version.
pub proof fn lemma_fresh_id_not_head(m: LedgerView, c: ClientId, vid: VersionId)
    requires
        m.wf(),
        fresh_id(m, vid),
    ensures
        vid != head_of(m, c),
{
    if m.clients.contains_key(c) && m.clients[c] != NO_VERSION_ID {
        lemma_head_is_version(m, c);
    }
}

/// Conflict correctness: two calls for the same client naming the same
/// parent `p`, the client's head. The first is accepted and returns some
/// fresh `vid`; the second is rejected, and the conflict names `vid` — the
/// first call's result — as the expected parent, whatever id the second
/// call would have stamped.
pub proof fn lemma_conflict_correctness(
    m: LedgerView,
    c: ClientId,
    p: VersionId,
    vid: VersionId,
    seg: Seq<u8>,
)
    requires
        m.wf(),
        fresh_id(m, vid),
        p == head_of(m, c),
    ensures
        step_result(m, c, p, vid) == AddVersionResult::Accepted(vid),
        !accepts(step_model(m, c, p, vid, seg), c, p),
        forall|v2: VersionId|
            #[trigger] step_result(step_model(m, c, p, vid, seg), c, p, v2)
                == AddVersionResult::Conflict(vid),
{
    lemma_step_wf(m, c, p, vid, seg);
    lemma_fresh_id_not_head(m, c, vid);
}

/// Stale-retry stability: a call naming a stale parent changes nothing and
/// reports the actual head; since nothing changes, any repetition with the
/// same stale parent keeps reporting that same head, until the client
/// supplies it.
pub proof fn lemma_stale_retry_stability(
    m: LedgerView,
    c: ClientId,
    p: VersionId,
    vid: VersionId,
    seg: Seq<u8>,
)
    requires
        !accepts(m, c, p),
    ensures
        step_model(m, c, p, vid, seg) == m,
        step_result(m, c, p, vid) == AddVersionResult::Conflict(head_of(m, c)),
        forall|v2: VersionId, seg2: Seq<u8>|
            #[trigger] step_result(step_model(m, c, p, v2, seg2), c, p, v2)
                == AddVersionResult::Conflict(head_of(m, c)),
{
}

/// The ledger after a sequence of calls for `c`, all claiming the same
/// parent `p`, serialized in order.
pub open spec fn run_model(
    m: LedgerView,
    c: ClientId,
    p: VersionId,
    vids: Seq<VersionId>,
    segs: Seq<Seq<u8>>,
) -> LedgerView
    decreases vids.len(),
{
    if vids.len() == 0 {
        m
    } else {
        run_model(
            step_model(m, c, p, vids[0], segs[0]),
            c,
            p,
            vids.drop_first(),
            segs.drop_first(),
        )
    }
}

/// How many of those calls are accepted.
pub open spec fn run_accept_count(
    m: LedgerView,
    c: ClientId,
    p: VersionId,
    vids: Seq<VersionId>,
    segs: Seq<Seq<u8>>,
) -> nat
    decreases vids.len(),
{
    if vids.len() == 0 {
        0
    } else {
        (if accepts(m, c, p) {
            1nat
        } else {
            0nat
        }) + run_accept_count(
            step_model(m, c, p, vids[0], segs[0]),
            c,
            p,
            vids.drop_first(),
            segs.drop_first(),
        )
    }
}

/// A run whose common parent is stale accepts nothing and changes nothing.
pub proof fn lemma_stale_run(
    m: LedgerView,
    c: ClientId,
    p: VersionId,
    vids: Seq<VersionId>,
    segs: Seq<Seq<u8>>,
)
    requires
        !accepts(m, c, p),
    ensures
        run_model(m, c, p, vids, segs) == m,
        run_accept_count(m, c, p, vids, segs) == 0,
    decreases vids.len(),
{
    if vids.len() > 0 {
        lemma_stale_run(m, c, p, vids.drop_first(), segs.drop_first());
    }
}

/// Concurrency exclusivity: of any number of calls for one client all
/// claiming the same parent `p`, serialized in any order — each carrying a
/// fresh id for the version it would create — exactly one is accepted when
/// `p` is the client's head (and none otherwise), and the client's final
/// head is the id returned by that one winner.
pub proof fn lemma_concurrency_exclusivity(
    m: LedgerView,
    c: ClientId,
    p: VersionId,
    vids: Seq<VersionId>,
    segs: Seq<Seq<u8>>,
)
    requires
        m.wf(),
        vids.len() >= 1,
        segs.len() == vids.len(),
        p == head_of(m, c),
        forall|i: int| 0 <= i < vids.len() ==> fresh_id(m, #[trigger] vids[i]),
    ensures
        run_accept_count(m, c, p, vids, segs) == 1,
        head_of(run_model(m, c, p, vids, segs), c) == vids[0],
        run_model(m, c, p, vids, segs) == accept_model(m, c, vids[0], p, segs[0]),
{
    let m1 = step_model(m, c, p, vids[0], segs[0]);
    lemma_step_wf(m, c, p, vids[0], segs[0]);
    lemma_fresh_id_not_head(m, c, vids[0]);
    assert(!accepts(m1, c, p));
    lemma_stale_run(m1, c, p, vids.drop_first(), segs.drop_first());
}

/// Cross-client isolation: a call for one client moves no other client's
/// head or chain, so what a call for another client observes — acceptance
/// or the conflict's expected parent — is exactly what it would have
/// observed anyway.
pub proof fn lemma_cross_client_isolation(
    m: LedgerView,
    c1: ClientId,
    c2: ClientId,
    p1: VersionId,
    p2: VersionId,
    vid: VersionId,
    seg: Seq<u8>,
)
    requires
        m.wf(),
        c1 != c2,
    ensures
        head_of(step_model(m, c1, p1, vid, seg), c2) == head_of(m, c2),
        step_model(m, c1, p1, vid, seg).chain(c2) == m.chain(c2),
        accepts(step_model(m, c1, p1, vid, seg), c2, p2) == accepts(m, c2, p2),
        forall|v2: VersionId|
            #[trigger] step_result(step_model(m, c1, p1, vid, seg), c2, p2, v2) == step_result(
                m,
                c2,
                p2,
                v2,
            ),
{
    if accepts(m, c1, p1) {
        let vv = VersionView {
            version_id: vid,
            client_id: c1,
            parent_version_id: p1,
            history_segment: seg,
        };
        lemma_restrict_push(m.versions, c2, vv);
    }
}

} // verus!
