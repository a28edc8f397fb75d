//! The version ledger and its transactional in-memory store.
//!
//! The ledger holds one client record per client id (a mutable pointer to the
//! head of that client's chain) and a set of immutable version records. All
//! mutation goes through a [`Txn`]: a working client table and a log of
//! appended versions that either are committed back into the store as a
//! whole or are dropped without effect.

use vstd::prelude::*;
use vstd::slice::slice_to_vec;
use crate::ids::{ClientId, VersionId, NO_VERSION_ID};

verus! {

/// One client record: the head pointer of that client's version chain.
#[derive(Clone, Copy, Debug, PartialEq, Eq, Structural)]
pub struct Client {
    pub latest_version_id: VersionId,
}

/// One accepted version. Immutable once created; `parent_version_id` names the
/// version (or `NO_VERSION_ID`) that was the chain head when it was accepted.
#[derive(Debug)]
pub struct Version {
    pub version_id: VersionId,
    pub client_id: ClientId,
    pub parent_version_id: VersionId,
    pub history_segment: Vec<u8>,
}

/// Mathematical image of a version record.
#[verifier::ext_equal]
pub ghost struct VersionView {
    pub version_id: VersionId,
    pub client_id: ClientId,
    pub parent_version_id: VersionId,
    pub history_segment: Seq<u8>,
}

impl View for Version {
    type V = VersionView;

    open spec fn view(&self) -> VersionView {
        VersionView {
            version_id: self.version_id,
            client_id: self.client_id,
            parent_version_id: self.parent_version_id,
            history_segment: self.history_segment@,
        }
    }
}

/// Mathematical image of the whole ledger: the map from client id to chain
/// head, and the version records in order of acceptance.
#[verifier::ext_equal]
pub ghost struct LedgerView {
    pub clients: Map<ClientId, VersionId>,
    pub versions: Seq<VersionView>,
}

/// The version records of one client, in order of acceptance.
pub open spec fn restrict(vs: Seq<VersionView>, c: ClientId) -> Seq<VersionView>
    decreases vs.len(),
{
    if vs.len() == 0 {
        Seq::empty()
    } else {
        let p = restrict(vs.drop_last(), c);
        if vs.last().client_id == c {
            p.push(vs.last())
        } else {
            p
        }
    }
}

/// A client's records form one linked list from the head back to
/// `NO_VERSION_ID`, and the client's head pointer names its last element.
pub open spec fn chain_ok(ch: Seq<VersionView>, latest: VersionId) -> bool {
    if ch.len() == 0 {
        latest == NO_VERSION_ID
    } else {
        &&& ch[0].parent_version_id == NO_VERSION_ID
        &&& (forall|i: int| 1 <= i < ch.len() ==> (#[trigger] ch[i]).parent_version_id == ch[
            i - 1].version_id)
        &&& ch[ch.len() - 1].version_id == latest
    }
}

/// Some record of the sequence carries this version id.
pub open spec fn seq_has_version(vs: Seq<VersionView>, vid: VersionId) -> bool {
    exists|i: int| 0 <= i < vs.len() && (#[trigger] vs[i]).version_id == vid
}

impl LedgerView {
    /// Some version record carries this id.
    pub open spec fn has_version(self, vid: VersionId) -> bool {
        seq_has_version(self.versions, vid)
    }

    /// The chain of one client.
    pub open spec fn chain(self, c: ClientId) -> Seq<VersionView> {
        restrict(self.versions, c)
    }

    /// The ledger after a version is accepted for `v.client_id`: the record is
    /// appended and the client's head pointer advances to it.
    pub open spec fn with_version(self, v: VersionView) -> LedgerView {
        LedgerView {
            clients: self.clients.insert(v.client_id, v.version_id),
            versions: self.versions.push(v),
        }
    }

    /// The ledger after a client record is created with no history.
    pub open spec fn with_client(self, c: ClientId) -> LedgerView {
        LedgerView { clients: self.clients.insert(c, NO_VERSION_ID), versions: self.versions }
    }

    /// The data-model invariant: version ids are distinct, real (never the
    /// sentinel), owned by recorded clients, and each client's records form a
    /// single chain from its head pointer back to `NO_VERSION_ID`.
    pub open spec fn wf(self) -> bool {
        &&& (forall|i: int, j: int|
            0 <= i < j < self.versions.len() ==> (#[trigger] self.versions[i]).version_id != (
            #[trigger] self.versions[j]).version_id)
        &&& (forall|i: int|
            0 <= i < self.versions.len() ==> (#[trigger] self.versions[i]).version_id
                != NO_VERSION_ID)
        &&& (forall|i: int|
            0 <= i < self.versions.len() ==> self.clients.contains_key(
                (#[trigger] self.versions[i]).client_id))
        &&& (forall|c: ClientId|
            #[trigger] self.clients.contains_key(c) ==> chain_ok(
                restrict(self.versions, c),
                self.clients[c],
            ))
    }
}

/// Pushing a record changes only its own client's chain, by appending.
pub proof fn lemma_restrict_push(vs: Seq<VersionView>, c: ClientId, v: VersionView)
    ensures
        v.client_id == c ==> restrict(vs.push(v), c) == restrict(vs, c).push(v),
        v.client_id != c ==> restrict(vs.push(v), c) == restrict(vs, c),
{
    assert(vs.push(v).drop_last() =~= vs);
    assert(vs.push(v).last() == v);
}

/// Every element of a client's chain is one of the ledger's records.
pub proof fn lemma_restrict_sub(vs: Seq<VersionView>, c: ClientId, i: int)
    requires
        0 <= i < restrict(vs, c).len(),
    ensures
        exists|j: int| 0 <= j < vs.len() && (#[trigger] vs[j]) == restrict(vs, c)[i],
    decreases vs.len(),
{
    let p = restrict(vs.drop_last(), c);
    if vs.last().client_id == c && i == p.len() {
        assert(vs[vs.len() - 1] == restrict(vs, c)[i]);
    } else {
        lemma_restrict_sub(vs.drop_last(), c, i);
        let j = choose|j: int| 0 <= j < vs.drop_last().len() && (#[trigger] vs.drop_last()[j])
            == restrict(vs.drop_last(), c)[i];
        assert(vs[j] == restrict(vs, c)[i]);
    }
}

/// A client none of the records belong to has the empty chain.
pub proof fn lemma_restrict_absent(vs: Seq<VersionView>, c: ClientId)
    requires
        forall|i: int| 0 <= i < vs.len() ==> (#[trigger] vs[i]).client_id != c,
    ensures
        restrict(vs, c) == Seq::<VersionView>::empty(),
    decreases vs.len(),
{
    if vs.len() > 0 {
        assert(vs[vs.len() - 1].client_id != c);
        lemma_restrict_absent(vs.drop_last(), c);
    }
}

/// Every record of a client appears in that client's chain.
pub proof fn lemma_restrict_complete(vs: Seq<VersionView>, c: ClientId, i: int)
    requires
        0 <= i < vs.len(),
        vs[i].client_id == c,
    ensures
        exists|k: int| 0 <= k < restrict(vs, c).len() && (#[trigger] restrict(vs, c)[k]) == vs[i],
    decreases vs.len(),
{
    let p = restrict(vs.drop_last(), c);
    if i == vs.len() - 1 {
        assert(restrict(vs, c)[p.len() as int] == vs[i]);
    } else {
        assert(vs.drop_last()[i] == vs[i]);
        lemma_restrict_complete(vs.drop_last(), c, i);
        let k = choose|k: int|
            0 <= k < p.len() && (#[trigger] restrict(vs.drop_last(), c)[k]) == vs.drop_last()[i];
        assert(restrict(vs, c)[k] == vs[i]);
    }
}

/// A chain inherits the distinctness of version ids from the ledger.
pub proof fn lemma_restrict_distinct(vs: Seq<VersionView>, c: ClientId)
    requires
        forall|i: int, j: int|
            0 <= i < j < vs.len() ==> (#[trigger] vs[i]).version_id != (#[trigger] vs[j]).version_id,
    ensures
        forall|i: int, j: int|
            0 <= i < j < restrict(vs, c).len() ==> (#[trigger] restrict(vs, c)[i]).version_id != (
            #[trigger] restrict(vs, c)[j]).version_id,
    decreases vs.len(),
{
    if vs.len() > 0 {
        let p = restrict(vs.drop_last(), c);
        lemma_restrict_distinct(vs.drop_last(), c);
        assert forall|i: int, j: int| 0 <= i < j < restrict(vs, c).len() implies (#[trigger] restrict(
            vs,
            c,
        )[i]).version_id != (#[trigger] restrict(vs, c)[j]).version_id by {
            if vs.last().client_id == c && j == p.len() {
                lemma_restrict_sub(vs.drop_last(), c, i);
                let w = choose|w: int|
                    0 <= w < vs.drop_last().len() && (#[trigger] vs.drop_last()[w]) == restrict(
                        vs.drop_last(),
                        c,
                    )[i];
                assert(vs[w] == restrict(vs, c)[i]);
                assert(vs[w].version_id != vs[vs.len() - 1].version_id);
            } else {
                assert(restrict(vs, c)[i] == p[i] && restrict(vs, c)[j] == p[j]);
            }
        }
    }
}

/// No branching: in a well-formed ledger, no two version records of one
/// client claim the same parent.
pub proof fn lemma_no_branching(m: LedgerView, i: int, j: int)
    requires
        m.wf(),
        0 <= i < m.versions.len(),
        0 <= j < m.versions.len(),
        i != j,
        m.versions[i].client_id == m.versions[j].client_id,
    ensures
        m.versions[i].parent_version_id != m.versions[j].parent_version_id,
{
    let c = m.versions[i].client_id;
    let ch = restrict(m.versions, c);
    assert(chain_ok(ch, m.clients[c]));
    lemma_restrict_distinct(m.versions, c);
    lemma_restrict_complete(m.versions, c, i);
    lemma_restrict_complete(m.versions, c, j);
    let k1 = choose|k: int| 0 <= k < ch.len() && (#[trigger] ch[k]) == m.versions[i];
    let k2 = choose|k: int| 0 <= k < ch.len() && (#[trigger] ch[k]) == m.versions[j];
    assert(m.versions[i].version_id != m.versions[j].version_id);
    assert(k1 != k2);
    if m.versions[i].parent_version_id == m.versions[j].parent_version_id {
        if k1 == 0 || k2 == 0 {
            // one record is the chain's root, whose parent is the sentinel;
            // the other's parent is a recorded version's id, never the
            // sentinel
            let kr = if k1 == 0 {
                k2
            } else {
                k1
            };
            assert(ch[kr].parent_version_id == ch[kr - 1].version_id);
            lemma_restrict_sub(m.versions, c, kr - 1);
            let w = choose|w: int|
                0 <= w < m.versions.len() && (#[trigger] m.versions[w]) == ch[kr - 1];
            assert(m.versions[w].version_id != NO_VERSION_ID);
        } else {
            assert(ch[k1].parent_version_id == ch[k1 - 1].version_id);
            assert(ch[k2].parent_version_id == ch[k2 - 1].version_id);
            assert(ch[k1 - 1].version_id == ch[k2 - 1].version_id);
            assert(k1 - 1 == k2 - 1);
        }
    }
}

/// A non-sentinel head pointer always names a recorded version.
pub proof fn lemma_head_is_version(m: LedgerView, c: ClientId)
    requires
        m.wf(),
        m.clients.contains_key(c),
        m.clients[c] != NO_VERSION_ID,
    ensures
        m.has_version(m.clients[c]),
{
    let ch = restrict(m.versions, c);
    assert(chain_ok(ch, m.clients[c]));
    assert(ch.len() > 0);
    lemma_restrict_sub(m.versions, c, ch.len() - 1);
}

/// Accepting a fresh version on top of the current head preserves the
/// invariant, appends to the owning client's chain and touches no other.
pub proof fn lemma_accept_wf(m: LedgerView, v: VersionView)
    requires
        m.wf(),
        m.clients.contains_key(v.client_id),
        v.parent_version_id == m.clients[v.client_id],
        v.version_id != NO_VERSION_ID,
        !m.has_version(v.version_id),
    ensures
        m.with_version(v).wf(),
        m.with_version(v).chain(v.client_id) == m.chain(v.client_id).push(v),
        forall|c2: ClientId|
            c2 != v.client_id ==> m.with_version(v).chain(c2) == #[trigger] m.chain(c2),
{
    let m2 = m.with_version(v);
    assert forall|c2: ClientId| c2 != v.client_id implies m2.chain(c2) == #[trigger] m.chain(
        c2,
    ) by {
        lemma_restrict_push(m.versions, c2, v);
    }
    lemma_restrict_push(m.versions, v.client_id, v);
    let ch = restrict(m.versions, v.client_id);
    let ch2 = restrict(m2.versions, v.client_id);
    assert(ch2 == ch.push(v));
    assert(chain_ok(ch, m.clients[v.client_id]));
    if ch.len() > 0 {
        assert(ch2[0] == ch[0]);
        assert forall|i: int| 1 <= i < ch2.len() implies (#[trigger] ch2[i]).parent_version_id
            == ch2[i - 1].version_id by {
            if i < ch.len() {
                assert(ch2[i] == ch[i] && ch2[i - 1] == ch[i - 1]);
            } else {
                assert(ch2[i] == v && ch2[i - 1] == ch[ch.len() - 1]);
            }
        }
        assert(chain_ok(ch2, v.version_id));
    } else {
        assert(ch2 =~= seq![v]);
        assert(chain_ok(ch2, v.version_id));
    }
    assert forall|c2: ClientId| #[trigger] m2.clients.contains_key(c2) implies chain_ok(
        restrict(m2.versions, c2),
        m2.clients[c2],
    ) by {
        if c2 != v.client_id {
            lemma_restrict_push(m.versions, c2, v);
        }
    }
}

/// Creating a client record with no history preserves the invariant.
pub proof fn lemma_new_client_wf(m: LedgerView, c: ClientId)
    requires
        m.wf(),
        !m.clients.contains_key(c),
    ensures
        m.with_client(c).wf(),
        m.with_client(c).chain(c) == Seq::<VersionView>::empty(),
{
    let m2 = m.with_client(c);
    assert forall|i: int| 0 <= i < m.versions.len() implies (#[trigger] m.versions[i]).client_id
        != c by {}
    lemma_restrict_absent(m.versions, c);
    assert forall|c2: ClientId| #[trigger] m2.clients.contains_key(c2) implies chain_ok(
        restrict(m2.versions, c2),
        m2.clients[c2],
    ) by {
        if c2 == c {
            assert(chain_ok(restrict(m.versions, c), NO_VERSION_ID));
        }
    }
}

/// An entry of the client table.
#[derive(Clone, Copy, Debug, PartialEq, Eq, Structural)]
struct ClientEntry {
    client_id: ClientId,
    latest_version_id: VersionId,
}

/// The client table holds at most one entry per client id.
spec fn distinct_clients(s: Seq<ClientEntry>) -> bool {
    forall|i: int, j: int|
        0 <= i < j < s.len() ==> (#[trigger] s[i]).client_id != (#[trigger] s[j]).client_id
}

/// The map a client table stands for; a later entry would shadow an earlier
/// one, which `distinct_clients` rules out.
spec fn cmap(s: Seq<ClientEntry>) -> Map<ClientId, VersionId>
    decreases s.len(),
{
    if s.len() == 0 {
        Map::empty()
    } else {
        cmap(s.drop_last()).insert(s.last().client_id, s.last().latest_version_id)
    }
}

proof fn lemma_cmap_domain(s: Seq<ClientEntry>, c: ClientId)
    ensures
        cmap(s).contains_key(c) <==> (exists|i: int| 0 <= i < s.len() && (#[trigger] s[i]).client_id
            == c),
    decreases s.len(),
{
    if s.len() > 0 {
        lemma_cmap_domain(s.drop_last(), c);
        if s.last().client_id == c {
            assert(s[s.len() - 1].client_id == c);
        } else if cmap(s).contains_key(c) {
            let i = choose|i: int| 0 <= i < s.drop_last().len() && (#[trigger] s.drop_last()[i]).client_id == c;
            assert(s[i].client_id == c);
        } else {
            assert forall|i: int| 0 <= i < s.len() implies (#[trigger] s[i]).client_id != c by {
                if i < s.len() - 1 {
                    assert(s.drop_last()[i].client_id == s[i].client_id);
                }
            }
        }
    }
}

proof fn lemma_cmap_index(s: Seq<ClientEntry>, i: int)
    requires
        distinct_clients(s),
        0 <= i < s.len(),
    ensures
        cmap(s).contains_key(s[i].client_id),
        cmap(s)[s[i].client_id] == s[i].latest_version_id,
    decreases s.len(),
{
    if i < s.len() - 1 {
        assert(s.drop_last()[i] == s[i]);
        lemma_cmap_index(s.drop_last(), i);
        assert(s[s.len() - 1].client_id != s[i].client_id);
    }
}

proof fn lemma_cmap_update(s: Seq<ClientEntry>, i: int, e: ClientEntry)
    requires
        distinct_clients(s),
        0 <= i < s.len(),
        e.client_id == s[i].client_id,
    ensures
        cmap(s.update(i, e)) == cmap(s).insert(e.client_id, e.latest_version_id),
    decreases s.len(),
{
    let s2 = s.update(i, e);
    if i == s.len() - 1 {
        assert(s2.drop_last() =~= s.drop_last());
        assert(s2.last() == e);
        assert(cmap(s2) =~= cmap(s).insert(e.client_id, e.latest_version_id));
    } else {
        assert(s2.drop_last() =~= s.drop_last().update(i, e));
        assert(s.drop_last()[i] == s[i]);
        lemma_cmap_update(s.drop_last(), i, e);
        assert(s2.last() == s.last());
        assert(s[s.len() - 1].client_id != e.client_id);
        assert(cmap(s2) =~= cmap(s).insert(e.client_id, e.latest_version_id));
    }
}

/// A storage operation that could not be applied.
#[derive(Debug, PartialEq, Eq, Structural)]
pub enum StorageError {
    /// `new_client` found a record for that client id already present.
    AlreadyExists,
}

/// The in-memory reference store: the whole ledger as plain vectors.
pub struct InMemoryStorage {
    clients: Vec<ClientEntry>,
    versions: Vec<Version>,
}

/// A transaction over an [`InMemoryStorage`]: a working client table plus
/// the version records appended through it, against a snapshot of the ledger
/// it was opened from. Stored segments are never copied: the transaction
/// keeps only the version ids that existed at open. Dropping it discards
/// every operation performed through it; only [`Txn::commit`] makes them
/// visible.
pub struct Txn {
    base: Ghost<LedgerView>,
    clients: Vec<ClientEntry>,
    existing_ids: Vec<VersionId>,
    new_versions: Vec<Version>,
}

/// The images of a vector of version records, in order.
spec fn views_of(vs: Seq<Version>) -> Seq<VersionView> {
    vs.map_values(|v: Version| v@)
}

/// The ids of a sequence of version records, in order.
spec fn ids_of(vs: Seq<VersionView>) -> Seq<VersionId> {
    vs.map_values(|v: VersionView| v.version_id)
}

impl View for InMemoryStorage {
    type V = LedgerView;

    closed spec fn view(&self) -> LedgerView {
        LedgerView { clients: cmap(self.clients@), versions: views_of(self.versions@) }
    }
}

impl View for Txn {
    type V = LedgerView;

    closed spec fn view(&self) -> LedgerView {
        LedgerView {
            clients: cmap(self.clients@),
            versions: self.base@.versions + views_of(self.new_versions@),
        }
    }
}

impl InMemoryStorage {
    /// The store is well formed: its ledger satisfies the data-model
    /// invariant and its client table has one entry per client.
    pub closed spec fn wf(&self) -> bool {
        distinct_clients(self.clients@) && self@.wf()
    }

    /// A well-formed store's ledger satisfies [`LedgerView::wf`].
    pub proof fn lemma_wf_view(&self)
        requires
            self.wf(),
        ensures
            self@.wf(),
    {
    }

    /// An empty store: no clients, no versions.
    pub fn new() -> (r: InMemoryStorage)
        ensures
            r.wf(),
            r@.clients == Map::<ClientId, VersionId>::empty(),
            r@.versions == Seq::<VersionView>::empty(),
    {
        let r = InMemoryStorage { clients: Vec::new(), versions: Vec::new() };
        proof {
            assert(r@.versions =~= Seq::<VersionView>::empty());
        }
        r
    }

    /// Open a transaction against the current ledger: the client table and
    /// the existing version ids are copied, the stored segments are not.
    pub fn txn(&self) -> (t: Txn)
        requires
            self.wf(),
        ensures
            t.wf(),
            t@ == self@,
            t.base() == self@,
    {
        let clients = slice_to_vec(self.clients.as_slice());
        let mut existing_ids: Vec<VersionId> = Vec::new();
        let mut i: usize = 0;
        while i < self.versions.len()
            invariant
                i <= self.versions@.len(),
                existing_ids@.len() == i as int,
                forall|j: int| 0 <= j < i ==> (#[trigger] existing_ids@[j])
                    == self.versions@[j].version_id,
            decreases self.versions@.len() - i,
        {
            existing_ids.push(self.versions[i].version_id);
            i += 1;
        }
        let t = Txn {
            base: Ghost(self@),
            clients,
            existing_ids,
            new_versions: Vec::new(),
        };
        proof {
            assert(t@.versions =~= self@.versions);
            assert(t@ =~= self@);
            assert(t.existing_ids@ =~= ids_of(self@.versions));
        }
        t
    }
}

impl Txn {
    /// The ledger this transaction was opened from.
    pub closed spec fn base(&self) -> LedgerView {
        self.base@
    }

    /// The transaction's working ledger is well formed, and its copy of the
    /// existing version ids matches the snapshot it was opened from.
    pub closed spec fn wf(&self) -> bool {
        &&& distinct_clients(self.clients@)
        &&& self@.wf()
        &&& self.existing_ids@ == ids_of(self.base@.versions)
    }

    /// A well-formed transaction's ledger satisfies [`LedgerView::wf`].
    pub proof fn lemma_wf_view(&self)
        requires
            self.wf(),
        ensures
            self@.wf(),
    {
    }

    /// Look up a client record; does not create one.
    pub fn get_client(&self, client_id: ClientId) -> (r: Option<Client>)
        requires
            self.wf(),
        ensures
            match r {
                Some(cl) => self@.clients.contains_key(client_id) && cl.latest_version_id
                    == self@.clients[client_id],
                None => !self@.clients.contains_key(client_id),
            },
    {
        let n = self.clients.len();
        let mut i: usize = 0;
        while i < n
            invariant
                self.wf(),
                n == self.clients@.len(),
                i <= n,
                forall|j: int| 0 <= j < i ==> (#[trigger] self.clients@[j]).client_id
                    != client_id,
            decreases n - i,
        {
            let e = self.clients[i];
            if e.client_id == client_id {
                proof {
                    lemma_cmap_index(self.clients@, i as int);
                }
                return Some(Client { latest_version_id: e.latest_version_id });
            }
            i += 1;
        }
        proof {
            lemma_cmap_domain(self.clients@, client_id);
        }
        None
    }

    /// How many version records the working ledger holds.
    pub fn num_versions(&self) -> (n: u128)
        requires
            self.wf(),
        ensures
            n == self@.versions.len(),
            n < 0x2_0000_0000_0000_0000u128,
    {
        (self.existing_ids.len() as u128) + (self.new_versions.len() as u128)
    }

    /// Whether some version record carries the given id.
    pub fn contains_version(&self, vid: VersionId) -> (r: bool)
        requires
            self.wf(),
        ensures
            r == self@.has_version(vid),
    {
        let ghost nb = self.base@.versions.len() as int;
        let n = self.existing_ids.len();
        let mut i: usize = 0;
        while i < n
            invariant
                self.wf(),
                n == self.existing_ids@.len(),
                i <= n,
                forall|j: int| 0 <= j < i ==> (#[trigger] self@.versions[j]).version_id != vid,
            decreases n - i,
        {
            if self.existing_ids[i] == vid {
                proof {
                    assert(self@.versions[i as int].version_id == vid);
                }
                return true;
            }
            i += 1;
        }
        let m = self.new_versions.len();
        let mut k: usize = 0;
        while k < m
            invariant
                self.wf(),
                n == self.existing_ids@.len(),
                m == self.new_versions@.len(),
                k <= m,
                forall|j: int| 0 <= j < n ==> (#[trigger] self@.versions[j]).version_id != vid,
                forall|j: int| n <= j < n + k ==> (#[trigger] self@.versions[j]).version_id != vid,
            decreases m - k,
        {
            if self.new_versions[k].version_id == vid {
                proof {
                    assert(self@.versions[n + k] == self.new_versions@[k as int]@);
                }
                return true;
            }
            k += 1;
        }
        false
    }

    /// Create a client record with no history yet. Fails with
    /// [`StorageError::AlreadyExists`] if, and only if, one is present.
    pub fn new_client(&mut self, client_id: ClientId, latest_version_id: VersionId) -> (r: Result<
        (),
        StorageError,
    >)
        requires
            old(self).wf(),
            latest_version_id == NO_VERSION_ID,
        ensures
            final(self).wf(),
            final(self).base() == old(self).base(),
            match r {
                Ok(()) => !old(self)@.clients.contains_key(client_id) && final(self)@ == old(
                    self,
                )@.with_client(client_id),
                Err(StorageError::AlreadyExists) => old(self)@.clients.contains_key(client_id)
                    && *final(self) == *old(self),
            },
    {
        let n = self.clients.len();
        let mut i: usize = 0;
        while i < n
            invariant
                self.wf(),
                self == old(self),
                n == self.clients@.len(),
                i <= n,
                forall|j: int| 0 <= j < i ==> (#[trigger] self.clients@[j]).client_id
                    != client_id,
            decreases n - i,
        {
            if self.clients[i].client_id == client_id {
                proof {
                    lemma_cmap_index(self.clients@, i as int);
                }
                return Err(StorageError::AlreadyExists);
            }
            i += 1;
        }
        proof {
            lemma_cmap_domain(self.clients@, client_id);
        }
        let ghost m = self@;
        self.clients.push(ClientEntry { client_id, latest_version_id });
        proof {
            assert(self.clients@.drop_last() =~= old(self).clients@);
            assert(self@.versions =~= m.versions);
            assert(self@ =~= m.with_client(client_id));
            lemma_new_client_wf(m, client_id);
        }
        Ok(())
    }

    /// Persist a new version record and advance the client's head pointer to
    /// it, in one step. The caller must already have verified that
    /// `parent_version_id` is the client's current head; this operation does
    /// not re-check it.
    pub fn add_version(
        &mut self,
        client_id: ClientId,
        version_id: VersionId,
        parent_version_id: VersionId,
        history_segment: Vec<u8>,
    )
        requires
            old(self).wf(),
            old(self)@.clients.contains_key(client_id),
            parent_version_id == old(self)@.clients[client_id],
            version_id != NO_VERSION_ID,
            !old(self)@.has_version(version_id),
        ensures
            final(self).wf(),
            final(self).base() == old(self).base(),
            final(self)@ == old(self)@.with_version(
                VersionView {
                    version_id,
                    client_id,
                    parent_version_id,
                    history_segment: history_segment@,
                },
            ),
    {
        let ghost m = self@;
        let ghost vv = VersionView {
            version_id,
            client_id,
            parent_version_id,
            history_segment: history_segment@,
        };
        proof {
            lemma_cmap_domain(self.clients@, client_id);
        }
        let i = self.client_index(client_id);
        proof {
            lemma_cmap_index(self.clients@, i as int);
            lemma_cmap_update(
                self.clients@,
                i as int,
                ClientEntry { client_id, latest_version_id: version_id },
            );
        }
        self.clients.set(i, ClientEntry { client_id, latest_version_id: version_id });
        self.new_versions.push(
            Version { version_id, client_id, parent_version_id, history_segment },
        );
        proof {
            assert(views_of(self.new_versions@) =~= views_of(old(self).new_versions@).push(vv));
            assert(self@.versions =~= m.versions.push(vv));
            assert(self@ =~= m.with_version(vv));
            lemma_accept_wf(m, vv);
        }
    }

    /// The position of a client's entry in the working client table.
    fn client_index(&self, client_id: ClientId) -> (i: usize)
        requires
            exists|j: int| 0 <= j < self.clients@.len() && (#[trigger] self.clients@[j]).client_id == client_id,
        ensures
            i < self.clients@.len(),
            self.clients@[i as int].client_id == client_id,
    {
        let n = self.clients.len();
        let mut i: usize = 0;
        while i < n
            invariant
                n == self.clients@.len(),
                i <= n,
                forall|j: int| 0 <= j < i ==> (#[trigger] self.clients@[j]).client_id
                    != client_id,
                exists|j: int| 0 <= j < n && (#[trigger] self.clients@[j]).client_id
                    == client_id,
            decreases n - i,
        {
            if self.clients[i].client_id == client_id {
                return i;
            }
            i += 1;
        }
        proof {
            assert(false);
        }
        0
    }

    /// Commit: durably apply every operation performed through this
    /// transaction to the store, as a whole — the new client table replaces
    /// the old one, the new version records are appended. The store must
    /// still hold the ledger the transaction was opened from: transactions
    /// over one store are serialized.
    pub fn commit(self, storage: &mut InMemoryStorage)
        requires
            self.wf(),
            old(storage)@ == self.base(),
        ensures
            final(storage).wf(),
            final(storage)@ == self@,
    {
        let ghost target = self@;
        let Txn { base: _, clients, existing_ids: _, new_versions } = self;
        let mut new_versions = new_versions;
        storage.clients = clients;
        storage.versions.append(&mut new_versions);
        proof {
            assert(views_of(storage.versions@) =~= target.versions);
            assert(storage@ =~= target);
        }
    }
}

} // verus!
