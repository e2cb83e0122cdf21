//! Overlay meshes: named peer groups with a gossip fanout, and a manager of
//! several meshes.
use vstd::prelude::*;
use crate::bytemap::ByteMap;
use crate::pow::hash_eq;

verus! {

/// The identifier of an overlay network.
#[derive(Debug, Clone, Copy, PartialEq, Eq, Hash)]
pub struct OverlayId(pub [u8; 32]);

/// A peer within an overlay mesh.
#[derive(Debug, Clone, Copy, PartialEq, Eq, Hash)]
pub struct OverlayPeer {
    /// The peer's identity.
    pub adnl_id: [u8; 32],
}

/// The kind of message broadcast across an overlay.
#[derive(Debug, Clone)]
pub enum OverlayMessage {
    /// A new transaction announcement.
    Transaction(Vec<u8>),
    /// A new block announcement.
    Block(Vec<u8>),
    /// A vertical patch propagation.
    Patch(Vec<u8>),
    /// An inventory advertisement (hash only).
    Inventory([u8; 32]),
}

/// The peers of a mesh in storage order.
pub open spec fn peers_in_order(order: Seq<[u8; 32]>) -> Seq<OverlayPeer> {
    order.map_values(|k: [u8; 32]| OverlayPeer { adnl_id: k })
}

/// Being a peer other than `origin`.
pub open spec fn other_than(origin: OverlayPeer) -> spec_fn(OverlayPeer) -> bool {
    |p: OverlayPeer| p != origin
}

/// The gossip targets: the peers other than `origin`, in storage order, at
/// most `fanout` of them.
pub open spec fn gossip_targets(order: Seq<[u8; 32]>, origin: OverlayPeer, fanout: usize) -> Seq<
    OverlayPeer,
> {
    let others = peers_in_order(order).filter(other_than(origin));
    others.take(
        if fanout < others.len() {
            fanout as int
        } else {
            others.len() as int
        },
    )
}

/// Filtering out `o` from peers without duplicates keeps them distinct,
/// keeps only peers of `s` other than `o`, and drops exactly one element
/// when `o` is among them.
proof fn lemma_filter_others(s: Seq<OverlayPeer>, o: OverlayPeer)
    requires
        s.no_duplicates(),
    ensures
        s.filter(other_than(o)).no_duplicates(),
        s.filter(other_than(o)).len() == if s.contains(o) {
            s.len() - 1
        } else {
            s.len() as int
        },
        forall|i: int|
            0 <= i < s.filter(other_than(o)).len() ==> s.contains(#[trigger] s.filter(other_than(o))[i])
                && s.filter(other_than(o))[i] != o,
    decreases s.len(),
{
    let pred = other_than(o);
    s.filter_lemma(pred);
    if s.len() == 0 {
        assert(!s.contains(o));
    } else {
        let t = s.drop_last();
        let x = s.last();
        assert(s =~= t.push(x));
        assert(t.no_duplicates()) by {
            assert forall|i: int, j: int| 0 <= i < t.len() && 0 <= j < t.len() && i != j implies t[i]
                != t[j] by {
                assert(t[i] == s[i] && t[j] == s[j]);
            }
        }
        assert(!t.contains(x)) by {
            if t.contains(x) {
                let i = choose|i: int| 0 <= i < t.len() && t[i] == x;
                assert(s[i] == s[s.len() - 1]);
            }
        }
        lemma_filter_others(t, o);
        t.lemma_filter_push(x, pred);
        t.filter_lemma(pred);
        let ft = t.filter(pred);
        assert(s.contains(o) <==> (t.contains(o) || x == o)) by {
            if s.contains(o) && !t.contains(o) {
                let i = choose|i: int| 0 <= i < s.len() && s[i] == o;
                if i < s.len() - 1 {
                    assert(t[i] == o);
                }
            }
            if t.contains(o) {
                let i = choose|i: int| 0 <= i < t.len() && t[i] == o;
                assert(s[i] == o);
            }
        }
        if pred(x) {
            let fs = ft.push(x);
            assert(!ft.contains(x)) by {
                if ft.contains(x) {
                    let i = choose|i: int| 0 <= i < ft.len() && ft[i] == x;
                    assert(t.contains(ft[i]));
                }
            }
            assert(fs.no_duplicates()) by {
                assert forall|i: int, j: int| 0 <= i < fs.len() && 0 <= j < fs.len() && i != j implies fs[i]
                    != fs[j] by {
                    if i < ft.len() && j < ft.len() {
                        assert(fs[i] == ft[i] && fs[j] == ft[j]);
                    } else if i < ft.len() {
                        assert(fs[i] == ft[i]);
                        assert(ft.contains(ft[i]));
                    } else if j < ft.len() {
                        assert(fs[j] == ft[j]);
                        assert(ft.contains(ft[j]));
                    }
                }
            }
            assert forall|i: int| 0 <= i < fs.len() implies s.contains(#[trigger] fs[i]) && fs[i] != o by {
                if i < ft.len() {
                    assert(fs[i] == ft[i]);
                    assert(t.contains(ft[i]));
                    let k = choose|k: int| 0 <= k < t.len() && t[k] == ft[i];
                    assert(s[k] == t[k]);
                } else {
                    assert(s[s.len() - 1] == x);
                }
            }
        } else {
            assert(x == o);
            assert forall|i: int| 0 <= i < ft.len() implies s.contains(#[trigger] ft[i]) && ft[i] != o by {
                assert(t.contains(ft[i]));
                let k = choose|k: int| 0 <= k < t.len() && t[k] == ft[i];
                assert(s[k] == t[k]);
            }
        }
    }
}

/// The number of members other than `origin`.
pub open spec fn others_count(members: Set<[u8; 32]>, origin: OverlayPeer) -> int {
    if members.contains(origin.adnl_id) {
        members.len() - 1
    } else {
        members.len() as int
    }
}

/// One overlay mesh: its members and its gossip fanout.
#[derive(Debug)]
pub struct OverlayMesh {
    /// The overlay's identifier.
    pub id: OverlayId,
    pub(crate) peers: ByteMap<OverlayPeer>,
    pub(crate) fanout: usize,
}

impl OverlayMesh {
    /// The members' identities.
    pub closed spec fn members(&self) -> Set<[u8; 32]> {
        self.peers@.dom()
    }

    /// The members' identities in storage order.
    pub closed spec fn member_order(&self) -> Seq<[u8; 32]> {
        self.peers.order()
    }

    /// The overlay identifier.
    pub open(crate) spec fn spec_id(&self) -> OverlayId {
        self.id
    }

    /// The gossip fanout.
    pub open(crate) spec fn spec_fanout(&self) -> usize {
        self.fanout
    }

    /// Each member is stored under its own identity.
    pub closed spec fn wf(&self) -> bool {
        &&& self.peers.wf()
        &&& forall|k: [u8; 32]| #[trigger] self.peers@.contains_key(k) ==> self.peers@[k].adnl_id == k
    }

    /// The storage order lists every member exactly once.
    pub proof fn lemma_members(&self)
        requires
            self.wf(),
        ensures
            self.member_order().no_duplicates(),
            forall|k: [u8; 32]| #[trigger] self.members().contains(k) <==> self.member_order().contains(k),
            self.members().finite(),
            self.members().len() == self.member_order().len(),
    {
        self.peers.lemma_order();
    }

    /// Creates an empty mesh.
    pub fn new(id: OverlayId, fanout: usize) -> (m: OverlayMesh)
        ensures
            m.wf(),
            m.spec_id() == id,
            m.members() == Set::<[u8; 32]>::empty(),
            m.spec_fanout() == fanout,
    {
        let m = OverlayMesh { id, peers: ByteMap::new(), fanout };
        assert(m.members() =~= Set::<[u8; 32]>::empty());
        m
    }

    /// Adds a peer (no effect if it is already a member).
    pub fn add_peer(&mut self, peer: OverlayPeer)
        requires
            old(self).wf(),
        ensures
            final(self).wf(),
            final(self).spec_id() == old(self).spec_id(),
            final(self).spec_fanout() == old(self).spec_fanout(),
            final(self).members() == old(self).members().insert(peer.adnl_id),
    {
        self.peers.insert(peer.adnl_id, peer);
        assert(self.members() =~= old(self).members().insert(peer.adnl_id));
    }

    /// Removes a peer.
    pub fn remove_peer(&mut self, peer: &OverlayPeer)
        requires
            old(self).wf(),
        ensures
            final(self).wf(),
            final(self).spec_id() == old(self).spec_id(),
            final(self).spec_fanout() == old(self).spec_fanout(),
            final(self).members() == old(self).members().remove(peer.adnl_id),
    {
        self.peers.remove(&peer.adnl_id);
        assert(self.members() =~= old(self).members().remove(peer.adnl_id));
    }

    /// Returns the number of members.
    pub fn peer_count(&self) -> (n: usize)
        requires
            self.wf(),
        ensures
            n == self.members().len(),
    {
        self.peers.len()
    }

    /// Up to `fanout` members other than `origin`, in storage order.
    pub fn select_gossip_targets(&self, origin: &OverlayPeer) -> (r: Vec<&OverlayPeer>)
        requires
            self.wf(),
        ensures
            r@.map_values(|p: &OverlayPeer| *p) == gossip_targets(
                self.member_order(),
                *origin,
                self.spec_fanout(),
            ),
            forall|i: int|
                0 <= i < r@.len() ==> self.members().contains((#[trigger] r@[i]).adnl_id) && *r@[i]
                    != *origin,
            forall|i: int, j: int| 0 <= i < j < r@.len() ==> *(#[trigger] r@[i]) != *(#[trigger] r@[j]),
            r@.len() == if self.spec_fanout() < others_count(self.members(), *origin) {
                self.spec_fanout() as int
            } else {
                others_count(self.members(), *origin)
            },
    {
        let n = self.peers.len();
        let mut r: Vec<&OverlayPeer> = Vec::new();
        let mut i: usize = 0;
        let ghost order = self.member_order();
        let ghost pred = other_than(*origin);
        while i < n && r.len() < self.fanout
            invariant
                self.wf(),
                n == order.len(),
                order == self.member_order(),
                pred == other_than(*origin),
                i <= n,
                r@.len() <= self.fanout,
                r@.map_values(|p: &OverlayPeer| *p) == peers_in_order(order.subrange(0, i as int)).filter(pred),
            decreases n - i,
        {
            let p = self.peers.value_at(i);
            let ghost before = r@;
            proof {
                assert(self.peers@.contains_key(order[i as int]));
                assert(p.adnl_id == order[i as int]);
                let pre = peers_in_order(order.subrange(0, i as int));
                assert(peers_in_order(order.subrange(0, i + 1)) =~= pre.push(*p));
                pre.lemma_filter_push(*p, pred);
            }
            if !hash_eq(&p.adnl_id, &origin.adnl_id) {
                r.push(p);
                proof {
                    assert(*p != *origin);
                    assert(pred(*p));
                    assert(r@.map_values(|q: &OverlayPeer| *q) =~= before.map_values(
                        |q: &OverlayPeer| *q,
                    ).push(*p));
                }
            } else {
                proof {
                    assert(p.adnl_id =~= origin.adnl_id);
                    assert(*p == *origin);
                    assert(!pred(*p));
                }
            }
            i = i + 1;
        }
        proof {
            let others = peers_in_order(order).filter(pred);
            let got = r@.map_values(|p: &OverlayPeer| *p);
            lemma_filter_prefix(peers_in_order(order), i as int, pred);
            assert(peers_in_order(order.subrange(0, i as int)) =~= peers_in_order(order).subrange(
                0,
                i as int,
            ));
            assert(got == others.subrange(0, got.len() as int));
            let m = if self.fanout < others.len() {
                self.fanout as int
            } else {
                others.len() as int
            };
            if i == n {
                assert(order.subrange(0, i as int) =~= order);
                assert(got =~= others);
                assert(got.len() == others.len());
                assert(got.len() == m);
            } else {
                assert(got.len() == self.fanout);
                assert(got.len() == m);
            }
            assert(got =~= others.take(m));
            self.lemma_members();
            let po = peers_in_order(order);
            assert(po.no_duplicates()) by {
                assert forall|a: int, b: int| 0 <= a < po.len() && 0 <= b < po.len() && a != b implies po[a]
                    != po[b] by {
                    assert(po[a].adnl_id == order[a] && po[b].adnl_id == order[b]);
                }
            }
            lemma_filter_others(po, *origin);
            assert(po.contains(*origin) <==> self.members().contains(origin.adnl_id)) by {
                if po.contains(*origin) {
                    let a = choose|a: int| 0 <= a < po.len() && po[a] == *origin;
                    assert(order[a] == origin.adnl_id);
                }
                if self.members().contains(origin.adnl_id) {
                    let a = choose|a: int| 0 <= a < order.len() && order[a] == origin.adnl_id;
                    assert(po[a] == *origin);
                }
            }
            assert forall|a: int| 0 <= a < r@.len() implies self.members().contains((#[trigger] r@[a]).adnl_id)
                && *r@[a] != *origin by {
                assert(got[a] == *r@[a]);
                assert(got[a] == others[a]);
                assert(po.contains(others[a]));
                let k = choose|k: int| 0 <= k < po.len() && po[k] == others[a];
                assert(order[k] == others[a].adnl_id);
            }
            assert forall|a: int, b: int| 0 <= a < b < r@.len() implies *(#[trigger] r@[a]) != *(
            #[trigger] r@[b]) by {
                assert(got[a] == *r@[a] && got[b] == *r@[b]);
                assert(got[a] == others[a] && got[b] == others[b]);
            }
        }
        r
    }

    /// The peers a message from `origin` is forwarded to: the gossip
    /// targets.
    pub fn broadcast(&self, origin: &OverlayPeer, msg: &OverlayMessage) -> (r: Vec<&OverlayPeer>)
        requires
            self.wf(),
        ensures
            r@.map_values(|p: &OverlayPeer| *p) == gossip_targets(
                self.member_order(),
                *origin,
                self.spec_fanout(),
            ),
            forall|i: int|
                0 <= i < r@.len() ==> self.members().contains((#[trigger] r@[i]).adnl_id) && *r@[i]
                    != *origin,
            forall|i: int, j: int| 0 <= i < j < r@.len() ==> *(#[trigger] r@[i]) != *(#[trigger] r@[j]),
            r@.len() == if self.spec_fanout() < others_count(self.members(), *origin) {
                self.spec_fanout() as int
            } else {
                others_count(self.members(), *origin)
            },
    {
        self.select_gossip_targets(origin)
    }
}

/// Filtering a prefix gives a prefix of the filtered sequence.
proof fn lemma_filter_prefix(s: Seq<OverlayPeer>, i: int, pred: spec_fn(OverlayPeer) -> bool)
    requires
        0 <= i <= s.len(),
    ensures
        s.filter(pred).subrange(0, s.subrange(0, i).filter(pred).len() as int) == s.subrange(
            0,
            i,
        ).filter(pred),
        s.subrange(0, i).filter(pred).len() <= s.filter(pred).len(),
    decreases s.len() - i,
{
    if i < s.len() {
        lemma_filter_prefix(s, i + 1, pred);
        let a = s.subrange(0, i);
        let b = s.subrange(0, i + 1);
        assert(b =~= a.push(s[i]));
        a.lemma_filter_push(s[i], pred);
        let fb = b.filter(pred);
        let fa = a.filter(pred);
        let full = s.filter(pred);
        assert(full.subrange(0, fa.len() as int) =~= fb.subrange(0, fa.len() as int));
        assert(fb.subrange(0, fa.len() as int) =~= fa);
    } else {
        assert(s.subrange(0, i) =~= s);
        assert(s.filter(pred).subrange(0, s.filter(pred).len() as int) =~= s.filter(pred));
    }
}

/// Several overlay meshes by identifier.
#[derive(Debug)]
pub struct OverlayManager {
    meshes: ByteMap<OverlayMesh>,
}

impl OverlayManager {
    /// The registered overlay identifiers.
    pub closed spec fn ids(&self) -> Set<[u8; 32]> {
        self.meshes@.dom()
    }

    /// The mesh of an identifier.
    pub closed spec fn mesh(&self, id: [u8; 32]) -> OverlayMesh {
        self.meshes@[id]
    }

    /// The store is well formed and each mesh is stored under its own id.
    pub closed spec fn wf(&self) -> bool {
        &&& self.meshes.wf()
        &&& forall|k: [u8; 32]| #[trigger] self.meshes@.contains_key(k) ==> self.meshes@[k].spec_id().0 == k
            && self.meshes@[k].wf()
    }

    /// Creates a manager with no meshes.
    pub fn new() -> (m: OverlayManager)
        ensures
            m.wf(),
            m.ids() == Set::<[u8; 32]>::empty(),
    {
        let m = OverlayManager { meshes: ByteMap::new() };
        assert(m.ids() =~= Set::<[u8; 32]>::empty());
        m
    }

    /// Registers an empty mesh under `id` with the given fanout, unless one
    /// is already registered there (which is kept as it is).
    pub fn register(&mut self, id: OverlayId, fanout: usize)
        requires
            old(self).wf(),
        ensures
            final(self).wf(),
            final(self).ids() == old(self).ids().insert(id.0),
            old(self).ids().contains(id.0) ==> final(self).mesh(id.0) == old(self).mesh(id.0),
            !old(self).ids().contains(id.0) ==> final(self).mesh(id.0).members() == Set::<
                [u8; 32],
            >::empty() && final(self).mesh(id.0).spec_fanout() == fanout && final(self).mesh(id.0).spec_id()
                == id,
            forall|k: [u8; 32]| k != id.0 && old(self).ids().contains(k) ==> #[trigger] final(self).mesh(k) == old(self).mesh(k),
    {
        if self.meshes.contains_key(&id.0) {
            assert(self.ids() =~= old(self).ids().insert(id.0));
            return;
        }
        self.meshes.insert(id.0, OverlayMesh::new(id, fanout));
        assert(self.ids() =~= old(self).ids().insert(id.0));
    }

    /// A mutable reference to the mesh registered under `id`, if any; what is
    /// written through it becomes that mesh.
    pub fn get_mut(&mut self, id: &OverlayId) -> (r: Option<&mut OverlayMesh>)
        requires
            old(self).wf(),
        ensures
            match r {
                Some(m) => {
                    &&& old(self).ids().contains(id.0)
                    &&& *m == old(self).mesh(id.0)
                    &&& final(self).ids() == old(self).ids()
                    &&& final(self).mesh(id.0) == *final(m)
                    &&& forall|k: [u8; 32]|
                        k != id.0 && old(self).ids().contains(k) ==> #[trigger] final(self).mesh(k)
                            == old(self).mesh(k)
                },
                None => !old(self).ids().contains(id.0) && *final(self) == *old(self),
            },
    {
        self.meshes.get_mut(&id.0)
    }

    /// The mesh registered under `id`, if any.
    pub fn get(&self, id: &OverlayId) -> (r: Option<&OverlayMesh>)
        requires
            self.wf(),
        ensures
            match r {
                Some(m) => self.ids().contains(id.0) && *m == self.mesh(id.0),
                None => !self.ids().contains(id.0),
            },
    {
        self.meshes.get(&id.0)
    }

    /// Removes the mesh registered under `id`.
    pub fn deregister(&mut self, id: &OverlayId)
        requires
            old(self).wf(),
        ensures
            final(self).wf(),
            final(self).ids() == old(self).ids().remove(id.0),
            forall|k: [u8; 32]| k != id.0 && old(self).ids().contains(k) ==> #[trigger] final(self).mesh(k) == old(self).mesh(k),
    {
        self.meshes.remove(&id.0);
        assert(self.ids() =~= old(self).ids().remove(id.0));
    }

    /// Returns the number of registered meshes.
    pub fn mesh_count(&self) -> (n: usize)
        requires
            self.wf(),
        ensures
            n == self.ids().len(),
    {
        self.meshes.len()
    }
}

impl Default for OverlayManager {
    fn default() -> (m: Self)
        ensures
            m.wf(),
            m.ids() == Set::<[u8; 32]>::empty(),
    {
        OverlayManager::new()
    }
}

} // verus!
