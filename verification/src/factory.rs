//! The node factory bot: derives identities for new nodes from their key
//! seeds, keeps the registry of known nodes, and ships the genesis snapshot
//! to each registered node once.
use vstd::prelude::*;
use std::collections::VecDeque;
use vstd::slice::slice_to_vec;
use vstd::utf8::encode_utf8;
use crate::adnl::{push_bytes, spec_public_key, PrivateKey};
use crate::bytemap::ByteMap;
use crate::pow::{sha256, spec_sha256};
use crate::transport::{msg_view, spec_hex_encode, MsgView, TgMessage, TgMessageKind};

verus! {

broadcast use vstd::std_specs::vecdeque::group_vec_dequeue_axioms;

/// The public key derived from a seed: SHA-256 of the seed followed by `pubkey`.
pub open spec fn derived_public_key(seed: Seq<u8>) -> Seq<u8> {
    spec_public_key(seed)
}

/// The node identity derived from a seed: SHA-256 of its public key.
pub open spec fn derived_node_id(seed: Seq<u8>) -> Seq<u8> {
    spec_sha256(derived_public_key(seed))
}

/// A registered node.
#[derive(Debug, Clone)]
pub struct NodeRecord {
    /// The node's identity (SHA-256 of its public key).
    pub node_id: [u8; 32],
    /// The node's public key.
    pub public_key: [u8; 32],
    /// The node's network address (host:port).
    pub address: String,
    /// When the node was registered.
    pub registered_at: u64,
    /// Whether the node has received its genesis snapshot.
    pub genesis_shipped: bool,
}

/// What a node record holds.
pub type RecordView = ([u8; 32], [u8; 32], Seq<char>, u64, bool);

/// The view of a node record.
pub open spec fn record_view(r: NodeRecord) -> RecordView {
    (r.node_id, r.public_key, r.address@, r.registered_at, r.genesis_shipped)
}

/// Errors from factory operations.
#[derive(Debug, Clone, Copy, PartialEq, Eq, Structural)]
pub enum FactoryError {
    /// A node with this identity is already registered.
    AlreadyRegistered,
    /// No node with this identity is registered.
    NodeNotFound,
    /// The genesis snapshot was already shipped to this node.
    GenesisAlreadyShipped,
}

/// The state of the factory that its operations change.
pub struct FactoryModel {
    /// The registry by node identity.
    pub nodes: Map<[u8; 32], RecordView>,
    /// The genesis snapshot.
    pub genesis: Seq<u8>,
    /// The outbound queue.
    pub outbound: Seq<MsgView>,
    /// The next outbound sequence number.
    pub seq: u64,
}

/// The node factory bot.
#[derive(Debug)]
pub struct FactoryBot {
    /// The factory's own identity.
    pub factory_id: [u8; 32],
    pub(crate) nodes: ByteMap<NodeRecord>,
    pub(crate) genesis_bytes: Vec<u8>,
    pub(crate) outbound: VecDeque<TgMessage>,
    pub(crate) seq: u64,
    /// Current time.
    pub current_time: u64,
}

impl FactoryBot {
    /// The registry, genesis snapshot, outbound queue and sequence counter.
    pub open(crate) spec fn model(&self) -> FactoryModel {
        FactoryModel {
            nodes: self.nodes@.map_values(|r: NodeRecord| record_view(r)),
            genesis: self.genesis_bytes@,
            outbound: self.outbound@.map_values(|m: TgMessage| msg_view(m)),
            seq: self.seq,
        }
    }

    /// The factory's identity.
    pub open(crate) spec fn spec_factory_id(&self) -> [u8; 32] {
        self.factory_id
    }

    /// The current time.
    pub open(crate) spec fn spec_time(&self) -> u64 {
        self.current_time
    }

    /// The registry store is well formed and holds each record under its
    /// node identity.
    pub closed spec fn wf(&self) -> bool {
        &&& self.nodes.wf()
        &&& forall|k: [u8; 32]| #[trigger] self.nodes@.contains_key(k) ==> self.nodes@[k].node_id == k
    }

    /// Creates a factory with an empty registry.
    pub fn new(factory_id: [u8; 32], genesis_bytes: Vec<u8>, current_time: u64) -> (f: FactoryBot)
        ensures
            f.wf(),
            f.spec_factory_id() == factory_id,
            f.spec_time() == current_time,
            f.model().nodes == Map::<[u8; 32], RecordView>::empty(),
            f.model().genesis == genesis_bytes@,
            f.model().outbound == Seq::<MsgView>::empty(),
            f.model().seq == 0,
    {
        let f = FactoryBot {
            factory_id,
            nodes: ByteMap::new(),
            genesis_bytes,
            outbound: VecDeque::new(),
            seq: 0,
            current_time,
        };
        assert(f.model().nodes =~= Map::<[u8; 32], RecordView>::empty());
        assert(f.model().outbound =~= Seq::<MsgView>::empty());
        f
    }

    /// Registers the node whose key seed is `seed`: its public key is
    /// SHA-256 of the seed followed by `pubkey`, its identity SHA-256 of the
    /// public key. A new identity is recorded with `address`, and a
    /// confirmation carrying the identity followed by the address bytes is
    /// queued; a known identity is refused and nothing changes.
    pub fn register_node(&mut self, seed: [u8; 32], address: String) -> (r: Result<[u8; 32], FactoryError>)
        requires
            old(self).wf(),
            old(self).model().seq < u64::MAX,
            2 * (32 + encode_utf8(address@).len()) <= usize::MAX,
        ensures
            final(self).wf(),
            final(self).spec_factory_id() == old(self).spec_factory_id(),
            final(self).spec_time() == old(self).spec_time(),
            match r {
                Ok(id) => {
                    &&& id@ == derived_node_id(seed@)
                    &&& !old(self).model().nodes.contains_key(id)
                    &&& exists|pk: [u8; 32]|
                        pk@ == derived_public_key(seed@) && final(self).model() == (FactoryModel {
                            nodes: old(self).model().nodes.insert(
                                id,
                                (id, pk, address@, old(self).spec_time(), false),
                            ),
                            outbound: old(self).model().outbound.push(
                                (
                                    TgMessageKind::Pong,
                                    old(self).model().seq,
                                    spec_hex_encode(old(self).spec_factory_id()@),
                                    spec_hex_encode(id@ + encode_utf8(address@)),
                                ),
                            ),
                            seq: (old(self).model().seq + 1) as u64,
                            ..old(self).model()
                        })
                },
                Err(e) => {
                    &&& e == FactoryError::AlreadyRegistered
                    &&& exists|k: [u8; 32]|
                        k@ == derived_node_id(seed@) && #[trigger] old(self).model().nodes.contains_key(k)
                    &&& final(self).model() == old(self).model()
                },
            },
    {
        let public_key = PrivateKey::from_bytes(seed).public_key().0;
        let node_id = sha256(&public_key);
        if self.nodes.contains_key(&node_id) {
            proof {
                assert(self.model().nodes.contains_key(node_id));
            }
            return Err(FactoryError::AlreadyRegistered);
        }
        let mut payload = slice_to_vec(&node_id);
        push_bytes(&mut payload, address.as_str().as_bytes());
        let record = NodeRecord {
            node_id,
            public_key,
            address,
            registered_at: self.current_time,
            genesis_shipped: false,
        };
        let ghost rv = record_view(record);
        self.nodes.insert(node_id, record);
        let seq = self.next_seq();
        let msg = TgMessage::new(TgMessageKind::Pong, payload.as_slice(), self.factory_id, seq);
        self.outbound.push_back(msg);
        proof {
            assert(self.model().nodes =~= old(self).model().nodes.insert(node_id, rv));
            assert(self.model().outbound =~= old(self).model().outbound.push(msg_view(msg)));
        }
        Ok(node_id)
    }

    /// Ships the genesis snapshot to a registered node that has not had it:
    /// the record is marked and the snapshot queued as a BLOCK message.
    pub fn ship_genesis(&mut self, node_id: &[u8; 32]) -> (r: Result<(), FactoryError>)
        requires
            old(self).wf(),
            old(self).model().seq < u64::MAX,
            2 * old(self).model().genesis.len() <= usize::MAX,
        ensures
            final(self).wf(),
            final(self).spec_factory_id() == old(self).spec_factory_id(),
            final(self).spec_time() == old(self).spec_time(),
            !old(self).model().nodes.contains_key(*node_id) ==> r == Err::<(), FactoryError>(
                FactoryError::NodeNotFound,
            ) && final(self).model() == old(self).model(),
            old(self).model().nodes.contains_key(*node_id) && old(self).model().nodes[*node_id].4
                ==> r == Err::<(), FactoryError>(FactoryError::GenesisAlreadyShipped) && final(self).model()
                == old(self).model(),
            old(self).model().nodes.contains_key(*node_id) && !old(self).model().nodes[*node_id].4
                ==> r == Ok::<(), FactoryError>(()) && final(self).model() == (FactoryModel {
                nodes: old(self).model().nodes.insert(
                    *node_id,
                    (
                        old(self).model().nodes[*node_id].0,
                        old(self).model().nodes[*node_id].1,
                        old(self).model().nodes[*node_id].2,
                        old(self).model().nodes[*node_id].3,
                        true,
                    ),
                ),
                outbound: old(self).model().outbound.push(
                    (
                        TgMessageKind::Block,
                        old(self).model().seq,
                        spec_hex_encode(old(self).spec_factory_id()@),
                        spec_hex_encode(old(self).model().genesis),
                    ),
                ),
                seq: (old(self).model().seq + 1) as u64,
                ..old(self).model()
            }),
    {
        match self.nodes.get(node_id) {
            None => {
                proof {
                    assert(!self.model().nodes.contains_key(*node_id));
                }
                return Err(FactoryError::NodeNotFound);
            },
            Some(record) => {
                if record.genesis_shipped {
                    return Err(FactoryError::GenesisAlreadyShipped);
                }
            },
        }
        if let Some(record) = self.nodes.get_mut(node_id) {
            record.genesis_shipped = true;
        }
        proof {
            assert(self.model().nodes =~= old(self).model().nodes.insert(
                *node_id,
                (
                    old(self).model().nodes[*node_id].0,
                    old(self).model().nodes[*node_id].1,
                    old(self).model().nodes[*node_id].2,
                    old(self).model().nodes[*node_id].3,
                    true,
                ),
            ));
        }
        let seq = self.next_seq();
        let msg = TgMessage::new(TgMessageKind::Block, self.genesis_bytes.as_slice(), self.factory_id, seq);
        self.outbound.push_back(msg);
        proof {
            assert(self.model().outbound =~= old(self).model().outbound.push(msg_view(msg)));
        }
        Ok(())
    }

    /// Takes the next outbound message, if any.
    pub fn pop_outbound(&mut self) -> (r: Option<TgMessage>)
        ensures
            final(self).wf() == old(self).wf(),
            final(self).spec_factory_id() == old(self).spec_factory_id(),
            final(self).spec_time() == old(self).spec_time(),
            match r {
                Some(m) => old(self).model().outbound.len() > 0 && msg_view(m) == old(self).model().outbound[0]
                    && final(self).model() == (FactoryModel {
                    outbound: old(self).model().outbound.drop_first(),
                    ..old(self).model()
                }),
                None => old(self).model().outbound.len() == 0 && final(self).model() == old(self).model(),
            },
    {
        let r = self.outbound.pop_front();
        proof {
            if r is Some {
                assert(self.model().outbound =~= old(self).model().outbound.drop_first());
            }
        }
        r
    }

    /// Returns the number of registered nodes.
    pub fn node_count(&self) -> (n: usize)
        requires
            self.wf(),
        ensures
            n == self.model().nodes.dom().len(),
    {
        assert(self.model().nodes.dom() =~= self.nodes@.dom());
        self.nodes.len()
    }

    /// Returns the record of a registered node.
    pub fn get_node(&self, node_id: &[u8; 32]) -> (r: Option<&NodeRecord>)
        requires
            self.wf(),
        ensures
            match r {
                Some(rec) => self.model().nodes.contains_key(*node_id) && record_view(*rec)
                    == self.model().nodes[*node_id],
                None => !self.model().nodes.contains_key(*node_id),
            },
    {
        self.nodes.get(node_id)
    }

    fn next_seq(&mut self) -> (s: u64)
        requires
            old(self).seq < u64::MAX,
        ensures
            s == old(self).seq,
            final(self).seq == old(self).seq + 1,
            final(self).nodes == old(self).nodes,
            final(self).genesis_bytes == old(self).genesis_bytes,
            final(self).outbound == old(self).outbound,
            final(self).spec_factory_id() == old(self).spec_factory_id(),
            final(self).spec_time() == old(self).spec_time(),
    {
        let s = self.seq;
        self.seq = self.seq + 1;
        s
    }
}

} // verus!
