//! The validation and mining bot node: an inbound queue of transport
//! messages, a mempool of pending transactions, the chain tip it has seen,
//! and an outbound queue of replies.
use vstd::prelude::*;
use std::collections::VecDeque;
use crate::bytemap::ByteMap;
use crate::transport::{msg_view, spec_hex_decode, spec_hex_encode, MsgView, TgMessage, TgMessageKind};

verus! {

broadcast use vstd::std_specs::vecdeque::group_vec_dequeue_axioms;

/// Maximum number of messages buffered in the inbound queue.
pub const MAX_INBOUND_QUEUE: usize = 1024;

/// Maximum number of pending transactions in the mempool.
pub const MAX_MEMPOOL_SIZE: usize = 4096;

/// The operational state of a bot node.
#[derive(Debug, Clone, PartialEq, Eq)]
pub enum NodeState {
    /// Starting up and syncing.
    Syncing,
    /// Synced and participating.
    Active,
    /// Paused.
    Paused,
    /// Stopped by a fatal error.
    Faulted { reason: String },
}

/// A pending transaction.
#[derive(Debug, Clone)]
pub struct MempoolEntry {
    /// Raw transaction bytes.
    pub tx_bytes: Vec<u8>,
    /// The transaction hash.
    pub tx_hash: [u8; 32],
    /// The fee, for priority ordering.
    pub fee: u64,
    /// When the transaction was received.
    pub received_at: u64,
}

/// What a mempool entry holds.
pub type EntryView = (Seq<u8>, [u8; 32], u64, u64);

/// The view of a mempool entry.
pub open spec fn entry_view(e: MempoolEntry) -> EntryView {
    (e.tx_bytes@, e.tx_hash, e.fee, e.received_at)
}

/// The part of a bot node's state that messages change.
pub struct BotModel {
    /// The mempool by transaction hash.
    pub mempool: Map<[u8; 32], EntryView>,
    /// The chain tip height.
    pub tip_height: u64,
    /// The chain tip hash.
    pub tip_hash: [u8; 32],
    /// The outbound queue.
    pub outbound: Seq<MsgView>,
    /// The next outbound sequence number.
    pub seq: u64,
}

/// Eight bytes read as a little-endian number.
pub open spec fn le_u64_of(b: Seq<u8>) -> int {
    b[0] + 256 * b[1] + 65536 * b[2] + 16777216 * b[3] + 4294967296 * b[4] + 1099511627776 * b[5]
        + 281474976710656 * b[6] + 72057594037927936 * b[7]
}

/// A TX: its decoded payload, at least 32 bytes long, is stored under its
/// first 32 bytes (the hash) with the fee in bytes 32..40 (0 when shorter),
/// unless the mempool is full, the payload is not hex, or the hash is known.
pub open spec fn tx_step(a: BotModel, msg: TgMessage, time: u64, b: BotModel) -> bool {
    match spec_hex_decode(msg.payload_hex@) {
        Some(bytes) => if a.mempool.dom().len() >= MAX_MEMPOOL_SIZE || bytes.len() < 32 {
            b == a
        } else {
            exists|h: [u8; 32]|
                #![trigger a.mempool.dom().contains(h)]
                h@ == bytes.subrange(0, 32) && if a.mempool.dom().contains(h) {
                    b == a
                } else {
                    let fee = if bytes.len() >= 40 {
                        le_u64_of(bytes.subrange(32, 40))
                    } else {
                        0
                    };
                    b == BotModel { mempool: a.mempool.insert(h, (bytes, h, fee as u64, time)), ..a }
                }
        },
        None => b == a,
    }
}

/// A BLOCK: a decoded payload of at least 40 bytes announces a height
/// (bytes 0..8, little-endian) and a hash (bytes 8..40); a height above the
/// tip becomes the tip, and a tenth of the mempool (rounded down) is evicted.
pub open spec fn block_step(a: BotModel, msg: TgMessage, b: BotModel) -> bool {
    match spec_hex_decode(msg.payload_hex@) {
        Some(bytes) => if bytes.len() < 40 || le_u64_of(bytes.subrange(0, 8)) <= a.tip_height {
            b == a
        } else {
            &&& b.tip_height == le_u64_of(bytes.subrange(0, 8))
            &&& b.tip_hash@ == bytes.subrange(8, 40)
            &&& b.outbound == a.outbound
            &&& b.seq == a.seq
            &&& exists|evicted: Set<[u8; 32]>|
                #![trigger a.mempool.remove_keys(evicted)]
                evicted.subset_of(a.mempool.dom()) && evicted.finite() && evicted.len()
                    == a.mempool.dom().len() / 10 && b.mempool == a.mempool.remove_keys(evicted)
        },
        None => b == a,
    }
}

/// A PING: a PONG carrying the node's identity is queued with the next
/// sequence number.
pub open spec fn ping_step(a: BotModel, node_id: [u8; 32], b: BotModel) -> bool {
    b == BotModel {
        outbound: a.outbound.push(
            (TgMessageKind::Pong, a.seq, spec_hex_encode(node_id@), spec_hex_encode(node_id@)),
        ),
        seq: (a.seq + 1) as u64,
        ..a
    }
}

/// Handling one inbound message takes the model from `a` to `b`; kinds
/// other than TX, BLOCK and PING change nothing.
#[verifier::opaque]
pub open spec fn bot_step(a: BotModel, msg: TgMessage, node_id: [u8; 32], time: u64, b: BotModel) -> bool {
    match msg.kind {
        TgMessageKind::Tx => tx_step(a, msg, time, b),
        TgMessageKind::Block => block_step(a, msg, b),
        TgMessageKind::Ping => ping_step(a, node_id, b),
        _ => b == a,
    }
}

/// Handling a message never grows a mempool that is within its bound past
/// `MAX_MEMPOOL_SIZE`, and never lowers the chain tip.
pub proof fn lemma_step_keeps_bounds(a: BotModel, msg: TgMessage, node_id: [u8; 32], time: u64, b: BotModel)
    requires
        bot_step(a, msg, node_id, time, b),
        a.mempool.dom().finite(),
        a.mempool.dom().len() <= MAX_MEMPOOL_SIZE,
    ensures
        b.mempool.dom().finite(),
        b.mempool.dom().len() <= MAX_MEMPOOL_SIZE,
        b.tip_height >= a.tip_height,
{
    reveal(bot_step);
    match msg.kind {
        TgMessageKind::Tx => {
            if b != a {
                let h = choose|h: [u8; 32]|
                    #![trigger a.mempool.dom().contains(h)]
                    h@ == spec_hex_decode(msg.payload_hex@)->Some_0.subrange(0, 32) && if a.mempool.dom().contains(h) {
                        b == a
                    } else {
                        let bytes = spec_hex_decode(msg.payload_hex@)->Some_0;
                        let fee = if bytes.len() >= 40 {
                            le_u64_of(bytes.subrange(32, 40))
                        } else {
                            0
                        };
                        b == BotModel { mempool: a.mempool.insert(h, (bytes, h, fee as u64, time)), ..a }
                    };
                assert(b.mempool.dom() =~= a.mempool.dom().insert(h));
            }
        },
        TgMessageKind::Block => {
            if b != a {
                let evicted = choose|evicted: Set<[u8; 32]>|
                    #![trigger a.mempool.remove_keys(evicted)]
                    evicted.subset_of(a.mempool.dom()) && evicted.finite() && evicted.len()
                        == a.mempool.dom().len() / 10 && b.mempool == a.mempool.remove_keys(evicted);
                assert(b.mempool.dom() =~= a.mempool.dom().difference(evicted));
                vstd::set_lib::lemma_len_subset(b.mempool.dom(), a.mempool.dom());
            }
        },
        _ => {},
    }
}

/// A validation and mining bot node.
#[derive(Debug)]
pub struct BotNode {
    /// The node's identity.
    pub node_id: [u8; 32],
    /// Human-readable node name.
    pub name: String,
    /// Current operational state.
    pub state: NodeState,
    /// Current chain tip hash.
    pub tip_hash: [u8; 32],
    /// Current chain tip height.
    pub tip_height: u64,
    pub(crate) mempool: ByteMap<MempoolEntry>,
    pub(crate) inbound: VecDeque<TgMessage>,
    pub(crate) outbound: VecDeque<TgMessage>,
    pub(crate) seq: u64,
    /// Current time (seconds since the epoch).
    pub current_time: u64,
}

/// Eight bytes of `b` from `start`, read little-endian.
pub(crate) fn read_le_u64(b: &Vec<u8>, start: usize) -> (v: u64)
    requires
        start + 8 <= b@.len(),
    ensures
        v == le_u64_of(b@.subrange(start as int, start + 8)),
{
    let n = b.len();
    assert(start + 8 <= n);
    let v: u64 = b[start] as u64 + 256 * (b[start + 1] as u64) + 65536 * (b[start + 2] as u64)
        + 16777216 * (b[start + 3] as u64) + 4294967296 * (b[start + 4] as u64) + 1099511627776 * (
    b[start + 5] as u64) + 281474976710656 * (b[start + 6] as u64) + 72057594037927936 * (b[start
        + 7] as u64);
    v
}

/// Thirty-two bytes of `b` from `start`.
pub(crate) fn read_hash(b: &Vec<u8>, start: usize) -> (h: [u8; 32])
    requires
        start + 32 <= b@.len(),
    ensures
        h@ == b@.subrange(start as int, start + 32),
{
    let n = b.len();
    let mut h: [u8; 32] = [0u8; 32];
    let mut k: usize = 0;
    while k < 32
        invariant
            k <= 32,
            start + 32 <= b@.len(),
            n == b@.len(),
            forall|m: int| 0 <= m < k ==> h[m] == b@[start + m],
        decreases 32 - k,
    {
        h[k] = b[start + k];
        k = k + 1;
    }
    assert(h@ =~= b@.subrange(start as int, start + 32));
    h
}

impl BotNode {
    /// The part of the state that messages change.
    pub open(crate) spec fn model(&self) -> BotModel {
        BotModel {
            mempool: self.mempool@.map_values(|e: MempoolEntry| entry_view(e)),
            tip_height: self.tip_height,
            tip_hash: self.tip_hash,
            outbound: self.outbound@.map_values(|m: TgMessage| msg_view(m)),
            seq: self.seq,
        }
    }

    /// The queued inbound messages.
    pub closed spec fn inbound_queue(&self) -> Seq<TgMessage> {
        self.inbound@
    }

    /// The node's identity.
    pub open(crate) spec fn spec_node_id(&self) -> [u8; 32] {
        self.node_id
    }

    /// The node's operational state.
    pub open(crate) spec fn spec_state(&self) -> NodeState {
        self.state
    }

    /// The current time.
    pub open(crate) spec fn spec_time(&self) -> u64 {
        self.current_time
    }

    /// The mempool store is well formed and holds each entry under its hash.
    pub closed spec fn wf(&self) -> bool {
        &&& self.mempool.wf()
        &&& forall|k: [u8; 32]| #[trigger] self.mempool@.contains_key(k) ==> self.mempool@[k].tx_hash == k
    }

    /// Creates a syncing node with an empty mempool and queues.
    pub fn new(node_id: [u8; 32], name: String, current_time: u64) -> (n: BotNode)
        ensures
            n.wf(),
            n.spec_node_id() == node_id,
            n.spec_state() == NodeState::Syncing,
            n.spec_time() == current_time,
            n.model().mempool == Map::<[u8; 32], EntryView>::empty(),
            n.model().tip_height == 0,
            forall|i: int| 0 <= i < 32 ==> n.model().tip_hash[i] == 0,
            n.model().outbound == Seq::<MsgView>::empty(),
            n.model().seq == 0,
            n.inbound_queue() == Seq::<TgMessage>::empty(),
    {
        let n = BotNode {
            node_id,
            name,
            state: NodeState::Syncing,
            tip_hash: [0u8; 32],
            tip_height: 0,
            mempool: ByteMap::new(),
            inbound: VecDeque::new(),
            outbound: VecDeque::new(),
            seq: 0,
            current_time,
        };
        assert(n.model().mempool =~= Map::<[u8; 32], EntryView>::empty());
        assert(n.model().outbound =~= Seq::<MsgView>::empty());
        n
    }

    /// Makes the node active.
    pub fn activate(&mut self)
        ensures
            final(self).spec_state() == NodeState::Active,
            final(self).model() == old(self).model(),
            final(self).inbound_queue() == old(self).inbound_queue(),
            final(self).spec_node_id() == old(self).spec_node_id(),
            final(self).spec_time() == old(self).spec_time(),
            final(self).wf() == old(self).wf(),
    {
        self.state = NodeState::Active;
    }

    /// Pauses the node.
    pub fn pause(&mut self)
        ensures
            final(self).spec_state() == NodeState::Paused,
            final(self).model() == old(self).model(),
            final(self).inbound_queue() == old(self).inbound_queue(),
            final(self).spec_node_id() == old(self).spec_node_id(),
            final(self).spec_time() == old(self).spec_time(),
            final(self).wf() == old(self).wf(),
    {
        self.state = NodeState::Paused;
    }

    /// Queues an inbound message; a full queue drops it and returns `false`.
    pub fn receive(&mut self, msg: TgMessage) -> (r: bool)
        ensures
            r == (old(self).inbound_queue().len() < MAX_INBOUND_QUEUE),
            r ==> final(self).inbound_queue() == old(self).inbound_queue().push(msg),
            !r ==> final(self).inbound_queue() == old(self).inbound_queue(),
            final(self).model() == old(self).model(),
            final(self).spec_state() == old(self).spec_state(),
            final(self).spec_node_id() == old(self).spec_node_id(),
            final(self).spec_time() == old(self).spec_time(),
            final(self).wf() == old(self).wf(),
    {
        if self.inbound.len() >= MAX_INBOUND_QUEUE {
            return false;
        }
        self.inbound.push_back(msg);
        true
    }

    /// Handles every queued message in order and empties the queue; returns
    /// how many there were. Each message moves the model one `bot_step`.
    pub fn process_inbound(&mut self) -> (count: usize)
        requires
            old(self).wf(),
            old(self).model().seq + old(self).inbound_queue().len() <= u64::MAX,
        ensures
            final(self).wf(),
            count == old(self).inbound_queue().len(),
            final(self).inbound_queue() == Seq::<TgMessage>::empty(),
            final(self).spec_state() == old(self).spec_state(),
            final(self).spec_node_id() == old(self).spec_node_id(),
            final(self).spec_time() == old(self).spec_time(),
            exists|ms: Seq<BotModel>|
                #![trigger ms.len()]
                ms.len() == count + 1 && ms[0] == old(self).model() && ms[count as int] == final(self).model() && forall|i: int|
                    0 <= i < count ==> bot_step(
                        #[trigger] ms[i],
                        old(self).inbound_queue()[i],
                        old(self).spec_node_id(),
                        old(self).spec_time(),
                        ms[i + 1],
                    ),
    {
        let ghost msgs = self.inbound@;
        let total = self.inbound.len();
        let ghost mut ms: Seq<BotModel> = seq![self.model()];
        let mut count: usize = 0;
        while self.inbound.len() > 0
            invariant
                self.wf(),
                count <= msgs.len(),
                total == msgs.len(),
                self.inbound@ == msgs.subrange(count as int, msgs.len() as int),
                self.spec_state() == old(self).spec_state(),
                self.node_id == old(self).node_id,
                self.current_time == old(self).current_time,
                self.seq + (msgs.len() - count) <= u64::MAX,
                msgs == old(self).inbound_queue(),
                ms.len() == count + 1,
                ms[0] == old(self).model(),
                ms[count as int] == self.model(),
                forall|i: int|
                    0 <= i < count ==> bot_step(
                        #[trigger] ms[i],
                        msgs[i],
                        old(self).node_id,
                        old(self).current_time,
                        ms[i + 1],
                    ),
            decreases self.inbound@.len(),
        {
            let msg = self.inbound.pop_front().unwrap();
            proof {
                assert(msg == msgs[count as int]);
                assert(self.inbound@ =~= msgs.subrange(count + 1, msgs.len() as int));
            }
            let ghost before = self.model();
            self.handle_message(msg);
            proof {
                let ms2 = ms.push(self.model());
                assert forall|i: int|
                    0 <= i < count + 1 implies bot_step(
                    #[trigger] ms2[i],
                    msgs[i],
                    old(self).node_id,
                    old(self).current_time,
                    ms2[i + 1],
                ) by {
                    if i < count {
                        assert(ms2[i] == ms[i] && ms2[i + 1] == ms[i + 1]);
                    } else {
                        assert(ms2[i] == before && ms2[i + 1] == self.model());
                    }
                }
                ms = ms2;
            }
            count = count + 1;
        }
        proof {
            assert(count == msgs.len());
        }
        count
    }

    /// Handles one message.
    fn handle_message(&mut self, msg: TgMessage)
        requires
            old(self).wf(),
            old(self).seq < u64::MAX,
        ensures
            final(self).wf(),
            bot_step(old(self).model(), msg, old(self).node_id, old(self).current_time, final(self).model()),
            final(self).inbound@ == old(self).inbound@,
            final(self).state == old(self).state,
            final(self).node_id == old(self).node_id,
            final(self).current_time == old(self).current_time,
            final(self).seq <= old(self).seq + 1,
    {
        reveal(bot_step);
        match msg.kind {
            TgMessageKind::Tx => self.handle_tx(msg),
            TgMessageKind::Block => self.handle_block(msg),
            TgMessageKind::Ping => self.handle_ping(msg),
            _ => {},
        }
    }

    fn handle_tx(&mut self, msg: TgMessage)
        requires
            old(self).wf(),
        ensures
            final(self).wf(),
            tx_step(old(self).model(), msg, old(self).current_time, final(self).model()),
            final(self).inbound@ == old(self).inbound@,
            final(self).state == old(self).state,
            final(self).node_id == old(self).node_id,
            final(self).current_time == old(self).current_time,
            final(self).seq == old(self).seq,
    {
        proof {
            assert(self.model().mempool.dom() =~= self.mempool@.dom());
        }
        if self.mempool.len() >= MAX_MEMPOOL_SIZE {
            return;
        }
        let bytes = match msg.payload_bytes() {
            Ok(b) => b,
            Err(_) => return,
        };
        if bytes.len() < 32 {
            return;
        }
        let hash = read_hash(&bytes, 0);
        if self.mempool.contains_key(&hash) {
            return;
        }
        let fee = if bytes.len() >= 40 {
            read_le_u64(&bytes, 32)
        } else {
            0
        };
        let ghost bv = bytes@;
        let entry = MempoolEntry { tx_bytes: bytes, tx_hash: hash, fee, received_at: self.current_time };
        self.mempool.insert(hash, entry);
        proof {
            assert(self.model().mempool =~= old(self).model().mempool.insert(
                hash,
                (bv, hash, fee, old(self).current_time),
            ));
        }
    }

    fn handle_block(&mut self, msg: TgMessage)
        requires
            old(self).wf(),
        ensures
            final(self).wf(),
            block_step(old(self).model(), msg, final(self).model()),
            final(self).inbound@ == old(self).inbound@,
            final(self).state == old(self).state,
            final(self).node_id == old(self).node_id,
            final(self).current_time == old(self).current_time,
            final(self).seq == old(self).seq,
    {
        let bytes = match msg.payload_bytes() {
            Ok(b) => b,
            Err(_) => return,
        };
        if bytes.len() < 40 {
            return;
        }
        let height = read_le_u64(&bytes, 0);
        let hash = read_hash(&bytes, 8);
        if height > self.tip_height {
            self.tip_height = height;
            self.tip_hash = hash;
            let count = self.mempool.len() / 10;
            let mut to_remove: Vec<[u8; 32]> = Vec::new();
            let mut i: usize = 0;
            proof {
                self.mempool.lemma_order();
            }
            while i < count
                invariant
                    self.wf(),
                    count == self.mempool@.dom().len() / 10,
                    count <= self.mempool.order().len(),
                    i <= count,
                    to_remove@ == self.mempool.order().take(i as int),
                decreases count - i,
            {
                to_remove.push(*self.mempool.key_at(i));
                proof {
                    assert(self.mempool.order().take(i + 1) =~= self.mempool.order().take(i as int).push(
                        self.mempool.order()[i as int],
                    ));
                }
                i = i + 1;
            }
            let ghost start = self.mempool@;
            let ghost start_model = self.model().mempool;
            let ghost ord = self.mempool.order();
            proof {
                self.mempool.lemma_order();
                let t = self.mempool.order().take(count as int);
                assert(t.no_duplicates()) by {
                    assert forall|a: int, b: int| 0 <= a < b < t.len() implies t[a] != t[b] by {
                        assert(t[a] == self.mempool.order()[a] && t[b] == self.mempool.order()[b]);
                    }
                }
                t.unique_seq_to_set();
                assert forall|k: [u8; 32]| t.to_set().contains(k) implies start.dom().contains(k) by {
                    let w = choose|w: int| 0 <= w < t.len() && t[w] == k;
                    assert(self.mempool.order()[w] == k);
                }
            }
            let mut pool: ByteMap<MempoolEntry> = ByteMap::new();
            std::mem::swap(&mut pool, &mut self.mempool);
            let mut j: usize = 0;
            while j < to_remove.len()
                invariant
                    pool.wf(),
                    forall|k: [u8; 32]| #[trigger] pool@.contains_key(k) ==> pool@[k].tx_hash == k,
                    j <= to_remove@.len(),
                    pool@ == start.remove_keys(to_remove@.take(j as int).to_set()),
                decreases to_remove@.len() - j,
            {
                pool.remove(&to_remove[j]);
                proof {
                    assert(to_remove@.take(j + 1) =~= to_remove@.take(j as int).push(to_remove@[j as int]));
                    to_remove@.take(j as int).lemma_push_to_set_commute(to_remove@[j as int]);
                    assert(pool@ =~= start.remove_keys(to_remove@.take(j + 1).to_set()));
                }
                j = j + 1;
            }
            std::mem::swap(&mut pool, &mut self.mempool);
            proof {
                let evicted = to_remove@.to_set();
                assert(to_remove@.take(j as int) =~= to_remove@);
                assert(self.model().mempool =~= start_model.remove_keys(evicted));
                assert(start_model.remove_keys(evicted) == old(self).model().mempool.remove_keys(evicted));
                assert(evicted.subset_of(old(self).model().mempool.dom()));
                assert(to_remove@ == ord.take(count as int));
                assert(evicted.finite());
                assert(evicted.len() == count);
                assert(old(self).model().mempool.dom() =~= start.dom());
                assert(evicted.len() == old(self).model().mempool.dom().len() / 10);
                assert(self.model().mempool == old(self).model().mempool.remove_keys(evicted));
            }
        }
    }

    fn handle_ping(&mut self, msg: TgMessage)
        requires
            old(self).wf(),
            old(self).seq < u64::MAX,
        ensures
            final(self).wf(),
            ping_step(old(self).model(), old(self).node_id, final(self).model()),
            final(self).inbound@ == old(self).inbound@,
            final(self).state == old(self).state,
            final(self).node_id == old(self).node_id,
            final(self).current_time == old(self).current_time,
            final(self).seq == old(self).seq + 1,
    {
        let seq = self.next_seq();
        let pong = TgMessage::new(TgMessageKind::Pong, &self.node_id, self.node_id, seq);
        let ghost before = self.outbound@;
        self.outbound.push_back(pong);
        proof {
            assert(self.model().outbound =~= old(self).model().outbound.push(msg_view(pong)));
        }
    }

    /// Takes the next outbound message, if any.
    pub fn pop_outbound(&mut self) -> (r: Option<TgMessage>)
        requires
            old(self).wf(),
        ensures
            final(self).wf(),
            match r {
                Some(m) => old(self).model().outbound.len() > 0 && msg_view(m) == old(self).model().outbound[0] && final(self).model() == (BotModel {
                    outbound: old(self).model().outbound.drop_first(),
                    ..old(self).model()
                }),
                None => old(self).model().outbound.len() == 0 && final(self).model() == old(self).model(),
            },
            final(self).inbound_queue() == old(self).inbound_queue(),
            final(self).spec_state() == old(self).spec_state(),
            final(self).spec_node_id() == old(self).spec_node_id(),
            final(self).spec_time() == old(self).spec_time(),
    {
        let r = self.outbound.pop_front();
        proof {
            if r is Some {
                assert(self.model().outbound =~= old(self).model().outbound.drop_first());
            }
        }
        r
    }

    /// Returns the number of pending transactions.
    pub fn mempool_size(&self) -> (n: usize)
        requires
            self.wf(),
        ensures
            n == self.model().mempool.dom().len(),
    {
        assert(self.model().mempool.dom() =~= self.mempool@.dom());
        self.mempool.len()
    }

    /// The pending transactions ordered by fee, highest first.
    pub fn mempool_by_fee(&self) -> (r: Vec<&MempoolEntry>)
        requires
            self.wf(),
        ensures
            r@.len() == self.model().mempool.dom().len(),
            forall|i: int, j: int| 0 <= i < j < r@.len() ==> (#[trigger] r@[i]).fee >= (#[trigger] r@[j]).fee,
            forall|i: int|
                0 <= i < r@.len() ==> self.model().mempool.contains_key((#[trigger] r@[i]).tx_hash)
                    && self.model().mempool[r@[i].tx_hash] == entry_view(*r@[i]),
            forall|i: int, j: int| 0 <= i < j < r@.len() ==> (#[trigger] r@[i]).tx_hash != (#[trigger] r@[j]).tx_hash,
    {
        let n = self.mempool.len();
        proof {
            self.mempool.lemma_order();
            assert(self.model().mempool.dom() =~= self.mempool@.dom());
        }
        let mut r: Vec<&MempoolEntry> = Vec::new();
        let mut i: usize = 0;
        while i < n
            invariant
                self.wf(),
                n == self.mempool.order().len(),
                self.mempool.order().no_duplicates(),
                i <= n,
                r@.len() == i,
                forall|a: int, b: int| 0 <= a < b < r@.len() ==> (#[trigger] r@[a]).fee >= (#[trigger] r@[b]).fee,
                forall|a: int|
                    0 <= a < r@.len() ==> self.mempool@.contains_key((#[trigger] r@[a]).tx_hash)
                        && self.mempool@[r@[a].tx_hash] == *r@[a],
                forall|a: int| 0 <= a < r@.len() ==> self.mempool.order().take(i as int).contains((#[trigger] r@[a]).tx_hash),
                forall|a: int, b: int| 0 <= a < b < r@.len() ==> (#[trigger] r@[a]).tx_hash != (#[trigger] r@[b]).tx_hash,
            decreases n - i,
        {
            let e = self.mempool.value_at(i);
            let ghost key = self.mempool.order()[i as int];
            proof {
                assert(e.tx_hash == key);
                assert(!self.mempool.order().take(i as int).contains(key)) by {
                    if self.mempool.order().take(i as int).contains(key) {
                        let w = choose|w: int| 0 <= w < i && self.mempool.order().take(i as int)[w] == key;
                        assert(self.mempool.order()[w] == self.mempool.order()[i as int]);
                    }
                }
            }
            let mut pos: usize = 0;
            while pos < r.len() && r[pos].fee >= e.fee
                invariant
                    pos <= r@.len(),
                    forall|a: int| 0 <= a < pos ==> (#[trigger] r@[a]).fee >= e.fee,
                decreases r@.len() - pos,
            {
                pos = pos + 1;
            }
            let ghost before = r@;
            r.insert(pos, e);
            proof {
                let after = r@;
                assert(after =~= before.insert(pos as int, e));
                assert forall|a: int, b: int| 0 <= a < b < after.len() implies (#[trigger] after[a]).fee
                    >= (#[trigger] after[b]).fee by {
                    if b < pos {
                        assert(after[a] == before[a] && after[b] == before[b]);
                    } else if b == pos {
                        assert(after[a] == before[a]);
                    } else if a == pos {
                        assert(after[b] == before[b - 1]);
                        if pos < before.len() {
                            assert(before[pos as int].fee < e.fee);
                            if b - 1 > pos {
                                assert(before[pos as int].fee >= before[b - 1].fee);
                            }
                        }
                    } else if a > pos {
                        assert(after[a] == before[a - 1] && after[b] == before[b - 1]);
                    } else {
                        assert(after[a] == before[a] && after[b] == before[b - 1]);
                    }
                }
                let t1 = self.mempool.order().take(i + 1);
                assert(t1 =~= self.mempool.order().take(i as int).push(key));
                assert forall|a: int| 0 <= a < after.len() implies t1.contains((#[trigger] after[a]).tx_hash) by {
                    if a == pos {
                        assert(t1[i as int] == key);
                    } else {
                        let a0 = if a < pos { a } else { a - 1 };
                        assert(after[a] == before[a0]);
                        let w = choose|w: int| 0 <= w < i && self.mempool.order().take(i as int)[w] == before[a0].tx_hash;
                        assert(t1[w] == before[a0].tx_hash);
                    }
                }
                assert forall|a: int| 0 <= a < after.len() implies self.mempool@.contains_key((#[trigger] after[a]).tx_hash)
                    && self.mempool@[after[a].tx_hash] == *after[a] by {
                    if a != pos {
                        let a0 = if a < pos { a } else { a - 1 };
                        assert(after[a] == before[a0]);
                    }
                }
                assert forall|a: int, b: int| 0 <= a < b < after.len() implies (#[trigger] after[a]).tx_hash
                    != (#[trigger] after[b]).tx_hash by {
                    if a == pos || b == pos {
                        let o = if a == pos { b } else { a };
                        let o0 = if o < pos { o } else { o - 1 };
                        assert(after[o] == before[o0]);
                        assert(self.mempool.order().take(i as int).contains(before[o0].tx_hash));
                    } else {
                        let a0 = if a < pos { a } else { a - 1 };
                        let b0 = if b < pos { b } else { b - 1 };
                        assert(after[a] == before[a0] && after[b] == before[b0]);
                    }
                }
            }
            i = i + 1;
        }
        r
    }

    fn next_seq(&mut self) -> (s: u64)
        requires
            old(self).seq < u64::MAX,
        ensures
            s == old(self).seq,
            final(self).seq == old(self).seq + 1,
            final(self).mempool == old(self).mempool,
            final(self).inbound@ == old(self).inbound@,
            final(self).outbound@ == old(self).outbound@,
            final(self).state == old(self).state,
            final(self).node_id == old(self).node_id,
            final(self).current_time == old(self).current_time,
            final(self).tip_height == old(self).tip_height,
            final(self).tip_hash == old(self).tip_hash,
    {
        let s = self.seq;
        self.seq = self.seq + 1;
        s
    }

    /// Queues a message of the given kind and payload from this node, with
    /// the next sequence number.
    pub fn broadcast(&mut self, kind: TgMessageKind, payload: &[u8])
        requires
            old(self).wf(),
            old(self).model().seq < u64::MAX,
            2 * payload@.len() <= usize::MAX,
        ensures
            final(self).wf(),
            final(self).model() == (BotModel {
                outbound: old(self).model().outbound.push(
                    (kind, old(self).model().seq, spec_hex_encode(old(self).spec_node_id()@), spec_hex_encode(payload@)),
                ),
                seq: (old(self).model().seq + 1) as u64,
                ..old(self).model()
            }),
            final(self).inbound_queue() == old(self).inbound_queue(),
            final(self).spec_state() == old(self).spec_state(),
            final(self).spec_node_id() == old(self).spec_node_id(),
            final(self).spec_time() == old(self).spec_time(),
    {
        let seq = self.next_seq();
        let msg = TgMessage::new(kind, payload, self.node_id, seq);
        self.outbound.push_back(msg);
        proof {
            assert(self.model().outbound =~= old(self).model().outbound.push(msg_view(msg)));
            assert(self.model().mempool == old(self).model().mempool);
        }
    }
}

} // verus!
