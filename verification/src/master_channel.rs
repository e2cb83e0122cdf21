//! The one-way downstream sync from the network's master channel: messages
//! from the master identity that are fresh enough are buffered as events,
//! and block announcements move the known chain tip forward.
use vstd::prelude::*;
use std::collections::VecDeque;
use crate::bot_node::{le_u64_of, read_hash, read_le_u64};
use crate::transport::{msg_view, spec_hex_decode, string_of, MsgView, TgMessage, TgMessageKind};

verus! {

broadcast use vstd::std_specs::vecdeque::group_vec_dequeue_axioms;

/// Maximum number of buffered events.
pub const MASTER_CHANNEL_BUFFER: usize = 512;

/// Maximum age of a master channel message, in seconds.
pub const MASTER_MSG_MAX_AGE_SECS: u64 = 300;

/// The meaning of a master channel message.
#[derive(Debug, Clone, Copy, PartialEq, Eq, Structural)]
pub enum MasterMsgKind {
    /// A new block on the canonical chain.
    NewBlock,
    /// A difficulty retarget.
    DifficultyUpdate,
    /// A vertical patch.
    PatchAnnouncement,
    /// A checkpoint hash for fast sync.
    Checkpoint,
    /// Any other message, passed through.
    Raw,
}

/// A decoded master channel event.
#[derive(Debug, Clone)]
pub struct MasterEvent {
    /// What the event means.
    pub kind: MasterMsgKind,
    /// The transport message.
    pub message: TgMessage,
    /// The height the event refers to.
    pub ref_height: u64,
    /// When the event was received.
    pub received_at: u64,
}

/// What an event holds.
pub type EventView = (MasterMsgKind, MsgView, u64, u64);

/// The view of an event.
pub open spec fn event_view(e: MasterEvent) -> EventView {
    (e.kind, msg_view(e.message), e.ref_height, e.received_at)
}

/// Errors from master channel processing.
#[derive(Debug, Clone, Copy, PartialEq, Eq, Structural)]
pub enum MasterChannelError {
    /// The sender is not the master identity.
    UnauthorisedSender,
    /// The message is too old to be trusted.
    StaleMessage,
    /// The payload could not be decoded.
    DecodeFailed,
}

/// The sentence that describes a master channel error.
pub open spec fn master_error_text(e: MasterChannelError) -> Seq<char> {
    match e {
        MasterChannelError::UnauthorisedSender => "unauthorised master channel sender"@,
        MasterChannelError::StaleMessage => "master channel message is stale"@,
        MasterChannelError::DecodeFailed => "failed to decode master channel message"@,
    }
}

impl MasterChannelError {
    /// A sentence that describes the error.
    pub fn message(&self) -> (s: String)
        ensures
            s@ == master_error_text(*self),
    {
        match self {
            MasterChannelError::UnauthorisedSender => string_of("unauthorised master channel sender"),
            MasterChannelError::StaleMessage => string_of("master channel message is stale"),
            MasterChannelError::DecodeFailed => string_of("failed to decode master channel message"),
        }
    }
}

/// The meaning of a transport message kind on the master channel.
pub open spec fn master_kind_of(k: TgMessageKind) -> MasterMsgKind {
    match k {
        TgMessageKind::Block => MasterMsgKind::NewBlock,
        TgMessageKind::Patch => MasterMsgKind::PatchAnnouncement,
        TgMessageKind::Inv => MasterMsgKind::Checkpoint,
        _ => MasterMsgKind::Raw,
    }
}

/// The height a message refers to: its first eight payload bytes read
/// little-endian, or 0 when the payload is not hex or shorter.
pub open spec fn ref_height_of(msg: TgMessage) -> u64 {
    match spec_hex_decode(msg.payload_hex@) {
        Some(b) => if b.len() >= 8 {
            le_u64_of(b.subrange(0, 8)) as u64
        } else {
            0
        },
        None => 0,
    }
}

/// The state of a subscriber that ingesting changes.
pub struct MasterModel {
    /// The buffered events, oldest first.
    pub buffer: Seq<EventView>,
    /// The latest known chain tip height.
    pub latest_height: u64,
    /// The latest known chain tip hash.
    pub latest_hash: [u8; 32],
    /// Messages received.
    pub total_received: u64,
    /// Messages rejected.
    pub total_rejected: u64,
    /// When the latest height last changed, if it ever did.
    pub height_updated_at: Option<u64>,
}

/// The state after ingesting a message from the master identity that is
/// fresh enough, received at `now`: the oldest event is dropped from a full
/// buffer, the event is appended, and a block announcement above the known
/// height becomes the tip (its hash from payload bytes 8..40 when present),
/// changed at `now`.
pub open spec fn accepted(a: MasterModel, msg: TgMessage, now: u64, b: MasterModel) -> bool {
    let kind = master_kind_of(msg.kind);
    let h = ref_height_of(msg);
    let kept = if a.buffer.len() >= MASTER_CHANNEL_BUFFER {
        a.buffer.drop_first()
    } else {
        a.buffer
    };
    &&& b.buffer == kept.push((kind, msg_view(msg), h, now))
    &&& b.total_received == a.total_received + 1
    &&& b.total_rejected == a.total_rejected
    &&& if kind == MasterMsgKind::NewBlock && h > a.latest_height {
        &&& b.latest_height == h
        &&& b.height_updated_at == Some(now)
        &&& match spec_hex_decode(msg.payload_hex@) {
            Some(bytes) => if bytes.len() >= 40 {
                b.latest_hash@ == bytes.subrange(8, 40)
            } else {
                b.latest_hash == a.latest_hash
            },
            None => b.latest_hash == a.latest_hash,
        }
    } else {
        b.latest_height == a.latest_height && b.latest_hash == a.latest_hash && b.height_updated_at
            == a.height_updated_at
    }
}

/// Ingesting never moves the known tip back: the latest height after an
/// accepted message is the larger of the old height and the message's block
/// height for a block announcement, and unchanged otherwise. The message
/// becomes the newest buffered event, the buffer never exceeds its capacity,
/// and the events kept are the newest ones that were there before.
pub proof fn lemma_ingest_keeps_tip(a: MasterModel, msg: TgMessage, now: u64, b: MasterModel)
    requires
        accepted(a, msg, now, b),
        a.buffer.len() <= MASTER_CHANNEL_BUFFER,
    ensures
        b.latest_height >= a.latest_height,
        master_kind_of(msg.kind) == MasterMsgKind::NewBlock ==> b.latest_height == if ref_height_of(
            msg,
        ) > a.latest_height {
            ref_height_of(msg)
        } else {
            a.latest_height
        },
        master_kind_of(msg.kind) != MasterMsgKind::NewBlock ==> b.latest_height == a.latest_height
            && b.latest_hash == a.latest_hash,
        b.buffer.len() <= MASTER_CHANNEL_BUFFER,
        b.buffer.len() == if a.buffer.len() < MASTER_CHANNEL_BUFFER {
            a.buffer.len() + 1int
        } else {
            a.buffer.len() as int
        },
        b.buffer.last() == (master_kind_of(msg.kind), msg_view(msg), ref_height_of(msg), now),
        forall|i: int|
            0 <= i < b.buffer.len() - 1 ==> #[trigger] b.buffer[i] == a.buffer[i + a.buffer.len()
                - (b.buffer.len() - 1)],
{
}

/// A subscriber to the master channel.
#[derive(Debug)]
pub struct MasterChannelSubscriber {
    /// The master channel's identity, hex-encoded.
    pub master_id: String,
    pub(crate) buffer: VecDeque<MasterEvent>,
    /// The latest known chain tip height.
    pub latest_height: u64,
    /// The latest known chain tip hash.
    pub latest_hash: [u8; 32],
    /// Current time.
    pub current_time: u64,
    /// Messages received.
    pub total_received: u64,
    /// Messages rejected (wrong sender or stale).
    pub total_rejected: u64,
    pub(crate) height_updated_at: Option<u64>,
}

impl MasterChannelSubscriber {
    /// The buffered events, the tip and the counters.
    pub open(crate) spec fn model(&self) -> MasterModel {
        MasterModel {
            buffer: self.buffer@.map_values(|e: MasterEvent| event_view(e)),
            latest_height: self.latest_height,
            latest_hash: self.latest_hash,
            total_received: self.total_received,
            total_rejected: self.total_rejected,
            height_updated_at: self.height_updated_at,
        }
    }

    /// The master identity, hex-encoded.
    pub open(crate) spec fn spec_master_id(&self) -> Seq<char> {
        self.master_id@
    }

    /// The current time.
    pub open(crate) spec fn spec_time(&self) -> u64 {
        self.current_time
    }

    /// Creates a subscriber with an empty buffer and no known tip.
    pub fn new(master_id: String, current_time: u64) -> (s: MasterChannelSubscriber)
        ensures
            s.spec_master_id() == master_id@,
            s.spec_time() == current_time,
            s.model().buffer == Seq::<EventView>::empty(),
            s.model().latest_height == 0,
            forall|i: int| 0 <= i < 32 ==> s.model().latest_hash[i] == 0,
            s.model().total_received == 0,
            s.model().total_rejected == 0,
            s.model().height_updated_at is None,
    {
        let s = MasterChannelSubscriber {
            master_id,
            buffer: VecDeque::new(),
            latest_height: 0,
            latest_hash: [0u8; 32],
            current_time,
            total_received: 0,
            total_rejected: 0,
            height_updated_at: None,
        };
        assert(s.model().buffer =~= Seq::<EventView>::empty());
        s
    }

    /// Ingests a message stamped `msg_timestamp`. A sender other than the
    /// master identity is refused, then a message more than
    /// `MASTER_MSG_MAX_AGE_SECS` older than the current time; either counts
    /// as rejected. Every message counts as received.
    pub fn ingest(&mut self, msg: TgMessage, msg_timestamp: u64) -> (r: Result<(), MasterChannelError>)
        requires
            old(self).model().total_received < u64::MAX,
            old(self).model().total_rejected < u64::MAX,
        ensures
            final(self).spec_master_id() == old(self).spec_master_id(),
            final(self).spec_time() == old(self).spec_time(),
            msg.sender_id@ != old(self).spec_master_id() ==> r == Err::<(), MasterChannelError>(
                MasterChannelError::UnauthorisedSender,
            ) && final(self).model() == (MasterModel {
                total_received: (old(self).model().total_received + 1) as u64,
                total_rejected: (old(self).model().total_rejected + 1) as u64,
                ..old(self).model()
            }),
            msg.sender_id@ == old(self).spec_master_id() && old(self).spec_time() - msg_timestamp
                > MASTER_MSG_MAX_AGE_SECS ==> r == Err::<(), MasterChannelError>(
                MasterChannelError::StaleMessage,
            ) && final(self).model() == (MasterModel {
                total_received: (old(self).model().total_received + 1) as u64,
                total_rejected: (old(self).model().total_rejected + 1) as u64,
                ..old(self).model()
            }),
            msg.sender_id@ == old(self).spec_master_id() && old(self).spec_time() - msg_timestamp
                <= MASTER_MSG_MAX_AGE_SECS ==> r == Ok::<(), MasterChannelError>(()) && accepted(
                old(self).model(),
                msg,
                old(self).spec_time(),
                final(self).model(),
            ),
            old(self).model().buffer.len() <= MASTER_CHANNEL_BUFFER ==> final(self).model().buffer.len()
                <= MASTER_CHANNEL_BUFFER,
            final(self).model().latest_height >= old(self).model().latest_height,
    {
        self.total_received = self.total_received + 1;
        if !(msg.sender_id == self.master_id) {
            self.total_rejected = self.total_rejected + 1;
            return Err(MasterChannelError::UnauthorisedSender);
        }
        let age = self.current_time.saturating_sub(msg_timestamp);
        if age > MASTER_MSG_MAX_AGE_SECS {
            self.total_rejected = self.total_rejected + 1;
            return Err(MasterChannelError::StaleMessage);
        }
        let ghost start = self.model().buffer;
        if self.buffer.len() >= MASTER_CHANNEL_BUFFER {
            self.buffer.pop_front();
        }
        let ghost kept = self.model().buffer;
        proof {
            if start.len() >= MASTER_CHANNEL_BUFFER {
                assert(kept =~= start.drop_first());
            }
        }
        let (kind, ref_height) = self.decode_kind(&msg);
        if kind == MasterMsgKind::NewBlock && ref_height > self.latest_height {
            self.latest_height = ref_height;
            self.height_updated_at = Some(self.current_time);
            if let Ok(bytes) = msg.payload_bytes() {
                if bytes.len() >= 40 {
                    self.latest_hash = read_hash(&bytes, 8);
                }
            }
        }
        let ghost ev = (kind, msg_view(msg), ref_height, self.current_time);
        self.buffer.push_back(MasterEvent { kind, message: msg, ref_height, received_at: self.current_time });
        proof {
            assert(self.model().buffer =~= kept.push(ev));
        }
        Ok(())
    }

    /// The meaning of a message and the height it refers to.
    fn decode_kind(&self, msg: &TgMessage) -> (r: (MasterMsgKind, u64))
        ensures
            r.0 == master_kind_of(msg.kind),
            r.1 == ref_height_of(*msg),
    {
        let height = match msg.payload_bytes() {
            Ok(b) => if b.len() >= 8 {
                read_le_u64(&b, 0)
            } else {
                0
            },
            Err(_) => 0,
        };
        let kind = match msg.kind {
            TgMessageKind::Block => MasterMsgKind::NewBlock,
            TgMessageKind::Patch => MasterMsgKind::PatchAnnouncement,
            TgMessageKind::Inv => MasterMsgKind::Checkpoint,
            _ => MasterMsgKind::Raw,
        };
        (kind, height)
    }

    /// Takes the oldest buffered event, if any.
    pub fn next_event(&mut self) -> (r: Option<MasterEvent>)
        ensures
            final(self).spec_master_id() == old(self).spec_master_id(),
            final(self).spec_time() == old(self).spec_time(),
            match r {
                Some(e) => old(self).model().buffer.len() > 0 && event_view(e) == old(self).model().buffer[0]
                    && final(self).model() == (MasterModel {
                    buffer: old(self).model().buffer.drop_first(),
                    ..old(self).model()
                }),
                None => old(self).model().buffer.len() == 0 && final(self).model() == old(self).model(),
            },
    {
        let r = self.buffer.pop_front();
        proof {
            if r is Some {
                assert(self.model().buffer =~= old(self).model().buffer.drop_first());
            }
        }
        r
    }

    /// Returns the number of buffered events.
    pub fn buffered_count(&self) -> (n: usize)
        ensures
            n == self.model().buffer.len(),
    {
        self.buffer.len()
    }

    /// Removes every buffered event and returns them, oldest first.
    pub fn drain_events(&mut self) -> (r: Vec<MasterEvent>)
        ensures
            final(self).spec_master_id() == old(self).spec_master_id(),
            final(self).spec_time() == old(self).spec_time(),
            r@.map_values(|e: MasterEvent| event_view(e)) == old(self).model().buffer,
            final(self).model() == (MasterModel { buffer: Seq::<EventView>::empty(), ..old(self).model() }),
    {
        let ghost all = self.buffer@;
        let mut r: Vec<MasterEvent> = Vec::new();
        while self.buffer.len() > 0
            invariant
                r@ + self.buffer@ == all,
                self.master_id == old(self).master_id,
                self.current_time == old(self).current_time,
                self.latest_height == old(self).latest_height,
                self.latest_hash == old(self).latest_hash,
                self.total_received == old(self).total_received,
                self.total_rejected == old(self).total_rejected,
                self.height_updated_at == old(self).height_updated_at,
                all == old(self).buffer@,
            decreases self.buffer@.len(),
        {
            let ghost before = self.buffer@;
            let e = self.buffer.pop_front().unwrap();
            r.push(e);
            proof {
                assert(r@ + self.buffer@ =~= all) by {
                    assert(before =~= seq![e] + self.buffer@);
                }
            }
        }
        proof {
            assert(r@ =~= all);
            assert(self.model().buffer =~= Seq::<EventView>::empty());
            assert(r@.map_values(|e: MasterEvent| event_view(e)) =~= old(self).model().buffer);
        }
        r
    }

    /// Returns `true` when the latest height was updated within the last
    /// `MASTER_MSG_MAX_AGE_SECS` seconds of the current time.
    pub fn is_synced(&self) -> (r: bool)
        ensures
            r == (self.model().height_updated_at matches Some(t) && self.spec_time() - t
                <= MASTER_MSG_MAX_AGE_SECS),
    {
        match self.height_updated_at {
            Some(t) => self.current_time.saturating_sub(t) <= MASTER_MSG_MAX_AGE_SECS,
            None => false,
        }
    }
}

} // verus!
