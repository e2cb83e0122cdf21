//! The zero-channel bootstrap handshake: HELLO with a fresh nonce, its
//! acknowledgement, a peer-list request and a close, with replay protection
//! by a nonce cache and a timestamp freshness window.
use vstd::prelude::*;
use crate::bytemap::ByteMap;
use crate::pow::hash_eq;
use crate::transport::string_of;

verus! {

/// Default port for zero-channel connections.
pub const ZERO_CHANNEL_PORT: u16 = 443;

/// Maximum age of a HELLO message, in seconds.
pub const NONCE_FRESHNESS_WINDOW_SECS: u64 = 30;

/// Maximum number of peers returned in one peer list.
pub const MAX_PEERS_PER_RESPONSE: usize = 20;

/// A peer entry of a peer list.
#[derive(Debug, Clone, PartialEq, Eq)]
pub struct PeerInfo {
    /// The peer's identity.
    pub adnl_id: [u8; 32],
    /// The peer's network address.
    pub address: String,
}

/// A zero-channel protocol message.
#[derive(Debug, Clone, PartialEq, Eq)]
pub enum ZcMessage {
    /// Initial greeting from an initiator.
    Hello { sender_id: [u8; 32], nonce: [u8; 32], timestamp: u64 },
    /// Acknowledgement from the responder.
    HelloAck { responder_id: [u8; 32], echo_nonce: [u8; 32], responder_nonce: [u8; 32] },
    /// Request for a list of known peers.
    PeerRequest { sender_id: [u8; 32] },
    /// A list of known peers.
    PeerList { peers: Vec<PeerInfo> },
    /// Graceful close of the session.
    Close { sender_id: [u8; 32] },
}

/// The state of a session.
#[derive(Debug, Clone, Copy, PartialEq, Eq)]
pub enum SessionState {
    /// Waiting for a HELLO.
    AwaitingHello,
    /// HELLO answered; waiting for a request or a close.
    Established { initiator_id: [u8; 32] },
    /// Session closed.
    Closed,
}

/// Errors of zero-channel processing.
#[derive(Debug, Clone, Copy, PartialEq, Eq, Structural)]
pub enum ZcError {
    /// The message arrived out of order for the session state.
    UnexpectedMessage,
    /// The HELLO timestamp is outside the freshness window.
    StaleTimestamp,
    /// The nonce was seen before.
    ReplayDetected,
    /// The session is closed.
    SessionClosed,
    /// There are no peers to return.
    NoPeersAvailable,
}

/// The sentence that describes a zero-channel error.
pub open spec fn zc_error_text(e: ZcError) -> Seq<char> {
    match e {
        ZcError::UnexpectedMessage => "unexpected message for current state"@,
        ZcError::StaleTimestamp => "HELLO timestamp outside freshness window"@,
        ZcError::ReplayDetected => "nonce replay detected"@,
        ZcError::SessionClosed => "session is already closed"@,
        ZcError::NoPeersAvailable => "no peers available to return"@,
    }
}

impl ZcError {
    /// A sentence that describes the error.
    pub fn message(&self) -> (s: String)
        ensures
            s@ == zc_error_text(*self),
    {
        match self {
            ZcError::UnexpectedMessage => string_of("unexpected message for current state"),
            ZcError::StaleTimestamp => string_of("HELLO timestamp outside freshness window"),
            ZcError::ReplayDetected => string_of("nonce replay detected"),
            ZcError::SessionClosed => string_of("session is already closed"),
            ZcError::NoPeersAvailable => string_of("no peers available to return"),
        }
    }
}

/// Recently seen nonces.
#[derive(Debug)]
pub struct NonceCache {
    seen: ByteMap<()>,
}

impl NonceCache {
    /// The nonces recorded.
    pub closed spec fn nonces(&self) -> Set<[u8; 32]> {
        self.seen@.dom()
    }

    /// The store is well formed.
    pub closed spec fn wf(&self) -> bool {
        self.seen.wf()
    }

    /// Creates an empty cache.
    pub fn new() -> (c: NonceCache)
        ensures
            c.wf(),
            c.nonces() == Set::<[u8; 32]>::empty(),
    {
        let c = NonceCache { seen: ByteMap::new() };
        assert(c.nonces() =~= Set::<[u8; 32]>::empty());
        c
    }

    /// Returns `true` iff the nonce was recorded.
    pub fn is_replay(&self, nonce: &[u8; 32]) -> (r: bool)
        requires
            self.wf(),
        ensures
            r == self.nonces().contains(*nonce),
    {
        self.seen.contains_key(nonce)
    }

    /// Records a nonce.
    pub fn record(&mut self, nonce: [u8; 32])
        requires
            old(self).wf(),
        ensures
            final(self).wf(),
            final(self).nonces() == old(self).nonces().insert(nonce),
    {
        self.seen.insert(nonce, ());
        assert(self.nonces() =~= old(self).nonces().insert(nonce));
    }

    /// Forgets all recorded nonces.
    pub fn flush(&mut self)
        ensures
            final(self).wf(),
            final(self).nonces() == Set::<[u8; 32]>::empty(),
    {
        self.seen = ByteMap::new();
        assert(self.nonces() =~= Set::<[u8; 32]>::empty());
    }
}

impl Default for NonceCache {
    fn default() -> (c: Self)
        ensures
            c.wf(),
            c.nonces() == Set::<[u8; 32]>::empty(),
    {
        NonceCache::new()
    }
}

/// The responder's nonce: its identity XOR the initiator's nonce.
pub open spec fn responder_nonce_of(local: [u8; 32], nonce: [u8; 32]) -> Seq<u8> {
    Seq::new(32, |i: int| local[i] ^ nonce[i])
}

/// A HELLO is stale when it is more than the freshness window older than
/// the current time.
pub open spec fn is_stale(current_time: u64, timestamp: u64) -> bool {
    current_time - timestamp > NONCE_FRESHNESS_WINDOW_SECS
}

/// The responder side of a session.
pub struct ZcResponder {
    /// This node's identity.
    pub local_id: [u8; 32],
    /// Current session state.
    pub state: SessionState,
    pub(crate) nonce_cache: NonceCache,
    pub(crate) peer_list: Vec<PeerInfo>,
    /// Current time (seconds since the epoch).
    pub current_time: u64,
}

/// A field-by-field copy of a peer entry.
fn copy_peer(p: &PeerInfo) -> (c: PeerInfo)
    ensures
        c == *p,
{
    PeerInfo { adnl_id: p.adnl_id, address: p.address.clone() }
}

impl ZcResponder {
    /// The session state.
    pub open(crate) spec fn spec_state(&self) -> SessionState {
        self.state
    }

    /// This node's identity.
    pub open(crate) spec fn spec_local(&self) -> [u8; 32] {
        self.local_id
    }

    /// The current time.
    pub open(crate) spec fn spec_time(&self) -> u64 {
        self.current_time
    }

    /// The nonces seen.
    pub closed spec fn seen(&self) -> Set<[u8; 32]> {
        self.nonce_cache.nonces()
    }

    /// The known peers.
    pub closed spec fn peers(&self) -> Seq<PeerInfo> {
        self.peer_list@
    }

    /// The nonce cache is well formed.
    pub closed spec fn wf(&self) -> bool {
        self.nonce_cache.wf()
    }

    /// Everything but the state and the nonces is as in `o`.
    pub open spec fn same_setup(&self, o: &ZcResponder) -> bool {
        &&& self.spec_local() == o.spec_local()
        &&& self.spec_time() == o.spec_time()
        &&& self.peers() == o.peers()
    }

    /// Creates a responder awaiting a HELLO.
    pub fn new(local_id: [u8; 32], peer_list: Vec<PeerInfo>, current_time: u64) -> (r: ZcResponder)
        ensures
            r.wf(),
            r.spec_local() == local_id,
            r.spec_state() == SessionState::AwaitingHello,
            r.seen() == Set::<[u8; 32]>::empty(),
            r.peers() == peer_list@,
            r.spec_time() == current_time,
    {
        ZcResponder {
            local_id,
            state: SessionState::AwaitingHello,
            nonce_cache: NonceCache::new(),
            peer_list,
            current_time,
        }
    }

    /// Processes a message and returns the response. A closed session
    /// refuses everything with `SessionClosed`. A HELLO is accepted only while
    /// awaiting one, when fresh and with an unseen nonce: the nonce is
    /// recorded, the session becomes established with the sender, and the
    /// acknowledgement echoes the nonce. A peer request on an established
    /// session returns up to `MAX_PEERS_PER_RESPONSE` peers, in order. A
    /// CLOSE closes the session. Anything else is `UnexpectedMessage`. A
    /// refused message changes nothing.
    pub fn process(&mut self, msg: ZcMessage) -> (r: Result<ZcMessage, ZcError>)
        requires
            old(self).wf(),
        ensures
            final(self).wf(),
            final(self).same_setup(old(self)),
            r is Err ==> final(self).spec_state() == old(self).spec_state() && final(self).seen()
                == old(self).seen(),
            old(self).spec_state() is Closed ==> r == Err::<ZcMessage, ZcError>(
                ZcError::SessionClosed,
            ),
            !(old(self).spec_state() is Closed) ==> match msg {
                ZcMessage::Hello { sender_id, nonce, timestamp } => if !(old(
                    self,
                ).spec_state() is AwaitingHello) {
                    r == Err::<ZcMessage, ZcError>(ZcError::UnexpectedMessage)
                } else if is_stale(old(self).spec_time(), timestamp) {
                    r == Err::<ZcMessage, ZcError>(ZcError::StaleTimestamp)
                } else if old(self).seen().contains(nonce) {
                    r == Err::<ZcMessage, ZcError>(ZcError::ReplayDetected)
                } else {
                    &&& r matches Ok(ZcMessage::HelloAck { responder_id, echo_nonce, responder_nonce })
                        && responder_id == old(self).spec_local() && echo_nonce == nonce
                        && responder_nonce@ == responder_nonce_of(old(self).spec_local(), nonce)
                    &&& final(self).spec_state() == SessionState::Established {
                        initiator_id: sender_id,
                    }
                    &&& final(self).seen() == old(self).seen().insert(nonce)
                },
                ZcMessage::PeerRequest { .. } => if !(old(self).spec_state() is Established) {
                    r == Err::<ZcMessage, ZcError>(ZcError::UnexpectedMessage)
                } else if old(self).peers().len() == 0 {
                    r == Err::<ZcMessage, ZcError>(ZcError::NoPeersAvailable)
                } else {
                    &&& r matches Ok(ZcMessage::PeerList { peers }) && peers@ == old(
                        self,
                    ).peers().take(
                        if old(self).peers().len() < MAX_PEERS_PER_RESPONSE {
                            old(self).peers().len() as int
                        } else {
                            MAX_PEERS_PER_RESPONSE as int
                        },
                    )
                    &&& final(self).spec_state() == old(self).spec_state()
                    &&& final(self).seen() == old(self).seen()
                },
                ZcMessage::Close { .. } => {
                    &&& r == Ok::<ZcMessage, ZcError>(
                        ZcMessage::Close { sender_id: old(self).spec_local() },
                    )
                    &&& final(self).spec_state() == SessionState::Closed
                    &&& final(self).seen() == old(self).seen()
                },
                _ => r == Err::<ZcMessage, ZcError>(ZcError::UnexpectedMessage),
            },
    {
        if let SessionState::Closed = self.state {
            return Err(ZcError::SessionClosed);
        }
        match msg {
            ZcMessage::Hello { sender_id, nonce, timestamp } => {
                match self.state {
                    SessionState::AwaitingHello => {},
                    _ => return Err(ZcError::UnexpectedMessage),
                }
                let age = self.current_time.saturating_sub(timestamp);
                if age > NONCE_FRESHNESS_WINDOW_SECS {
                    return Err(ZcError::StaleTimestamp);
                }
                if self.nonce_cache.is_replay(&nonce) {
                    return Err(ZcError::ReplayDetected);
                }
                self.nonce_cache.record(nonce);
                let mut responder_nonce: [u8; 32] = [0u8; 32];
                let mut i: usize = 0;
                while i < 32
                    invariant
                        i <= 32,
                        forall|j: int| 0 <= j < i ==> responder_nonce[j] == self.local_id[j] ^ nonce[j],
                    decreases 32 - i,
                {
                    responder_nonce[i] = self.local_id[i] ^ nonce[i];
                    i = i + 1;
                }
                assert(responder_nonce@ =~= responder_nonce_of(self.local_id, nonce));
                self.state = SessionState::Established { initiator_id: sender_id };
                Ok(ZcMessage::HelloAck { responder_id: self.local_id, echo_nonce: nonce, responder_nonce })
            },
            ZcMessage::PeerRequest { .. } => {
                match self.state {
                    SessionState::Established { .. } => {},
                    _ => return Err(ZcError::UnexpectedMessage),
                }
                if self.peer_list.len() == 0 {
                    return Err(ZcError::NoPeersAvailable);
                }
                let n = if self.peer_list.len() < MAX_PEERS_PER_RESPONSE {
                    self.peer_list.len()
                } else {
                    MAX_PEERS_PER_RESPONSE
                };
                let mut peers: Vec<PeerInfo> = Vec::new();
                let mut i: usize = 0;
                while i < n
                    invariant
                        i <= n,
                        n <= self.peer_list@.len(),
                        peers@ == self.peer_list@.take(i as int),
                    decreases n - i,
                {
                    peers.push(copy_peer(&self.peer_list[i]));
                    proof {
                        assert(self.peer_list@.take(i + 1) =~= self.peer_list@.take(i as int).push(
                            self.peer_list@[i as int],
                        ));
                    }
                    i = i + 1;
                }
                Ok(ZcMessage::PeerList { peers })
            },
            ZcMessage::Close { .. } => {
                self.state = SessionState::Closed;
                Ok(ZcMessage::Close { sender_id: self.local_id })
            },
            _ => Err(ZcError::UnexpectedMessage),
        }
    }
}

/// The initiator side of a session.
pub struct ZcInitiator {
    /// This node's identity.
    pub local_id: [u8; 32],
    /// The nonce sent in the HELLO, kept to check the acknowledgement.
    pub sent_nonce: Option<[u8; 32]>,
    /// Current session state.
    pub state: SessionState,
}

impl ZcInitiator {
    /// Creates an initiator that has sent nothing.
    pub fn new(local_id: [u8; 32]) -> (i: ZcInitiator)
        ensures
            i.local_id == local_id,
            i.sent_nonce is None,
            i.state == SessionState::AwaitingHello,
    {
        ZcInitiator { local_id, sent_nonce: None, state: SessionState::AwaitingHello }
    }

    /// Builds the HELLO, remembering its nonce.
    pub fn build_hello(&mut self, nonce: [u8; 32], timestamp: u64) -> (m: ZcMessage)
        ensures
            m == (ZcMessage::Hello { sender_id: old(self).local_id, nonce, timestamp }),
            final(self).sent_nonce == Some(nonce),
            final(self).local_id == old(self).local_id,
            final(self).state == old(self).state,
    {
        self.sent_nonce = Some(nonce);
        ZcMessage::Hello { sender_id: self.local_id, nonce, timestamp }
    }

    /// Processes the acknowledgement: an echo that differs from the nonce
    /// sent is `ReplayDetected`; otherwise the session becomes established
    /// with the responder. Any other message is `UnexpectedMessage`. A
    /// refused message changes nothing.
    pub fn process_hello_ack(&mut self, msg: ZcMessage) -> (r: Result<(), ZcError>)
        ensures
            final(self).local_id == old(self).local_id,
            final(self).sent_nonce == old(self).sent_nonce,
            match msg {
                ZcMessage::HelloAck { responder_id, echo_nonce, .. } => if old(
                    self,
                ).sent_nonce matches Some(sent) && echo_nonce != sent {
                    r == Err::<(), ZcError>(ZcError::ReplayDetected) && final(self).state == old(
                        self,
                    ).state
                } else {
                    r is Ok && final(self).state == SessionState::Established {
                        initiator_id: responder_id,
                    }
                },
                _ => r == Err::<(), ZcError>(ZcError::UnexpectedMessage) && final(self).state
                    == old(self).state,
            },
    {
        match msg {
            ZcMessage::HelloAck { responder_id, echo_nonce, .. } => {
                if let Some(sent) = self.sent_nonce {
                    if !hash_eq(&echo_nonce, &sent) {
                        proof {
                            if echo_nonce == sent {
                                assert(echo_nonce@ == sent@);
                            }
                        }
                        return Err(ZcError::ReplayDetected);
                    }
                    proof {
                        assert(echo_nonce =~= sent);
                    }
                }
                self.state = SessionState::Established { initiator_id: responder_id };
                Ok(())
            },
            _ => Err(ZcError::UnexpectedMessage),
        }
    }

    /// Builds a peer request.
    pub fn build_peer_request(&self) -> (m: ZcMessage)
        ensures
            m == (ZcMessage::PeerRequest { sender_id: self.local_id }),
    {
        ZcMessage::PeerRequest { sender_id: self.local_id }
    }

    /// Builds a CLOSE and closes the session.
    pub fn build_close(&mut self) -> (m: ZcMessage)
        ensures
            m == (ZcMessage::Close { sender_id: old(self).local_id }),
            final(self).state == SessionState::Closed,
            final(self).local_id == old(self).local_id,
            final(self).sent_nonce == old(self).sent_nonce,
    {
        self.state = SessionState::Closed;
        ZcMessage::Close { sender_id: self.local_id }
    }
}

} // verus!
