//! The per-connection session: its lifecycle and the meaning of each frame.
//!
//! A session owns one accepted connection. It greets the client once,
//! immediately after the handshake and before any other outbound traffic,
//! then classifies each inbound frame: ignored, handled as a request, or
//! fatal for this one connection. The ghost `outbound` history records every
//! message the session has produced for sending, and well-formedness pins
//! the protocol's ordering promises to it.

use vstd::prelude::*;

use crate::protocol::DecodeError;
use crate::protocol::Message;
use crate::protocol::MessageModel;
use crate::protocol::decode;
use crate::protocol::spec_decode;
use crate::services::Service;

verus! {

/// Lifecycle of one connection.
#[derive(Debug, Clone, Copy, PartialEq, Eq, Structural)]
pub enum SessionState {
    Connecting,
    Handshaking,
    Active,
    Closed,
}

/// Why a session ends early. Either way only this connection is affected.
#[derive(Debug, Clone, Copy, PartialEq, Eq, Structural)]
pub enum SessionError {
    /// The frame was rejected by the codec.
    Malformed(DecodeError),
    /// The frame decoded to a message clients never send.
    UnexpectedVariant,
}

/// A request read from an inbound frame; each one is handled as its own
/// independently progressing unit of work.
#[derive(Debug, Clone, PartialEq, Eq)]
pub enum Request {
    Update { service: Service, id: u16 },
    Clear { id: u16 },
}

/// What one inbound frame means for the session.
#[derive(Debug, Clone, PartialEq, Eq)]
pub enum FrameDecision {
    /// A non-text frame: silently discarded.
    Ignore,
    /// A valid request: handle it, then acknowledge it.
    Handle(Request),
    /// A protocol error: close this connection.
    Close(SessionError),
}

/// The greeting's fixed text.
pub open spec fn hello_text() -> Seq<char> {
    "hello from webrpc :D"@
}

pub open spec fn is_hello(m: MessageModel) -> bool {
    m matches MessageModel::Hello { .. }
}

pub open spec fn is_ack(m: MessageModel) -> bool {
    m matches MessageModel::Ack { .. }
}

/// How many acknowledgements for `id` an outbound history holds.
pub open spec fn ack_count(o: Seq<MessageModel>, id: u16) -> nat
    decreases o.len(),
{
    if o.len() == 0 {
        0
    } else {
        (ack_count(o.drop_last(), id) + if o.last() == (MessageModel::Ack { id }) {
            1nat
        } else {
            0nat
        }) as nat
    }
}

/// One accepted connection's server-side state.
pub struct Session {
    pub state: SessionState,
    pub app_id: u64,
    /// Every message this session has produced for sending, in order.
    pub outbound: Ghost<Seq<MessageModel>>,
}

impl Session {
    /// What always holds of a session: before the handshake completes
    /// nothing has been sent; once anything has been sent, the first
    /// message is the greeting and every later one is an acknowledgement;
    /// an active session has greeted.
    pub open spec fn wf(&self) -> bool {
        &&& (self.state == SessionState::Connecting || self.state == SessionState::Handshaking)
            ==> self.outbound@.len() == 0
        &&& self.outbound@.len() > 0 ==> is_hello(self.outbound@[0])
        &&& forall|k: int| 1 <= k < self.outbound@.len() ==> is_ack(#[trigger] self.outbound@[k])
        &&& self.state == SessionState::Active ==> self.outbound@.len() > 0
    }

    /// A fresh session for a just-accepted connection.
    pub fn new(app_id: u64) -> (s: Session)
        ensures
            s.state == SessionState::Connecting,
            s.app_id == app_id,
            s.outbound@ == Seq::<MessageModel>::empty(),
            s.wf(),
    {
        Session { state: SessionState::Connecting, app_id, outbound: Ghost(Seq::empty()) }
    }

    /// The connection starts its upgrade handshake.
    pub fn begin_handshake(&mut self)
        requires
            old(self).state == SessionState::Connecting,
            old(self).wf(),
        ensures
            final(self).state == SessionState::Handshaking,
            final(self).app_id == old(self).app_id,
            final(self).outbound == old(self).outbound,
            final(self).wf(),
    {
        self.state = SessionState::Handshaking;
    }

    /// The handshake finished. On success the session becomes active and
    /// produces the greeting, its first and only greeting, to be sent
    /// before anything else; on failure it closes and nothing is sent.
    pub fn complete_handshake(&mut self, ok: bool, time: u64) -> (hello: Option<Message>)
        requires
            old(self).state == SessionState::Handshaking,
            old(self).wf(),
        ensures
            final(self).wf(),
            final(self).app_id == old(self).app_id,
            ok ==> {
                &&& final(self).state == SessionState::Active
                &&& hello matches Some(h) && h@ == (MessageModel::Hello {
                    msg: hello_text(),
                    time,
                    app_id: old(self).app_id,
                })
                &&& final(self).outbound@ == old(self).outbound@.push(
                    MessageModel::Hello { msg: hello_text(), time, app_id: old(self).app_id },
                )
            },
            !ok ==> {
                &&& final(self).state == SessionState::Closed
                &&& hello is None
                &&& final(self).outbound == old(self).outbound
            },
    {
        if ok {
            self.state = SessionState::Active;
            let h = Message::Hello {
                msg: "hello from webrpc :D".to_owned(),
                time,
                app_id: self.app_id,
            };
            self.outbound = Ghost(self.outbound@.push(h@));
            Some(h)
        } else {
            self.state = SessionState::Closed;
            None
        }
    }

    /// Classifies one inbound frame of an active session. Non-text frames
    /// are discarded without response; a frame the codec rejects, or one
    /// that decodes to a message clients never send, closes this
    /// connection; a valid `Update` or `Clear` becomes a request.
    pub fn on_frame(&mut self, is_text: bool, payload: &str) -> (d: FrameDecision)
        requires
            old(self).state == SessionState::Active,
            old(self).wf(),
        ensures
            final(self).wf(),
            final(self).app_id == old(self).app_id,
            final(self).outbound == old(self).outbound,
            match d {
                FrameDecision::Ignore => !is_text && final(self).state == SessionState::Active,
                FrameDecision::Handle(req) => {
                    &&& is_text
                    &&& final(self).state == SessionState::Active
                    &&& match req {
                        Request::Update { service, id } => spec_decode(payload@) == Ok::<
                            MessageModel,
                            DecodeError,
                        >(MessageModel::Update { service: service@, id }),
                        Request::Clear { id } => spec_decode(payload@) == Ok::<
                            MessageModel,
                            DecodeError,
                        >(MessageModel::Clear { id }),
                    }
                },
                FrameDecision::Close(err) => {
                    &&& is_text
                    &&& final(self).state == SessionState::Closed
                    &&& match err {
                        SessionError::Malformed(e) => spec_decode(payload@) == Err::<
                            MessageModel,
                            DecodeError,
                        >(e),
                        SessionError::UnexpectedVariant => spec_decode(payload@) matches Ok(m)
                            && (is_hello(m) || is_ack(m)),
                    }
                },
            },
    {
        if !is_text {
            return FrameDecision::Ignore;
        }
        match decode(payload) {
            Ok(m) => match m {
                Message::Update { service, id } => FrameDecision::Handle(
                    Request::Update { service, id },
                ),
                Message::Clear { id } => FrameDecision::Handle(Request::Clear { id }),
                Message::Hello { .. } => {
                    self.state = SessionState::Closed;
                    FrameDecision::Close(SessionError::UnexpectedVariant)
                },
                Message::Ack { .. } => {
                    self.state = SessionState::Closed;
                    FrameDecision::Close(SessionError::UnexpectedVariant)
                },
            },
            Err(e) => {
                self.state = SessionState::Closed;
                FrameDecision::Close(SessionError::Malformed(e))
            },
        }
    }

    /// Completes one request: produces the one acknowledgement owed for it,
    /// echoing the request's id. The request's external effect attempt has
    /// already finished, with whatever outcome; the acknowledgement is owed
    /// either way. The connection may have closed meanwhile: the
    /// acknowledgement is still produced and its write may then fail
    /// harmlessly.
    pub fn acknowledge(&mut self, id: u16) -> (m: Message)
        requires
            old(self).wf(),
            old(self).outbound@.len() > 0,
            old(self).state == SessionState::Active || old(self).state == SessionState::Closed,
        ensures
            final(self).wf(),
            final(self).state == old(self).state,
            final(self).app_id == old(self).app_id,
            m@ == (MessageModel::Ack { id }),
            final(self).outbound@ == old(self).outbound@.push(MessageModel::Ack { id }),
    {
        let m = Message::Ack { id };
        self.outbound = Ghost(self.outbound@.push(m@));
        proof {
            assert forall|k: int| 1 <= k < self.outbound@.len() implies is_ack(
                #[trigger] self.outbound@[k],
            ) by {
                if k < self.outbound@.len() - 1 {
                    assert(self.outbound@[k] == old(self).outbound@[k]);
                }
            }
        }
        m
    }

    /// An I/O error or cancellation: the session is over.
    pub fn close(&mut self)
        requires
            old(self).wf(),
        ensures
            final(self).state == SessionState::Closed,
            final(self).app_id == old(self).app_id,
            final(self).outbound == old(self).outbound,
            final(self).wf(),
    {
        self.state = SessionState::Closed;
    }
}

/// Law: the greeting is always the first message a session produces, and
/// exactly one greeting is produced per session lifetime: no later outbound
/// message is a greeting.
pub proof fn lemma_hello_first(s: Session)
    requires
        s.wf(),
    ensures
        s.outbound@.len() > 0 ==> is_hello(s.outbound@[0]),
        forall|k: int| 1 <= k < s.outbound@.len() ==> !is_hello(#[trigger] s.outbound@[k]),
{
}

/// Law: completing a request appends exactly one acknowledgement carrying
/// the request's id: that id's count rises by one and every other id's
/// count is unchanged, so distinct concurrent requests receive their own
/// distinct acknowledgements, none dropped, none duplicated.
pub proof fn lemma_one_ack_per_request(o: Seq<MessageModel>, id: u16, other: u16)
    ensures
        ack_count(o.push(MessageModel::Ack { id }), id) == ack_count(o, id) + 1,
        other != id ==> ack_count(o.push(MessageModel::Ack { id }), other) == ack_count(o, other),
{
    let o2 = o.push(MessageModel::Ack { id });
    assert(o2.drop_last() =~= o);
    assert(o2.last() == (MessageModel::Ack { id }));
}

} // verus!
