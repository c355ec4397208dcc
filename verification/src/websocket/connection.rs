//! The message layer of a WebSocket session: what one received frame
//! does to the assembly state, and the wire bytes one sent message
//! becomes.  The caller that owns the stream feeds frames in, carries
//! the type lock and the queue of control messages between calls, and
//! performs the sends and shutdowns these decisions call for.

use vstd::prelude::*;

verus! {

use crate::text::{push_bytes, sub_bytes, utf8_to_string};
use crate::websocket::close::{Close, CodeRange, code_range_of, code_range_num};
use crate::websocket::consts::SEND_FRAME_CHUNK_SIZE;
use crate::websocket::error::ProtocolError;
use crate::websocket::frame::{
    WebsocketFrame,
    WebsocketFrameRef,
    FrameModel,
    frame_render,
    be16,
};
use crate::websocket::opcode::{OpCode, spec_is_control};
use vstd::string::StrSliceExecFns;
use vstd::utf8::{valid_utf8, decode_utf8, encode_utf8};

/// A message received from, or sent to, the peer.
#[derive(Debug, Clone, PartialEq, Eq)]
pub enum WebSocketMessage {
    /// Text, always valid UTF-8.
    Text(String),
    /// Arbitrary bytes.
    Bytes(Vec<u8>),
    /// The close signal, with its parsed contents when it had any.
    Close(Option<Close>),
    /// A ping; the library already answered it with a pong.
    Ping(Vec<u8>),
    /// A pong from the peer.
    Pong(Vec<u8>),
}

/// A message to send, borrowing its payload.
#[derive(Debug, Clone)]
pub enum WebSocketMessageRef<'payload> {
    Text(&'payload str),
    Bytes(&'payload [u8]),
    Close(Option<&'payload Close>),
    Ping(&'payload [u8]),
    Pong(&'payload [u8]),
}

impl<'payload> WebSocketMessageRef<'payload> {
    /// The opcode the message goes on the wire with.
    pub fn opcode(&self) -> (r: OpCode)
        ensures
            r == msg_ref_opcode(self),
    {
        match self {
            WebSocketMessageRef::Text(_) => OpCode::Text,
            WebSocketMessageRef::Bytes(_) => OpCode::Binary,
            WebSocketMessageRef::Close(_) => OpCode::Close,
            WebSocketMessageRef::Ping(_) => OpCode::Ping,
            WebSocketMessageRef::Pong(_) => OpCode::Pong,
        }
    }
}

/// The in-progress message while continuation frames accumulate.
#[derive(Debug, PartialEq, Eq)]
pub enum TypeLock {
    /// A text message under assembly; bytes are checked as UTF-8 only
    /// once the message completes.
    Text(Vec<u8>),
    /// A binary message under assembly.
    Binary(Vec<u8>),
    /// No message under assembly.
    Empty,
}

/// The close contents as mathematical values.
pub struct CloseModel {
    pub code: CodeRange,
    pub reason: Option<Seq<char>>,
}

/// A message as mathematical values.
pub enum MsgModel {
    Text(Seq<char>),
    Bytes(Seq<u8>),
    Close(Option<CloseModel>),
    Ping(Seq<u8>),
    Pong(Seq<u8>),
}

/// The type lock as mathematical values.
pub enum LockModel {
    Text(Seq<u8>),
    Binary(Seq<u8>),
    Empty,
}

/// The model of an exec close value.
pub open spec fn close_view(c: &Close) -> CloseModel {
    CloseModel {
        code: c.code,
        reason: match c.reason {
            Some(ref s) => Some(s@),
            None => None,
        },
    }
}

/// The model of an exec message.
pub open spec fn msg_view(m: &WebSocketMessage) -> MsgModel {
    match m {
        WebSocketMessage::Text(s) => MsgModel::Text(s@),
        WebSocketMessage::Bytes(b) => MsgModel::Bytes(b@),
        WebSocketMessage::Close(c) => MsgModel::Close(
            match c {
                Some(cl) => Some(close_view(cl)),
                None => None,
            },
        ),
        WebSocketMessage::Ping(b) => MsgModel::Ping(b@),
        WebSocketMessage::Pong(b) => MsgModel::Pong(b@),
    }
}

/// The model of a borrowed message.
pub open spec fn msg_ref_view(m: &WebSocketMessageRef) -> MsgModel {
    match m {
        WebSocketMessageRef::Text(s) => MsgModel::Text(s@),
        WebSocketMessageRef::Bytes(b) => MsgModel::Bytes(b@),
        WebSocketMessageRef::Close(c) => MsgModel::Close(
            match c {
                Some(cl) => Some(close_view(cl)),
                None => None,
            },
        ),
        WebSocketMessageRef::Ping(b) => MsgModel::Ping(b@),
        WebSocketMessageRef::Pong(b) => MsgModel::Pong(b@),
    }
}

/// The model of an exec type lock.
pub open spec fn lock_view(l: &TypeLock) -> LockModel {
    match l {
        TypeLock::Text(b) => LockModel::Text(b@),
        TypeLock::Binary(b) => LockModel::Binary(b@),
        TypeLock::Empty => LockModel::Empty,
    }
}

/// The opcode of a borrowed message.
pub open spec fn msg_ref_opcode(m: &WebSocketMessageRef) -> OpCode {
    match m {
        WebSocketMessageRef::Text(_) => OpCode::Text,
        WebSocketMessageRef::Bytes(_) => OpCode::Binary,
        WebSocketMessageRef::Close(_) => OpCode::Close,
        WebSocketMessageRef::Ping(_) => OpCode::Ping,
        WebSocketMessageRef::Pong(_) => OpCode::Pong,
    }
}

/// The opcode of a message model.
pub open spec fn msg_opcode(m: MsgModel) -> OpCode {
    match m {
        MsgModel::Text(_) => OpCode::Text,
        MsgModel::Bytes(_) => OpCode::Binary,
        MsgModel::Close(_) => OpCode::Close,
        MsgModel::Ping(_) => OpCode::Ping,
        MsgModel::Pong(_) => OpCode::Pong,
    }
}

/// The payload of a close: the code in two big-endian bytes followed
/// by the reason's text, or nothing at all.
pub open spec fn close_payload_bytes(c: Option<CloseModel>) -> Seq<u8> {
    match c {
        None => Seq::<u8>::empty(),
        Some(cl) => seq![
            (code_range_num(cl.code) / 256) as u8,
            (code_range_num(cl.code) % 256) as u8,
        ] + (match cl.reason {
            Some(t) => encode_utf8(t),
            None => Seq::<u8>::empty(),
        }),
    }
}

/// The payload a message model goes on the wire with.
pub open spec fn msg_payload(m: MsgModel) -> Seq<u8> {
    match m {
        MsgModel::Text(t) => encode_utf8(t),
        MsgModel::Bytes(b) => b,
        MsgModel::Close(c) => close_payload_bytes(c),
        MsgModel::Ping(b) => b,
        MsgModel::Pong(b) => b,
    }
}

/// What a received close payload means: nothing, a code with an
/// optional UTF-8 reason, or a violation.
pub open spec fn spec_parse_close(p: Seq<u8>) -> Result<Option<CloseModel>, ProtocolError> {
    if p.len() == 0 {
        Ok(None)
    } else if p.len() < 2 {
        Err(ProtocolError::InvalidCloseFrame)
    } else {
        let code = be16(p[0], p[1]) as u16;
        match code_range_of(code) {
            None => Err(ProtocolError::InvalidCloseCode(code)),
            Some(cr) => {
                let rb = p.skip(2);
                if rb.len() == 0 {
                    Ok(Some(CloseModel { code: cr, reason: None }))
                } else if valid_utf8(rb) {
                    Ok(Some(CloseModel { code: cr, reason: Some(decode_utf8(rb)) }))
                } else {
                    Err(ProtocolError::InvalidUtf8)
                }
            },
        }
    }
}

/// Reads the contents of a received close payload.
pub fn parse_close_payload(payload: &[u8]) -> (r: Result<Option<Close>, ProtocolError>)
    ensures
        match (r, spec_parse_close(payload@)) {
            (Ok(None), Ok(None)) => true,
            (Ok(Some(c)), Ok(Some(m))) => close_view(&c) == m,
            (Err(e1), Err(e2)) => e1 == e2,
            _ => false,
        },
{
    if payload.len() == 0 {
        return Ok(None);
    }
    if payload.len() < 2 {
        return Err(ProtocolError::InvalidCloseFrame);
    }
    let code: u16 = (payload[0] as u16) * 256 + (payload[1] as u16);
    let cr = match CodeRange::parse(code) {
        Ok(cr) => cr,
        Err(e) => {
            return Err(e);
        },
    };
    let plen = payload.len();
    let rest = sub_bytes(payload, 2, plen);
    proof {
        assert(rest@ == payload@.skip(2));
    }
    if rest.len() == 0 {
        Ok(Some(Close { code: cr, reason: None }))
    } else {
        match utf8_to_string(rest) {
            Some(reason) => Ok(Some(Close { code: cr, reason: Some(reason) })),
            None => Err(ProtocolError::InvalidUtf8),
        }
    }
}

/// Renders the payload of a close message.
pub fn close_payload(close: Option<&Close>) -> (r: Vec<u8>)
    ensures
        r@ == close_payload_bytes(
            match close {
                Some(c) => Some(close_view(c)),
                None => None,
            },
        ),
{
    match close {
        None => Vec::new(),
        Some(c) => {
            let code = c.raw_code();
            let mut out: Vec<u8> = Vec::new();
            out.push((code / 256) as u8);
            out.push((code % 256) as u8);
            if let Some(reason) = &c.reason {
                push_bytes(&mut out, reason.as_str().as_bytes());
            }
            proof {
                assert(out@ =~= close_payload_bytes(Some(close_view(c))));
            }
            out
        },
    }
}

/// What one received frame does to the assembly state.
#[derive(Debug)]
pub enum RecvStep {
    /// A message completed: hand it to the caller.
    Deliver(WebSocketMessage),
    /// A message began or grew: keep this lock and read on.
    Acquire(TypeLock),
    /// A ping arrived: send the pong back, queue the note, and read
    /// on with the assembly lock handed back untouched.
    ReplyPong { pong: Vec<u8>, note: WebSocketMessage, lock: TypeLock },
    /// A pong arrived: queue it for the caller and read on with the
    /// assembly lock handed back untouched.
    Enqueue(WebSocketMessage, TypeLock),
    /// A close arrived: reflect it, shut the stream down, deliver.
    CloseReply { close: Option<Close>, msg: WebSocketMessage },
    /// The peer broke the protocol: report it and close.
    Failed(ProtocolError),
}

/// The step decision as mathematical values.
pub enum StepModel {
    Deliver(MsgModel),
    Acquire(LockModel),
    ReplyPong(Seq<u8>, MsgModel, LockModel),
    Enqueue(MsgModel, LockModel),
    CloseReply(Option<CloseModel>, MsgModel),
    Failed(ProtocolError),
}

/// The model of an exec step decision.
pub open spec fn step_view(s: &RecvStep) -> StepModel {
    match s {
        RecvStep::Deliver(m) => StepModel::Deliver(msg_view(m)),
        RecvStep::Acquire(l) => StepModel::Acquire(lock_view(l)),
        RecvStep::ReplyPong { pong, note, lock } => StepModel::ReplyPong(
            pong@,
            msg_view(note),
            lock_view(lock),
        ),
        RecvStep::Enqueue(m, lock) => StepModel::Enqueue(msg_view(m), lock_view(lock)),
        RecvStep::CloseReply { close, msg } => StepModel::CloseReply(
            match close {
                Some(c) => Some(close_view(c)),
                None => None,
            },
            msg_view(msg),
        ),
        RecvStep::Failed(e) => StepModel::Failed(*e),
    }
}

/// The decision the receive loop takes for one frame, given the lock
/// it holds: data frames start or finish a message, continuation
/// frames extend one, pings are answered and pongs queued with the
/// lock handed back untouched, closes are reflected, and everything
/// out of order is a violation.
pub open spec fn spec_recv_step(lock: LockModel, fin: bool, op: OpCode, payload: Seq<u8>)
    -> StepModel {
    match op {
        OpCode::Text => match lock {
            LockModel::Empty => if fin {
                if valid_utf8(payload) {
                    StepModel::Deliver(MsgModel::Text(decode_utf8(payload)))
                } else {
                    StepModel::Failed(ProtocolError::InvalidUtf8)
                }
            } else {
                StepModel::Acquire(LockModel::Text(payload))
            },
            _ => StepModel::Failed(ProtocolError::AttemptToStartNewMessageWithoutFin),
        },
        OpCode::Binary => match lock {
            LockModel::Empty => if fin {
                StepModel::Deliver(MsgModel::Bytes(payload))
            } else {
                StepModel::Acquire(LockModel::Binary(payload))
            },
            _ => StepModel::Failed(ProtocolError::AttemptToStartNewMessageWithoutFin),
        },
        OpCode::Close => if !fin {
            StepModel::Failed(ProtocolError::ControlFrameNotFin)
        } else {
            match spec_parse_close(payload) {
                Err(e) => StepModel::Failed(e),
                Ok(c) => StepModel::CloseReply(c, MsgModel::Close(c)),
            }
        },
        OpCode::Ping => if !fin {
            StepModel::Failed(ProtocolError::ControlFrameNotFin)
        } else {
            StepModel::ReplyPong(payload, MsgModel::Ping(payload), lock)
        },
        OpCode::Pong => if !fin {
            StepModel::Failed(ProtocolError::ControlFrameNotFin)
        } else {
            StepModel::Enqueue(MsgModel::Pong(payload), lock)
        },
        OpCode::Continue => match lock {
            LockModel::Empty => StepModel::Failed(ProtocolError::ContinueWithoutStart),
            LockModel::Text(buf) => {
                let nb = buf + payload;
                if fin {
                    if valid_utf8(nb) {
                        StepModel::Deliver(MsgModel::Text(decode_utf8(nb)))
                    } else {
                        StepModel::Failed(ProtocolError::InvalidUtf8)
                    }
                } else {
                    StepModel::Acquire(LockModel::Text(nb))
                }
            },
            LockModel::Binary(buf) => {
                let nb = buf + payload;
                if fin {
                    StepModel::Deliver(MsgModel::Bytes(nb))
                } else {
                    StepModel::Acquire(LockModel::Binary(nb))
                }
            },
        },
    }
}

/// Takes the decision for one received frame.
pub fn recv_step(lock: TypeLock, frame: WebsocketFrame) -> (r: RecvStep)
    ensures
        step_view(&r) == spec_recv_step(lock_view(&lock), frame.fin, frame.opcode,
        frame.payload@),
{
    match frame.opcode {
        OpCode::Text => match lock {
            TypeLock::Empty => {
                if frame.fin {
                    match utf8_to_string(frame.payload) {
                        Some(s) => RecvStep::Deliver(WebSocketMessage::Text(s)),
                        None => RecvStep::Failed(ProtocolError::InvalidUtf8),
                    }
                } else {
                    RecvStep::Acquire(TypeLock::Text(frame.payload))
                }
            },
            _ => RecvStep::Failed(ProtocolError::AttemptToStartNewMessageWithoutFin),
        },
        OpCode::Binary => match lock {
            TypeLock::Empty => {
                if frame.fin {
                    RecvStep::Deliver(WebSocketMessage::Bytes(frame.payload))
                } else {
                    RecvStep::Acquire(TypeLock::Binary(frame.payload))
                }
            },
            _ => RecvStep::Failed(ProtocolError::AttemptToStartNewMessageWithoutFin),
        },
        OpCode::Close => {
            if !frame.fin {
                return RecvStep::Failed(ProtocolError::ControlFrameNotFin);
            }
            match parse_close_payload(frame.payload.as_slice()) {
                Err(e) => RecvStep::Failed(e),
                Ok(c) => {
                    let msg_close = match &c {
                        Some(cl) => Some(
                            Close {
                                code: cl.code,
                                reason: match &cl.reason {
                                    Some(s) => Some(s.clone()),
                                    None => None,
                                },
                            },
                        ),
                        None => None,
                    };
                    RecvStep::CloseReply { close: c, msg: WebSocketMessage::Close(msg_close) }
                },
            }
        },
        OpCode::Ping => {
            if !frame.fin {
                return RecvStep::Failed(ProtocolError::ControlFrameNotFin);
            }
            let note_payload = frame.payload.clone();
            RecvStep::ReplyPong {
                pong: frame.payload,
                note: WebSocketMessage::Ping(note_payload),
                lock,
            }
        },
        OpCode::Pong => {
            if !frame.fin {
                return RecvStep::Failed(ProtocolError::ControlFrameNotFin);
            }
            RecvStep::Enqueue(WebSocketMessage::Pong(frame.payload), lock)
        },
        OpCode::Continue => match lock {
            TypeLock::Empty => RecvStep::Failed(ProtocolError::ContinueWithoutStart),
            TypeLock::Text(buf) => {
                let mut nb = buf;
                push_bytes(&mut nb, frame.payload.as_slice());
                if frame.fin {
                    match utf8_to_string(nb) {
                        Some(s) => RecvStep::Deliver(WebSocketMessage::Text(s)),
                        None => RecvStep::Failed(ProtocolError::InvalidUtf8),
                    }
                } else {
                    RecvStep::Acquire(TypeLock::Text(nb))
                }
            },
            TypeLock::Binary(buf) => {
                let mut nb = buf;
                push_bytes(&mut nb, frame.payload.as_slice());
                if frame.fin {
                    RecvStep::Deliver(WebSocketMessage::Bytes(nb))
                } else {
                    RecvStep::Acquire(TypeLock::Binary(nb))
                }
            },
        },
    }
}

/// The frames one sent payload becomes: a single final frame when it
/// fits the chunk size or is a control message; otherwise fragments of
/// at most the chunk size, the first carrying the data opcode, the
/// rest continuations, the last with FIN set.
pub open spec fn split_frames(payload: Seq<u8>, first: bool, op: OpCode) -> Seq<FrameModel>
    decreases payload.len(),
{
    let fop = if first {
        op
    } else {
        OpCode::Continue
    };
    if payload.len() <= SEND_FRAME_CHUNK_SIZE {
        seq![FrameModel { fin: true, opcode: fop, payload }]
    } else {
        seq![
            FrameModel {
                fin: false,
                opcode: fop,
                payload: payload.take(SEND_FRAME_CHUNK_SIZE as int),
            },
        ] + split_frames(payload.skip(SEND_FRAME_CHUNK_SIZE as int), false, op)
    }
}

/// The frames a whole message becomes.
pub open spec fn chunked_frames(op: OpCode, payload: Seq<u8>) -> Seq<FrameModel> {
    if spec_is_control(op) {
        seq![FrameModel { fin: true, opcode: op, payload }]
    } else {
        split_frames(payload, true, op)
    }
}

/// Rendering one frame alone.
proof fn lemma_render_singleton(f: FrameModel)
    ensures
        render_frames(seq![f]) == frame_render(f.fin, f.opcode, f.payload),
{
    assert(seq![f].drop_first() =~= Seq::<FrameModel>::empty());
    assert(frame_render(f.fin, f.opcode, f.payload) + render_frames(Seq::<FrameModel>::empty())
        =~= frame_render(f.fin, f.opcode, f.payload));
}

/// Rendering a frame in front of more frames.
proof fn lemma_render_cons(f: FrameModel, rest: Seq<FrameModel>)
    ensures
        render_frames(seq![f] + rest) == frame_render(f.fin, f.opcode, f.payload)
            + render_frames(rest),
{
    assert((seq![f] + rest)[0] == f);
    assert((seq![f] + rest).drop_first() =~= rest);
}

/// The wire rendering of a frame sequence, in order.
pub open spec fn render_frames(frames: Seq<FrameModel>) -> Seq<u8>
    decreases frames.len(),
{
    if frames.len() == 0 {
        Seq::<u8>::empty()
    } else {
        frame_render(frames[0].fin, frames[0].opcode, frames[0].payload) + render_frames(
            frames.drop_first(),
        )
    }
}

/// Every wire byte one sent message becomes.
pub open spec fn message_wire_bytes(m: MsgModel) -> Seq<u8> {
    render_frames(chunked_frames(msg_opcode(m), msg_payload(m)))
}

/// Renders a whole outgoing message to its wire bytes, fragmented as
/// the chunk size demands.  The caller writes them to its stream.
pub fn encode_message(message: &WebSocketMessageRef) -> (r: Vec<u8>)
    ensures
        r@ == message_wire_bytes(msg_ref_view(message)),
{
    let opcode = message.opcode();
    let payload: Vec<u8> = match message {
        WebSocketMessageRef::Text(t) => t.as_bytes_vec(),
        WebSocketMessageRef::Bytes(b) => sub_bytes(b, 0, b.len()),
        WebSocketMessageRef::Close(c) => close_payload(*c),
        WebSocketMessageRef::Ping(b) => sub_bytes(b, 0, b.len()),
        WebSocketMessageRef::Pong(b) => sub_bytes(b, 0, b.len()),
    };
    proof {
        assert(payload@ == msg_payload(msg_ref_view(message)));
    }
    let mut out: Vec<u8> = Vec::new();
    if opcode.is_control() || payload.len() <= SEND_FRAME_CHUNK_SIZE {
        let frame = WebsocketFrameRef { fin: true, opcode, payload: payload.as_slice() };
        let rendered = frame.write();
        push_bytes(&mut out, rendered.as_slice());
        proof {
            lemma_render_singleton(
                FrameModel { fin: true, opcode, payload: payload@ },
            );
            assert(out@ =~= message_wire_bytes(msg_ref_view(message)));
        }
        out
    } else {
        let mut start: usize = 0;
        let mut first: bool = true;
        let plen = payload.len();
        proof {
            assert(payload@.skip(0) =~= payload@);
        }
        loop
            invariant
                0 <= start <= plen,
                plen == payload@.len(),
                payload@ == msg_payload(msg_ref_view(message)),
                opcode == msg_opcode(msg_ref_view(message)),
                first <==> start == 0,
                render_frames(split_frames(payload@, true, opcode)) == out@ + render_frames(
                    split_frames(payload@.skip(start as int), first, opcode),
                ),
                !spec_is_control(opcode),
            decreases plen - start,
        {
            let ghost rest = payload@.skip(start as int);
            if plen - start <= SEND_FRAME_CHUNK_SIZE {
                let fop = if first {
                    opcode
                } else {
                    OpCode::Continue
                };
                let piece = sub_bytes(payload.as_slice(), start, plen);
                let frame = WebsocketFrameRef { fin: true, opcode: fop, payload: piece.as_slice() };
                let rendered = frame.write();
                push_bytes(&mut out, rendered.as_slice());
                proof {
                    assert(piece@ == rest);
                    assert(split_frames(rest, first, opcode) =~= seq![
                        FrameModel { fin: true, opcode: fop, payload: rest },
                    ]);
                    lemma_render_singleton(FrameModel { fin: true, opcode: fop, payload: rest });
                    assert(out@ =~= message_wire_bytes(msg_ref_view(message)));
                }
                return out;
            } else {
                let fop = if first {
                    opcode
                } else {
                    OpCode::Continue
                };
                let piece = sub_bytes(payload.as_slice(), start, start + SEND_FRAME_CHUNK_SIZE);
                let frame = WebsocketFrameRef {
                    fin: false,
                    opcode: fop,
                    payload: piece.as_slice(),
                };
                let rendered = frame.write();
                push_bytes(&mut out, rendered.as_slice());
                proof {
                    assert(piece@ =~= rest.take(SEND_FRAME_CHUNK_SIZE as int));
                    assert(rest.skip(SEND_FRAME_CHUNK_SIZE as int) =~= payload@.skip(
                        start + SEND_FRAME_CHUNK_SIZE,
                    ));
                    assert(split_frames(rest, first, opcode) == seq![
                        FrameModel {
                            fin: false,
                            opcode: fop,
                            payload: rest.take(SEND_FRAME_CHUNK_SIZE as int),
                        },
                    ] + split_frames(rest.skip(SEND_FRAME_CHUNK_SIZE as int), false, opcode));
                    lemma_render_cons(
                        FrameModel {
                            fin: false,
                            opcode: fop,
                            payload: rest.take(SEND_FRAME_CHUNK_SIZE as int),
                        },
                        split_frames(rest.skip(SEND_FRAME_CHUNK_SIZE as int), false, opcode),
                    );
                }
                start = start + SEND_FRAME_CHUNK_SIZE;
                first = false;
            }
        }
    }
}


/// The outcome of feeding a finite run of frames to the receive
/// machine, starting from a given lock: a frame that grows the lock,
/// answers a ping or queues a pong hands the next frame its lock;
/// anything else ends the run.
pub open spec fn run_recv(lock: LockModel, frames: Seq<FrameModel>) -> StepModel
    decreases frames.len(),
{
    if frames.len() <= 1 {
        spec_recv_step(lock, frames[0].fin, frames[0].opcode, frames[0].payload)
    } else {
        match spec_recv_step(lock, frames[0].fin, frames[0].opcode, frames[0].payload) {
            StepModel::Acquire(l) => run_recv(l, frames.drop_first()),
            StepModel::ReplyPong(_, _, l) => run_recv(l, frames.drop_first()),
            StepModel::Enqueue(_, l) => run_recv(l, frames.drop_first()),
            s => s,
        }
    }
}

/// Receiving what was sent gives the message back: for a text or
/// binary message of at most twice the chunk size, and for a ping or
/// pong within the control-frame limit, feeding the frames the sender
/// produces to the receive machine yields the same message — text and
/// bytes are delivered, a ping is answered and noted, a pong queued.
/// Together with the frame codec round trip this carries each such
/// message across a masked loopback unchanged.
pub proof fn lemma_message_round_trip(m: MsgModel)
    requires
        match m {
            MsgModel::Text(t) => encode_utf8(t).len() <= 2 * SEND_FRAME_CHUNK_SIZE,
            MsgModel::Bytes(b) => b.len() <= 2 * SEND_FRAME_CHUNK_SIZE,
            MsgModel::Ping(b) => b.len() <= 125,
            MsgModel::Pong(b) => b.len() <= 125,
            MsgModel::Close(_) => false,
        },
    ensures
        run_recv(LockModel::Empty, chunked_frames(msg_opcode(m), msg_payload(m))) == (match m {
            MsgModel::Text(t) => StepModel::Deliver(m),
            MsgModel::Bytes(b) => StepModel::Deliver(m),
            MsgModel::Ping(b) => StepModel::ReplyPong(b, MsgModel::Ping(b), LockModel::Empty),
            MsgModel::Pong(b) => StepModel::Enqueue(MsgModel::Pong(b), LockModel::Empty),
            MsgModel::Close(_) => StepModel::Failed(ProtocolError::InvalidCloseFrame),
        }),
{
    let op = msg_opcode(m);
    let pl = msg_payload(m);
    let frames = chunked_frames(op, pl);
    match m {
        MsgModel::Ping(b) => {
            assert(frames =~= seq![FrameModel { fin: true, opcode: OpCode::Ping, payload: b }]);
            assert(run_recv(LockModel::Empty, frames) == StepModel::ReplyPong(
                b,
                MsgModel::Ping(b),
                LockModel::Empty,
            ));
        },
        MsgModel::Pong(b) => {
            assert(frames =~= seq![FrameModel { fin: true, opcode: OpCode::Pong, payload: b }]);
            assert(run_recv(LockModel::Empty, frames) == StepModel::Enqueue(
                MsgModel::Pong(b),
                LockModel::Empty,
            ));
        },
        MsgModel::Text(t) => {
            vstd::utf8::encode_utf8_valid_utf8(t);
            vstd::utf8::encode_utf8_decode_utf8(t);
            if pl.len() <= SEND_FRAME_CHUNK_SIZE {
                assert(frames =~= seq![
                    FrameModel { fin: true, opcode: OpCode::Text, payload: pl },
                ]);
                assert(valid_utf8(pl));
                assert(decode_utf8(pl) == t);
                assert(frames.len() == 1);
                assert(frames[0] == FrameModel { fin: true, opcode: OpCode::Text, payload: pl });
                assert(spec_recv_step(LockModel::Empty, true, OpCode::Text, pl)
                    == StepModel::Deliver(MsgModel::Text(t)));
                assert(run_recv(LockModel::Empty, frames) == spec_recv_step(
                    LockModel::Empty,
                    frames[0].fin,
                    frames[0].opcode,
                    frames[0].payload,
                ));
            } else {
                let a = pl.take(SEND_FRAME_CHUNK_SIZE as int);
                let rest = pl.skip(SEND_FRAME_CHUNK_SIZE as int);
                assert(split_frames(rest, false, op) =~= seq![
                    FrameModel { fin: true, opcode: OpCode::Continue, payload: rest },
                ]);
                assert(frames =~= seq![FrameModel { fin: false, opcode: OpCode::Text, payload: a }]
                    + seq![FrameModel { fin: true, opcode: OpCode::Continue, payload: rest }]);
                assert(frames.drop_first() =~= seq![
                    FrameModel { fin: true, opcode: OpCode::Continue, payload: rest },
                ]);
                assert(a + rest =~= pl);
                assert(frames.len() == 2);
                assert(frames[0] == FrameModel { fin: false, opcode: OpCode::Text, payload: a });
                assert(spec_recv_step(LockModel::Empty, false, OpCode::Text, a)
                    == StepModel::Acquire(LockModel::Text(a)));
                assert(run_recv(LockModel::Empty, frames) == run_recv(
                    LockModel::Text(a),
                    frames.drop_first(),
                ));
                assert(run_recv(LockModel::Text(a), frames.drop_first()) == spec_recv_step(
                    LockModel::Text(a),
                    true,
                    OpCode::Continue,
                    rest,
                ));
                assert(valid_utf8(a + rest));
                assert(decode_utf8(a + rest) == t);
                assert(spec_recv_step(LockModel::Text(a), true, OpCode::Continue, rest)
                    == StepModel::Deliver(MsgModel::Text(t)));
            }
            assert(run_recv(LockModel::Empty, frames) == StepModel::Deliver(m));
        },
        MsgModel::Bytes(bb) => {
            if pl.len() <= SEND_FRAME_CHUNK_SIZE {
                assert(frames =~= seq![
                    FrameModel { fin: true, opcode: OpCode::Binary, payload: pl },
                ]);
                assert(frames[0] == FrameModel { fin: true, opcode: OpCode::Binary, payload: pl });
                assert(run_recv(LockModel::Empty, frames) == spec_recv_step(
                    LockModel::Empty,
                    true,
                    OpCode::Binary,
                    pl,
                ));
            } else {
                let a = pl.take(SEND_FRAME_CHUNK_SIZE as int);
                let rest = pl.skip(SEND_FRAME_CHUNK_SIZE as int);
                assert(split_frames(rest, false, op) =~= seq![
                    FrameModel { fin: true, opcode: OpCode::Continue, payload: rest },
                ]);
                assert(frames =~= seq![
                    FrameModel { fin: false, opcode: OpCode::Binary, payload: a },
                ] + seq![FrameModel { fin: true, opcode: OpCode::Continue, payload: rest }]);
                assert(frames.drop_first() =~= seq![
                    FrameModel { fin: true, opcode: OpCode::Continue, payload: rest },
                ]);
                assert(a + rest =~= pl);
                assert(frames.len() == 2);
                assert(frames[0] == FrameModel { fin: false, opcode: OpCode::Binary, payload: a });
                assert(spec_recv_step(LockModel::Empty, false, OpCode::Binary, a)
                    == StepModel::Acquire(LockModel::Binary(a)));
                assert(run_recv(LockModel::Empty, frames) == run_recv(
                    LockModel::Binary(a),
                    frames.drop_first(),
                ));
                assert(run_recv(LockModel::Binary(a), frames.drop_first()) == spec_recv_step(
                    LockModel::Binary(a),
                    true,
                    OpCode::Continue,
                    rest,
                ));
                assert(spec_recv_step(LockModel::Binary(a), true, OpCode::Continue, rest)
                    == StepModel::Deliver(MsgModel::Bytes(pl)));
            }
            assert(run_recv(LockModel::Empty, frames) == StepModel::Deliver(m));
        },
        MsgModel::Close(_) => {},
    }
    assert(run_recv(LockModel::Empty, chunked_frames(msg_opcode(m), msg_payload(m))) == (
    match m {
        MsgModel::Text(t) => StepModel::Deliver(m),
        MsgModel::Bytes(b) => StepModel::Deliver(m),
        MsgModel::Ping(b) => StepModel::ReplyPong(b, MsgModel::Ping(b), LockModel::Empty),
        MsgModel::Pong(b) => StepModel::Enqueue(MsgModel::Pong(b), LockModel::Empty),
        MsgModel::Close(_) => StepModel::Failed(ProtocolError::InvalidCloseFrame),
    }));
}


/// A ping or pong between the fragments of a message does not disturb
/// its assembly: the control frame is answered or queued with the lock
/// handed back untouched, and the rest of the run goes on as if the
/// control frame had never arrived.
pub proof fn lemma_control_frame_keeps_assembly(
    lock: LockModel,
    ctrl: FrameModel,
    frames: Seq<FrameModel>,
)
    requires
        frames.len() >= 1,
        ctrl.fin,
        ctrl.opcode is Ping || ctrl.opcode is Pong,
    ensures
        run_recv(lock, seq![ctrl] + frames) == run_recv(lock, frames),
{
    assert((seq![ctrl] + frames)[0] == ctrl);
    assert((seq![ctrl] + frames).drop_first() =~= frames);
}

/// A close code round-trips exactly when the protocol accepts it: an
/// accepted code rendered into a close payload parses back to itself,
/// and every code in the refused stretches of the defined range is
/// the invalid-close-code error.
pub proof fn lemma_close_code_round_trip(code: u16)
    ensures
        code_range_of(code) matches Some(cr) ==> spec_parse_close(
            close_payload_bytes(Some(CloseModel { code: cr, reason: None })),
        ) == Ok::<Option<CloseModel>, ProtocolError>(Some(CloseModel { code: cr, reason: None })),
        1004 <= code <= 1006 || 1012 <= code <= 2999 ==> code_range_of(code) is None
            && spec_parse_close(seq![(code / 256) as u8, (code % 256) as u8]) == Err::<
            Option<CloseModel>,
            ProtocolError,
        >(ProtocolError::InvalidCloseCode(code)),
{
    crate::websocket::close::lemma_code_range_keeps_code(code);
    assert(code == 256 * (code / 256) + code % 256);
    match code_range_of(code) {
        Some(cr) => {
            let p = close_payload_bytes(Some(CloseModel { code: cr, reason: None }));
            assert(p =~= seq![(code / 256) as u8, (code % 256) as u8]);
            assert(be16(p[0], p[1]) == code);
            assert(p.skip(2) =~= Seq::<u8>::empty());
        },
        None => {},
    }
    if 1004 <= code <= 2999 {
        let p = seq![(code / 256) as u8, (code % 256) as u8];
        assert(be16(p[0], p[1]) == code);
    }
}

} // verus!
