//! The receive side of a live WebSocket connection as a state machine: given
//! each frame the socket yields, decide whether to keep reading, answer a ping,
//! hand a whole message to the application, or end the connection with a close
//! frame. Fragmented data messages are reassembled here; pings are answered
//! with pongs (RFC 6455 §5.5.2), pongs are ignored, and protocol violations end
//! the connection with the right close code. Sending and receiving bytes is the
//! caller's part.

use vstd::prelude::*;
use vstd::utf8::{decode_utf8, encode_utf8, valid_utf8};
use crate::text::{owned, text_from_utf8, text_from_utf8_lossy, lossy_text};
use crate::ws::close::{INVALID_PAYLOAD, NORMAL, PROTOCOL_ERROR, TOO_BIG};
use crate::ws::frame::{be_bytes, Frame, Opcode};
use crate::ws::message::{CloseFrame, Message};

verus! {

/// Largest single frame and largest reassembled message accepted (16 MiB).
pub const MAX_PAYLOAD: usize = 16777216;

/// The payload of a close frame: the code big-endian, then the reason's
/// UTF-8 bytes, cut to the 125 bytes a control frame may carry.
pub open spec fn close_payload_of(code: u16, reason: Seq<char>) -> Seq<u8> {
    let p = be_bytes(code as nat, 2) + encode_utf8(reason);
    if p.len() > 125 {
        p.subrange(0, 125)
    } else {
        p
    }
}

/// The payload of a ping: at most its first 125 bytes.
pub open spec fn ping_payload_of(data: Seq<u8>) -> Seq<u8> {
    if data.len() > 125 {
        data.subrange(0, 125)
    } else {
        data
    }
}

/// The code and reason a close payload carries: none when it is shorter
/// than two bytes (§5.5.1), else the big-endian code and the rest as text.
pub open spec fn close_body_of(payload: Seq<u8>) -> Option<(u16, Seq<char>)> {
    if payload.len() < 2 {
        None
    } else {
        Some(
            (
                (payload[0] as int * 256 + payload[1] as int) as u16,
                lossy_text(payload.subrange(2, payload.len() as int)),
            ),
        )
    }
}

fn push_str_bytes(out: &mut Vec<u8>, s: &str)
    ensures
        final(out)@ == old(out)@ + encode_utf8(s@),
{
    let b = s.as_bytes();
    let mut i: usize = 0;
    let ghost start = out@;
    while i < b.len()
        invariant
            i <= b@.len(),
            b@ == encode_utf8(s@),
            out@ =~= start + b@.subrange(0, i as int),
        decreases b@.len() - i,
    {
        out.push(b[i]);
        i = i + 1;
    }
}

/// The payload of a close frame with `code` and `reason`, capped at 125 bytes.
pub fn close_payload(code: u16, reason: &str) -> (p: Vec<u8>)
    ensures
        p@ == close_payload_of(code, reason@),
{
    let mut p: Vec<u8> = Vec::new();
    p.push((code / 256) as u8);
    p.push((code % 256) as u8);
    proof {
        reveal_with_fuel(be_bytes, 3);
        assert(p@ =~= be_bytes(code as nat, 2));
    }
    push_str_bytes(&mut p, reason);
    if p.len() > 125 {
        p.truncate(125);
    }
    p
}

/// The payload of a ping, clamped to the 125-byte control-frame limit.
pub fn ping_payload(data: &[u8]) -> (p: Vec<u8>)
    ensures
        p@ == ping_payload_of(data@),
{
    let n = if data.len() > 125 {
        125
    } else {
        data.len()
    };
    let mut p: Vec<u8> = Vec::new();
    let mut i: usize = 0;
    while i < n
        invariant
            i <= n <= data@.len(),
            p@ =~= data@.subrange(0, i as int),
        decreases n - i,
    {
        p.push(data[i]);
        i = i + 1;
    }
    p
}

/// Decode a close frame's payload: a 2-byte big-endian code then a UTF-8
/// reason (invalid sequences replaced). An empty payload means "no code given".
pub fn parse_close(payload: &[u8]) -> (r: Option<CloseFrame>)
    ensures
        match r {
            Some(c) => close_body_of(payload@) == Some((c.code, c.reason@)),
            None => close_body_of(payload@) is None,
        },
{
    if payload.len() < 2 {
        return None;
    }
    let code: u16 = (payload[0] as u16) * 256 + (payload[1] as u16);
    let mut rest: Vec<u8> = Vec::new();
    let mut i: usize = 2;
    while i < payload.len()
        invariant
            2 <= i <= payload@.len(),
            rest@ =~= payload@.subrange(2, i as int),
        decreases payload@.len() - i,
    {
        rest.push(payload[i]);
        i = i + 1;
    }
    let reason = text_from_utf8_lossy(rest.as_slice());
    Some(CloseFrame { code, reason })
}

/// What the connection does after a frame arrives.
pub enum Step {
    /// Nothing to send or hand over; read the next frame.
    Continue,
    /// Answer with a pong carrying this payload, then read on.
    Pong(Vec<u8>),
    /// Hand a complete data message to the application; the connection stays open.
    Deliver(Message),
    /// The peer closed: echo a close frame carrying `reply`, mark the
    /// connection closed and hand `message` to the application.
    Closed { reply: Vec<u8>, message: Message },
    /// A violation: send (best effort) a close frame carrying `reply`, mark
    /// the connection closed and hand `message` to the application.
    Failed { reply: Vec<u8>, message: Message },
}

/// A step, by its contents.
pub enum StepModel {
    Continue,
    Pong(Seq<u8>),
    DeliverText(Seq<char>),
    DeliverBinary(Seq<u8>),
    /// The peer closed with this code and reason, if it gave one; the reply
    /// carries that code (or `NORMAL`) and no reason.
    PeerClosed(Option<(u16, Seq<char>)>),
    /// Rejected with this code and reason, which the reply carries too.
    Failed(u16, Seq<char>),
    /// Any other combination, which `Reassembly::on_frame` never returns.
    Other,
}

/// The code a peer's close is echoed with.
pub open spec fn echo_code(body: Option<(u16, Seq<char>)>) -> u16 {
    match body {
        Some((code, _)) => code,
        None => NORMAL,
    }
}

pub open spec fn close_frame_model(c: Option<CloseFrame>) -> Option<(u16, Seq<char>)> {
    match c {
        Some(f) => Some((f.code, f.reason@)),
        None => None,
    }
}

/// The contents of a step.
pub open spec fn step_model(s: Step) -> StepModel {
    match s {
        Step::Continue => StepModel::Continue,
        Step::Pong(p) => StepModel::Pong(p@),
        Step::Deliver(Message::Text(t)) => StepModel::DeliverText(t@),
        Step::Deliver(Message::Binary(b)) => StepModel::DeliverBinary(b@),
        Step::Closed { reply, message: Message::Close(c) } => {
            let body = close_frame_model(c);
            if reply@ == close_payload_of(echo_code(body), seq![]) {
                StepModel::PeerClosed(body)
            } else {
                StepModel::Other
            }
        },
        Step::Failed { reply, message: Message::Close(Some(c)) } => {
            if reply@ == close_payload_of(c.code, c.reason@) {
                StepModel::Failed(c.code, c.reason@)
            } else {
                StepModel::Other
            }
        },
        _ => StepModel::Other,
    }
}

/// A completed data message: text must be valid UTF-8, binary is as is.
pub open spec fn completed(op: Opcode, bytes: Seq<u8>) -> StepModel {
    if op is Text {
        if valid_utf8(bytes) {
            StepModel::DeliverText(decode_utf8(bytes))
        } else {
            StepModel::Failed(INVALID_PAYLOAD, "text was not valid UTF-8"@)
        }
    } else {
        StepModel::DeliverBinary(bytes)
    }
}

/// The receive rules: from the fragment gathered so far and one frame, the
/// fragment afterwards and the step to take.
pub open spec fn receive(
    partial: Option<(Opcode, Seq<u8>)>,
    fin: bool,
    op: Opcode,
    payload: Seq<u8>,
) -> (Option<(Opcode, Seq<u8>)>, StepModel) {
    match op {
        Opcode::Ping => (partial, StepModel::Pong(payload)),
        Opcode::Pong => (partial, StepModel::Continue),
        Opcode::Close => (partial, StepModel::PeerClosed(close_body_of(payload))),
        Opcode::Continuation => match partial {
            None => (partial, StepModel::Failed(PROTOCOL_ERROR, "continuation without start"@)),
            Some((first, gathered)) => {
                if gathered.len() + payload.len() > MAX_PAYLOAD {
                    (partial, StepModel::Failed(TOO_BIG, "message exceeds limit"@))
                } else if fin {
                    (None, completed(first, gathered + payload))
                } else {
                    (Some((first, gathered + payload)), StepModel::Continue)
                }
            },
        },
        _ => {
            if partial is Some {
                (partial, StepModel::Failed(PROTOCOL_ERROR, "new data frame mid-fragment"@))
            } else if fin {
                (None, completed(op, payload))
            } else {
                (Some((op, payload)), StepModel::Continue)
            }
        },
    }
}

/// The fragmented data message being gathered, if any: its first opcode
/// (`Text`/`Binary`) and the bytes so far.
pub struct Reassembly {
    partial: Option<(Opcode, Vec<u8>)>,
}

impl View for Reassembly {
    type V = Option<(Opcode, Seq<u8>)>;

    closed spec fn view(&self) -> Option<(Opcode, Seq<u8>)> {
        match self.partial {
            Some((op, bytes)) => Some((op, bytes@)),
            None => None,
        }
    }
}

fn fail(code: u16, reason: &'static str) -> (s: Step)
    ensures
        step_model(s) == StepModel::Failed(code, reason@),
{
    Step::Failed {
        reply: close_payload(code, reason),
        message: Message::Close(Some(CloseFrame::new(code, reason))),
    }
}

fn deliver(op: Opcode, bytes: Vec<u8>) -> (s: Step)
    ensures
        step_model(s) == completed(op, bytes@),
{
    match op {
        Opcode::Text => match text_from_utf8(bytes) {
            Some(text) => Step::Deliver(Message::Text(text)),
            None => fail(INVALID_PAYLOAD, "text was not valid UTF-8"),
        },
        _ => Step::Deliver(Message::Binary(bytes)),
    }
}

impl Reassembly {
    /// Nothing gathered yet: the state at the start of each receive.
    pub fn new() -> (r: Reassembly)
        ensures
            r@ is None,
    {
        Reassembly { partial: None }
    }

    /// Take one frame: returns the step to perform, and keeps any fragment of
    /// a data message for the frames that follow.
    pub fn on_frame(&mut self, frame: Frame) -> (s: Step)
        ensures
            (final(self)@, step_model(s)) == receive(
                old(self)@,
                frame.fin,
                frame.opcode,
                frame.payload@,
            ),
            frame.opcode == Opcode::Close && frame.payload@.len() >= 2 && valid_utf8(
                frame.payload@.subrange(2, frame.payload@.len() as int),
            ) ==> step_model(s) == StepModel::PeerClosed(
                Some(
                    (
                        (frame.payload@[0] as int * 256 + frame.payload@[1] as int) as u16,
                        decode_utf8(frame.payload@.subrange(2, frame.payload@.len() as int)),
                    ),
                ),
            ),
    {
        match frame.opcode {
            Opcode::Ping => Step::Pong(frame.payload),
            Opcode::Pong => Step::Continue,
            Opcode::Close => {
                let cf = parse_close(frame.payload.as_slice());
                let code = match &cf {
                    Some(c) => c.code,
                    None => NORMAL,
                };
                let reply = close_payload(code, "");
                proof {
                    reveal_strlit("");
                    assert(""@ =~= Seq::<char>::empty());
                }
                Step::Closed { reply, message: Message::Close(cf) }
            },
            Opcode::Continuation => {
                let taken = self.partial.take();
                match taken {
                    Some((first, mut gathered)) => {
                        if gathered.len() > MAX_PAYLOAD || frame.payload.len() > MAX_PAYLOAD
                            - gathered.len() {
                            self.partial = Some((first, gathered));
                            return fail(TOO_BIG, "message exceeds limit");
                        }
                        let ghost before = gathered@;
                        let mut i: usize = 0;
                        while i < frame.payload.len()
                            invariant
                                i <= frame.payload@.len(),
                                gathered@ =~= before + frame.payload@.subrange(0, i as int),
                            decreases frame.payload@.len() - i,
                        {
                            gathered.push(frame.payload[i]);
                            i = i + 1;
                        }
                        assert(frame.payload@.subrange(0, frame.payload@.len() as int) =~= frame.payload@);
                        assert(gathered@ =~= before + frame.payload@);
                        assert(old(self)@ == Some((first, before)));
                        if frame.fin {
                            deliver(first, gathered)
                        } else {
                            self.partial = Some((first, gathered));
                            Step::Continue
                        }
                    },
                    None => fail(PROTOCOL_ERROR, "continuation without start"),
                }
            },
            _ => {
                if self.partial.is_some() {
                    return fail(PROTOCOL_ERROR, "new data frame mid-fragment");
                }
                if frame.fin {
                    deliver(frame.opcode, frame.payload)
                } else {
                    self.partial = Some((frame.opcode, frame.payload));
                    Step::Continue
                }
            },
        }
    }
}

/// A step that ends the connection: the peer closed, or a violation was
/// answered with a close.
pub open spec fn ends_link(s: Step) -> bool {
    s is Closed || s is Failed
}

/// The receive side of a connection: open, or closed for good once a close
/// frame has arrived, a violation has been answered, or this side closed.
pub struct Link {
    closed: bool,
}

impl Link {
    pub closed spec fn is_closed(&self) -> bool {
        self.closed
    }

    /// A fresh connection after the handshake.
    pub fn new() -> (l: Link)
        ensures
            !l.is_closed(),
    {
        Link { closed: false }
    }

    /// Whether a receive may read from the peer; once closed, every receive
    /// answers that the connection is over without reading.
    pub fn may_read(&self) -> (r: bool)
        ensures
            r == !self.is_closed(),
    {
        !self.closed
    }

    /// Take note of the step a frame led to: a close or a violation closes
    /// the link, anything else leaves it as it was.
    pub fn after_step(&mut self, s: &Step)
        ensures
            final(self).is_closed() == (old(self).is_closed() || ends_link(*s)),
    {
        match s {
            Step::Closed { .. } | Step::Failed { .. } => self.closed = true,
            _ => {},
        }
    }

    /// Close the link: this side started the closing handshake, the peer
    /// went away, or a frame broke the protocol.
    pub fn close(&mut self)
        ensures
            final(self).is_closed(),
    {
        self.closed = true;
    }
}

/// Nothing is read after a close: once closed, a link stays closed whatever
/// steps follow, and every receive answers without reading.
pub proof fn lemma_closed_stays_closed(before: bool, steps: Seq<Step>)
    ensures
        before ==> steps_close(before, steps),
        steps_close(before, steps) == (before || exists|i: int| 0 <= i < steps.len() && ends_link(#[trigger] steps[i])),
    decreases steps.len(),
{
    if steps.len() > 0 {
        lemma_closed_stays_closed(before, steps.drop_last());
        let init = steps.drop_last();
        if exists|i: int| 0 <= i < init.len() && ends_link(#[trigger] init[i]) {
            let i = choose|i: int| 0 <= i < init.len() && ends_link(#[trigger] init[i]);
            assert(steps[i] == init[i]);
        }
        if exists|i: int| 0 <= i < steps.len() && ends_link(#[trigger] steps[i]) {
            let i = choose|i: int| 0 <= i < steps.len() && ends_link(#[trigger] steps[i]);
            if i < init.len() {
                assert(init[i] == steps[i]);
            }
        }
    }
}

/// Whether a link that was `before` closed is closed after the steps, in turn.
pub open spec fn steps_close(before: bool, steps: Seq<Step>) -> bool
    decreases steps.len(),
{
    if steps.len() == 0 {
        before
    } else {
        steps_close(before, steps.drop_last()) || ends_link(steps.last())
    }
}

/// A close frame that fits carries its code and reason to the other side:
/// reading the payload written for `code` and `reason` gives them back.
pub proof fn lemma_close_round_trip(code: u16, reason: Seq<char>)
    requires
        2 + encode_utf8(reason).len() <= 125,
    ensures
        close_body_of(close_payload_of(code, reason)) == Some((code, reason)),
{
    broadcast use vstd::utf8::encode_utf8_valid_utf8, vstd::utf8::encode_utf8_decode_utf8;
    let b = be_bytes(code as nat, 2);
    assert(be_bytes(code as nat, 2) == be_bytes((code as nat) / 256, 1).push(((code as nat) % 256) as u8));
    assert(be_bytes((code as nat) / 256, 1) == be_bytes((code as nat) / 256 / 256, 0).push(
        (((code as nat) / 256) % 256) as u8,
    ));
    assert(b.len() == 2);
    let p = b + encode_utf8(reason);
    assert(p.subrange(2, p.len() as int) =~= encode_utf8(reason));
    assert(p[0] == b[0] && p[1] == b[1]);
    assert(p[0] as int * 256 + p[1] as int == code as int);
}

} // verus!
