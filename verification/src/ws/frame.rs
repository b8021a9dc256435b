//! RFC 6455 §5 framing: read and write the base WebSocket frame.
//!
//! A frame is a FIN bit, three reserved bits (must be zero — no extensions are
//! negotiated), a 4-bit opcode, a mask bit + key, and a payload whose length is
//! 7, 7+16, or 7+64 bits. Client→server frames MUST be masked (§5.1);
//! server→client frames are never masked; reserved bits and unknown opcodes are
//! protocol errors; control frames must be ≤125 bytes and unfragmented.
//!
//! Reading works on the bytes received so far: it either decodes one frame
//! from the front of the buffer, rejects it, or says how many bytes it needs
//! before it can decide.

use vstd::prelude::*;
use crate::ws::close::{PROTOCOL_ERROR, TOO_BIG};

verus! {

/// The frame opcode (§5.2).
#[derive(Debug, Clone, Copy, PartialEq, Eq, Structural)]
pub enum Opcode {
    Continuation,
    Text,
    Binary,
    Close,
    Ping,
    Pong,
}

/// The opcode of a 4-bit wire value; reserved values have none.
pub open spec fn opcode_of(n: u8) -> Option<Opcode> {
    if n == 0 {
        Some(Opcode::Continuation)
    } else if n == 1 {
        Some(Opcode::Text)
    } else if n == 2 {
        Some(Opcode::Binary)
    } else if n == 8 {
        Some(Opcode::Close)
    } else if n == 9 {
        Some(Opcode::Ping)
    } else if n == 10 {
        Some(Opcode::Pong)
    } else {
        None
    }
}

/// The wire value of an opcode.
pub open spec fn opcode_value(op: Opcode) -> u8 {
    match op {
        Opcode::Continuation => 0,
        Opcode::Text => 1,
        Opcode::Binary => 2,
        Opcode::Close => 8,
        Opcode::Ping => 9,
        Opcode::Pong => 10,
    }
}

/// Close, ping and pong are control frames (§5.5).
pub open spec fn control(op: Opcode) -> bool {
    op is Close || op is Ping || op is Pong
}

impl Opcode {
    /// The opcode with wire value `n`; `None` for the reserved values
    /// 0x3-0x7 and 0xB-0xF.
    pub fn from_u8(n: u8) -> (r: Option<Opcode>)
        ensures
            r == opcode_of(n),
    {
        match n {
            0 => Some(Opcode::Continuation),
            1 => Some(Opcode::Text),
            2 => Some(Opcode::Binary),
            8 => Some(Opcode::Close),
            9 => Some(Opcode::Ping),
            10 => Some(Opcode::Pong),
            _ => None,
        }
    }

    /// The wire value of this opcode.
    pub fn to_u8(self) -> (r: u8)
        ensures
            r == opcode_value(self),
    {
        match self {
            Opcode::Continuation => 0,
            Opcode::Text => 1,
            Opcode::Binary => 2,
            Opcode::Close => 8,
            Opcode::Ping => 9,
            Opcode::Pong => 10,
        }
    }

    /// Control frames (close/ping/pong) carry protocol signalling, not data,
    /// and have stricter rules (§5.5).
    pub fn is_control(self) -> (r: bool)
        ensures
            r == control(self),
    {
        match self {
            Opcode::Close | Opcode::Ping | Opcode::Pong => true,
            _ => false,
        }
    }
}

/// Decoding an opcode's wire value gives the opcode back, and every wire
/// value fits in the four opcode bits.
pub proof fn lemma_opcode_round_trip(op: Opcode)
    ensures
        opcode_of(opcode_value(op)) == Some(op),
        opcode_value(op) < 16,
{
}

/// One decoded frame, payload already unmasked.
#[derive(Debug, Clone, PartialEq, Eq)]
pub struct Frame {
    pub fin: bool,
    pub opcode: Opcode,
    pub payload: Vec<u8>,
}

/// A framing violation. Carries the close code to send back (§7.4.1) before the
/// connection is torn down.
#[derive(Debug)]
pub struct ProtocolError {
    pub code: u16,
    pub message: &'static str,
}

/// Either not enough bytes yet, or a protocol violation.
#[derive(Debug)]
pub enum FrameError {
    /// The buffer ends before the frame can be decided; reading must go on
    /// until the buffer holds this many bytes.
    Incomplete(usize),
    Protocol(ProtocolError),
}

/// What the bytes received so far amount to.
pub enum FrameParse {
    /// At least this many bytes are needed before anything can be decided.
    Need(nat),
    /// A violation, with its close code and message.
    Reject(u16, Seq<char>),
    /// A frame: FIN, opcode, unmasked payload, and the bytes it occupies.
    Done(bool, Opcode, Seq<u8>, nat),
}

/// The big-endian value of a byte string.
pub open spec fn be_value(s: Seq<u8>) -> nat
    decreases s.len(),
{
    if s.len() == 0 {
        0
    } else {
        (be_value(s.drop_last()) * 256 + s.last()) as nat
    }
}

/// The `k` low bytes of `n`, big-endian.
pub open spec fn be_bytes(n: nat, k: nat) -> Seq<u8>
    decreases k,
{
    if k == 0 {
        seq![]
    } else {
        be_bytes(n / 256, (k - 1) as nat).push((n % 256) as u8)
    }
}

/// `256` to the power `k`.
pub open spec fn pow256(k: nat) -> nat
    decreases k,
{
    if k == 0 {
        1
    } else {
        256 * pow256((k - 1) as nat)
    }
}

/// How many extended-length bytes follow the 7-bit length `len7`.
pub open spec fn ext_len_bytes(len7: u8) -> nat {
    if len7 == 126 {
        2
    } else if len7 == 127 {
        8
    } else {
        0
    }
}

/// The payload length a header declares (its extended-length bytes present).
pub open spec fn declared_len(s: Seq<u8>) -> nat {
    let len7 = s[1] & 0x7f;
    if len7 == 126 {
        be_value(s.subrange(2, 4))
    } else if len7 == 127 {
        be_value(s.subrange(2, 10))
    } else {
        len7 as nat
    }
}

/// `data` XORed with the repeating 4-byte `mask` (§5.3); its own inverse.
pub open spec fn unmask(data: Seq<u8>, mask: Seq<u8>) -> Seq<u8> {
    Seq::new(data.len(), |i: int| data[i] ^ mask[i % 4])
}

/// The server-side reading of the bytes `s`, with `max` the largest payload
/// accepted. The checks come in the order in which their bytes arrive.
pub open spec fn parse_frame(s: Seq<u8>, max: nat) -> FrameParse {
    if s.len() < 2 {
        FrameParse::Need(2)
    } else if s[0] & 0x70 != 0 {
        FrameParse::Reject(PROTOCOL_ERROR, "reserved bits must be zero"@)
    } else if opcode_of(s[0] & 0x0f) is None {
        FrameParse::Reject(PROTOCOL_ERROR, "reserved opcode"@)
    } else if s[1] & 0x80 == 0 {
        FrameParse::Reject(PROTOCOL_ERROR, "client frame was not masked"@)
    } else {
        let fin = s[0] & 0x80 != 0;
        let op = opcode_of(s[0] & 0x0f).unwrap();
        let ext = ext_len_bytes(s[1] & 0x7f);
        if s.len() < 2 + ext {
            FrameParse::Need(2 + ext)
        } else {
            let len = declared_len(s);
            let start = 2 + ext + 4;
            if ext == 8 && len >= 0x8000_0000_0000_0000 {
                FrameParse::Reject(PROTOCOL_ERROR, "high bit of 64-bit length set"@)
            } else if control(op) && (len > 125 || !fin) {
                FrameParse::Reject(PROTOCOL_ERROR, "control frames must be final and ≤125 bytes"@)
            } else if len > max {
                FrameParse::Reject(TOO_BIG, "frame payload exceeds limit"@)
            } else if s.len() < start + len {
                FrameParse::Need(start + len)
            } else {
                FrameParse::Done(
                    fin,
                    op,
                    unmask(s.subrange(start as int, (start + len) as int), s.subrange((2 + ext) as int, start as int)),
                    start + len,
                )
            }
        }
    }
}

/// The first header byte: FIN bit and opcode.
pub open spec fn first_byte(fin: bool, op: Opcode) -> u8 {
    (if fin { 0x80u8 } else { 0u8 }) | opcode_value(op)
}

/// The length field of an unmasked header: 7 bits, or `126` + u16, or
/// `127` + u64.
pub open spec fn length_field(len: nat) -> Seq<u8> {
    if len < 126 {
        seq![len as u8]
    } else if len <= 65535 {
        seq![126u8] + be_bytes(len, 2)
    } else {
        seq![127u8] + be_bytes(len, 8)
    }
}

/// The bytes of an unmasked server→client frame.
pub open spec fn server_frame(fin: bool, op: Opcode, payload: Seq<u8>) -> Seq<u8> {
    seq![first_byte(fin, op)] + length_field(payload.len()) + payload
}

/// The bytes of a client→server frame masked with `mask`, as a browser sends it.
pub open spec fn client_frame(fin: bool, op: Opcode, payload: Seq<u8>, mask: Seq<u8>) -> Seq<u8> {
    let h = length_field(payload.len());
    seq![first_byte(fin, op), h[0] | 0x80] + h.subrange(1, h.len() as int) + mask + unmask(
        payload,
        mask,
    )
}

proof fn lemma_be_value_bound(s: Seq<u8>)
    ensures
        be_value(s) < pow256(s.len()),
    decreases s.len(),
{
    if s.len() > 0 {
        lemma_be_value_bound(s.drop_last());
    }
}

/// `256^7` and `256^8`.
pub proof fn lemma_pow256_seven()
    ensures
        pow256(7) == 72057594037927936,
        pow256(8) == 0x1_0000_0000_0000_0000,
{
    reveal_with_fuel(pow256, 9);
}

proof fn lemma_pow256_mono(i: nat, j: nat)
    requires
        i <= j,
    ensures
        pow256(i) <= pow256(j),
    decreases j,
{
    if i < j {
        lemma_pow256_mono(i, (j - 1) as nat);
    }
}

/// Reading back the `k` big-endian bytes of a number below `256^k` gives the number.
pub proof fn lemma_be_round_trip(n: nat, k: nat)
    requires
        n < pow256(k),
    ensures
        be_value(be_bytes(n, k)) == n,
        be_bytes(n, k).len() == k,
    decreases k,
{
    if k > 0 {
        lemma_be_round_trip(n / 256, (k - 1) as nat);
        assert(be_bytes(n, k).drop_last() =~= be_bytes(n / 256, (k - 1) as nat));
    }
}

proof fn lemma_first_byte(fin: bool, op: Opcode)
    ensures
        first_byte(fin, op) & 0x70 == 0,
        first_byte(fin, op) & 0x0f == opcode_value(op),
        (first_byte(fin, op) & 0x80 != 0) == fin,
{
    let v = opcode_value(op);
    assert((0x80u8 | v) & 0x70 == 0 && (0x80u8 | v) & 0x0f == v && (0x80u8 | v) & 0x80 != 0)
        by (bit_vector)
        requires
            v < 16,
    ;
    assert((0u8 | v) & 0x70 == 0 && (0u8 | v) & 0x0f == v && (0u8 | v) & 0x80 == 0)
        by (bit_vector)
        requires
            v < 16,
    ;
}

proof fn lemma_length_field(len: nat)
    requires
        len < 0x8000_0000_0000_0000,
    ensures
        length_field(len)[0] < 128,
        length_field(len).len() == 1 + ext_len_bytes(length_field(len)[0]),
        len < 126 ==> length_field(len)[0] == len,
        len >= 126 ==> length_field(len)[0] >= 126,
        length_field(len)[0] == 126 ==> be_value(length_field(len).subrange(1, 3)) == len,
        length_field(len)[0] == 127 ==> be_value(length_field(len).subrange(1, 9)) == len,
{
    reveal_with_fuel(pow256, 3);
    lemma_pow256_seven();
    let h = length_field(len);
    if len >= 126 && len <= 65535 {
        lemma_be_round_trip(len, 2);
        assert(h.subrange(1, 3) =~= be_bytes(len, 2));
    } else if len > 65535 {
        lemma_be_round_trip(len, 8);
        assert(h.subrange(1, 9) =~= be_bytes(len, 8));
    }
}

/// Reading the bytes a client sends for a frame gives back that frame, whatever
/// follows it in the buffer: its FIN bit, its opcode and its payload, unmasked,
/// occupying exactly the frame's bytes.
pub proof fn lemma_client_frame_round_trip(
    fin: bool,
    op: Opcode,
    payload: Seq<u8>,
    mask: Seq<u8>,
    rest: Seq<u8>,
    max: nat,
)
    requires
        mask.len() == 4,
        payload.len() <= max,
        payload.len() < 0x8000_0000_0000_0000,
        control(op) ==> fin && payload.len() <= 125,
    ensures
        parse_frame(client_frame(fin, op, payload, mask) + rest, max) == FrameParse::Done(
            fin,
            op,
            payload,
            client_frame(fin, op, payload, mask).len(),
        ),
{
    let c = client_frame(fin, op, payload, mask);
    let s = c + rest;
    let len = payload.len();
    let h = length_field(len);
    lemma_first_byte(fin, op);
    lemma_length_field(len);
    lemma_opcode_round_trip(op);
    let x = h[0];
    assert((x | 0x80) & 0x80 != 0 && (x | 0x80) & 0x7f == x) by (bit_vector)
        requires
            x < 128,
    ;
    let ext = ext_len_bytes(x);
    assert(s[0] == first_byte(fin, op));
    assert(s[1] == x | 0x80);
    assert(s.subrange(2, (2 + ext) as int) =~= h.subrange(1, h.len() as int));
    if x == 126 {
        assert(s.subrange(2, 4) =~= h.subrange(1, 3));
    } else if x == 127 {
        assert(s.subrange(2, 10) =~= h.subrange(1, 9));
    }
    assert(declared_len(s) == len);
    let start = 2 + ext + 4;
    assert(s.subrange((2 + ext) as int, start as int) =~= mask);
    let body = s.subrange(start as int, (start + len) as int);
    assert(body =~= unmask(payload, mask));
    assert forall|i: int| 0 <= i < len implies #[trigger] unmask(body, mask)[i] == payload[i] by {
        let p = payload[i];
        let m = mask[i % 4];
        assert((p ^ m) ^ m == p) by (bit_vector);
    }
    assert(unmask(body, mask) =~= payload);
    assert(c.len() == start + len);
}

/// Frames the server writes are never masked: read as client frames they are
/// refused for that reason.
pub proof fn lemma_server_frame_unmasked(fin: bool, op: Opcode, payload: Seq<u8>, max: nat)
    requires
        payload.len() < 0x8000_0000_0000_0000,
    ensures
        parse_frame(server_frame(fin, op, payload), max) == FrameParse::Reject(
            PROTOCOL_ERROR,
            "client frame was not masked"@,
        ),
{
    let s = server_frame(fin, op, payload);
    lemma_first_byte(fin, op);
    lemma_length_field(payload.len());
    lemma_opcode_round_trip(op);
    let x = length_field(payload.len())[0];
    assert(x & 0x80 == 0) by (bit_vector)
        requires
            x < 128,
    ;
    assert(s[1] == x);
}

fn protocol(code: u16, message: &'static str) -> (e: FrameError)
    ensures
        e == FrameError::Protocol(ProtocolError { code, message }),
{
    FrameError::Protocol(ProtocolError { code, message })
}

/// Decode the extended payload length (§5.2): 7-bit, or `126` + u16, or
/// `127` + u64 whose high bit must be clear.
fn read_payload_len(input: &[u8], len7: u8) -> (r: Result<u64, FrameError>)
    requires
        input@.len() >= 2,
        len7 == input@[1] & 0x7f,
        input@.len() >= 2 + ext_len_bytes(len7),
    ensures
        match r {
            Ok(n) => n == declared_len(input@) && !(ext_len_bytes(len7) == 8 && n
                >= 0x8000_0000_0000_0000),
            Err(e) => ext_len_bytes(len7) == 8 && declared_len(input@) >= 0x8000_0000_0000_0000
                && e == FrameError::Protocol(
                ProtocolError { code: PROTOCOL_ERROR, message: "high bit of 64-bit length set" },
            ),
        },
{
    if len7 == 126 {
        let n = (input[2] as u64) * 256 + (input[3] as u64);
        proof {
            let t = input@.subrange(2, 4);
            let u = t.drop_last();
            assert(u.drop_last().len() == 0);
            assert(be_value(u.drop_last()) == 0);
            assert(be_value(u) == u.last());
            assert(u.last() == t[0]);
            assert(be_value(t) == n);
        }
        Ok(n)
    } else if len7 == 127 {
        let mut n: u64 = 0;
        let mut i: usize = 0;
        while i < 8
            invariant
                i <= 8,
                input@.len() >= 10,
                n == be_value(input@.subrange(2, 2 + i)),
            decreases 8 - i,
        {
            proof {
                let t = input@.subrange(2, 2 + i);
                lemma_be_value_bound(t);
                lemma_pow256_mono(i as nat, 7);
                lemma_pow256_seven();
                assert(input@.subrange(2, 2 + i + 1).drop_last() =~= t);
            }
            n = n * 256 + (input[2 + i] as u64);
            i = i + 1;
        }
        if n & 0x8000_0000_0000_0000 != 0 {
            assert(n >= 0x8000_0000_0000_0000) by (bit_vector)
                requires
                    n & 0x8000_0000_0000_0000 != 0,
            ;
            Err(protocol(PROTOCOL_ERROR, "high bit of 64-bit length set"))
        } else {
            assert(n < 0x8000_0000_0000_0000) by (bit_vector)
                requires
                    n & 0x8000_0000_0000_0000 == 0,
            ;
            Ok(n)
        }
    } else {
        Ok(len7 as u64)
    }
}

/// Read one frame from the front of `input`, rejecting anything that violates
/// the server-side rules. `max_payload` caps a single frame to bound memory.
/// Gives the frame and the number of bytes it occupied; when `input` ends
/// too early to decide, the error says how many bytes the buffer must hold
/// before trying again (`usize::MAX` when that count does not fit).
pub fn read_frame(input: &[u8], max_payload: usize) -> (r: Result<(Frame, usize), FrameError>)
    ensures
        match r {
            Ok((f, n)) => parse_frame(input@, max_payload as nat) == FrameParse::Done(
                f.fin,
                f.opcode,
                f.payload@,
                n as nat,
            ),
            Err(FrameError::Incomplete(n)) => parse_frame(input@, max_payload as nat) matches FrameParse::Need(
                m,
            ) && n == (if m <= usize::MAX {
                m
            } else {
                usize::MAX as nat
            }),
            Err(FrameError::Protocol(e)) => parse_frame(input@, max_payload as nat)
                == FrameParse::Reject(e.code, e.message@),
        },
{
    if input.len() < 2 {
        return Err(FrameError::Incomplete(2));
    }
    let b0 = input[0];
    let b1 = input[1];
    let fin = b0 & 0x80 != 0;
    if b0 & 0x70 != 0 {
        return Err(protocol(PROTOCOL_ERROR, "reserved bits must be zero"));
    }
    let opcode = match Opcode::from_u8(b0 & 0x0f) {
        Some(op) => op,
        None => return Err(protocol(PROTOCOL_ERROR, "reserved opcode")),
    };
    if b1 & 0x80 == 0 {
        return Err(protocol(PROTOCOL_ERROR, "client frame was not masked"));
    }
    let len7 = b1 & 0x7f;
    let ext: usize = if len7 == 126 {
        2
    } else if len7 == 127 {
        8
    } else {
        0
    };
    if input.len() < 2 + ext {
        return Err(FrameError::Incomplete(2 + ext));
    }
    let len = match read_payload_len(input, len7) {
        Ok(n) => n,
        Err(e) => return Err(e),
    };
    if opcode.is_control() && (len > 125 || !fin) {
        return Err(protocol(PROTOCOL_ERROR, "control frames must be final and ≤125 bytes"));
    }
    if len > max_payload as u64 {
        return Err(protocol(TOO_BIG, "frame payload exceeds limit"));
    }
    let n = len as usize;
    let start = 2 + ext + 4;
    if input.len() < start || input.len() - start < n {
        let need: usize = if n <= usize::MAX - start {
            start + n
        } else {
            usize::MAX
        };
        return Err(FrameError::Incomplete(need));
    }
    let mut payload: Vec<u8> = Vec::new();
    let mut i: usize = 0;
    while i < n
        invariant
            i <= n,
            start + n <= input@.len(),
            start == 2 + ext + 4,
            ext <= 8,
            input@.len() <= usize::MAX,
            payload@ =~= unmask(input@.subrange(start as int, start + i), input@.subrange(2 + ext, start as int)),
        decreases n - i,
    {
        payload.push(input[start + i] ^ input[2 + ext + i % 4]);
        i = i + 1;
    }
    Ok((Frame { fin, opcode, payload }, start + n))
}

/// Append the `k` low bytes of `n`, big-endian.
pub fn push_be_bytes(out: &mut Vec<u8>, n: u64, k: usize)
    requires
        k <= 8,
    ensures
        final(out)@ == old(out)@ + be_bytes(n as nat, k as nat),
    decreases k,
{
    if k > 0 {
        push_be_bytes(out, n / 256, k - 1);
        out.push((n % 256) as u8);
    }
}

/// Append a server→client frame to `out` (never masked, per §5.1).
pub fn write_frame(out: &mut Vec<u8>, fin: bool, opcode: Opcode, payload: &[u8])
    ensures
        final(out)@ == old(out)@ + server_frame(fin, opcode, payload@),
{
    let head: u8 = if fin {
        0x80
    } else {
        0
    };
    out.push(head | opcode.to_u8());
    let len = payload.len();
    if len < 126 {
        out.push(len as u8);
    } else if len <= 65535 {
        out.push(126);
        push_be_bytes(out, len as u64, 2);
    } else {
        out.push(127);
        push_be_bytes(out, len as u64, 8);
    }
    let mut i: usize = 0;
    let ghost mid = out@;
    while i < payload.len()
        invariant
            i <= payload@.len(),
            out@ =~= mid + payload@.subrange(0, i as int),
        decreases payload@.len() - i,
    {
        out.push(payload[i]);
        i = i + 1;
    }
    assert(out@ =~= old(out)@ + server_frame(fin, opcode, payload@));
}

} // verus!
