//! Configuration for the WebSocket flavour of the message bus, and the
//! wire-frame reader for inbound bus messages.
//!
//! The frame reader accepts exactly the strict `MSG` frame shape: whatever it
//! accepts it re-encodes and compares, so a successful parse proves the input
//! was a well-formed frame.

use vstd::prelude::*;

verus! {

/// Connection settings for the WebSocket transport. Durations are carried in
/// whole seconds, as plain integers.
#[derive(Debug, Clone)]
pub struct WasmNatsConfig {
    pub websocket_url: String,
    pub timeout_secs: u64,
    pub max_reconnects: Option<usize>,
    pub reconnect_delay_secs: u64,
}

impl Default for WasmNatsConfig {
    fn default() -> (r: Self)
        ensures
            r.websocket_url@ == "ws://localhost:8080/nats"@,
            r.timeout_secs == 10,
            r.max_reconnects == Some(10usize),
            r.reconnect_delay_secs == 1,
    {
        WasmNatsConfig {
            websocket_url: "ws://localhost:8080/nats".to_owned(),
            timeout_secs: 10,
            max_reconnects: Some(10),
            reconnect_delay_secs: 1,
        }
    }
}

/// What a WebSocket connection reports about itself.
#[derive(Debug, Clone)]
pub struct WasmConnectionStats {
    pub is_connected: bool,
    pub ready_state: u16,
    pub url: String,
}

/// One inbound bus frame: a subject and an opaque payload.
#[derive(Debug, PartialEq)]
pub struct NatsFrame {
    pub subject: Vec<u8>,
    pub sid: Vec<u8>,
    pub payload: Vec<u8>,
}

/// The decimal digit byte for `d`.
pub open spec fn spec_digit_byte(d: u64) -> u8 {
    (48 + (d % 10)) as u8
}

/// The decimal rendering of `n` as bytes, most significant digit first.
pub open spec fn spec_u64_bytes(n: u64) -> Seq<u8>
    decreases n,
{
    if n < 10 {
        seq![spec_digit_byte(n)]
    } else {
        spec_u64_bytes((n / 10) as u64).push(spec_digit_byte(n % 10))
    }
}

/// Renders `n` in decimal bytes.
pub fn u64_to_bytes(n: u64) -> (r: Vec<u8>)
    ensures
        r@ == spec_u64_bytes(n),
    decreases n,
{
    if n < 10 {
        let mut out: Vec<u8> = Vec::new();
        out.push((48 + (n % 10)) as u8);
        proof {
            assert(out@ =~= spec_u64_bytes(n));
        }
        out
    } else {
        let q = n / 10;
        proof {
            assert(q < n) by (nonlinear_arith)
                requires
                    n >= 10,
                    q == n / 10,
            ;
        }
        let mut out = u64_to_bytes(q);
        out.push((48 + (n % 10)) as u8);
        proof {
            assert(out@ =~= spec_u64_bytes(n));
        }
        out
    }
}

/// The exact byte shape of one inbound frame:
/// `MSG <subject> <sid> <payload length>\r\n<payload>\r\n`.
pub open spec fn frame_bytes(subject: Seq<u8>, sid: Seq<u8>, payload: Seq<u8>) -> Seq<u8> {
    seq![77u8, 83u8, 71u8, 32u8] + subject + seq![32u8] + sid + seq![32u8] + spec_u64_bytes(
        payload.len() as u64,
    ) + seq![13u8, 10u8] + payload + seq![13u8, 10u8]
}

/// Byte-sequence equality.
fn bytes_eq(a: &[u8], b: &[u8]) -> (r: bool)
    ensures
        r == (a@ == b@),
{
    if a.len() != b.len() {
        return false;
    }
    let n = a.len();
    let mut i: usize = 0;
    #[verifier::loop_isolation(false)]
    while i < n
        invariant
            n == a@.len() == b@.len(),
            i <= n,
            forall|k: int| 0 <= k < i ==> a@[k] == b@[k],
        decreases n - i,
    {
        if a[i] != b[i] {
            return false;
        }
        i += 1;
    }
    proof {
        assert(a@ =~= b@);
    }
    true
}

/// The bytes of a frame, rebuilt from its parts.
#[verifier::loop_isolation(false)]
fn encode_frame(subject: &Vec<u8>, sid: &Vec<u8>, payload: &Vec<u8>) -> (r: Vec<u8>)
    requires
        payload@.len() <= u64::MAX,
    ensures
        r@ == frame_bytes(subject@, sid@, payload@),
{
    let mut out: Vec<u8> = Vec::new();
    out.push(77);
    out.push(83);
    out.push(71);
    out.push(32);
    append_bytes(&mut out, subject);
    out.push(32);
    append_bytes(&mut out, sid);
    out.push(32);
    let digits = u64_to_bytes(payload.len() as u64);
    append_bytes(&mut out, &digits);
    out.push(13);
    out.push(10);
    append_bytes(&mut out, payload);
    out.push(13);
    out.push(10);
    proof {
        assert(out@ =~= frame_bytes(subject@, sid@, payload@));
    }
    out
}

/// Appends all of `src` to `dst`.
#[verifier::loop_isolation(false)]
fn append_bytes(dst: &mut Vec<u8>, src: &Vec<u8>) -> (nothing: ())
    ensures
        final(dst)@ == old(dst)@ + src@,
{
    let ghost base = dst@;
    proof {
        assert(base + src@.take(0) =~= base);
    }
    let mut i: usize = 0;
    while i < src.len()
        invariant
            i <= src@.len(),
            dst@ == base + src@.take(i as int),
        decreases src@.len() - i,
    {
        dst.push(src[i]);
        proof {
            assert(base + src@.take(i + 1) =~= (base + src@.take(i as int)).push(
                src@[i as int],
            ));
        }
        i += 1;
    }
    proof {
        assert(src@.take(src@.len() as int) =~= src@);
        assert(dst@ =~= base + src@);
    }
}

/// Scans a token up to the next space; yields the token and the position
/// after the space.
#[verifier::loop_isolation(false)]
fn scan_token(data: &[u8], start: usize) -> (r: Option<(Vec<u8>, usize)>)
    ensures
        r matches Some(p) ==> start < p.1 <= data@.len(),
{
    let n = data.len();
    if start >= n {
        return None;
    }
    let mut out: Vec<u8> = Vec::new();
    let mut i: usize = start;
    while i < n
        invariant
            n == data@.len(),
            start <= i <= n,
        decreases n - i,
    {
        let b = data[i];
        if b == 32 {
            if i == start {
                return None;
            }
            return Some((out, i + 1));
        }
        if b == 13 || b == 10 {
            return None;
        }
        out.push(b);
        i += 1;
    }
    None
}

/// Reads one `MSG` frame; the whole input must be one frame, and whatever is
/// accepted re-encodes to exactly the input.
#[verifier::loop_isolation(false)]
pub fn parse_nats_message(data: &[u8]) -> (r: Option<NatsFrame>)
    ensures
        r matches Some(frame) ==> data@ == frame_bytes(frame.subject@, frame.sid@, frame.payload@),
{
    let n = data.len();
    if n < 4 || data[0] != 77 || data[1] != 83 || data[2] != 71 || data[3] != 32 {
        return None;
    }
    let (subject, pos) = match scan_token(data, 4) {
        Some(p) => p,
        None => { return None },
    };
    let (sid, pos) = match scan_token(data, pos) {
        Some(p) => p,
        None => { return None },
    };
    // the declared payload length, in decimal, up to `\r`
    let mut len: u64 = 0;
    let mut i: usize = pos;
    let mut digit_seen = false;
    while i < n && data[i] != 13
        invariant
            n == data@.len(),
            pos <= i <= n,
        decreases n - i,
    {
        let b = data[i];
        if b < 48 || b > 57 {
            return None;
        }
        if len > 1844674407370955160 {
            return None;
        }
        len = len * 10 + ((b - 48) as u64);
        digit_seen = true;
        i += 1;
    }
    if !digit_seen {
        return None;
    }
    if n - i < 2 || data[i] != 13 || data[i + 1] != 10 {
        return None;
    }
    let body_start = i + 2;
    if len > (n as u64) {
        return None;
    }
    let len_usize = len as usize;
    if body_start > n - len_usize {
        return None;
    }
    let mut payload: Vec<u8> = Vec::new();
    let mut j: usize = body_start;
    while j < body_start + len_usize
        invariant
            n == data@.len(),
            body_start + len_usize <= n,
            body_start <= j <= body_start + len_usize,
            payload@.len() == j - body_start,
        decreases body_start + len_usize - j,
    {
        payload.push(data[j]);
        j += 1;
    }
    if n - j != 2 || data[j] != 13 || data[j + 1] != 10 {
        return None;
    }
    let frame = NatsFrame { subject, sid, payload };
    let reencoded = encode_frame(&frame.subject, &frame.sid, &frame.payload);
    if bytes_eq(reencoded.as_slice(), data) {
        Some(frame)
    } else {
        None
    }
}

} // verus!
