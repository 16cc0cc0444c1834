//! The management protocol: length-prefixed frames, and what a request asks
//! for once its fields are read.
use vstd::prelude::*;
use crate::dispatch::{management_target, resolve_target};
use crate::text::str_eq;
use crate::types::{ProcessId, ProcessIdModel};

verus! {

/// The largest frame payload accepted: 16 MiB.
pub open spec fn max_frame_len() -> nat {
    16777216
}

/// The value of four bytes read as a big-endian unsigned number.
pub open spec fn be_u32(b: Seq<u8>) -> nat {
    (b[0] as nat) * 16777216 + (b[1] as nat) * 65536 + (b[2] as nat) * 256 + (b[3] as nat)
}

/// The four header bytes that announce a payload of `len` bytes.
pub open spec fn header_of(len: nat) -> Seq<u8> {
    seq![(len / 16777216) as u8, ((len / 65536) % 256) as u8, ((len / 256) % 256) as u8, (len % 256) as u8]
}

/// The payload length a frame header announces, or `None` when it is over the
/// limit (the connection is then dropped).
pub fn frame_length(header: &Vec<u8>) -> (r: Option<usize>)
    requires
        header.len() == 4,
    ensures
        match r {
            Some(n) => be_u32(header@) <= max_frame_len() && n == be_u32(header@),
            None => be_u32(header@) > max_frame_len(),
        },
{
    let n: u64 = (header[0] as u64) * 16777216 + (header[1] as u64) * 65536 + (header[2] as u64) * 256
        + (header[3] as u64);
    if n > 16777216 {
        None
    } else {
        Some(n as usize)
    }
}

/// Four header bytes read back as the length they were made from.
pub proof fn lemma_header_value(len: nat)
    requires
        len < 4294967296,
    ensures
        be_u32(header_of(len)) == len,
{
    let b0 = len / 16777216;
    let b1 = (len / 65536) % 256;
    let b2 = (len / 256) % 256;
    let b3 = len % 256;
    assert(b0 < 256) by (nonlinear_arith)
        requires
            len < 4294967296,
            b0 == len / 16777216,
    ;
    assert(len == b0 * 16777216 + b1 * 65536 + b2 * 256 + b3) by (nonlinear_arith)
        requires
            b0 == len / 16777216,
            b1 == (len / 65536) % 256,
            b2 == (len / 256) % 256,
            b3 == len % 256,
    ;
    assert(header_of(len)[0] as nat == b0);
    assert(header_of(len)[1] as nat == b1);
    assert(header_of(len)[2] as nat == b2);
    assert(header_of(len)[3] as nat == b3);
}

/// A frame: the payload's length as four big-endian bytes, then the payload.
pub fn encode_frame(data: &Vec<u8>) -> (r: Vec<u8>)
    requires
        data.len() < 4294967296,
    ensures
        r@ == header_of(data.len() as nat) + data@,
        be_u32(r@.take(4)) == data.len(),
{
    let len = data.len() as u64;
    let mut out: Vec<u8> = Vec::new();
    out.push((len / 16777216) as u8);
    out.push(((len / 65536) % 256) as u8);
    out.push(((len / 256) % 256) as u8);
    out.push((len % 256) as u8);
    assert(out@ =~= header_of(data.len() as nat));
    let mut i: usize = 0;
    while i < data.len()
        invariant
            i <= data.len(),
            out@ == header_of(data.len() as nat) + data@.take(i as int),
        decreases data.len() - i,
    {
        out.push(data[i]);
        assert(data@.take(i + 1) =~= data@.take(i as int).push(data@[i as int]));
        assert(out@ =~= header_of(data.len() as nat) + data@.take(i + 1));
        i = i + 1;
    }
    assert(data@.take(data.len() as int) =~= data@);
    proof {
        lemma_header_value(data.len() as nat);
        assert(out@.take(4) =~= header_of(data.len() as nat));
    }
    out
}

/// What a management request asks for.
#[derive(Debug, Clone, Copy, PartialEq, Eq, Structural)]
pub enum MgmtKind {
    /// Run the target and wait for its result.
    Call,
    /// Hand the target a message without waiting.
    Notify,
}

/// A request of type `t` for `target`: the target is resolved first (see
/// [`management_target`]), then the type must be `call` or `notify`.
pub open spec fn mgmt_request(t: Seq<char>, target: Seq<char>) -> Result<(MgmtKind, ProcessIdModel), Seq<char>> {
    match management_target(target) {
        Err(reason) => Err("invalid target: "@ + ("failed to parse '"@ + (target + "/entrypoint"@) + "': "@ + reason)),
        Ok(p) => if t == "call"@ {
            Ok((MgmtKind::Call, p))
        } else if t == "notify"@ {
            Ok((MgmtKind::Notify, p))
        } else {
            Err("unknown message type: "@ + t)
        },
    }
}

/// Reads a request's type and target (see [`mgmt_request`]); the error is the
/// message sent back.
pub fn read_request(msg_type: &str, target: &str) -> (r: Result<(MgmtKind, ProcessId), String>)
    ensures
        match mgmt_request(msg_type@, target@) {
            Ok((k, p)) => r matches Ok(x) && x.0 == k && x.1@ == p,
            Err(m) => r matches Err(e) && e@ == m,
        },
{
    let p = match resolve_target(target) {
        Ok(p) => p,
        Err(e) => {
            let mut m = String::from_str("invalid target: ");
            m.append(e.to_string().as_str());
            return Err(m);
        },
    };
    if str_eq(msg_type, "call") {
        Ok((MgmtKind::Call, p))
    } else if str_eq(msg_type, "notify") {
        Ok((MgmtKind::Notify, p))
    } else {
        let mut m = String::from_str("unknown message type: ");
        m.append(msg_type);
        Err(m)
    }
}

} // verus!
