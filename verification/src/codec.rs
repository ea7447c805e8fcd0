//! The wire codec: one frame per message, a fixed header of 22 bytes in
//! big-endian order followed by the key and, where there is a payload, its
//! tag and its bytes.
//!
//! | field       | width | meaning                                   |
//! |-------------|-------|-------------------------------------------|
//! | request id  | 8     | correlation token, echoed in the response |
//! | code        | 1     | 0 for a request, else the status          |
//! | op          | 1     | the operation                             |
//! | payload len | 8     | 0: no payload and no tag follow           |
//! | key len     | 4     | length of the key                         |
//! | key         |       |                                           |
//! | type id     | 4     | only where payload len is not 0           |
//! | payload     |       | only where payload len is not 0           |

use crate::buffer::buffered;
use crate::message::{payload, request, response, Code, Message, MessageView, Op, PayloadView};
use bytes::BytesMut;
use vstd::prelude::*;
use vstd::slice::slice_to_vec;

verus! {

/// The token by which a connection tells its requests apart. It is carried
/// through and never interpreted.
pub type RequestId = u64;

/// The length of the fixed header.
pub const HEADER_LEN: usize = 22;

/// The codec itself. It keeps nothing between calls.
pub struct CacheCodec;

/// Why a frame could not be read or written.
#[derive(Clone, Copy, Debug, PartialEq, Eq, Structural)]
pub enum CodecError {
    /// The op byte of a complete frame names no operation.
    UnknownOp(u8),
    /// The code byte of a complete frame is not 0 and names no status.
    UnknownCode(u8),
    /// The buffer with the frame behind it would pass `isize::MAX` bytes,
    /// more than one allocation can hold.
    FrameTooLarge,
}

/// The four bytes of `v`, most significant first.
#[verifier::opaque]
pub open spec fn be_u32(v: u32) -> Seq<u8> {
    seq![
        (v / 0x100_0000) as u8,
        (v / 0x1_0000 % 0x100) as u8,
        (v / 0x100 % 0x100) as u8,
        (v % 0x100) as u8,
    ]
}

/// The eight bytes of `v`, most significant first.
#[verifier::opaque]
pub open spec fn be_u64(v: u64) -> Seq<u8> {
    be_u32((v / 0x1_0000_0000) as u32) + be_u32((v % 0x1_0000_0000) as u32)
}

/// The number that four bytes spell, most significant first.
#[verifier::opaque]
pub open spec fn u32_of_be(b: Seq<u8>) -> u32
    recommends
        b.len() == 4,
{
    (b[0] * 0x100_0000 + b[1] * 0x1_0000 + b[2] * 0x100 + b[3]) as u32
}

/// The number that eight bytes spell, most significant first.
#[verifier::opaque]
pub open spec fn u64_of_be(b: Seq<u8>) -> u64
    recommends
        b.len() == 8,
{
    (u32_of_be(b.subrange(0, 4)) * 0x1_0000_0000 + u32_of_be(b.subrange(4, 8))) as u64
}

/// Reading back what was written gives the number written.
pub proof fn lemma_be_u32_inverse(v: u32)
    ensures
        be_u32(v).len() == 4,
        u32_of_be(be_u32(v)) == v,
{
    reveal(be_u32);
    reveal(u32_of_be);
}

/// Reading back what was written gives the number written.
pub proof fn lemma_be_u64_inverse(v: u64)
    ensures
        be_u64(v).len() == 8,
        u64_of_be(be_u64(v)) == v,
{
    reveal(be_u64);
    reveal(u64_of_be);
    let hi = (v / 0x1_0000_0000) as u32;
    let lo = (v % 0x1_0000_0000) as u32;
    lemma_be_u32_inverse(hi);
    lemma_be_u32_inverse(lo);
    assert(be_u64(v).subrange(0, 4) =~= be_u32(hi));
    assert(be_u64(v).subrange(4, 8) =~= be_u32(lo));
}

fn push_be_u32(out: &mut Vec<u8>, v: u32)
    ensures
        final(out)@ == old(out)@ + be_u32(v),
        be_u32(v).len() == 4,
{
    out.push((v / 0x100_0000) as u8);
    out.push((v / 0x1_0000 % 0x100) as u8);
    out.push((v / 0x100 % 0x100) as u8);
    out.push((v % 0x100) as u8);
    proof {
        reveal(be_u32);
    }
    assert(out@ =~= old(out)@ + be_u32(v));
}

fn push_be_u64(out: &mut Vec<u8>, v: u64)
    ensures
        final(out)@ == old(out)@ + be_u64(v),
        be_u64(v).len() == 8,
{
    push_be_u32(out, (v / 0x1_0000_0000) as u32);
    push_be_u32(out, (v % 0x1_0000_0000) as u32);
    proof {
        reveal(be_u64);
    }
    assert(out@ =~= old(out)@ + be_u64(v));
}

fn read_be_u32(bytes: &[u8], at: usize) -> (v: u32)
    requires
        at + 4 <= bytes@.len(),
    ensures
        v == u32_of_be(bytes@.subrange(at as int, at + 4)),
{
    proof {
        reveal(u32_of_be);
    }
    let b0: u32 = bytes[at] as u32;
    let b1: u32 = bytes[at + 1] as u32;
    let b2: u32 = bytes[at + 2] as u32;
    let b3: u32 = bytes[at + 3] as u32;
    b0 * 0x100_0000 + b1 * 0x1_0000 + b2 * 0x100 + b3
}

fn read_be_u64(bytes: &[u8], at: usize) -> (v: u64)
    requires
        at + 8 <= bytes@.len(),
    ensures
        v == u64_of_be(bytes@.subrange(at as int, at + 8)),
{
    proof {
        reveal(u64_of_be);
        vstd::slice::axiom_spec_len(bytes);
    }
    let hi: u64 = read_be_u32(bytes, at) as u64;
    let lo: u64 = read_be_u32(bytes, at + 4) as u64;
    proof {
        let b = bytes@.subrange(at as int, at + 8);
        assert(b.subrange(0, 4) =~= bytes@.subrange(at as int, at + 4));
        assert(b.subrange(4, 8) =~= bytes@.subrange(at + 4, at + 8));
    }
    hi * 0x1_0000_0000 + lo
}

/// The code byte of a message: 0 for a request, the status for a response.
pub open spec fn status_byte(m: MessageView) -> u8 {
    match m.code() {
        Some(code) => code.byte(),
        None => 0,
    }
}

/// A length as the key length field holds it: its low 32 bits.
pub open spec fn low_u32(n: nat) -> u32 {
    (n % 0x1_0000_0000) as u32
}

/// A length as the payload length field holds it: its low 64 bits.
pub open spec fn low_u64(n: nat) -> u64 {
    (n % 0x1_0000_0000_0000_0000) as u64
}

/// The fixed header of the frame for `m` under the id `id`.
pub open spec fn header(id: u64, m: MessageView) -> Seq<u8> {
    be_u64(id) + seq![status_byte(m), m.op().byte()] + be_u64(low_u64(m.parts().1.1.len()))
        + be_u32(low_u32(m.parts().0.len()))
}

/// What follows the header: the key, then the payload's tag and bytes.
/// A payload without bytes is written like no payload: no tag, no bytes.
pub open spec fn body(m: MessageView) -> Seq<u8> {
    let key = m.parts().0;
    let type_id = m.parts().1.0;
    let data = m.parts().1.1;
    if data.len() > 0 {
        key + be_u32(type_id) + data
    } else {
        key
    }
}

/// The frame for `m` under the id `id`.
pub open spec fn frame(id: u64, m: MessageView) -> Seq<u8> {
    header(id, m) + body(m)
}

/// The messages that come back from the wire as they went: the key length
/// fits its four bytes, the payload length its eight, and a payload that is
/// present has bytes.
pub open spec fn framable(m: MessageView) -> bool {
    &&& m.parts().0.len() <= u32::MAX
    &&& match m.payload() {
        Some(p) => 0 < p.data.len() <= u64::MAX,
        None => true,
    }
}

/// What the front of a buffer holds.
pub enum Parsed {
    /// Not yet a whole frame: the header is incomplete, or fewer bytes are
    /// there than it announces.
    Incomplete,
    /// The first `len` bytes are the frame of `message` under `id`.
    Frame { len: nat, id: u64, message: MessageView },
    /// The first `len` bytes are a whole frame that is no message.
    Malformed { len: nat, error: CodecError },
}

/// The length of the frame that a complete header announces: header, key,
/// payload, and four bytes of tag where the payload is not empty.
pub open spec fn announced_len(buf: Seq<u8>) -> nat
    recommends
        buf.len() >= HEADER_LEN,
{
    let payload_len = u64_of_be(buf.subrange(10, 18));
    let key_len = u32_of_be(buf.subrange(18, 22));
    (HEADER_LEN + key_len + payload_len + if payload_len > 0 {
        4int
    } else {
        0int
    }) as nat
}

/// The message that one whole frame holds. The op byte is looked at first,
/// then the code byte; 0 there makes it a request with the key, anything
/// else a response, whose frame's key bytes are skipped.
pub open spec fn read_message(f: Seq<u8>) -> Result<MessageView, CodecError>
    recommends
        f.len() >= HEADER_LEN,
        f.len() == announced_len(f),
{
    let code = f[8];
    let op = f[9];
    let payload_len = u64_of_be(f.subrange(10, 18));
    let key_len = u32_of_be(f.subrange(18, 22));
    let key = f.subrange(HEADER_LEN as int, HEADER_LEN + key_len);
    let payload = if payload_len > 0 {
        Some(
            PayloadView {
                type_id: u32_of_be(f.subrange(HEADER_LEN + key_len, HEADER_LEN + key_len + 4)),
                data: f.subrange(HEADER_LEN + key_len + 4, f.len() as int),
            },
        )
    } else {
        None
    };
    match Op::of_byte(op) {
        None => Err(CodecError::UnknownOp(op)),
        Some(op) => if code == 0 {
            Ok(MessageView::Request(op, key, payload))
        } else {
            match Code::of_byte(code) {
                None => Err(CodecError::UnknownCode(code)),
                Some(code) => Ok(MessageView::Response(op, code, payload)),
            }
        },
    }
}

/// What decoding finds at the front of `buf`.
pub open spec fn parse(buf: Seq<u8>) -> Parsed {
    if buf.len() < HEADER_LEN || buf.len() < announced_len(buf) {
        Parsed::Incomplete
    } else {
        let len = announced_len(buf);
        let f = buf.take(len as int);
        match read_message(f) {
            Ok(message) => Parsed::Frame { len, id: u64_of_be(f.subrange(0, 8)), message },
            Err(error) => Parsed::Malformed { len, error },
        }
    }
}

/// The key, the tag and the payload bytes as they go on the wire.
fn wire_parts(msg: &Message) -> (parts: (&[u8], u32, &[u8]))
    ensures
        (parts.0@, (parts.1, parts.2@)) == msg@.parts(),
{
    match msg {
        Message::Request(_, key, Some(p)) => (key.as_slice(), p.type_id, p.data.as_slice()),
        Message::Request(_, key, None) => (key.as_slice(), 0, &[]),
        Message::Response(_, _, Some(p)) => (&[], p.type_id, p.data.as_slice()),
        Message::Response(_, _, None) => (&[], 0, &[]),
    }
}

/// The 22 bytes of a header with the given fields.
fn header_bytes(request_id: u64, status: u8, op: u8, payload_len: usize, key_len: usize) -> (head:
    Vec<u8>)
    ensures
        head@ == be_u64(request_id) + seq![status, op] + be_u64(low_u64(payload_len as nat))
            + be_u32(low_u32(key_len as nat)),
        head@.len() == HEADER_LEN,
{
    let mut head: Vec<u8> = Vec::with_capacity(HEADER_LEN);
    push_be_u64(&mut head, request_id);
    head.push(status);
    head.push(op);
    assert(head@ =~= be_u64(request_id) + seq![status, op]);
    push_be_u64(&mut head, payload_len as u64);
    push_be_u32(&mut head, (key_len as u64 % 0x1_0000_0000) as u32);
    head
}

impl CacheCodec {
    /// Appends the frame of `msg.1` under the id `msg.0` to `buf`. What `buf`
    /// held stays in front of it. Where the buffer with the frame would pass
    /// `isize::MAX` bytes, nothing is written and the error says so; no
    /// other error is returned.
    pub fn encode(&mut self, msg: (RequestId, Message), buf: &mut BytesMut) -> (r: Result<
        (),
        CodecError,
    >)
        ensures
            r is Ok <==> buffered(*old(buf)).len() + frame(msg.0, msg.1@).len() <= isize::MAX,
            r is Ok ==> buffered(*final(buf)) == buffered(*old(buf)) + frame(msg.0, msg.1@),
            r is Err ==> r == Err::<(), CodecError>(CodecError::FrameTooLarge) && buffered(
                *final(buf),
            ) == buffered(*old(buf)),
    {
        let (request_id, msg) = msg;
        let ghost before = buffered(*buf);
        let ghost m = msg@;

        let status: u8 = match msg.code() {
            Some(code) => code.to_byte(),
            None => 0,
        };
        let (key, type_id, data) = wire_parts(&msg);
        proof {
            lemma_frame_layout(request_id, m);
        }
        let tag_len: u128 = if data.len() > 0 {
            4
        } else {
            0
        };
        let need: u128 = buf.len() as u128 + HEADER_LEN as u128 + key.len() as u128
            + data.len() as u128 + tag_len;
        if need > isize::MAX as u128 {
            return Err(CodecError::FrameTooLarge);
        }
        let head = header_bytes(request_id, status, msg.op().to_byte(), data.len(), key.len());
        assert(head@ == header(request_id, m));

        buf.extend_from_slice(head.as_slice());
        buf.extend_from_slice(key);
        assert(buffered(*buf) =~= before + (header(request_id, m) + key@));
        if data.len() > 0 {
            let mut tag: Vec<u8> = Vec::with_capacity(4);
            push_be_u32(&mut tag, type_id);
            buf.extend_from_slice(tag.as_slice());
            buf.extend_from_slice(data);
            assert(buffered(*buf) =~= before + (header(request_id, m) + (key@ + be_u32(type_id)
                + data@)));
        }
        Ok(())
    }

    /// Takes one frame from the front of `buf`, if a whole one is there.
    ///
    /// While the header or the frame it announces is incomplete, nothing is
    /// taken and `Ok(None)` comes back. A whole frame is removed from the
    /// buffer, whether or not it is a message: its id and message come back,
    /// or the error that says which byte is not understood. Bytes behind the
    /// frame are not looked at and stay.
    pub fn decode(&mut self, buf: &mut BytesMut) -> (r: Result<
        Option<(RequestId, Message)>,
        CodecError,
    >)
        ensures
            match parse(buffered(*old(buf))) {
                Parsed::Incomplete => r matches Ok(None) && buffered(*final(buf)) == buffered(
                    *old(buf),
                ),
                Parsed::Frame { len, id, message } => buffered(*final(buf)) == buffered(
                    *old(buf),
                ).skip(len as int) && match r {
                    Ok(Some(found)) => found.0 == id && found.1@ == message,
                    _ => false,
                },
                Parsed::Malformed { len, error } => buffered(*final(buf)) == buffered(
                    *old(buf),
                ).skip(len as int) && r == Err::<Option<(RequestId, Message)>, CodecError>(error),
            },
    {
        let ghost before = buffered(*buf);
        if buf.len() < HEADER_LEN {
            return Ok(None);
        }
        let head: &[u8] = <BytesMut as AsRef<[u8]>>::as_ref(buf);
        let payload_len: u64 = read_be_u64(head, 10);
        let key_len: u32 = read_be_u32(head, 18);
        let type_id_len: u128 = if payload_len == 0 {
            0
        } else {
            4
        };
        let total: u128 = HEADER_LEN as u128 + payload_len as u128 + key_len as u128 + type_id_len;
        assert(total == announced_len(before));
        if (buf.len() as u128) < total {
            return Ok(None);
        }
        let msg_len: usize = total as usize;
        let whole = buf.split_to(msg_len);
        let bytes: &[u8] = <BytesMut as AsRef<[u8]>>::as_ref(&whole);
        let ghost f = before.take(msg_len as int);
        assert(bytes@ == f);
        assert(f.subrange(10, 18) =~= before.subrange(10, 18));
        assert(f.subrange(18, 22) =~= before.subrange(18, 22));

        let request_id: u64 = read_be_u64(bytes, 0);
        let code: u8 = bytes[8];
        let op: u8 = bytes[9];
        let key_end: usize = HEADER_LEN + key_len as usize;
        let key: Vec<u8> = slice_to_vec(&bytes[HEADER_LEN..key_end]);
        let found: Option<crate::message::Payload> = if payload_len > 0 {
            let type_id: u32 = read_be_u32(bytes, key_end);
            Some(payload(type_id, slice_to_vec(&bytes[key_end + 4..msg_len])))
        } else {
            None
        };
        let op = match Op::from_byte(op) {
            Some(op) => op,
            None => {
                return Err(CodecError::UnknownOp(op));
            },
        };
        if code == 0 {
            Ok(Some((request_id, request(op, key, found))))
        } else {
            match Code::from_byte(code) {
                Some(code) => Ok(Some((request_id, response(op, code, found)))),
                None => Err(CodecError::UnknownCode(code)),
            }
        }
    }
}

/// The same message with another payload, or with none.
pub open spec fn with_payload(m: MessageView, payload: Option<PayloadView>) -> MessageView {
    match m {
        MessageView::Request(op, key, _) => MessageView::Request(op, key, payload),
        MessageView::Response(op, code, _) => MessageView::Response(op, code, payload),
    }
}

/// Where each field of a frame lies.
proof fn lemma_frame_layout(id: u64, m: MessageView)
    ensures
        ({
            let f = frame(id, m);
            let key = m.parts().0;
            let type_id = m.parts().1.0;
            let data = m.parts().1.1;
            let k = key.len() as int;
            &&& f.len() == HEADER_LEN + k + if data.len() > 0 {
                4 + data.len()
            } else {
                0
            }
            &&& f.subrange(0, 8) == be_u64(id)
            &&& f[8] == status_byte(m)
            &&& f[9] == m.op().byte()
            &&& f.subrange(10, 18) == be_u64(low_u64(data.len()))
            &&& f.subrange(18, 22) == be_u32(low_u32(key.len()))
            &&& f.subrange(22, 22 + k) == key
            &&& data.len() > 0 ==> f.subrange(22 + k, 26 + k) == be_u32(type_id) && f.subrange(
                26 + k,
                f.len() as int,
            ) == data
        }),
{
    let f = frame(id, m);
    let key = m.parts().0;
    let type_id = m.parts().1.0;
    let data = m.parts().1.1;
    let k = key.len() as int;
    let h = header(id, m);
    lemma_be_u64_inverse(id);
    lemma_be_u64_inverse(low_u64(data.len()));
    lemma_be_u32_inverse(low_u32(key.len()));
    lemma_be_u32_inverse(type_id);
    assert(h.len() == 22);
    assert(f.subrange(0, 8) =~= be_u64(id));
    assert(f.subrange(10, 18) =~= be_u64(low_u64(data.len())));
    assert(f.subrange(18, 22) =~= be_u32(low_u32(key.len())));
    assert(f.subrange(22, 22 + k) =~= key);
    if data.len() > 0 {
        assert(f.subrange(22 + k, 26 + k) =~= be_u32(type_id));
        assert(f.subrange(26 + k, f.len() as int) =~= data);
    }
}

/// Decoding inverts encoding: at the front of any buffer that begins with
/// the frame of `m` under `id`, decoding finds exactly that frame, with `id`
/// and `m` in it, whatever follows. This holds of every message that
/// [`framable`] admits, requests and responses, with and without payload,
/// for every operation.
pub proof fn lemma_decode_inverts_encode(id: u64, m: MessageView, rest: Seq<u8>)
    requires
        framable(m),
    ensures
        parse(frame(id, m) + rest) == (Parsed::Frame { len: frame(id, m).len(), id, message: m }),
{
    let f = frame(id, m);
    let buf = f + rest;
    let key = m.parts().0;
    let type_id = m.parts().1.0;
    let data = m.parts().1.1;
    let k = key.len() as int;
    lemma_frame_layout(id, m);
    lemma_be_u64_inverse(id);
    lemma_be_u64_inverse(low_u64(data.len()));
    lemma_be_u32_inverse(low_u32(key.len()));
    lemma_be_u32_inverse(type_id);
    assert(buf.subrange(10, 18) =~= f.subrange(10, 18));
    assert(buf.subrange(18, 22) =~= f.subrange(18, 22));
    assert(announced_len(buf) == f.len());
    assert(buf.take(f.len() as int) =~= f);
    assert(Op::of_byte(m.op().byte()) == Some(m.op()));
    match m {
        MessageView::Request(op, key, payload) => {
            assert(status_byte(m) == 0);
        },
        MessageView::Response(op, code, payload) => {
            assert(Code::of_byte(code.byte()) == Some(code));
            assert(f.subrange(22, 22) =~= Seq::<u8>::empty());
        },
    }
    match m.payload() {
        Some(p) => {
            assert(p == PayloadView { type_id, data });
        },
        None => {},
    }
    assert(read_message(f) == Ok::<MessageView, CodecError>(m));
}

/// A frame that has not arrived whole is not decoded: every proper prefix of
/// the frame of a message is incomplete, from no bytes at all up to the last
/// byte but one.
pub proof fn lemma_partial_frame_incomplete(id: u64, m: MessageView, n: int)
    requires
        framable(m),
        0 <= n < frame(id, m).len(),
    ensures
        parse(frame(id, m).take(n)) == Parsed::Incomplete,
{
    let f = frame(id, m);
    let part = f.take(n);
    let data = m.parts().1.1;
    if n >= HEADER_LEN {
        lemma_frame_layout(id, m);
        lemma_be_u64_inverse(low_u64(data.len()));
        lemma_be_u32_inverse(low_u32(m.parts().0.len()));
        assert(part.subrange(10, 18) =~= f.subrange(10, 18));
        assert(part.subrange(18, 22) =~= f.subrange(18, 22));
        assert(announced_len(part) == f.len());
    }
}

/// The tag is left out where there is nothing to tag: a message without
/// payload, or with a payload of no bytes, has the same frame, and the frame
/// of the same message with a payload of `n > 0` bytes is longer by those
/// `n` bytes and the 4 bytes of the tag.
pub proof fn lemma_tag_omitted_without_payload(id: u64, m: MessageView, p: PayloadView)
    ensures
        p.data.len() == 0 ==> frame(id, with_payload(m, Some(p))) == frame(
            id,
            with_payload(m, None),
        ),
        p.data.len() > 0 ==> frame(id, with_payload(m, Some(p))).len() == frame(
            id,
            with_payload(m, None),
        ).len() + 4 + p.data.len(),
{
    let with = with_payload(m, Some(p));
    let without = with_payload(m, None);
    lemma_frame_layout(id, with);
    lemma_frame_layout(id, without);
    if p.data.len() == 0 {
        assert(p.data =~= Seq::<u8>::empty());
        assert(be_u64(low_u64(p.data.len())) == be_u64(low_u64(0)));
        assert(header(id, with) =~= header(id, without));
        assert(frame(id, with) =~= frame(id, without));
    }
}

} // verus!
