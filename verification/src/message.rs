//! The message model: operations, status codes, payloads and the two shapes
//! of a message.

use vstd::prelude::*;

verus! {

/// The operation that a message asks for or answers.
#[derive(Clone, Copy, Debug, PartialEq, Eq, Structural)]
pub enum Op {
    Get,
    Put,
    Del,
    Stats,
}

impl Op {
    /// The byte that stands for this operation on the wire.
    pub open spec fn byte(self) -> u8 {
        match self {
            Op::Get => 0,
            Op::Put => 1,
            Op::Del => 2,
            Op::Stats => 3,
        }
    }

    /// The operation that a wire byte stands for, if any.
    pub open spec fn of_byte(b: u8) -> Option<Op> {
        if b == 0 {
            Some(Op::Get)
        } else if b == 1 {
            Some(Op::Put)
        } else if b == 2 {
            Some(Op::Del)
        } else if b == 3 {
            Some(Op::Stats)
        } else {
            None
        }
    }

    pub fn to_byte(self) -> (b: u8)
        ensures
            b == self.byte(),
    {
        match self {
            Op::Get => 0,
            Op::Put => 1,
            Op::Del => 2,
            Op::Stats => 3,
        }
    }

    /// Reads an operation from its wire byte; `None` for a byte that names no
    /// operation.
    pub fn from_byte(b: u8) -> (op: Option<Op>)
        ensures
            op == Op::of_byte(b),
    {
        if b == 0 {
            Some(Op::Get)
        } else if b == 1 {
            Some(Op::Put)
        } else if b == 2 {
            Some(Op::Del)
        } else if b == 3 {
            Some(Op::Stats)
        } else {
            None
        }
    }
}

/// The status that a response carries. No status is written as the byte 0:
/// on the wire that byte marks a request.
#[derive(Clone, Copy, Debug, PartialEq, Eq, Structural)]
pub enum Code {
    Success,
    Error,
}

impl Code {
    /// The byte that stands for this status on the wire. It is never 0.
    pub open spec fn byte(self) -> u8 {
        match self {
            Code::Success => 1,
            Code::Error => 2,
        }
    }

    /// The status that a wire byte stands for, if any.
    pub open spec fn of_byte(b: u8) -> Option<Code> {
        if b == 1 {
            Some(Code::Success)
        } else if b == 2 {
            Some(Code::Error)
        } else {
            None
        }
    }

    pub fn to_byte(self) -> (b: u8)
        ensures
            b == self.byte(),
            b != 0,
    {
        match self {
            Code::Success => 1,
            Code::Error => 2,
        }
    }

    /// Reads a status from its wire byte; `None` for a byte that names no
    /// status, the request marker 0 among them.
    pub fn from_byte(b: u8) -> (code: Option<Code>)
        ensures
            code == Code::of_byte(b),
    {
        if b == 1 {
            Some(Code::Success)
        } else if b == 2 {
            Some(Code::Error)
        } else {
            None
        }
    }
}

/// A typed blob of bytes attached to a message. The tag `type_id` belongs to
/// the application and is never interpreted here.
#[derive(Debug, PartialEq, Eq)]
pub struct Payload {
    pub type_id: u32,
    pub data: Vec<u8>,
}

/// What a [`Payload`] holds, as mathematical values.
pub struct PayloadView {
    pub type_id: u32,
    pub data: Seq<u8>,
}

impl View for Payload {
    type V = PayloadView;

    open spec fn view(&self) -> PayloadView {
        PayloadView { type_id: self.type_id, data: self.data@ }
    }
}

impl Payload {
    pub fn type_id(&self) -> (t: u32)
        ensures
            t == self@.type_id,
    {
        self.type_id
    }

    pub fn data(&self) -> (d: &[u8])
        ensures
            d@ == self@.data,
    {
        self.data.as_slice()
    }

}

impl Clone for Payload {
    fn clone(&self) -> (p: Payload)
        ensures
            p@ == self@,
    {
        Payload { type_id: self.type_id, data: self.data.clone() }
    }
}

/// A request or a response. A request names the key it is about; a response
/// carries a status instead.
#[derive(Debug, PartialEq, Eq)]
pub enum Message {
    Request(Op, Vec<u8>, Option<Payload>),
    Response(Op, Code, Option<Payload>),
}

/// What a [`Message`] holds, as mathematical values.
pub enum MessageView {
    Request(Op, Seq<u8>, Option<PayloadView>),
    Response(Op, Code, Option<PayloadView>),
}

/// The view of a payload that may be absent.
pub open spec fn payload_view(p: Option<Payload>) -> Option<PayloadView> {
    match p {
        Some(p) => Some(p@),
        None => None,
    }
}

/// The view of a borrowed byte string that may be absent.
pub open spec fn bytes_view(b: Option<&[u8]>) -> Option<Seq<u8>> {
    match b {
        Some(b) => Some(b@),
        None => None,
    }
}

impl View for Message {
    type V = MessageView;

    open spec fn view(&self) -> MessageView {
        match *self {
            Message::Request(op, key, payload) => MessageView::Request(
                op,
                key@,
                payload_view(payload),
            ),
            Message::Response(op, code, payload) => MessageView::Response(
                op,
                code,
                payload_view(payload),
            ),
        }
    }
}

impl MessageView {
    pub open spec fn op(self) -> Op {
        match self {
            MessageView::Request(op, _, _) => op,
            MessageView::Response(op, _, _) => op,
        }
    }

    /// The key of a request; a response has none.
    pub open spec fn key(self) -> Option<Seq<u8>> {
        match self {
            MessageView::Request(_, key, _) => Some(key),
            MessageView::Response(_, _, _) => None,
        }
    }

    /// The status of a response; a request has none.
    pub open spec fn code(self) -> Option<Code> {
        match self {
            MessageView::Request(_, _, _) => None,
            MessageView::Response(_, code, _) => Some(code),
        }
    }

    pub open spec fn payload(self) -> Option<PayloadView> {
        match self {
            MessageView::Request(_, _, payload) => payload,
            MessageView::Response(_, _, payload) => payload,
        }
    }

    /// The tag of the payload, where there is one.
    pub open spec fn type_id(self) -> Option<u32> {
        match self.payload() {
            Some(p) => Some(p.type_id),
            None => None,
        }
    }

    /// The key and the cache entry that this message stands for when it is
    /// taken apart: a missing key is the empty key, a missing payload the
    /// entry with tag 0 and no bytes.
    pub open spec fn parts(self) -> (Seq<u8>, (u32, Seq<u8>)) {
        (
            match self.key() {
                Some(key) => key,
                None => Seq::empty(),
            },
            match self.payload() {
                Some(p) => (p.type_id, p.data),
                None => (0u32, Seq::empty()),
            },
        )
    }
}

impl Message {
    pub fn op(&self) -> (op: Op)
        ensures
            op == self@.op(),
    {
        match self {
            Message::Request(op, _, _) => *op,
            Message::Response(op, _, _) => *op,
        }
    }

    pub fn key(&self) -> (key: Option<&[u8]>)
        ensures
            bytes_view(key) == self@.key(),
    {
        match self {
            Message::Request(_, key, _) => Some(key.as_slice()),
            Message::Response(_, _, _) => None,
        }
    }

    pub fn code(&self) -> (code: Option<Code>)
        ensures
            code == self@.code(),
    {
        match self {
            Message::Request(_, _, _) => None,
            Message::Response(_, code, _) => Some(*code),
        }
    }

    pub fn payload(&self) -> (payload: Option<&Payload>)
        ensures
            match payload {
                Some(p) => self@.payload() == Some(p@),
                None => self@.payload() is None,
            },
    {
        match self {
            Message::Request(_, _, payload) => payload.as_ref(),
            Message::Response(_, _, payload) => payload.as_ref(),
        }
    }

    pub fn type_id(&self) -> (t: Option<u32>)
        ensures
            t == self@.type_id(),
    {
        match self.payload() {
            Some(p) => Some(p.type_id),
            None => None,
        }
    }

    /// Takes the message apart into its key and the cache entry it carries.
    pub fn consume(self) -> (parts: (Vec<u8>, (u32, Vec<u8>)))
        ensures
            (parts.0@, (parts.1.0, parts.1.1@)) == self@.parts(),
    {
        match self {
            Message::Request(_, key, Some(p)) => (key, (p.type_id, p.data)),
            Message::Request(_, key, None) => (key, (0, Vec::new())),
            Message::Response(_, _, Some(p)) => (Vec::new(), (p.type_id, p.data)),
            Message::Response(_, _, None) => (Vec::new(), (0, Vec::new())),
        }
    }
}

impl Clone for Message {
    fn clone(&self) -> (m: Message)
        ensures
            m@ == self@,
    {
        match self {
            Message::Request(op, key, Some(p)) => Message::Request(*op, key.clone(), Some(p.clone())),
            Message::Request(op, key, None) => Message::Request(*op, key.clone(), None),
            Message::Response(op, code, Some(p)) => Message::Response(*op, *code, Some(p.clone())),
            Message::Response(op, code, None) => Message::Response(*op, *code, None),
        }
    }
}

/// A payload with the given tag and bytes.
pub fn payload(type_id: u32, data: Vec<u8>) -> (p: Payload)
    ensures
        p@ == (PayloadView { type_id, data: data@ }),
{
    Payload { type_id, data }
}

/// A request for `op` on `key`.
pub fn request(op: Op, key: Vec<u8>, payload: Option<Payload>) -> (m: Message)
    ensures
        m@ == MessageView::Request(op, key@, payload_view(payload)),
{
    Message::Request(op, key, payload)
}

/// A response to `op` with status `code`.
pub fn response(op: Op, code: Code, payload: Option<Payload>) -> (m: Message)
    ensures
        m@ == MessageView::Response(op, code, payload_view(payload)),
{
    Message::Response(op, code, payload)
}

} // verus!
