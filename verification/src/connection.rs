//! One connection: frames come in, each message goes through a service, and
//! each response goes out as a frame under the id its request came with.

use crate::buffer::buffered;
use crate::codec::{frame, parse, CacheCodec, CodecError, Parsed};
use crate::message::MessageView;
use crate::service::{reply_view, Service, ServiceError};
use bytes::BytesMut;
use vstd::prelude::*;

verus! {

/// Why a connection cannot go on.
#[derive(Clone, Copy, Debug, PartialEq, Eq, Structural)]
pub enum ServeError {
    /// A frame could not be read or written.
    Codec(CodecError),
    /// The service gave no response.
    Service(ServiceError),
}

/// Serves the frame at the front of `input`, if a whole one is there: the
/// frame is taken, its message is put to `service`, and the frame of the
/// response is appended to `output` under the id of the request.
///
/// `Ok(false)` says that no whole frame was there; nothing has changed then.
/// `Ok(true)` says that one request was answered. An error says that the
/// connection is to be closed: the frame was no message, the service gave no
/// response, or `output` cannot take the response. In each of these cases
/// the frame is gone from `input` and `output` is as it was.
pub fn serve_frame<S: Service>(service: &mut S, input: &mut BytesMut, output: &mut BytesMut) -> (r:
    Result<bool, ServeError>)
    ensures
        match parse(buffered(*old(input))) {
            Parsed::Incomplete => {
                &&& r == Ok::<bool, ServeError>(false)
                &&& buffered(*final(input)) == buffered(*old(input))
                &&& buffered(*final(output)) == buffered(*old(output))
                &&& *final(service) == *old(service)
            },
            Parsed::Malformed { len, error } => {
                &&& r == Err::<bool, ServeError>(ServeError::Codec(error))
                &&& buffered(*final(input)) == buffered(*old(input)).skip(len as int)
                &&& buffered(*final(output)) == buffered(*old(output))
                &&& *final(service) == *old(service)
            },
            Parsed::Frame { len, id, message } => {
                &&& buffered(*final(input)) == buffered(*old(input)).skip(len as int)
                &&& exists|reply: Result<MessageView, ServiceError>|
                    #[trigger] old(service).step(message, final(service), reply) && served(
                        id,
                        reply,
                        buffered(*old(output)),
                        buffered(*final(output)),
                        r,
                    )
            },
        },
{
    let mut codec = CacheCodec;
    match codec.decode(input) {
        Ok(None) => Ok(false),
        Err(e) => Err(ServeError::Codec(e)),
        Ok(Some((id, request))) => {
            let ghost asked = request@;
            let reply = service.call(request);
            assert(old(service).step(asked, service, reply_view(reply)));
            match reply {
                Err(e) => Err(ServeError::Service(e)),
                Ok(response) => match codec.encode((id, response), output) {
                    Ok(()) => Ok(true),
                    Err(e) => Err(ServeError::Codec(e)),
                },
            }
        },
    }
}

/// What becomes of the service's `reply` to the request with the id `id`: a
/// response goes out as its frame under `id`, behind what `output` held;
/// where `output` cannot take it, or where there is no response, nothing
/// goes out and the error says which.
pub open spec fn served(
    id: u64,
    reply: Result<MessageView, ServiceError>,
    output: Seq<u8>,
    output_after: Seq<u8>,
    r: Result<bool, ServeError>,
) -> bool {
    match reply {
        Err(e) => r == Err::<bool, ServeError>(ServeError::Service(e)) && output_after == output,
        Ok(response) => if output.len() + frame(id, response).len() <= isize::MAX {
            r == Ok::<bool, ServeError>(true) && output_after == output + frame(id, response)
        } else {
            r == Err::<bool, ServeError>(ServeError::Codec(CodecError::FrameTooLarge))
                && output_after == output
        },
    }
}

} // verus!
