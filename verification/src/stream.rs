//! The stream adapter's computational halves.
//!
//! The transport wraps a duplex byte stream and calls these two
//! functions: `decode_step` turns accumulated read bytes into at most
//! one frame per call, distinguishing "need more bytes" from a fatal
//! error, and `encode_step` appends a frame's wire form to the write
//! buffer.  Everything that touches the socket stays outside the
//! library.

use vstd::prelude::*;

use crate::bytebuf::{buf_extend, bytes_view};
use crate::resp::frame::RespFrame;
use crate::resp::model::{frame_enc, spec_dec_frame};
use crate::resp::RespError;

verus! {

/// Try to decode one frame from the accumulated read buffer:
/// `Ok(Some(frame))` consumes the frame's bytes and leaves any pipelined
/// remainder for the next call; `Ok(None)` asks the transport for more
/// bytes and leaves the buffer untouched; `Err` is fatal for the
/// connection.
pub fn decode_step(buf: &mut bytes::BytesMut) -> (r: Result<Option<RespFrame>, RespError>)
    ensures
        match spec_dec_frame(bytes_view(*old(buf))) {
            Ok(p) => r matches Ok(o) && o matches Some(f) && f@ == p.0 && bytes_view(*final(buf))
                == bytes_view(*old(buf)).skip(p.1),
            Err(e) => bytes_view(*final(buf)) == bytes_view(*old(buf)) && (
            if e == RespError::NotCompleteFrame {
                r == Ok::<Option<RespFrame>, RespError>(None)
            } else {
                r == Err::<Option<RespFrame>, RespError>(e)
            }),
        },
{
    match RespFrame::decode(buf) {
        Ok(f) => Ok(Some(f)),
        Err(RespError::NotCompleteFrame) => Ok(None),
        Err(e) => Err(e),
    }
}

/// Append a frame's canonical wire form to the write buffer.
pub fn encode_step(frame: &RespFrame, dst: &mut bytes::BytesMut)
    ensures
        bytes_view(*final(dst)) == bytes_view(*old(dst)) + frame_enc(frame@),
{
    let encoded = frame.encode();
    buf_extend(dst, encoded.as_slice());
}

} // verus!
