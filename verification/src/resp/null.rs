//! The null frame: `_\r\n`.

use vstd::prelude::*;

use crate::bytebuf::bytes_view;
use crate::resp::model::{frame_enc, spec_dec_null, spec_null_enc, FrameView, PREFIX_NULL};
use crate::resp::{extract_fixed_data, RespError, CR, LF};

verus! {

#[derive(Debug, Clone, PartialEq)]
pub struct TNull;

impl TNull {
    /// Canonical wire form: `_\r\n`.
    pub fn encode(&self) -> (r: Vec<u8>)
        ensures
            r@ == frame_enc(FrameView::Null),
    {
        let mut out: Vec<u8> = Vec::new();
        out.push(PREFIX_NULL);
        out.push(CR);
        out.push(LF);
        proof {
            assert(out@ =~= spec_null_enc());
        }
        out
    }

    /// Decode one null frame, consuming it on success and leaving the
    /// buffer untouched on any error.
    pub fn decode(buf: &mut bytes::BytesMut) -> (r: Result<TNull, RespError>)
        ensures
            match spec_dec_null(bytes_view(*old(buf))) {
                Ok(n) => r == Ok::<TNull, RespError>(TNull) && bytes_view(*final(buf))
                    == bytes_view(*old(buf)).skip(n),
                Err(e) => r == Err::<TNull, RespError>(e) && bytes_view(*final(buf))
                    == bytes_view(*old(buf)),
            },
    {
        let mut pat: Vec<u8> = Vec::new();
        pat.push(PREFIX_NULL);
        pat.push(CR);
        pat.push(LF);
        proof {
            assert(pat@ =~= spec_null_enc());
        }
        match extract_fixed_data(buf, pat.as_slice()) {
            Ok(_) => Ok(TNull),
            Err(e) => Err(e),
        }
    }

    /// A null frame always occupies three bytes on the wire.
    pub fn expect_length(_buf: &[u8]) -> (r: Result<usize, RespError>)
        ensures
            r == Ok::<usize, RespError>(3),
    {
        Ok(3)
    }
}

} // verus!
