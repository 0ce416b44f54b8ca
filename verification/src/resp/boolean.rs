//! The boolean frame: `#t\r\n` or `#f\r\n`.

use vstd::prelude::*;

use crate::bytebuf::bytes_view;
use crate::resp::model::{frame_enc, spec_bool_enc, spec_dec_bool, FrameView, PREFIX_BOOLEAN};
use crate::resp::{extract_fixed_data, RespError, CR, LF};

verus! {

/// Canonical wire form: `#t\r\n` or `#f\r\n`.
pub fn encode(v: bool) -> (r: Vec<u8>)
    ensures
        r@ == frame_enc(FrameView::Boolean(v)),
{
    let mut out: Vec<u8> = Vec::new();
    out.push(PREFIX_BOOLEAN);
    if v {
        out.push(116);
    } else {
        out.push(102);
    }
    out.push(CR);
    out.push(LF);
    proof {
        assert(out@ =~= spec_bool_enc(v));
    }
    out
}

/// Decode one boolean frame, trying the true form first, consuming the
/// frame on success and leaving the buffer untouched on any error.
pub fn decode(buf: &mut bytes::BytesMut) -> (r: Result<bool, RespError>)
    ensures
        match spec_dec_bool(bytes_view(*old(buf))) {
            Ok(p) => r == Ok::<bool, RespError>(p.0) && bytes_view(*final(buf)) == bytes_view(
                *old(buf),
            ).skip(p.1),
            Err(e) => r == Err::<bool, RespError>(e) && bytes_view(*final(buf)) == bytes_view(
                *old(buf),
            ),
        },
{
    let mut tpat: Vec<u8> = Vec::new();
    tpat.push(PREFIX_BOOLEAN);
    tpat.push(116);
    tpat.push(CR);
    tpat.push(LF);
    proof {
        assert(tpat@ =~= spec_bool_enc(true));
    }
    match extract_fixed_data(buf, tpat.as_slice()) {
        Ok(_) => Ok(true),
        Err(_) => {
            let mut fpat: Vec<u8> = Vec::new();
            fpat.push(PREFIX_BOOLEAN);
            fpat.push(102);
            fpat.push(CR);
            fpat.push(LF);
            proof {
                assert(fpat@ =~= spec_bool_enc(false));
            }
            match extract_fixed_data(buf, fpat.as_slice()) {
                Ok(_) => Ok(false),
                Err(e) => Err(e),
            }
        },
    }
}

/// A boolean frame always occupies four bytes on the wire.
pub fn expect_length(_buf: &[u8]) -> (r: Result<usize, RespError>)
    ensures
        r == Ok::<usize, RespError>(4),
{
    Ok(4)
}

} // verus!
