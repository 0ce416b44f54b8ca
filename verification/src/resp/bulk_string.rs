//! The bulk string frame: `$<len>\r\n<bytes>\r\n`.

use vstd::prelude::*;

use crate::bytebuf::{buf_advance, buf_bytes, bytes_view};
use crate::resp::integer::push_udigits;
use crate::resp::model::{
    frame_enc, spec_bulk_expect, spec_dec_bulk_data, spec_udigits, FrameView, PREFIX_BULK,
};
use crate::resp::{
    copy_slice_range, parse_length, res_len_matches, spec_crlf, spec_parse_length, RespError, CR,
    LF,
};

verus! {

/// An arbitrary byte payload of known length.
#[derive(Debug, Clone, PartialEq)]
pub struct TBulkString(pub Vec<u8>);

impl View for TBulkString {
    type V = Seq<u8>;

    open spec fn view(&self) -> Seq<u8> {
        self.0@
    }
}

impl TBulkString {
    pub fn new(data: Vec<u8>) -> (r: Self)
        ensures
            r@ == data@,
    {
        TBulkString(data)
    }

    /// Canonical wire form: `$`, the payload length, CRLF, the payload,
    /// CRLF.
    pub fn encode(&self) -> (r: Vec<u8>)
        ensures
            r@ == frame_enc(FrameView::BulkString(self@)),
    {
        let mut out: Vec<u8> = Vec::new();
        out.push(PREFIX_BULK);
        let n = self.0.len();
        proof {
            assert((n as u64) as nat == self.0@.len());
        }
        push_udigits(&mut out, n as u64);
        out.push(CR);
        out.push(LF);
        out.extend_from_slice(self.0.as_slice());
        out.push(CR);
        out.push(LF);
        proof {
            assert(out@ =~= seq![PREFIX_BULK] + spec_udigits(self.0@.len()) + spec_crlf()
                + self.0@ + spec_crlf());
        }
        out
    }

    /// Decode one bulk string from the head of the buffer, consuming it
    /// on success and leaving the buffer untouched on any error.  The
    /// null form `$-1\r\n` is not a bulk string; the frame dispatcher
    /// recognizes it before calling here.
    pub fn decode(buf: &mut bytes::BytesMut) -> (r: Result<TBulkString, RespError>)
        ensures
            match spec_dec_bulk_data(bytes_view(*old(buf))) {
                Ok(p) => r matches Ok(f) && f@ == p.0 && bytes_view(*final(buf)) == bytes_view(
                    *old(buf),
                ).skip(p.1),
                Err(e) => r == Err::<TBulkString, RespError>(e) && bytes_view(*final(buf))
                    == bytes_view(*old(buf)),
            },
    {
        let s = buf_bytes(buf);
        let (end, len) = match parse_length(s, PREFIX_BULK) {
            Ok(p) => p,
            Err(e) => {
                return Err(e);
            },
        };
        proof {
            assert(spec_parse_length(s@, PREFIX_BULK) == Ok::<(int, int), RespError>(
                (end as int, len as int),
            ));
        }
        let slen = s.len();
        assert(end + 2 <= slen);
        let t1 = match (end + 2).checked_add(len) {
            Some(t) => t,
            None => {
                return Err(RespError::InvalidFrameLength);
            },
        };
        let total = match t1.checked_add(2) {
            Some(t) => t,
            None => {
                return Err(RespError::InvalidFrameLength);
            },
        };
        if slen < total {
            return Err(RespError::NotCompleteFrame);
        }
        let payload = copy_slice_range(s, end + 2, end + 2 + len);
        buf_advance(buf, total);
        Ok(TBulkString(payload))
    }

    /// Total wire length of the bulk string at the head of the buffer.
    pub fn expect_length(buf: &[u8]) -> (r: Result<usize, RespError>)
        ensures
            res_len_matches(r, spec_bulk_expect(buf@)),
    {
        let (end, len) = match parse_length(buf, PREFIX_BULK) {
            Ok(p) => p,
            Err(e) => {
                return Err(e);
            },
        };
        proof {
            assert(spec_parse_length(buf@, PREFIX_BULK) == Ok::<(int, int), RespError>(
                (end as int, len as int),
            ));
        }
        let blen = buf.len();
        assert(end + 2 <= blen);
        let t1 = match (end + 2).checked_add(len) {
            Some(t) => t,
            None => {
                return Err(RespError::InvalidFrameLength);
            },
        };
        match t1.checked_add(2) {
            Some(t) => Ok(t),
            None => Err(RespError::InvalidFrameLength),
        }
    }
}

} // verus!
