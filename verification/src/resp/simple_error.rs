//! The error frame: `-<text>\r\n`.

use vstd::prelude::*;

use crate::bytebuf::{buf_advance, buf_bytes, bytes_view};
use crate::resp::model::{frame_enc, spec_dec_line, spec_line_expect, FrameView, PREFIX_ERROR};
use crate::resp::{
    copy_slice_range, extract_simple_frame_data, res_len_matches, spec_crlf, spec_simple_end,
    RespError, CR, LF,
};

verus! {

/// A single-line error message; its payload contains no CR or LF.
#[derive(Debug, Clone, PartialEq)]
pub struct TError(pub Vec<u8>);

impl View for TError {
    type V = Seq<u8>;

    open spec fn view(&self) -> Seq<u8> {
        self.0@
    }
}

impl TError {
    pub fn new(data: Vec<u8>) -> (r: Self)
        ensures
            r@ == data@,
    {
        TError(data)
    }

    /// Canonical wire form: `-`, the message, CRLF.
    pub fn encode(&self) -> (r: Vec<u8>)
        ensures
            r@ == frame_enc(FrameView::Error(self@)),
    {
        let mut out: Vec<u8> = Vec::new();
        out.push(PREFIX_ERROR);
        out.extend_from_slice(self.0.as_slice());
        out.push(CR);
        out.push(LF);
        proof {
            assert(out@ =~= seq![PREFIX_ERROR] + self.0@ + spec_crlf());
        }
        out
    }

    /// Decode one error frame, consuming it on success and leaving the
    /// buffer untouched on any error.
    pub fn decode(buf: &mut bytes::BytesMut) -> (r: Result<TError, RespError>)
        ensures
            match spec_dec_line(bytes_view(*old(buf)), PREFIX_ERROR) {
                Ok(p) => r matches Ok(f) && f@ == p.0 && bytes_view(*final(buf)) == bytes_view(
                    *old(buf),
                ).skip(p.1),
                Err(e) => r == Err::<TError, RespError>(e) && bytes_view(*final(buf))
                    == bytes_view(*old(buf)),
            },
    {
        let s = buf_bytes(buf);
        let end = match extract_simple_frame_data(s, PREFIX_ERROR) {
            Ok(end) => end,
            Err(e) => {
                return Err(e);
            },
        };
        proof {
            assert(spec_simple_end(s@, PREFIX_ERROR) == Ok::<int, RespError>(end as int));
        }
        let slen = s.len();
        assert(end + 2 <= slen);
        let payload = copy_slice_range(s, 1, end);
        let n = end + 2;
        buf_advance(buf, n);
        Ok(TError(payload))
    }

    /// Total wire length of the error frame at the head of the buffer.
    pub fn expect_length(buf: &[u8]) -> (r: Result<usize, RespError>)
        ensures
            res_len_matches(r, spec_line_expect(buf@, PREFIX_ERROR)),
    {
        match extract_simple_frame_data(buf, PREFIX_ERROR) {
            Ok(end) => {
                proof {
                    assert(spec_simple_end(buf@, PREFIX_ERROR) == Ok::<int, RespError>(
                        end as int,
                    ));
                }
                let blen = buf.len();
                assert(end + 2 <= blen);
                Ok(end + 2)
            },
            Err(e) => Err(e),
        }
    }
}

} // verus!
