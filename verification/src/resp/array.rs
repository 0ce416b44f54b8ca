//! The array frame `*<count>\r\n<frame>...` and the null array `*-1\r\n`.

use vstd::prelude::*;

use crate::bytebuf::{buf_advance, buf_bytes, bytes_view};
use crate::resp::frame::{clone_frames, dec_list_slice, frames_view_from, RespFrame};
use crate::resp::model::{
    frame_enc, spec_dec_list_data, spec_dec_null_array, spec_list_expect, spec_null_array_enc,
    FrameView, PREFIX_ARRAY,
};
use crate::resp::{
    calc_total_length, extract_fixed_data, parse_length, res_len_matches, spec_parse_length,
    RespError, CR, LF,
};

verus! {

/// An ordered sequence of frames.
#[derive(Debug, PartialEq)]
pub struct TArray(pub Vec<RespFrame>);

/// The null array, a distinct frame from the empty array.
#[derive(Debug, Clone, PartialEq)]
pub struct TNullArray;

impl View for TArray {
    type V = Seq<FrameView>;

    open spec fn view(&self) -> Seq<FrameView> {
        frames_view_from(self.0@, 0)
    }
}

impl Clone for TArray {
    /// A clone carries the same abstract value.
    fn clone(&self) -> (res: Self)
        ensures
            res@ == self@,
    {
        TArray(clone_frames(&self.0))
    }
}

impl TArray {
    pub fn new(data: Vec<RespFrame>) -> (r: Self)
        ensures
            r@ == frames_view_from(data@, 0),
    {
        TArray(data)
    }

    /// Total wire length of the array frame at the head of the buffer.
    pub fn expect_length(buf: &[u8]) -> (r: Result<usize, RespError>)
        ensures
            res_len_matches(r, spec_list_expect(buf@, PREFIX_ARRAY)),
        decreases buf@.len(), 3int,
    {
        let (end, cnt) = match parse_length(buf, PREFIX_ARRAY) {
            Ok(p) => p,
            Err(e) => {
                return Err(e);
            },
        };
        proof {
            assert(spec_parse_length(buf@, PREFIX_ARRAY) == Ok::<(int, int), RespError>(
                (end as int, cnt as int),
            ));
        }
        let blen = buf.len();
        assert(end + 2 <= blen);
        calc_total_length(buf, end, cnt, PREFIX_ARRAY)
    }


    /// Canonical wire form: `*`, the element count, CRLF, then each
    /// element's encoding.
    pub fn encode(&self) -> (r: Vec<u8>)
        ensures
            r@ == frame_enc(FrameView::Array(self@)),
    {
        let mut out: Vec<u8> = Vec::new();
        out.push(PREFIX_ARRAY);
        let n = self.0.len();
        proof {
            assert((n as u64) as nat == self.0@.len());
            crate::resp::frame::lemma_frames_view_from(self.0@, 0);
        }
        crate::resp::integer::push_udigits(&mut out, n as u64);
        out.push(crate::resp::CR);
        out.push(crate::resp::LF);
        crate::resp::frame::encode_frames(&self.0, &mut out);
        proof {
            assert(out@ =~= frame_enc(FrameView::Array(self@)));
        }
        out
    }

    /// Decode one array frame, consuming it on success and leaving the
    /// buffer untouched on any error.  The null form `*-1\r\n` is not
    /// an array; the frame dispatcher recognizes it before calling
    /// here.
    pub fn decode(buf: &mut bytes::BytesMut) -> (r: Result<TArray, RespError>)
        ensures
            match spec_dec_list_data(bytes_view(*old(buf)), PREFIX_ARRAY) {
                Ok(t) => r matches Ok(a) && a@ == t.0 && bytes_view(*final(buf)) == bytes_view(
                    *old(buf),
                ).skip(t.1),
                Err(e) => r == Err::<TArray, RespError>(e) && bytes_view(*final(buf))
                    == bytes_view(*old(buf)),
            },
    {
        let s = buf_bytes(buf);
        match dec_list_slice(s, PREFIX_ARRAY) {
            Ok((frames, n)) => {
                buf_advance(buf, n);
                Ok(TArray(frames))
            },
            Err(e) => Err(e),
        }
    }
}

impl TNullArray {
    /// Canonical wire form: `*-1\r\n`.
    pub fn encode(&self) -> (r: Vec<u8>)
        ensures
            r@ == frame_enc(FrameView::NullArray),
    {
        let mut out: Vec<u8> = Vec::new();
        out.push(PREFIX_ARRAY);
        out.push(45);
        out.push(49);
        out.push(CR);
        out.push(LF);
        proof {
            assert(out@ =~= spec_null_array_enc());
        }
        out
    }

    /// Decode one null array, consuming it on success and leaving the
    /// buffer untouched on any error.
    pub fn decode(buf: &mut bytes::BytesMut) -> (r: Result<TNullArray, RespError>)
        ensures
            match spec_dec_null_array(bytes_view(*old(buf))) {
                Ok(n) => r == Ok::<TNullArray, RespError>(TNullArray) && bytes_view(*final(buf))
                    == bytes_view(*old(buf)).skip(n),
                Err(e) => r == Err::<TNullArray, RespError>(e) && bytes_view(*final(buf))
                    == bytes_view(*old(buf)),
            },
    {
        let mut pat: Vec<u8> = Vec::new();
        pat.push(PREFIX_ARRAY);
        pat.push(45);
        pat.push(49);
        pat.push(CR);
        pat.push(LF);
        proof {
            assert(pat@ =~= spec_null_array_enc());
        }
        match extract_fixed_data(buf, pat.as_slice()) {
            Ok(_) => Ok(TNullArray),
            Err(e) => Err(e),
        }
    }

    /// A null array always occupies five bytes on the wire.
    pub fn expect_length(_buf: &[u8]) -> (r: Result<usize, RespError>)
        ensures
            r == Ok::<usize, RespError>(5),
    {
        Ok(5)
    }
}

} // verus!
