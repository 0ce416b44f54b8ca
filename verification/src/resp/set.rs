//! The set frame: `~<count>\r\n<frame>...`.

use vstd::prelude::*;

use crate::bytebuf::{buf_advance, buf_bytes, bytes_view};
use crate::resp::frame::{clone_frames, dec_list_slice, frames_view_from, RespFrame};
use crate::resp::model::{frame_enc, spec_dec_list_data, spec_list_expect, FrameView, PREFIX_SET};
use crate::resp::{calc_total_length, parse_length, res_len_matches, spec_parse_length, RespError};

verus! {

/// A set frame shares the array's wire shape; set semantics are a label
/// chosen at construction, not enforced by the decoder.
#[derive(Debug, PartialEq)]
pub struct TSet(pub Vec<RespFrame>);

impl View for TSet {
    type V = Seq<FrameView>;

    open spec fn view(&self) -> Seq<FrameView> {
        frames_view_from(self.0@, 0)
    }
}

impl Clone for TSet {
    /// A clone carries the same abstract value.
    fn clone(&self) -> (res: Self)
        ensures
            res@ == self@,
    {
        TSet(clone_frames(&self.0))
    }
}

impl TSet {
    pub fn new(data: Vec<RespFrame>) -> (r: Self)
        ensures
            r@ == frames_view_from(data@, 0),
    {
        TSet(data)
    }

    /// Total wire length of the set frame at the head of the buffer.
    pub fn expect_length(buf: &[u8]) -> (r: Result<usize, RespError>)
        ensures
            res_len_matches(r, spec_list_expect(buf@, PREFIX_SET)),
        decreases buf@.len(), 3int,
    {
        let (end, cnt) = match parse_length(buf, PREFIX_SET) {
            Ok(p) => p,
            Err(e) => {
                return Err(e);
            },
        };
        proof {
            assert(spec_parse_length(buf@, PREFIX_SET) == Ok::<(int, int), RespError>(
                (end as int, cnt as int),
            ));
        }
        let blen = buf.len();
        assert(end + 2 <= blen);
        calc_total_length(buf, end, cnt, PREFIX_SET)
    }


    /// Canonical wire form: `~`, the element count, CRLF, then each
    /// element's encoding.
    pub fn encode(&self) -> (r: Vec<u8>)
        ensures
            r@ == frame_enc(FrameView::SetFrame(self@)),
    {
        let mut out: Vec<u8> = Vec::new();
        out.push(PREFIX_SET);
        let n = self.0.len();
        proof {
            assert((n as u64) as nat == self.0@.len());
            crate::resp::frame::lemma_frames_view_from(self.0@, 0);
        }
        crate::resp::integer::push_udigits(&mut out, n as u64);
        out.push(crate::resp::CR);
        out.push(crate::resp::LF);
        crate::resp::frame::encode_frames(&self.0, &mut out);
        proof {
            assert(out@ =~= frame_enc(FrameView::SetFrame(self@)));
        }
        out
    }

    /// Decode one set frame, consuming it on success and leaving the
    /// buffer untouched on any error.
    pub fn decode(buf: &mut bytes::BytesMut) -> (r: Result<TSet, RespError>)
        ensures
            match spec_dec_list_data(bytes_view(*old(buf)), PREFIX_SET) {
                Ok(t) => r matches Ok(a) && a@ == t.0 && bytes_view(*final(buf)) == bytes_view(
                    *old(buf),
                ).skip(t.1),
                Err(e) => r == Err::<TSet, RespError>(e) && bytes_view(*final(buf))
                    == bytes_view(*old(buf)),
            },
    {
        let s = buf_bytes(buf);
        match dec_list_slice(s, PREFIX_SET) {
            Ok((frames, n)) => {
                buf_advance(buf, n);
                Ok(TSet(frames))
            },
            Err(e) => Err(e),
        }
    }
}

} // verus!
