//! The RESP frame sum type and its dispatching codec entry points.

use vstd::prelude::*;

use crate::bytebuf::{buf_advance, buf_bytes, bytes_view};
use crate::resp::array::{TArray, TNullArray};
use crate::resp::bulk_string::TBulkString;
use crate::resp::double::TDouble;
use crate::resp::map::TMap;
use crate::resp::model::{
    spec_dec_frame, spec_expect_len, FrameView, PREFIX_ARRAY, PREFIX_BOOLEAN, PREFIX_BULK,
    PREFIX_DOUBLE, PREFIX_ERROR, PREFIX_INTEGER, PREFIX_MAP, PREFIX_NULL, PREFIX_SET,
    PREFIX_SIMPLE,
};
use crate::resp::null::TNull;
use crate::resp::set::TSet;
use crate::resp::simple_error::TError;
use crate::resp::simple_string::TSimpleString;
use crate::resp::{res_len_matches, RespError};

verus! {

/// One RESP value at any nesting level.  Each variant owns its payload;
/// the null bulk string and the null array are distinct variants so that
/// the empty bulk string and the empty array round-trip faithfully.
#[derive(Debug, PartialEq)]
pub enum RespFrame {
    SimpleString(TSimpleString),
    Error(TError),
    Integer(i64),
    BulkString(TBulkString),
    NullBulkString,
    Array(TArray),
    NullArray(TNullArray),
    Null(TNull),
    Boolean(bool),
    Double(TDouble),
    MapFrame(TMap),
    SetFrame(TSet),
}

/// The mathematical value of a frame.
pub open spec fn frame_view(f: RespFrame) -> FrameView
    decreases f, 0int,
{
    match f {
        RespFrame::SimpleString(s) => FrameView::SimpleString(s.0@),
        RespFrame::Error(s) => FrameView::Error(s.0@),
        RespFrame::Integer(v) => FrameView::Integer(v),
        RespFrame::BulkString(s) => FrameView::BulkString(s.0@),
        RespFrame::NullBulkString => FrameView::NullBulkString,
        RespFrame::Array(a) => FrameView::Array(frames_view_from(a.0@, 0)),
        RespFrame::NullArray(_) => FrameView::NullArray,
        RespFrame::Null(_) => FrameView::Null,
        RespFrame::Boolean(b) => FrameView::Boolean(b),
        RespFrame::Double(d) => FrameView::Double(d.0@),
        RespFrame::MapFrame(m) => FrameView::MapFrame(entries_view_from(m.0@, 0)),
        RespFrame::SetFrame(s) => FrameView::SetFrame(frames_view_from(s.0@, 0)),
    }
}

pub open spec fn frames_view_from(v: Seq<RespFrame>, i: int) -> Seq<FrameView>
    decreases v, v.len() - i,
{
    if i < 0 || i >= v.len() {
        Seq::empty()
    } else {
        seq![frame_view(v[i])] + frames_view_from(v, i + 1)
    }
}

pub open spec fn entries_view_from(v: Seq<(Vec<u8>, RespFrame)>, i: int) -> Seq<
    (Seq<u8>, FrameView),
>
    decreases v, v.len() - i,
{
    if i < 0 || i >= v.len() {
        Seq::empty()
    } else {
        seq![(v[i].0@, frame_view(v[i].1))] + entries_view_from(v, i + 1)
    }
}

impl View for RespFrame {
    type V = FrameView;

    open spec fn view(&self) -> FrameView {
        frame_view(*self)
    }
}

pub proof fn lemma_frames_view_from(v: Seq<RespFrame>, i: int)
    requires
        0 <= i <= v.len(),
    ensures
        frames_view_from(v, i).len() == v.len() - i,
        forall|j: int|
            0 <= j < v.len() - i ==> #[trigger] frames_view_from(v, i)[j] == frame_view(v[i + j]),
    decreases v.len() - i,
{
    if i < v.len() {
        lemma_frames_view_from(v, i + 1);
    }
}

pub proof fn lemma_entries_view_from(v: Seq<(Vec<u8>, RespFrame)>, i: int)
    requires
        0 <= i <= v.len(),
    ensures
        entries_view_from(v, i).len() == v.len() - i,
        forall|j: int|
            0 <= j < v.len() - i ==> #[trigger] entries_view_from(v, i)[j] == (
            v[i + j].0@,
            frame_view(v[i + j].1),
            ),
    decreases v.len() - i,
{
    if i < v.len() {
        lemma_entries_view_from(v, i + 1);
    }
}

impl RespFrame {
    /// Predicted total wire length of the frame at the head of the
    /// buffer, routed by its prefix byte.
    pub fn expect_length(buf: &[u8]) -> (r: Result<usize, RespError>)
        ensures
            res_len_matches(r, spec_expect_len(buf@)),
        decreases buf@.len(), 4int,
    {
        if buf.len() == 0 {
            return Err(RespError::NotCompleteFrame);
        }
        let p = buf[0];
        if p == PREFIX_SIMPLE {
            TSimpleString::expect_length(buf)
        } else if p == PREFIX_ERROR {
            TError::expect_length(buf)
        } else if p == PREFIX_INTEGER {
            crate::resp::integer::expect_length(buf)
        } else if p == PREFIX_DOUBLE {
            TDouble::expect_length(buf)
        } else if p == PREFIX_NULL {
            TNull::expect_length(buf)
        } else if p == PREFIX_BOOLEAN {
            crate::resp::boolean::expect_length(buf)
        } else if p == PREFIX_BULK {
            let mut pat: Vec<u8> = Vec::new();
            pat.push(PREFIX_BULK);
            pat.push(45);
            pat.push(49);
            pat.push(crate::resp::CR);
            pat.push(crate::resp::LF);
            proof {
                assert(pat@ =~= crate::resp::model::spec_null_bulk_enc());
            }
            if crate::resp::slice_starts_with(buf, pat.as_slice()) {
                Ok(5)
            } else {
                TBulkString::expect_length(buf)
            }
        } else if p == PREFIX_ARRAY {
            let mut pat: Vec<u8> = Vec::new();
            pat.push(PREFIX_ARRAY);
            pat.push(45);
            pat.push(49);
            pat.push(crate::resp::CR);
            pat.push(crate::resp::LF);
            proof {
                assert(pat@ =~= crate::resp::model::spec_null_array_enc());
            }
            if crate::resp::slice_starts_with(buf, pat.as_slice()) {
                Ok(5)
            } else {
                TArray::expect_length(buf)
            }
        } else if p == PREFIX_SET {
            TSet::expect_length(buf)
        } else if p == PREFIX_MAP {
            TMap::expect_length(buf)
        } else {
            Err(RespError::InvalidFrameType)
        }
    }
}

/// Decode a single-line frame body from a slice, without consuming.
fn dec_line_slice(s: &[u8], prefix: u8) -> (r: Result<(Vec<u8>, usize), RespError>)
    ensures
        match crate::resp::model::spec_dec_line(s@, prefix) {
            Ok(p) => r matches Ok(q) && q.0@ == p.0 && q.1 as int == p.1 && q.1 <= s@.len(),
            Err(e) => r == Err::<(Vec<u8>, usize), RespError>(e),
        },
{
    let end = match crate::resp::extract_simple_frame_data(s, prefix) {
        Ok(end) => end,
        Err(e) => {
            return Err(e);
        },
    };
    proof {
        assert(crate::resp::spec_simple_end(s@, prefix) == Ok::<int, RespError>(end as int));
    }
    let slen = s.len();
    assert(end + 2 <= slen);
    let payload = crate::resp::copy_slice_range(s, 1, end);
    Ok((payload, end + 2))
}

/// Decode one frame from the head of a slice: the frame and the number
/// of bytes it occupies.  Nothing is consumed.
#[verifier::rlimit(100)]
fn dec_frame_slice(s: &[u8]) -> (r: Result<(RespFrame, usize), RespError>)
    ensures
        match spec_dec_frame(s@) {
            Ok(p) => r matches Ok(q) && q.0@ == p.0 && q.1 as int == p.1 && q.1 <= s@.len(),
            Err(e) => r matches Err(e2) && e2 == e,
        },
    decreases s@.len(), 9int,
{
    if s.len() == 0 {
        return Err(RespError::NotCompleteFrame);
    }
    let slen = s.len();
    let p = s[0];
    if p == PREFIX_SIMPLE {
        match dec_line_slice(s, PREFIX_SIMPLE) {
            Ok((payload, n)) => Ok((RespFrame::SimpleString(TSimpleString(payload)), n)),
            Err(e) => Err(e),
        }
    } else if p == PREFIX_ERROR {
        match dec_line_slice(s, PREFIX_ERROR) {
            Ok((payload, n)) => Ok((RespFrame::Error(TError(payload)), n)),
            Err(e) => Err(e),
        }
    } else if p == PREFIX_INTEGER {
        let end = match crate::resp::extract_simple_frame_data(s, PREFIX_INTEGER) {
            Ok(end) => end,
            Err(e) => {
                return Err(e);
            },
        };
        proof {
            assert(crate::resp::spec_simple_end(s@, PREFIX_INTEGER) == Ok::<int, RespError>(
                end as int,
            ));
        }
        assert(end + 2 <= slen);
        let body = vstd::slice::slice_subrange(s, 1, end);
        match crate::resp::integer::parse_i64_bytes(body) {
            Some(v) => Ok((RespFrame::Integer(v), end + 2)),
            None => Err(RespError::ParseIntError),
        }
    } else if p == PREFIX_DOUBLE {
        let end = match crate::resp::extract_simple_frame_data(s, PREFIX_DOUBLE) {
            Ok(end) => end,
            Err(e) => {
                return Err(e);
            },
        };
        proof {
            assert(crate::resp::spec_simple_end(s@, PREFIX_DOUBLE) == Ok::<int, RespError>(
                end as int,
            ));
        }
        assert(end + 2 <= slen);
        let body = vstd::slice::slice_subrange(s, 1, end);
        if !crate::resp::double::check_double(body) {
            return Err(RespError::ParseFloatError);
        }
        let payload = crate::resp::copy_slice_range(s, 1, end);
        Ok((RespFrame::Double(TDouble(payload)), end + 2))
    } else if p == PREFIX_NULL {
        let mut pat: Vec<u8> = Vec::new();
        pat.push(PREFIX_NULL);
        pat.push(crate::resp::CR);
        pat.push(crate::resp::LF);
        proof {
            assert(pat@ =~= crate::resp::model::spec_null_enc());
        }
        if slen < 3 {
            Err(RespError::NotCompleteFrame)
        } else if crate::resp::slice_starts_with(s, pat.as_slice()) {
            Ok((RespFrame::Null(TNull), 3))
        } else {
            Err(RespError::InvalidFrameData)
        }
    } else if p == PREFIX_BOOLEAN {
        let mut tpat: Vec<u8> = Vec::new();
        tpat.push(PREFIX_BOOLEAN);
        tpat.push(116);
        tpat.push(crate::resp::CR);
        tpat.push(crate::resp::LF);
        let mut fpat: Vec<u8> = Vec::new();
        fpat.push(PREFIX_BOOLEAN);
        fpat.push(102);
        fpat.push(crate::resp::CR);
        fpat.push(crate::resp::LF);
        proof {
            assert(tpat@ =~= crate::resp::model::spec_bool_enc(true));
            assert(fpat@ =~= crate::resp::model::spec_bool_enc(false));
        }
        if slen < 4 {
            Err(RespError::NotCompleteFrame)
        } else if crate::resp::slice_starts_with(s, tpat.as_slice()) {
            Ok((RespFrame::Boolean(true), 4))
        } else if crate::resp::slice_starts_with(s, fpat.as_slice()) {
            Ok((RespFrame::Boolean(false), 4))
        } else {
            Err(RespError::InvalidFrameData)
        }
    } else if p == PREFIX_BULK {
        let mut pat: Vec<u8> = Vec::new();
        pat.push(PREFIX_BULK);
        pat.push(45);
        pat.push(49);
        pat.push(crate::resp::CR);
        pat.push(crate::resp::LF);
        proof {
            assert(pat@ =~= crate::resp::model::spec_null_bulk_enc());
        }
        if crate::resp::slice_starts_with(s, pat.as_slice()) {
            return Ok((RespFrame::NullBulkString, 5));
        }
        let (end, len) = match crate::resp::parse_length(s, PREFIX_BULK) {
            Ok(p) => p,
            Err(e) => {
                return Err(e);
            },
        };
        proof {
            assert(crate::resp::spec_parse_length(s@, PREFIX_BULK) == Ok::<
                (int, int),
                RespError,
            >((end as int, len as int)));
        }
        assert(end + 2 <= slen);
        let t1 = match (end + 2).checked_add(len) {
            Some(t) => t,
            None => {
                return Err(RespError::InvalidFrameLength);
            },
        };
        let total = match t1.checked_add(2) {
            Some(t) => t,
            None => {
                return Err(RespError::InvalidFrameLength);
            },
        };
        if slen < total {
            return Err(RespError::NotCompleteFrame);
        }
        let payload = crate::resp::copy_slice_range(s, end + 2, end + 2 + len);
        Ok((RespFrame::BulkString(TBulkString(payload)), total))
    } else if p == PREFIX_ARRAY {
        let mut pat: Vec<u8> = Vec::new();
        pat.push(PREFIX_ARRAY);
        pat.push(45);
        pat.push(49);
        pat.push(crate::resp::CR);
        pat.push(crate::resp::LF);
        proof {
            assert(pat@ =~= crate::resp::model::spec_null_array_enc());
        }
        if crate::resp::slice_starts_with(s, pat.as_slice()) {
            return Ok((RespFrame::NullArray(TNullArray), 5));
        }
        match dec_list_slice(s, PREFIX_ARRAY) {
            Ok((frames, n)) => Ok((RespFrame::Array(TArray(frames)), n)),
            Err(e) => Err(e),
        }
    } else if p == PREFIX_SET {
        match dec_list_slice(s, PREFIX_SET) {
            Ok((frames, n)) => Ok((RespFrame::SetFrame(TSet(frames)), n)),
            Err(e) => Err(e),
        }
    } else if p == PREFIX_MAP {
        match dec_map_slice(s) {
            Ok((m, n)) => Ok((RespFrame::MapFrame(m), n)),
            Err(e) => Err(e),
        }
    } else {
        Err(RespError::InvalidFrameType)
    }
}

/// Decode the elements of an array or set frame from a slice.
#[verifier::rlimit(100)]
#[verifier::spinoff_prover]
pub(crate) fn dec_list_slice(s: &[u8], p: u8) -> (r: Result<(Vec<RespFrame>, usize), RespError>)
    requires
        p == PREFIX_ARRAY || p == PREFIX_SET,
    ensures
        match crate::resp::model::spec_dec_list_data(s@, p) {
            Ok(t) => r matches Ok(q) && frames_view_from(q.0@, 0) == t.0 && q.1 as int == t.1
                && q.1 <= s@.len(),
            Err(e) => r matches Err(e2) && e2 == e,
        },
    decreases s@.len(), 8int,
{
    let (end, cnt) = match crate::resp::parse_length(s, p) {
        Ok(h) => h,
        Err(e) => {
            return Err(e);
        },
    };
    proof {
        assert(crate::resp::spec_parse_length(s@, p) == Ok::<(int, int), RespError>(
            (end as int, cnt as int),
        ));
    }
    let slen = s.len();
    assert(end + 2 <= slen);
    let total = match crate::resp::calc_total_length(s, end, cnt, p) {
        Ok(t) => t,
        Err(e) => {
            return Err(e);
        },
    };
    if slen < total {
        return Err(RespError::NotCompleteFrame);
    }
    let ghost d0 = s@.skip(end + 2);
    proof {
        assert(d0.skip(0) =~= d0);
    }
    let mut frames: Vec<RespFrame> = Vec::new();
    let mut used: usize = 0;
    let mut j: usize = 0;
    while j < cnt
        invariant
            end + 2 <= s@.len(),
            s@.len() == slen,
            used <= slen - (end + 2),
            j <= cnt,
            d0 == s@.skip(end + 2),
            crate::resp::model::spec_dec_list_data(s@, p) == (
            match crate::resp::model::spec_dec_elems(d0, cnt as int) {
                Ok(t) => Ok::<(Seq<FrameView>, int), RespError>((t.0, end + 2 + t.1)),
                Err(e) => Err::<(Seq<FrameView>, int), RespError>(e),
            }),
            crate::resp::model::spec_dec_elems(d0, cnt as int) == (
            match crate::resp::model::spec_dec_elems(d0.skip(used as int), cnt - j) {
                Ok(t) => Ok::<(Seq<FrameView>, int), RespError>(
                    (frames_view_from(frames@, 0) + t.0, used + t.1),
                ),
                Err(e) => Err::<(Seq<FrameView>, int), RespError>(e),
            }),
        decreases cnt - j,
    {
        let suffix = vstd::slice::slice_subrange(s, end + 2 + used, slen);
        proof {
            assert(suffix@ =~= d0.skip(used as int));
        }
        match dec_frame_slice(suffix) {
            Ok((f, n)) => {
                if n > suffix.len() {
                    return Err(RespError::NotCompleteFrame);
                }
                proof {
                    assert(d0.skip(used as int).skip(n as int) =~= d0.skip(used + n));
                    lemma_frames_view_push(frames@, f);
                    match crate::resp::model::spec_dec_elems(d0.skip(used + n), cnt - j - 1) {
                        Ok(t) => {
                            assert(frames_view_from(frames@, 0).push(frame_view(f)) + t.0
                                =~= frames_view_from(frames@, 0) + (seq![frame_view(f)] + t.0));
                        },
                        Err(_) => (),
                    }
                }
                frames.push(f);
                used = used + n;
                j = j + 1;
            },
            Err(e) => {
                return Err(e);
            },
        }
    }
    proof {
        assert(frames_view_from(frames@, 0) + Seq::<FrameView>::empty() =~= frames_view_from(
            frames@,
            0,
        ));
    }
    Ok((frames, end + 2 + used))
}

/// Decode the entries of a map frame from a slice, inserting each pair
/// into a key-sorted map.
#[verifier::rlimit(100)]
#[verifier::spinoff_prover]
pub(crate) fn dec_map_slice(s: &[u8]) -> (r: Result<(TMap, usize), RespError>)
    ensures
        match crate::resp::model::spec_dec_map_data(s@) {
            Ok(t) => r matches Ok(q) && q.0@ == t.0 && q.1 as int == t.1 && q.1 <= s@.len(),
            Err(e) => r matches Err(e2) && e2 == e,
        },
    decreases s@.len(), 8int,
{
    let (end, cnt) = match crate::resp::parse_length(s, PREFIX_MAP) {
        Ok(h) => h,
        Err(e) => {
            return Err(e);
        },
    };
    proof {
        assert(crate::resp::spec_parse_length(s@, PREFIX_MAP) == Ok::<(int, int), RespError>(
            (end as int, cnt as int),
        ));
    }
    let slen = s.len();
    assert(end + 2 <= slen);
    let total = match crate::resp::calc_total_length(s, end, cnt, PREFIX_MAP) {
        Ok(t) => t,
        Err(e) => {
            return Err(e);
        },
    };
    if slen < total {
        return Err(RespError::NotCompleteFrame);
    }
    let ghost d0 = s@.skip(end + 2);
    proof {
        assert(d0.skip(0) =~= d0);
    }
    let mut map = TMap::new();
    let mut used: usize = 0;
    let mut j: usize = 0;
    while j < cnt
        invariant
            end + 2 <= s@.len(),
            s@.len() == slen,
            used <= slen - (end + 2),
            j <= cnt,
            d0 == s@.skip(end + 2),
            crate::resp::model::spec_dec_map_data(s@) == (
            match crate::resp::model::spec_dec_pairs(d0, cnt as int, Seq::empty()) {
                Ok(t) => Ok::<(Seq<(Seq<u8>, FrameView)>, int), RespError>((t.0, end + 2 + t.1)),
                Err(e) => Err::<(Seq<(Seq<u8>, FrameView)>, int), RespError>(e),
            }),
            crate::resp::model::spec_dec_pairs(d0, cnt as int, Seq::empty()) == (
            match crate::resp::model::spec_dec_pairs(d0.skip(used as int), cnt - j, map@) {
                Ok(t) => Ok::<(Seq<(Seq<u8>, FrameView)>, int), RespError>((t.0, used + t.1)),
                Err(e) => Err::<(Seq<(Seq<u8>, FrameView)>, int), RespError>(e),
            }),
        decreases cnt - j,
    {
        let suffix = vstd::slice::slice_subrange(s, end + 2 + used, slen);
        proof {
            assert(suffix@ =~= d0.skip(used as int));
        }
        let (key, kn) = match dec_line_slice(suffix, PREFIX_SIMPLE) {
            Ok(q) => q,
            Err(e) => {
                return Err(e);
            },
        };
        if kn > suffix.len() {
            return Err(RespError::NotCompleteFrame);
        }
        let vsuffix = vstd::slice::slice_subrange(s, end + 2 + used + kn, slen);
        proof {
            assert(vsuffix@ =~= d0.skip(used as int).skip(kn as int));
        }
        let (value, vn) = match dec_frame_slice(vsuffix) {
            Ok(q) => q,
            Err(e) => {
                return Err(e);
            },
        };
        if vn > vsuffix.len() {
            return Err(RespError::NotCompleteFrame);
        }
        proof {
            assert(d0.skip(used as int).skip(kn + vn) =~= d0.skip(used + kn + vn));
        }
        map.insert(key, value);
        used = used + kn + vn;
        j = j + 1;
    }
    Ok((map, end + 2 + used))
}

impl RespFrame {
    /// Decode one frame from the head of the buffer, routed by its
    /// prefix byte.  On success the frame's bytes are consumed; on any
    /// error the buffer is left untouched, so a retry after more bytes
    /// arrive resumes cleanly.
    pub fn decode(buf: &mut bytes::BytesMut) -> (r: Result<RespFrame, RespError>)
        ensures
            match spec_dec_frame(bytes_view(*old(buf))) {
                Ok(p) => r matches Ok(f) && f@ == p.0 && bytes_view(*final(buf)) == bytes_view(
                    *old(buf),
                ).skip(p.1),
                Err(e) => r == Err::<RespFrame, RespError>(e) && bytes_view(*final(buf))
                    == bytes_view(*old(buf)),
            },
    {
        let s = buf_bytes(buf);
        match dec_frame_slice(s) {
            Ok((f, n)) => {
                buf_advance(buf, n);
                Ok(f)
            },
            Err(e) => Err(e),
        }
    }
}

impl RespFrame {
    /// Canonical wire form of this frame.
    pub fn encode(&self) -> (r: Vec<u8>)
        ensures
            r@ == crate::resp::model::frame_enc(self@),
    {
        let mut out: Vec<u8> = Vec::new();
        encode_into(self, &mut out);
        out
    }
}

/// Append the canonical wire form of a frame to `out`.
pub fn encode_into(f: &RespFrame, out: &mut Vec<u8>)
    ensures
        final(out)@ == old(out)@ + crate::resp::model::frame_enc(frame_view(*f)),
    decreases *f, 1int,
{
    match f {
        RespFrame::SimpleString(x) => {
            let e = x.encode();
            out.extend_from_slice(e.as_slice());
        },
        RespFrame::Error(x) => {
            let e = x.encode();
            out.extend_from_slice(e.as_slice());
        },
        RespFrame::Integer(v) => {
            let e = crate::resp::integer::encode(*v);
            out.extend_from_slice(e.as_slice());
        },
        RespFrame::BulkString(x) => {
            let e = x.encode();
            out.extend_from_slice(e.as_slice());
        },
        RespFrame::NullBulkString => {
            out.push(PREFIX_BULK);
            out.push(45);
            out.push(49);
            out.push(crate::resp::CR);
            out.push(crate::resp::LF);
            proof {
                assert(final(out)@ =~= old(out)@
                    + crate::resp::model::spec_null_bulk_enc());
            }
        },
        RespFrame::Array(a) => {
            out.push(PREFIX_ARRAY);
            let n = a.0.len();
            proof {
                assert((n as u64) as nat == a.0@.len());
                lemma_frames_view_from(a.0@, 0);
            }
            crate::resp::integer::push_udigits(out, n as u64);
            out.push(crate::resp::CR);
            out.push(crate::resp::LF);
            encode_frames(&a.0, out);
            proof {
                assert(final(out)@ =~= old(out)@ + crate::resp::model::frame_enc(
                    frame_view(*f),
                ));
            }
        },
        RespFrame::NullArray(_) => {
            out.push(PREFIX_ARRAY);
            out.push(45);
            out.push(49);
            out.push(crate::resp::CR);
            out.push(crate::resp::LF);
            proof {
                assert(final(out)@ =~= old(out)@
                    + crate::resp::model::spec_null_array_enc());
            }
        },
        RespFrame::Null(x) => {
            let e = x.encode();
            out.extend_from_slice(e.as_slice());
        },
        RespFrame::Boolean(b) => {
            let e = crate::resp::boolean::encode(*b);
            out.extend_from_slice(e.as_slice());
        },
        RespFrame::Double(x) => {
            let e = x.encode();
            out.extend_from_slice(e.as_slice());
        },
        RespFrame::MapFrame(m) => {
            out.push(PREFIX_MAP);
            let n = m.0.len();
            proof {
                assert((n as u64) as nat == m.0@.len());
                lemma_entries_view_from(m.0@, 0);
            }
            crate::resp::integer::push_udigits(out, n as u64);
            out.push(crate::resp::CR);
            out.push(crate::resp::LF);
            encode_entries(&m.0, out);
            proof {
                assert(final(out)@ =~= old(out)@ + crate::resp::model::frame_enc(
                    frame_view(*f),
                ));
            }
        },
        RespFrame::SetFrame(x) => {
            out.push(PREFIX_SET);
            let n = x.0.len();
            proof {
                assert((n as u64) as nat == x.0@.len());
                lemma_frames_view_from(x.0@, 0);
            }
            crate::resp::integer::push_udigits(out, n as u64);
            out.push(crate::resp::CR);
            out.push(crate::resp::LF);
            encode_frames(&x.0, out);
            proof {
                assert(final(out)@ =~= old(out)@ + crate::resp::model::frame_enc(
                    frame_view(*f),
                ));
            }
        },
    }
}

/// Append the encodings of a run of frames, in order.
pub(crate) fn encode_frames(v: &Vec<RespFrame>, out: &mut Vec<u8>)
    ensures
        final(out)@ == old(out)@ + crate::resp::model::seq_enc(frames_view_from(v@, 0), 0),
    decreases v@, 0int,
{
    let ghost fv = frames_view_from(v@, 0);
    let ghost base = out@;
    proof {
        lemma_frames_view_from(v@, 0);
    }
    let mut j: usize = 0;
    while j < v.len()
        invariant
            j <= v@.len(),
            fv == frames_view_from(v@, 0),
            fv.len() == v@.len(),
            forall|i: int| 0 <= i < v@.len() ==> #[trigger] fv[i] == frame_view(v@[i]),
            out@ + crate::resp::model::seq_enc(fv, j as int) == base + crate::resp::model::seq_enc(
                fv,
                0,
            ),
        decreases v@.len() - j,
    {
        proof {
            assert(decreases_to!(v@ => v@[j as int]));
        }
        let ghost before = out@;
        encode_into(&v[j], out);
        proof {
            assert(crate::resp::model::seq_enc(fv, j as int) == crate::resp::model::frame_enc(
                fv[j as int],
            ) + crate::resp::model::seq_enc(fv, j as int + 1));
            assert(out@ + crate::resp::model::seq_enc(fv, j as int + 1) =~= before
                + crate::resp::model::seq_enc(fv, j as int));
        }
        j = j + 1;
    }
    proof {
        assert(crate::resp::model::seq_enc(fv, v@.len() as int) =~= Seq::<u8>::empty());
        assert(out@ =~= out@ + Seq::<u8>::empty());
        assert(out@ =~= base + crate::resp::model::seq_enc(fv, 0));
    }
}

/// Append the encodings of a run of map entries, in order: each key as
/// a simple string, then its value.
pub(crate) fn encode_entries(v: &Vec<(Vec<u8>, RespFrame)>, out: &mut Vec<u8>)
    ensures
        final(out)@ == old(out)@ + crate::resp::model::pairs_enc(entries_view_from(v@, 0), 0),
    decreases v@, 0int,
{
    let ghost pv = entries_view_from(v@, 0);
    let ghost base = out@;
    proof {
        lemma_entries_view_from(v@, 0);
    }
    let mut j: usize = 0;
    while j < v.len()
        invariant
            j <= v@.len(),
            pv == entries_view_from(v@, 0),
            pv.len() == v@.len(),
            forall|i: int|
                0 <= i < v@.len() ==> #[trigger] pv[i] == (v@[i].0@, frame_view(v@[i].1)),
            out@ + crate::resp::model::pairs_enc(pv, j as int) == base
                + crate::resp::model::pairs_enc(pv, 0),
        decreases v@.len() - j,
    {
        proof {
            assert(decreases_to!(v@ => v@[j as int]));
            assert(decreases_to!(v@[j as int] => v@[j as int].1));
        }
        let ghost before = out@;
        out.push(PREFIX_SIMPLE);
        out.extend_from_slice(v[j].0.as_slice());
        out.push(crate::resp::CR);
        out.push(crate::resp::LF);
        encode_into(&v[j].1, out);
        proof {
            assert(crate::resp::model::pairs_enc(pv, j as int) == seq![PREFIX_SIMPLE] + pv[
                j as int].0 + crate::resp::spec_crlf() + crate::resp::model::frame_enc(
                pv[j as int].1,
            ) + crate::resp::model::pairs_enc(pv, j as int + 1));
            assert(out@ + crate::resp::model::pairs_enc(pv, j as int + 1) =~= before
                + crate::resp::model::pairs_enc(pv, j as int));
        }
        j = j + 1;
    }
    proof {
        assert(crate::resp::model::pairs_enc(pv, v@.len() as int) =~= Seq::<u8>::empty());
        assert(out@ =~= out@ + Seq::<u8>::empty());
        assert(out@ =~= base + crate::resp::model::pairs_enc(pv, 0));
    }
}

/// A fresh copy of a byte string.
pub(crate) fn copy_bytes(v: &Vec<u8>) -> (r: Vec<u8>)
    ensures
        r@ == v@,
{
    let n = v.len();
    let r = crate::resp::copy_slice_range(v.as_slice(), 0, n);
    proof {
        assert(v@.subrange(0, n as int) =~= v@);
    }
    r
}

impl Clone for RespFrame {
    /// A clone carries the same abstract value.
    fn clone(&self) -> (res: Self)
        ensures
            res@ == self@,
        decreases *self, 0int,
    {
        match self {
            RespFrame::SimpleString(s) => RespFrame::SimpleString(TSimpleString(copy_bytes(&s.0))),
            RespFrame::Error(s) => RespFrame::Error(TError(copy_bytes(&s.0))),
            RespFrame::Integer(v) => RespFrame::Integer(*v),
            RespFrame::BulkString(s) => RespFrame::BulkString(TBulkString(copy_bytes(&s.0))),
            RespFrame::NullBulkString => RespFrame::NullBulkString,
            RespFrame::Array(a) => RespFrame::Array(TArray(clone_frames(&a.0))),
            RespFrame::NullArray(_) => RespFrame::NullArray(TNullArray),
            RespFrame::Null(_) => RespFrame::Null(TNull),
            RespFrame::Boolean(b) => RespFrame::Boolean(*b),
            RespFrame::Double(d) => RespFrame::Double(TDouble(copy_bytes(&d.0))),
            RespFrame::MapFrame(m) => RespFrame::MapFrame(TMap(clone_entries(&m.0))),
            RespFrame::SetFrame(s) => RespFrame::SetFrame(TSet(clone_frames(&s.0))),
        }
    }
}

pub(crate) fn clone_frames(v: &Vec<RespFrame>) -> (r: Vec<RespFrame>)
    ensures
        frames_view_from(r@, 0) == frames_view_from(v@, 0),
    decreases v@, 1int,
{
    let mut out: Vec<RespFrame> = Vec::new();
    let mut i: usize = 0;
    while i < v.len()
        invariant
            i <= v@.len(),
            out@.len() == i,
            forall|j: int| 0 <= j < i ==> frame_view(#[trigger] out@[j]) == frame_view(v@[j]),
        decreases v.len() - i,
    {
        proof {
            assert(decreases_to!(v@ => v@[i as int]));
        }
        out.push(v[i].clone());
        i = i + 1;
    }
    proof {
        lemma_frames_view_from(out@, 0);
        lemma_frames_view_from(v@, 0);
        assert(frames_view_from(out@, 0) =~= frames_view_from(v@, 0));
    }
    out
}

pub(crate) fn clone_entries(v: &Vec<(Vec<u8>, RespFrame)>) -> (r: Vec<(Vec<u8>, RespFrame)>)
    ensures
        entries_view_from(r@, 0) == entries_view_from(v@, 0),
    decreases v@, 1int,
{
    let mut out: Vec<(Vec<u8>, RespFrame)> = Vec::new();
    let mut i: usize = 0;
    while i < v.len()
        invariant
            i <= v@.len(),
            out@.len() == i,
            forall|j: int|
                0 <= j < i ==> (#[trigger] out@[j]).0@ == v@[j].0@ && frame_view(out@[j].1)
                    == frame_view(v@[j].1),
        decreases v.len() - i,
    {
        proof {
            assert(decreases_to!(v@ => v@[i as int]));
            assert(decreases_to!(v@[i as int] => v@[i as int].1));
        }
        let key = copy_bytes(&v[i].0);
        let value = v[i].1.clone();
        out.push((key, value));
        i = i + 1;
    }
    proof {
        lemma_entries_view_from(out@, 0);
        lemma_entries_view_from(v@, 0);
        assert(entries_view_from(out@, 0) =~= entries_view_from(v@, 0));
    }
    out
}

/// Appending one frame appends its view.
pub proof fn lemma_frames_view_push(v: Seq<RespFrame>, f: RespFrame)
    ensures
        frames_view_from(v.push(f), 0) == frames_view_from(v, 0).push(frame_view(f)),
{
    lemma_frames_view_from(v, 0);
    lemma_frames_view_from(v.push(f), 0);
    assert(frames_view_from(v.push(f), 0) =~= frames_view_from(v, 0).push(frame_view(f)));
}

} // verus!
