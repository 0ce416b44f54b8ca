//! The integer frame: `:[+|-]<digits>\r\n`.

use vstd::prelude::*;

use crate::bytebuf::{buf_advance, buf_bytes, bytes_view};
use crate::resp::model::{
    frame_enc, spec_dec_int, spec_int_body, spec_line_expect, spec_parse_i64, spec_udigits,
    FrameView, PREFIX_INTEGER,
};
use crate::resp::{
    extract_simple_frame_data, parse_magnitude, res_len_matches, spec_crlf, spec_simple_end,
    RespError, CR, LF,
};

verus! {

/// Append the decimal digits of `n`, most significant first.
pub fn push_udigits(out: &mut Vec<u8>, n: u64)
    ensures
        final(out)@ == old(out)@ + spec_udigits(n as nat),
    decreases n,
{
    if n < 10 {
        out.push((48 + n) as u8);
        proof {
            assert(final(out)@ =~= old(out)@ + spec_udigits(n as nat));
        }
    } else {
        push_udigits(out, n / 10);
        out.push((48 + n % 10) as u8);
        proof {
            assert(spec_udigits(n as nat) == spec_udigits(n as nat / 10) + seq![
                (48 + n as nat % 10) as u8,
            ]);
            assert(final(out)@ =~= old(out)@ + spec_udigits(n as nat));
        }
    }
}

/// Parse an optionally signed decimal as an `i64`, rejecting overflow.
pub fn parse_i64_bytes(s: &[u8]) -> (r: Option<i64>)
    ensures
        r == spec_parse_i64(s@),
{
    if s.len() == 0 {
        return None;
    }
    let (neg, digits) = if s[0] == 43 {
        (false, vstd::slice::slice_subrange(s, 1, s.len()))
    } else if s[0] == 45 {
        (true, vstd::slice::slice_subrange(s, 1, s.len()))
    } else {
        (false, vstd::slice::slice_subrange(s, 0, s.len()))
    };
    proof {
        assert(s@.subrange(1, s@.len() as int) =~= s@.drop_first());
        assert(s@.subrange(0, s@.len() as int) =~= s@);
    }
    if neg {
        match parse_magnitude(digits, 9223372036854775808u64) {
            Some(m) => if m == 9223372036854775808u64 {
                Some(i64::MIN)
            } else {
                Some(-(m as i64))
            },
            None => None,
        }
    } else {
        match parse_magnitude(digits, 9223372036854775807u64) {
            Some(m) => Some(m as i64),
            None => None,
        }
    }
}

/// Canonical wire form: `:`, the signed decimal, CRLF.  Non-negative
/// values carry no sign.
pub fn encode(v: i64) -> (r: Vec<u8>)
    ensures
        r@ == frame_enc(FrameView::Integer(v)),
{
    let mut out: Vec<u8> = Vec::new();
    out.push(PREFIX_INTEGER);
    if v < 0 {
        out.push(45);
        let m: u64 = ((-(v + 1)) as u64) + 1;
        proof {
            assert(m as nat == -(v as int));
        }
        push_udigits(&mut out, m);
    } else {
        push_udigits(&mut out, v as u64);
    }
    out.push(CR);
    out.push(LF);
    proof {
        assert(out@ =~= seq![PREFIX_INTEGER] + spec_int_body(v as int) + spec_crlf());
    }
    out
}

/// Decode one integer frame, consuming it on success and leaving the
/// buffer untouched on any error.
pub fn decode(buf: &mut bytes::BytesMut) -> (r: Result<i64, RespError>)
    ensures
        match spec_dec_int(bytes_view(*old(buf))) {
            Ok(p) => r == Ok::<i64, RespError>(p.0) && bytes_view(*final(buf)) == bytes_view(
                *old(buf),
            ).skip(p.1),
            Err(e) => r == Err::<i64, RespError>(e) && bytes_view(*final(buf)) == bytes_view(
                *old(buf),
            ),
        },
{
    let s = buf_bytes(buf);
    let end = match extract_simple_frame_data(s, PREFIX_INTEGER) {
        Ok(end) => end,
        Err(e) => {
            return Err(e);
        },
    };
    proof {
        assert(spec_simple_end(s@, PREFIX_INTEGER) == Ok::<int, RespError>(end as int));
    }
    let slen = s.len();
    assert(end + 2 <= slen);
    let body = vstd::slice::slice_subrange(s, 1, end);
    match parse_i64_bytes(body) {
        Some(v) => {
            buf_advance(buf, end + 2);
            Ok(v)
        },
        None => Err(RespError::ParseIntError),
    }
}

/// Total wire length of the integer frame at the head of the buffer.
pub fn expect_length(buf: &[u8]) -> (r: Result<usize, RespError>)
    ensures
        res_len_matches(r, spec_line_expect(buf@, PREFIX_INTEGER)),
{
    match extract_simple_frame_data(buf, PREFIX_INTEGER) {
        Ok(end) => {
            proof {
                assert(spec_simple_end(buf@, PREFIX_INTEGER) == Ok::<int, RespError>(end as int));
            }
            let blen = buf.len();
            assert(end + 2 <= blen);
            Ok(end + 2)
        },
        Err(e) => Err(e),
    }
}

} // verus!
