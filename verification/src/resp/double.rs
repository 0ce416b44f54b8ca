//! The double frame: `,<decimal>\r\n`.

use vstd::prelude::*;

use crate::bytebuf::{buf_advance, buf_bytes, bytes_view};
use crate::resp::model::{
    frame_enc, spec_dec_double, spec_digits1, spec_double_ok, spec_find_byte2, spec_line_expect,
    spec_mantissa_ok, spec_signed_digits1, FrameView, PREFIX_DOUBLE,
};
use crate::resp::{
    copy_slice_range, extract_simple_frame_data, is_digit, res_len_matches, spec_crlf,
    spec_simple_end, RespError, CR, LF,
};

verus! {

/// A double frame carries its decimal wire text, which must match the
/// grammar `[+|-]digits[.digits][(e|E)[+|-]digits]`.  Keeping the exact
/// text makes the codec byte-faithful; callers that need the numeric
/// value parse the text outside the codec.
#[derive(Debug, Clone, PartialEq)]
pub struct TDouble(pub Vec<u8>);

impl View for TDouble {
    type V = Seq<u8>;

    open spec fn view(&self) -> Seq<u8> {
        self.0@
    }
}

/// A non-empty run of decimal digits.
fn digits1_check(s: &[u8]) -> (r: bool)
    ensures
        r == spec_digits1(s@),
{
    if s.len() == 0 {
        return false;
    }
    let mut i: usize = 0;
    while i < s.len()
        invariant
            0 <= i <= s@.len(),
            forall|j: int| 0 <= j < i ==> is_digit(#[trigger] s@[j]),
        decreases s.len() - i,
    {
        let d = s[i];
        if d < 48 || d > 57 {
            assert(!is_digit(s@[i as int]));
            return false;
        }
        i = i + 1;
    }
    true
}

/// First position holding `t1` or `t2`.
fn find_byte2(s: &[u8], t1: u8, t2: u8) -> (r: Option<usize>)
    ensures
        match r {
            Some(u) => spec_find_byte2(s@, t1, t2, 0) == Some(u as int) && u < s@.len(),
            None => spec_find_byte2(s@, t1, t2, 0) is None,
        },
{
    let mut i: usize = 0;
    while i < s.len()
        invariant
            0 <= i <= s@.len(),
            spec_find_byte2(s@, t1, t2, 0) == spec_find_byte2(s@, t1, t2, i as int),
        decreases s.len() - i,
    {
        if s[i] == t1 || s[i] == t2 {
            return Some(i);
        }
        i = i + 1;
    }
    None
}

/// Digits with an optional leading sign.
fn signed_digits_check(s: &[u8]) -> (r: bool)
    ensures
        r == spec_signed_digits1(s@),
{
    if s.len() > 0 && (s[0] == 43 || s[0] == 45) {
        proof {
            assert(s@.subrange(1, s@.len() as int) =~= s@.drop_first());
        }
        digits1_check(vstd::slice::slice_subrange(s, 1, s.len()))
    } else {
        digits1_check(s)
    }
}

/// Digits with an optional fractional part.
fn mantissa_check(m: &[u8]) -> (r: bool)
    ensures
        r == spec_mantissa_ok(m@),
{
    match find_byte2(m, 46, 46) {
        None => digits1_check(m),
        Some(j) => {
            let mlen = m.len();
            let left = digits1_check(vstd::slice::slice_subrange(m, 0, j));
            let right = digits1_check(vstd::slice::slice_subrange(m, j + 1, mlen));
            left && right
        },
    }
}

/// Does the byte text match the double grammar?
pub fn check_double(s: &[u8]) -> (r: bool)
    ensures
        r == spec_double_ok(s@),
{
    let start: usize = if s.len() > 0 && (s[0] == 43 || s[0] == 45) {
        1
    } else {
        0
    };
    let t = vstd::slice::slice_subrange(s, start, s.len());
    proof {
        if start == 1 {
            assert(t@ =~= s@.drop_first());
        } else {
            assert(t@ =~= s@);
        }
    }
    match find_byte2(t, 101, 69) {
        None => mantissa_check(t),
        Some(j) => {
            let tlen = t.len();
            let left = mantissa_check(vstd::slice::slice_subrange(t, 0, j));
            let right = signed_digits_check(vstd::slice::slice_subrange(t, j + 1, tlen));
            left && right
        },
    }
}

impl TDouble {
    /// Build a double frame from decimal text; rejects text outside the
    /// grammar.
    pub fn new(data: Vec<u8>) -> (r: Option<Self>)
        ensures
            match r {
                Some(d) => spec_double_ok(data@) && d@ == data@,
                None => !spec_double_ok(data@),
            },
    {
        if check_double(data.as_slice()) {
            Some(TDouble(data))
        } else {
            None
        }
    }

    /// Canonical wire form: `,`, the decimal text, CRLF.
    pub fn encode(&self) -> (r: Vec<u8>)
        ensures
            r@ == frame_enc(FrameView::Double(self@)),
    {
        let mut out: Vec<u8> = Vec::new();
        out.push(PREFIX_DOUBLE);
        out.extend_from_slice(self.0.as_slice());
        out.push(CR);
        out.push(LF);
        proof {
            assert(out@ =~= seq![PREFIX_DOUBLE] + self.0@ + spec_crlf());
        }
        out
    }

    /// Decode one double frame, consuming it on success and leaving the
    /// buffer untouched on any error.
    pub fn decode(buf: &mut bytes::BytesMut) -> (r: Result<TDouble, RespError>)
        ensures
            match spec_dec_double(bytes_view(*old(buf))) {
                Ok(p) => r matches Ok(f) && f@ == p.0 && bytes_view(*final(buf)) == bytes_view(
                    *old(buf),
                ).skip(p.1),
                Err(e) => r == Err::<TDouble, RespError>(e) && bytes_view(*final(buf))
                    == bytes_view(*old(buf)),
            },
    {
        let s = buf_bytes(buf);
        let end = match extract_simple_frame_data(s, PREFIX_DOUBLE) {
            Ok(end) => end,
            Err(e) => {
                return Err(e);
            },
        };
        proof {
            assert(spec_simple_end(s@, PREFIX_DOUBLE) == Ok::<int, RespError>(end as int));
        }
        let slen = s.len();
        assert(end + 2 <= slen);
        let body = vstd::slice::slice_subrange(s, 1, end);
        if !check_double(body) {
            return Err(RespError::ParseFloatError);
        }
        let payload = copy_slice_range(s, 1, end);
        buf_advance(buf, end + 2);
        Ok(TDouble(payload))
    }

    /// Total wire length of the double frame at the head of the buffer.
    pub fn expect_length(buf: &[u8]) -> (r: Result<usize, RespError>)
        ensures
            res_len_matches(r, spec_line_expect(buf@, PREFIX_DOUBLE)),
    {
        match extract_simple_frame_data(buf, PREFIX_DOUBLE) {
            Ok(end) => {
                proof {
                    assert(spec_simple_end(buf@, PREFIX_DOUBLE) == Ok::<int, RespError>(
                        end as int,
                    ));
                }
                let blen = buf.len();
                assert(end + 2 <= blen);
                Ok(end + 2)
            },
            Err(e) => Err(e),
        }
    }
}

} // verus!
