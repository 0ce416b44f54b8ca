//! RESP wire format: shared scanning and length-parsing primitives.
//!
//! All primitives are pure functions over byte slices; each has a spec
//! mirror that the frame-level decoder model in `resp::model` is built
//! from.  The byte buffer itself (`bytes::BytesMut`) only appears at the
//! outermost decode entry points.

pub mod array;
pub mod boolean;
pub mod bulk_string;
pub mod double;
pub mod frame;
pub mod integer;
pub mod laws;
pub mod map;
pub mod model;
pub mod null;
pub mod set;
pub mod simple_error;
pub mod simple_string;

use vstd::prelude::*;

verus! {

pub const CR: u8 = 13;

pub const LF: u8 = 10;

/// How a decoder can fail.  `NotCompleteFrame` is non-fatal: the caller
/// should wait for more bytes and retry.  Every other variant is fatal
/// for the connection.
#[derive(Debug, Clone, Copy, PartialEq, Eq, Structural)]
pub enum RespError {
    InvalidFrameType,
    InvalidFrameLength,
    InvalidFrameData,
    NotCompleteFrame,
    ParseFloatError,
    ParseIntError,
}

/// The two-byte frame terminator `\r\n`.
pub open spec fn spec_crlf() -> Seq<u8> {
    seq![CR, LF]
}

/// Index of the CR of the `nth` CRLF pair at or after position `from`,
/// if that many pairs are present.
pub open spec fn spec_find_crlf_from(b: Seq<u8>, from: int, nth: int) -> Option<int>
    decreases b.len() - from,
{
    if from < 0 || from + 1 >= b.len() {
        None
    } else if b[from] == CR && b[from + 1] == LF {
        if nth == 1 {
            Some(from)
        } else {
            spec_find_crlf_from(b, from + 1, nth - 1)
        }
    } else {
        spec_find_crlf_from(b, from + 1, nth)
    }
}

/// End index of a simple (single-line) frame: the index of the CR of its
/// first CRLF, with the leading prefix byte checked.
pub open spec fn spec_simple_end(b: Seq<u8>, prefix: u8) -> Result<int, RespError> {
    if b.len() < 3 {
        Err(RespError::NotCompleteFrame)
    } else if b[0] != prefix {
        Err(RespError::InvalidFrameType)
    } else {
        match spec_find_crlf_from(b, 1, 1) {
            Some(end) => if 1 <= end && end + 2 <= b.len() {
                Ok(end)
            } else {
                Err(RespError::NotCompleteFrame)
            },
            None => Err(RespError::NotCompleteFrame),
        }
    }
}

pub open spec fn is_digit(b: u8) -> bool {
    48 <= b <= 57
}

pub open spec fn all_digits(s: Seq<u8>) -> bool {
    forall|i: int| 0 <= i < s.len() ==> is_digit(#[trigger] s[i])
}

/// Value of a string of decimal digits, most significant first.
pub open spec fn digits_val(s: Seq<u8>) -> nat
    decreases s.len(),
{
    if s.len() == 0 {
        0
    } else {
        digits_val(s.drop_last()) * 10 + (s.last() - 48) as nat
    }
}

/// A decimal length header: one or more digits whose value fits in
/// `usize`.  Signs are not accepted; `-1` therefore fails here and the
/// caller decides whether the nullable fixed form applies.
pub open spec fn spec_parse_usize(s: Seq<u8>) -> Option<usize> {
    if s.len() > 0 && all_digits(s) && digits_val(s) <= usize::MAX {
        Some(digits_val(s) as usize)
    } else {
        None
    }
}

/// Result of scanning a length-prefixed header: index of the CR that
/// ends the header, and the parsed length.
pub open spec fn spec_parse_length(b: Seq<u8>, prefix: u8) -> Result<(int, int), RespError> {
    match spec_simple_end(b, prefix) {
        Ok(end) => match spec_parse_usize(b.subrange(1, end)) {
            Some(n) => Ok((end, n as int)),
            None => Err(RespError::InvalidFrameLength),
        },
        Err(e) => Err(e),
    }
}

/// Fixed-form matcher: too few bytes is non-fatal, a mismatch is fatal.
pub open spec fn spec_fixed(b: Seq<u8>, pat: Seq<u8>) -> Result<(), RespError> {
    if b.len() < pat.len() {
        Err(RespError::NotCompleteFrame)
    } else if b.subrange(0, pat.len() as int) == pat {
        Ok(())
    } else {
        Err(RespError::InvalidFrameData)
    }
}

/// A `usize`-valued result agrees with its mathematical mirror.
pub open spec fn res_len_matches(r: Result<usize, RespError>, s: Result<int, RespError>) -> bool {
    match r {
        Ok(u) => s == Ok::<int, RespError>(u as int),
        Err(e) => s == Err::<int, RespError>(e),
    }
}

pub open spec fn res_pair_matches(
    r: Result<(usize, usize), RespError>,
    s: Result<(int, int), RespError>,
) -> bool {
    match r {
        Ok(p) => s == Ok::<(int, int), RespError>((p.0 as int, p.1 as int)),
        Err(e) => s == Err::<(int, int), RespError>(e),
    }
}

/// Find the nth CRLF in the buffer, skipping the prefix byte at
/// position 0.
pub fn find_crlf(buf: &[u8], nth: usize) -> (r: Option<usize>)
    ensures
        match r {
            Some(u) => spec_find_crlf_from(buf@, 1, nth as int) == Some(u as int),
            None => spec_find_crlf_from(buf@, 1, nth as int) is None,
        },
{
    if buf.len() < 2 {
        return None;
    }
    let mut i: usize = 1;
    let mut count: usize = 0;
    while i < buf.len() - 1
        invariant
            1 <= i <= buf.len(),
            buf.len() >= 2,
            count <= i,
            count < nth || nth == 0,
            spec_find_crlf_from(buf@, 1, nth as int) == spec_find_crlf_from(
                buf@,
                i as int,
                nth - count,
            ),
        decreases buf.len() - i,
    {
        if buf[i] == CR && buf[i + 1] == LF {
            count = count + 1;
            if count == nth {
                return Some(i);
            }
        }
        i = i + 1;
    }
    None
}

/// Scan a simple frame: require at least three bytes and the expected
/// prefix, and locate the CR of the first CRLF.
pub fn extract_simple_frame_data(buf: &[u8], prefix: u8) -> (r: Result<usize, RespError>)
    ensures
        res_len_matches(r, spec_simple_end(buf@, prefix)),
{
    if buf.len() < 3 {
        return Err(RespError::NotCompleteFrame);
    }
    if buf[0] != prefix {
        return Err(RespError::InvalidFrameType);
    }
    match find_crlf(buf, 1) {
        Some(end) => {
            // The CRLF search starts at index 1 and leaves room for the
            // LF, so these bounds always hold; they are re-checked here
            // so that a successful scan carries them by construction.
            if 1 <= end && end <= buf.len() - 2 {
                Ok(end)
            } else {
                Err(RespError::NotCompleteFrame)
            }
        },
        None => Err(RespError::NotCompleteFrame),
    }
}

/// Copy the byte range `[a, b)` of a slice into a fresh vector.
pub fn copy_slice_range(s: &[u8], a: usize, b: usize) -> (r: Vec<u8>)
    requires
        a <= b <= s@.len(),
    ensures
        r@ == s@.subrange(a as int, b as int),
{
    let mut out: Vec<u8> = Vec::new();
    let mut j: usize = a;
    while j < b
        invariant
            a <= j <= b <= s@.len(),
            out@ == s@.subrange(a as int, j as int),
        decreases b - j,
    {
        out.push(s[j]);
        proof {
            assert(out@ =~= s@.subrange(a as int, j as int + 1));
        }
        j = j + 1;
    }
    out
}

/// Does the slice start with the given pattern?
pub fn slice_starts_with(s: &[u8], pat: &[u8]) -> (r: bool)
    ensures
        r == (s@.len() >= pat@.len() && s@.subrange(0, pat@.len() as int) == pat@),
{
    if s.len() < pat.len() {
        return false;
    }
    let mut j: usize = 0;
    while j < pat.len()
        invariant
            0 <= j <= pat@.len() <= s@.len(),
            forall|i: int| 0 <= i < j ==> s@[i] == pat@[i],
        decreases pat.len() - j,
    {
        if s[j] != pat[j] {
            assert(s@.subrange(0, pat@.len() as int)[j as int] != pat@[j as int]);
            return false;
        }
        j = j + 1;
    }
    proof {
        assert(s@.subrange(0, pat@.len() as int) =~= pat@);
    }
    true
}

/// Byte-wise equality of two byte slices.
pub fn bytes_eq(a: &[u8], b: &[u8]) -> (r: bool)
    ensures
        r == (a@ == b@),
{
    if a.len() != b.len() {
        return false;
    }
    let r = slice_starts_with(a, b);
    proof {
        assert(a@.subrange(0, b@.len() as int) =~= a@);
    }
    r
}

/// Match a fixed wire form at the head of the buffer, consuming it on
/// success.  Too few bytes is non-fatal; a byte mismatch is fatal.
pub fn extract_fixed_data(buf: &mut bytes::BytesMut, expect: &[u8]) -> (r: Result<
    (),
    RespError,
>)
    ensures
        r == spec_fixed(crate::bytebuf::bytes_view(*old(buf)), expect@),
        match r {
            Ok(_) => crate::bytebuf::bytes_view(*final(buf)) == crate::bytebuf::bytes_view(
                *old(buf),
            ).skip(expect@.len() as int),
            Err(_) => crate::bytebuf::bytes_view(*final(buf)) == crate::bytebuf::bytes_view(
                *old(buf),
            ),
        },
{
    let s = crate::bytebuf::buf_bytes(buf);
    if s.len() < expect.len() {
        return Err(RespError::NotCompleteFrame);
    }
    if !slice_starts_with(s, expect) {
        return Err(RespError::InvalidFrameData);
    }
    let n = expect.len();
    crate::bytebuf::buf_advance(buf, n);
    Ok(())
}

/// `digits_val` can only grow as more digits are appended.
pub(crate) proof fn lemma_digits_val_grows(s: Seq<u8>, i: int)
    requires
        0 <= i <= s.len(),
    ensures
        digits_val(s.subrange(0, i)) <= digits_val(s),
    decreases s.len() - i,
{
    if i < s.len() {
        lemma_digits_val_grows(s, i + 1);
        let t = s.subrange(0, i + 1);
        assert(t.drop_last() =~= s.subrange(0, i));
        assert(digits_val(t) == digits_val(s.subrange(0, i)) * 10 + (t.last() - 48) as nat);
        assert(digits_val(s.subrange(0, i)) <= digits_val(s.subrange(0, i)) * 10) by (nonlinear_arith);
    } else {
        assert(s.subrange(0, i) =~= s);
    }
}

/// Parse a run of decimal digits as a `usize`, rejecting empty or
/// non-digit input and values that overflow.
pub fn parse_decimal(s: &[u8]) -> (r: Option<usize>)
    ensures
        r == spec_parse_usize(s@),
{
    if s.len() == 0 {
        return None;
    }
    let mut acc: usize = 0;
    let mut i: usize = 0;
    while i < s.len()
        invariant
            0 <= i <= s.len(),
            all_digits(s@.subrange(0, i as int)),
            acc == digits_val(s@.subrange(0, i as int)),
        decreases s.len() - i,
    {
        let d = s[i];
        if d < 48 || d > 57 {
            assert(!is_digit(s@[i as int]));
            return None;
        }
        let dv: usize = (d - 48) as usize;
        if acc > (usize::MAX - dv) / 10 {
            proof {
                let t = s@.subrange(0, i as int + 1);
                assert(t.drop_last() =~= s@.subrange(0, i as int));
                assert(digits_val(t) == acc * 10 + dv);
                assert(acc * 10 + dv > usize::MAX) by (nonlinear_arith)
                    requires
                        acc > (usize::MAX - dv) / 10,
                        dv <= 9,
                ;
                lemma_digits_val_grows(s@, i as int + 1);
            }
            return None;
        }
        proof {
            assert(acc * 10 + dv <= usize::MAX) by (nonlinear_arith)
                requires
                    acc <= (usize::MAX - dv) / 10,
                    dv <= 9,
            ;
            let t = s@.subrange(0, i as int + 1);
            assert(t.drop_last() =~= s@.subrange(0, i as int));
            assert(t.last() == s@[i as int]);
        }
        acc = acc * 10 + dv;
        i = i + 1;
    }
    proof {
        assert(s@.subrange(0, s@.len() as int) =~= s@);
    }
    Some(acc)
}

/// A successful CRLF search yields a genuine CRLF position.
pub proof fn lemma_find_crlf_some(b: Seq<u8>, from: int, nth: int, j: int)
    requires
        spec_find_crlf_from(b, from, nth) == Some(j),
    ensures
        from <= j,
        j + 1 < b.len(),
        b[j] == CR,
        b[j + 1] == LF,
    decreases b.len() - from,
{
    if from < 0 || from + 1 >= b.len() {
    } else if b[from] == CR && b[from + 1] == LF {
        if nth != 1 {
            lemma_find_crlf_some(b, from + 1, nth - 1, j);
        }
    } else {
        lemma_find_crlf_some(b, from + 1, nth, j);
    }
}

/// The first CRLF search finds exactly the first CRLF position.
pub proof fn lemma_find_crlf_hit(b: Seq<u8>, from: int, j: int)
    requires
        0 <= from <= j,
        j + 1 < b.len(),
        b[j] == CR,
        b[j + 1] == LF,
        forall|i: int| from <= i < j ==> !(#[trigger] b[i] == CR && b[i + 1] == LF),
    ensures
        spec_find_crlf_from(b, from, 1) == Some(j),
    decreases j - from,
{
    if from < j {
        lemma_find_crlf_hit(b, from + 1, j);
    }
}

/// When no CRLF pair occurs at or after `from`, the search misses.
pub proof fn lemma_find_crlf_miss(b: Seq<u8>, from: int, nth: int)
    requires
        forall|i: int| from <= i && i + 1 < b.len() ==> !(#[trigger] b[i] == CR && b[i + 1] == LF),
    ensures
        spec_find_crlf_from(b, from, nth) is None,
    decreases b.len() - from,
{
    if from >= 0 && from + 1 < b.len() {
        lemma_find_crlf_miss(b, from + 1, nth);
    }
}

/// Parse a run of decimal digits as an unsigned 64-bit magnitude no
/// greater than `limit`.
pub(crate) fn parse_magnitude(s: &[u8], limit: u64) -> (r: Option<u64>)
    requires
        limit >= 9,
    ensures
        match r {
            Some(v) => s@.len() > 0 && all_digits(s@) && digits_val(s@) == v && v <= limit,
            None => !(s@.len() > 0 && all_digits(s@) && digits_val(s@) <= limit),
        },
{
    if s.len() == 0 {
        return None;
    }
    let mut acc: u64 = 0;
    let mut i: usize = 0;
    while i < s.len()
        invariant
            0 <= i <= s.len(),
            all_digits(s@.subrange(0, i as int)),
            acc == digits_val(s@.subrange(0, i as int)),
            acc <= limit,
            limit >= 9,
        decreases s.len() - i,
    {
        let d = s[i];
        if d < 48 || d > 57 {
            assert(!is_digit(s@[i as int]));
            return None;
        }
        let dv: u64 = (d - 48) as u64;
        if acc > (limit - dv) / 10 {
            proof {
                let t = s@.subrange(0, i as int + 1);
                assert(t.drop_last() =~= s@.subrange(0, i as int));
                assert(acc * 10 + dv > limit) by (nonlinear_arith)
                    requires
                        acc > (limit - dv) / 10,
                        dv <= 9,
                        dv <= limit,
                ;
                lemma_digits_val_grows(s@, i as int + 1);
            }
            return None;
        }
        proof {
            assert(acc * 10 + dv <= limit) by (nonlinear_arith)
                requires
                    acc <= (limit - dv) / 10,
                    dv <= 9,
                    dv <= limit,
            ;
            let t = s@.subrange(0, i as int + 1);
            assert(t.drop_last() =~= s@.subrange(0, i as int));
            assert(t.last() == s@[i as int]);
        }
        acc = acc * 10 + dv;
        i = i + 1;
    }
    proof {
        assert(s@.subrange(0, s@.len() as int) =~= s@);
    }
    Some(acc)
}

/// Parse a length header such as `$5\r\n`: scan to the CRLF, then read
/// the digits between the prefix and the CR.
pub fn parse_length(buf: &[u8], prefix: u8) -> (r: Result<(usize, usize), RespError>)
    ensures
        res_pair_matches(r, spec_parse_length(buf@, prefix)),
{
    let end = match extract_simple_frame_data(buf, prefix) {
        Ok(end) => end,
        Err(e) => {
            return Err(e);
        },
    };
    proof {
        match spec_find_crlf_from(buf@, 1, 1) {
            Some(j) => lemma_find_crlf_some(buf@, 1, 1, j),
            None => (),
        }
    }
    let digits = vstd::slice::slice_subrange(buf, 1, end);
    match parse_decimal(digits) {
        Some(n) => Ok((end, n)),
        None => Err(RespError::InvalidFrameLength),
    }
}

/// Total byte length of a frame given its parsed length header: for
/// arrays and sets the header plus the predicted lengths of `len`
/// children; for maps the header plus `len` key/value pairs; for
/// payload-carrying frames the header plus `len` payload bytes and the
/// trailing CRLF.
pub fn calc_total_length(buf: &[u8], end: usize, len: usize, prefix: u8) -> (r: Result<
    usize,
    RespError,
>)
    requires
        end + 2 <= buf@.len(),
    ensures
        (prefix == crate::resp::model::PREFIX_ARRAY || prefix == crate::resp::model::PREFIX_SET)
            ==> res_len_matches(
            r,
            match crate::resp::model::spec_children_total(buf@.skip(end + 2), len as int) {
                Ok(ct) => Ok(end + 2 + ct),
                Err(e) => Err(e),
            },
        ),
        prefix == crate::resp::model::PREFIX_MAP ==> res_len_matches(
            r,
            match crate::resp::model::spec_pairs_total(buf@.skip(end + 2), len as int) {
                Ok(ct) => Ok(end + 2 + ct),
                Err(e) => Err(e),
            },
        ),
        !(prefix == crate::resp::model::PREFIX_ARRAY || prefix == crate::resp::model::PREFIX_SET
            || prefix == crate::resp::model::PREFIX_MAP) ==> res_len_matches(
            r,
            if end + 2 + len + 2 <= usize::MAX {
                Ok::<int, RespError>(end + 2 + len + 2)
            } else {
                Err::<int, RespError>(RespError::InvalidFrameLength)
            },
        ),
    decreases buf@.len(), 2int,
{
    let blen = buf.len();
    if prefix == crate::resp::model::PREFIX_ARRAY || prefix == crate::resp::model::PREFIX_SET {
        let ghost d0 = buf@.skip(end + 2);
        proof {
            assert(d0.skip(0) =~= d0);
        }
        let mut total: usize = 0;
        let mut j: usize = 0;
        while j < len
            invariant
                prefix == crate::resp::model::PREFIX_ARRAY || prefix
                    == crate::resp::model::PREFIX_SET,
                end + 2 <= buf@.len(),
                buf@.len() == blen,
                total <= blen - (end + 2),
                j <= len,
                d0 == buf@.skip(end + 2),
                crate::resp::model::spec_children_total(d0, len as int) == (
                match crate::resp::model::spec_children_total(d0.skip(total as int), len - j) {
                    Ok(ct) => Ok::<int, RespError>(total + ct),
                    Err(e) => Err::<int, RespError>(e),
                }),
            decreases len - j,
        {
            let suffix = vstd::slice::slice_subrange(buf, end + 2 + total, blen);
            proof {
                assert(suffix@ =~= d0.skip(total as int));
            }
            let l = match crate::resp::frame::RespFrame::expect_length(suffix) {
                Ok(l) => l,
                Err(e) => {
                    return Err(e);
                },
            };
            if l > suffix.len() {
                return Err(RespError::NotCompleteFrame);
            }
            proof {
                assert(d0.skip(total as int).skip(l as int) =~= d0.skip(total + l));
            }
            total = total + l;
            j = j + 1;
        }
        Ok(end + 2 + total)
    } else if prefix == crate::resp::model::PREFIX_MAP {
        let ghost d0 = buf@.skip(end + 2);
        proof {
            assert(d0.skip(0) =~= d0);
        }
        let mut total: usize = 0;
        let mut j: usize = 0;
        while j < len
            invariant
                prefix == crate::resp::model::PREFIX_MAP,
                end + 2 <= buf@.len(),
                buf@.len() == blen,
                total <= blen - (end + 2),
                j <= len,
                d0 == buf@.skip(end + 2),
                crate::resp::model::spec_pairs_total(d0, len as int) == (
                match crate::resp::model::spec_pairs_total(d0.skip(total as int), len - j) {
                    Ok(ct) => Ok::<int, RespError>(total + ct),
                    Err(e) => Err::<int, RespError>(e),
                }),
            decreases len - j,
        {
            let suffix = vstd::slice::slice_subrange(buf, end + 2 + total, blen);
            proof {
                assert(suffix@ =~= d0.skip(total as int));
            }
            let kend = match extract_simple_frame_data(suffix, crate::resp::model::PREFIX_SIMPLE) {
                Ok(kend) => kend,
                Err(e) => {
                    return Err(e);
                },
            };
            proof {
                assert(spec_simple_end(suffix@, crate::resp::model::PREFIX_SIMPLE)
                    == Ok::<int, RespError>(kend as int));
            }
            let vsuffix = vstd::slice::slice_subrange(
                buf,
                end + 2 + total + kend + 2,
                blen,
            );
            proof {
                assert(vsuffix@ =~= d0.skip(total as int).skip(kend + 2));
            }
            let vl = match crate::resp::frame::RespFrame::expect_length(vsuffix) {
                Ok(vl) => vl,
                Err(e) => {
                    return Err(e);
                },
            };
            if vl > vsuffix.len() {
                return Err(RespError::NotCompleteFrame);
            }
            proof {
                assert(d0.skip(total as int).skip(kend + 2 + vl) =~= d0.skip(
                    total + kend + 2 + vl,
                ));
            }
            total = total + kend + 2 + vl;
            j = j + 1;
        }
        Ok(end + 2 + total)
    } else {
        let t1 = match (end + 2).checked_add(len) {
            Some(t) => t,
            None => {
                return Err(RespError::InvalidFrameLength);
            },
        };
        match t1.checked_add(2) {
            Some(t) => Ok(t),
            None => Err(RespError::InvalidFrameLength),
        }
    }
}

} // verus!
